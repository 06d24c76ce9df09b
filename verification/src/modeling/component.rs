//! Components: a port registry together with the two scheduling timestamps.
use super::model::{find_port, lemma_find_port, lemma_receiving, Model, ModelView};
use super::port::{InPort, OutPort, PortVal, PortView};
use crate::event::Event;
use crate::time::INFINITY;
use vstd::prelude::*;

verus! {

/// Why an event cannot be injected into a component.
#[derive(Debug, Clone, Copy, PartialEq, Eq, Structural)]
pub enum Error {
    /// The component has no input port of that name.
    UnknownPort,
    /// The text is no value of the port's element type.
    ValueParseError,
}

/// The events that the first `k` values of a port give: the port's name with
/// the text of each value.
pub open spec fn port_events<M: PortVal>(port: PortView<M>, k: int) -> Seq<(Seq<char>, Seq<char>)>
    decreases k,
{
    if k <= 0 {
        Seq::empty()
    } else {
        port_events(port, k - 1).push((port.name, port.values[k - 1].text()))
    }
}

/// The events that the first `k` ports of a list give, port after port.
pub open spec fn ejected<M: PortVal>(ports: Seq<PortView<M>>, k: int) -> Seq<(Seq<char>, Seq<char>)>
    decreases k,
{
    if k <= 0 {
        Seq::empty()
    } else {
        ejected(ports, k - 1) + port_events(ports[k - 1], ports[k - 1].values.len() as int)
    }
}

/// The port names and value texts of a list of events.
pub open spec fn event_texts(events: Seq<Event>) -> Seq<(Seq<char>, Seq<char>)> {
    Seq::new(events.len(), |i: int| (events[i].port_name(), events[i].value_text()))
}

/// What injecting an event does to a port registry, or why it cannot be done.
pub open spec fn injected<M: PortVal>(model: ModelView<M>, port: Seq<char>, text: Seq<char>) -> Result<
    ModelView<M>,
    Error,
> {
    match find_port(model.inputs, port) {
        None => Err(Error::UnknownPort),
        Some(p) => match M::parsed(model.inputs[p].kind, text) {
            None => Err(Error::ValueParseError),
            Some(value) => Ok(model.receiving(p, seq![value])),
        },
    }
}

/// What a component is: its ports, the time of its last transition and the time of its next one.
pub struct ComponentView<M: PortVal> {
    pub model: ModelView<M>,
    pub t_last: u64,
    pub t_next: u64,
}

impl<M: PortVal> ComponentView<M> {
    /// The component with both timestamps replaced.
    pub open spec fn at(self, t_last: u64, t_next: u64) -> ComponentView<M> {
        ComponentView { t_last, t_next, ..self }
    }

    /// The component with its port registry replaced.
    pub open spec fn with_model(self, model: ModelView<M>) -> ComponentView<M> {
        ComponentView { model, ..self }
    }
}

/// DEVS component: identity, ports and scheduling timestamps of a model.
pub struct Component<M: PortVal> {
    model: Model<M>,
    t_last: u64,
    t_next: u64,
}

impl<M: PortVal> View for Component<M> {
    type V = ComponentView<M>;

    closed spec fn view(&self) -> ComponentView<M> {
        ComponentView { model: self.model@, t_last: self.t_last, t_next: self.t_next }
    }
}

impl<M: PortVal> Component<M> {
    /// Creates a component without ports. Its last transition is at time zero
    /// and no next transition is scheduled.
    pub fn new(name: &str) -> (c: Component<M>)
        ensures
            c@.model == (ModelView::<M> { name: name@, inputs: Seq::empty(), outputs: Seq::empty() }),
            c@.model.wf(),
            c@.t_last == 0,
            c@.t_next == INFINITY,
    {
        Component { model: Model::new(name), t_last: 0, t_next: INFINITY }
    }

    /// Returns the name of the component.
    pub fn get_name(&self) -> (name: &str)
        ensures
            name@ == self@.model.name,
    {
        self.model.get_name()
    }

    /// Returns `true` if the component is called `name`.
    pub fn is_named(&self, name: &str) -> (b: bool)
        ensures
            b == (self@.model.name == name@),
    {
        self.model.is_named(name)
    }

    /// Returns the time of the last state transition.
    pub fn get_t_last(&self) -> (t: u64)
        ensures
            t == self@.t_last,
    {
        self.t_last
    }

    /// Returns the time of the next state transition.
    pub fn get_t_next(&self) -> (t: u64)
        ensures
            t == self@.t_next,
    {
        self.t_next
    }

    /// Sets the times of the last and of the next state transition.
    pub fn set_sim_t(&mut self, t_last: u64, t_next: u64)
        ensures
            final(self)@ == old(self)@.at(t_last, t_next),
    {
        self.t_last = t_last;
        self.t_next = t_next;
    }

    /// Returns the port registry.
    pub fn get_model(&self) -> (m: &Model<M>)
        ensures
            m@ == self@.model,
    {
        &self.model
    }

    /// Returns the port registry for writing.
    pub fn get_model_mut(&mut self) -> (m: &mut Model<M>)
        ensures
            m@ == old(self)@.model,
            final(self)@ == old(self)@.with_model(final(m)@),
    {
        &mut self.model
    }

    /// Adds an input port and returns its handle.
    pub fn add_in_port(&mut self, name: &str, kind: M::Kind) -> (p: InPort<M>)
        requires
            old(self)@.model.wf(),
            find_port(old(self)@.model.inputs, name@).is_none(),
        ensures
            final(self)@.model.wf(),
            final(self)@ == old(self)@.with_model(
                ModelView {
                    inputs: old(self)@.model.inputs.push(
                        PortView { name: name@, kind, values: Seq::empty() },
                    ),
                    ..old(self)@.model
                },
            ),
            p.index == old(self)@.model.inputs.len(),
            p.kind == kind,
    {
        self.model.add_in_port(name, kind)
    }

    /// Adds an output port and returns its handle.
    pub fn add_out_port(&mut self, name: &str, kind: M::Kind) -> (p: OutPort<M>)
        requires
            old(self)@.model.wf(),
            find_port(old(self)@.model.outputs, name@).is_none(),
        ensures
            final(self)@.model.wf(),
            final(self)@ == old(self)@.with_model(
                ModelView {
                    outputs: old(self)@.model.outputs.push(
                        PortView { name: name@, kind, values: Seq::empty() },
                    ),
                    ..old(self)@.model
                },
            ),
            p.index == old(self)@.model.outputs.len(),
            p.kind == kind,
    {
        self.model.add_out_port(name, kind)
    }

    /// Returns the handle of the input port called `name`, if there is one.
    pub fn get_in_port(&self, name: &str) -> (r: Option<InPort<M>>)
        ensures
            match r {
                Some(p) => find_port(self@.model.inputs, name@) == Some(p.index as int) && p.kind
                    == self@.model.inputs[p.index as int].kind,
                None => find_port(self@.model.inputs, name@).is_none(),
            },
    {
        self.model.try_get_in_port(name)
    }

    /// Returns the handle of the output port called `name`, if there is one.
    pub fn get_out_port(&self, name: &str) -> (r: Option<OutPort<M>>)
        ensures
            match r {
                Some(p) => find_port(self@.model.outputs, name@) == Some(p.index as int) && p.kind
                    == self@.model.outputs[p.index as int].kind,
                None => find_port(self@.model.outputs, name@).is_none(),
            },
    {
        self.model.try_get_out_port(name)
    }

    /// Returns `true` if every input bag is empty.
    pub fn is_input_empty(&self) -> (b: bool)
        ensures
            b == self@.model.input_empty(),
    {
        self.model.is_input_empty()
    }

    /// Returns `true` if every output bag is empty.
    pub fn is_output_empty(&self) -> (b: bool)
        ensures
            b == self@.model.output_empty(),
    {
        self.model.is_output_empty()
    }

    /// Empties every input bag.
    pub fn clear_input(&mut self)
        ensures
            final(self)@ == old(self)@.with_model(old(self)@.model.cleared_input()),
    {
        self.model.clear_in_ports();
    }

    /// Empties every output bag.
    pub fn clear_output(&mut self)
        ensures
            final(self)@ == old(self)@.with_model(old(self)@.model.cleared_output()),
    {
        self.model.clear_out_ports();
    }

    /// Injects an event: the text of its value is read as a value of the
    /// element type of the input port that the event names, and appended to
    /// the bag of that port.
    pub fn inject(&mut self, event: &Event) -> (r: Result<(), Error>)
        requires
            old(self)@.model.wf(),
        ensures
            final(self)@.model.wf(),
            old(self)@.model.same_shape(final(self)@.model),
            match injected(old(self)@.model, event.port_name(), event.value_text()) {
                Ok(model) => r is Ok && final(self)@ == old(self)@.with_model(model),
                Err(e) => r == Err::<(), Error>(e) && final(self)@ == old(self)@,
            },
    {
        proof {
            lemma_find_port(self@.model.inputs, event.port_name());
        }
        let port = match self.model.try_get_in_port(event.port()) {
            Some(port) => port,
            None => {
                return Err(Error::UnknownPort);
            },
        };
        let value = match M::parse(port.kind, event.value()) {
            Some(value) => value,
            None => {
                return Err(Error::ValueParseError);
            },
        };
        let mut values: Vec<M> = Vec::new();
        values.push(value);
        assert(values@ =~= seq![value]);
        proof {
            lemma_receiving(self@.model.inputs, port.index as int, values@);
        }
        self.model.receive(port.index, &values);
        Ok(())
    }

    /// Ejects the messages in the output bags as events, port after port and
    /// each bag in its order.
    pub fn eject(&self) -> (events: Vec<Event>)
        ensures
            event_texts(events@) == ejected(self@.model.outputs, self@.model.outputs.len() as int),
    {
        let mut events: Vec<Event> = Vec::new();
        let n = self.model.n_out_ports();
        let mut p: usize = 0;
        assert(event_texts(events@) =~= ejected(self@.model.outputs, 0));
        while p < n
            invariant
                p <= n,
                n == self@.model.outputs.len(),
                event_texts(events@) == ejected(self@.model.outputs, p as int),
            decreases n - p,
        {
            let port = self.model.out_port(p);
            let values = port.get_values();
            let m = values.len();
            let mut k: usize = 0;
            let ghost before = event_texts(events@);
            assert(before + port_events(port@, 0) =~= before);
            while k < m
                invariant
                    k <= m,
                    m == values@.len(),
                    values@ == port@.values,
                    port@ == self@.model.outputs[p as int],
                    event_texts(events@) == before + port_events(port@, k as int),
                decreases m - k,
            {
                let ghost sofar = event_texts(events@);
                let text = values[k].to_text();
                events.push(Event::new(port.get_name(), text.as_str()));
                assert(event_texts(events@) =~= sofar.push((port@.name, port@.values[k as int].text())));
                assert(before + port_events(port@, k + 1) =~= (before + port_events(
                    port@,
                    k as int,
                )).push((port@.name, port@.values[k as int].text())));
                k = k + 1;
            }
            p = p + 1;
        }
        events
    }
}

} // verus!
