//! The port registry of a component: its name, its input ports and its output ports.
use super::port::{all_of_kind, InPort, OutPort, Port, PortVal, PortView};
use vstd::prelude::*;

verus! {

/// Index of the first port of `ports` that is called `name`, if there is one.
pub open spec fn find_port<M: PortVal>(ports: Seq<PortView<M>>, name: Seq<char>) -> Option<int>
    decreases ports.len(),
{
    if ports.len() == 0 {
        None
    } else {
        match find_port(ports.drop_last(), name) {
            Some(i) => Some(i),
            None => if ports.last().name == name {
                Some(ports.len() - 1)
            } else {
                None
            },
        }
    }
}

/// No two ports of `ports` have the same name.
pub open spec fn distinct_names<M: PortVal>(ports: Seq<PortView<M>>) -> bool {
    forall|i: int, j: int|
        0 <= i < ports.len() && 0 <= j < ports.len() && i != j ==> ports[i].name != ports[j].name
}

/// Every port of `ports` holds only messages of its element type.
pub open spec fn all_ports_wf<M: PortVal>(ports: Seq<PortView<M>>) -> bool {
    forall|i: int| 0 <= i < ports.len() ==> (#[trigger] ports[i]).wf()
}

/// Every bag of `ports` is empty.
pub open spec fn all_empty<M: PortVal>(ports: Seq<PortView<M>>) -> bool {
    forall|i: int| 0 <= i < ports.len() ==> (#[trigger] ports[i]).values.len() == 0
}

/// The same ports with empty bags.
pub open spec fn all_cleared<M: PortVal>(ports: Seq<PortView<M>>) -> Seq<PortView<M>> {
    Seq::new(ports.len(), |i: int| ports[i].cleared())
}

/// Two port lists agree on how many ports there are and on each port's name and element type.
pub open spec fn same_layout<M: PortVal>(a: Seq<PortView<M>>, b: Seq<PortView<M>>) -> bool {
    &&& a.len() == b.len()
    &&& forall|i: int|
        0 <= i < a.len() ==> (#[trigger] a[i]).name == b[i].name && a[i].kind == b[i].kind
}

/// `after` has the layout of `before`, and each bag of `after` starts with the bag of `before`.
pub open spec fn bags_extended<M: PortVal>(before: Seq<PortView<M>>, after: Seq<PortView<M>>) -> bool {
    &&& same_layout(before, after)
    &&& forall|i: int|
        0 <= i < before.len() ==> (#[trigger] before[i]).values.is_prefix_of(after[i].values)
}

/// `find_port` returns the first index at which the name occurs, and `None` only if it occurs
/// nowhere.
pub proof fn lemma_find_port<M: PortVal>(ports: Seq<PortView<M>>, name: Seq<char>)
    ensures
        match find_port(ports, name) {
            Some(i) => 0 <= i < ports.len() && ports[i].name == name && forall|j: int|
                0 <= j < i ==> (#[trigger] ports[j]).name != name,
            None => forall|j: int| 0 <= j < ports.len() ==> (#[trigger] ports[j]).name != name,
        },
    decreases ports.len(),
{
    if ports.len() > 0 {
        lemma_find_port(ports.drop_last(), name);
        assert(forall|j: int| 0 <= j < ports.len() - 1 ==> ports.drop_last()[j] == ports[j]);
    }
}

/// A port that is called `name`, with no port of that name before it, is the one that
/// `find_port` returns.
pub proof fn lemma_find_port_at<M: PortVal>(ports: Seq<PortView<M>>, name: Seq<char>, i: int)
    requires
        0 <= i < ports.len(),
        ports[i].name == name,
        forall|j: int| 0 <= j < i ==> (#[trigger] ports[j]).name != name,
    ensures
        find_port(ports, name) == Some(i),
{
    lemma_find_port(ports, name);
}

/// Clearing bags keeps names and element types, and leaves well-typed empty bags.
pub proof fn lemma_all_cleared<M: PortVal>(ports: Seq<PortView<M>>)
    ensures
        same_layout(ports, all_cleared(ports)),
        all_ports_wf(all_cleared(ports)),
        all_empty(all_cleared(ports)),
        distinct_names(ports) ==> distinct_names(all_cleared(ports)),
{
}

/// Appending well-typed messages to one bag keeps names and element types and
/// leaves every bag well typed.
pub proof fn lemma_receiving<M: PortVal>(ports: Seq<PortView<M>>, port: int, more: Seq<M>)
    requires
        0 <= port < ports.len(),
        all_of_kind(more, ports[port].kind),
        all_ports_wf(ports),
    ensures
        same_layout(ports, ports.update(port, ports[port].receiving(more))),
        all_ports_wf(ports.update(port, ports[port].receiving(more))),
        distinct_names(ports) ==> distinct_names(ports.update(port, ports[port].receiving(more))),
{
    let after = ports.update(port, ports[port].receiving(more));
    assert forall|i: int| 0 <= i < after.len() implies (#[trigger] after[i]).wf() by {
        if i == port {
            assert(ports[port].wf());
        } else {
            assert(ports[i].wf());
        }
    }
}

/// Appending well-typed messages to one output bag keeps a registry well
/// formed and changes nothing but that bag.
pub proof fn lemma_emitting<M: PortVal>(model: ModelView<M>, port: int, more: Seq<M>)
    requires
        model.wf(),
        0 <= port < model.outputs.len(),
        all_of_kind(more, model.outputs[port].kind),
    ensures
        model.emitting(port, more).wf(),
        model.only_emitted(model.emitting(port, more)),
        model.same_shape(model.emitting(port, more)),
{
    lemma_receiving(model.outputs, port, more);
    let after = model.emitting(port, more).outputs;
    assert forall|i: int| 0 <= i < model.outputs.len() implies (
    #[trigger] model.outputs[i]).values.is_prefix_of(after[i].values) by {
        if i == port {
            assert(model.outputs[i].values =~= (model.outputs[i].values + more).subrange(
                0,
                model.outputs[i].values.len() as int,
            ));
        }
    }
}

/// Emitting nothing changes nothing.
pub proof fn lemma_nothing_emitted<M: PortVal>(model: ModelView<M>)
    ensures
        model.only_emitted(model),
{
    assert forall|i: int| 0 <= i < model.outputs.len() implies (
    #[trigger] model.outputs[i]).values.is_prefix_of(model.outputs[i].values) by {
        assert(model.outputs[i].values =~= model.outputs[i].values.subrange(
            0,
            model.outputs[i].values.len() as int,
        ));
    }
}

/// The element types of a list of ports, in the order of the ports.
pub open spec fn kinds<M: PortVal>(ports: Seq<PortView<M>>) -> Seq<M::Kind> {
    Seq::new(ports.len(), |i: int| ports[i].kind)
}

/// The element types of the ports of a component: what a model has to know
/// of the component it lives in.
pub struct Layout<M: PortVal> {
    pub inputs: Seq<M::Kind>,
    pub outputs: Seq<M::Kind>,
}

/// Registries of the same shape have the same layout.
pub proof fn lemma_same_shape_layout<M: PortVal>(a: ModelView<M>, b: ModelView<M>)
    requires
        a.same_shape(b),
    ensures
        a.layout() == b.layout(),
{
    assert(kinds(a.inputs) =~= kinds(b.inputs));
    assert(kinds(a.outputs) =~= kinds(b.outputs));
}

/// What a port registry is: the component's name and its ports, each list in the order of creation.
pub struct ModelView<M: PortVal> {
    pub name: Seq<char>,
    pub inputs: Seq<PortView<M>>,
    pub outputs: Seq<PortView<M>>,
}

impl<M: PortVal> ModelView<M> {
    /// Port names are unique within each direction and every bag is well typed.
    pub open spec fn wf(self) -> bool {
        &&& distinct_names(self.inputs)
        &&& distinct_names(self.outputs)
        &&& all_ports_wf(self.inputs)
        &&& all_ports_wf(self.outputs)
    }

    /// The element types of the ports.
    pub open spec fn layout(self) -> Layout<M> {
        Layout { inputs: kinds(self.inputs), outputs: kinds(self.outputs) }
    }

    /// No input port holds a message.
    pub open spec fn input_empty(self) -> bool {
        all_empty(self.inputs)
    }

    /// No output port holds a message.
    pub open spec fn output_empty(self) -> bool {
        all_empty(self.outputs)
    }

    /// The registry after all input bags were emptied.
    pub open spec fn cleared_input(self) -> ModelView<M> {
        ModelView { inputs: all_cleared(self.inputs), ..self }
    }

    /// The registry after all output bags were emptied.
    pub open spec fn cleared_output(self) -> ModelView<M> {
        ModelView { outputs: all_cleared(self.outputs), ..self }
    }

    /// The registry after `more` was appended to the bag of input port `port`.
    pub open spec fn receiving(self, port: int, more: Seq<M>) -> ModelView<M> {
        ModelView { inputs: self.inputs.update(port, self.inputs[port].receiving(more)), ..self }
    }

    /// The registry after `more` was appended to the bag of output port `port`.
    pub open spec fn emitting(self, port: int, more: Seq<M>) -> ModelView<M> {
        ModelView {
            outputs: self.outputs.update(port, self.outputs[port].receiving(more)),
            ..self
        }
    }

    /// Both registries have the same name and the same ports; only bags may differ.
    pub open spec fn same_shape(self, other: ModelView<M>) -> bool {
        &&& self.name == other.name
        &&& same_layout(self.inputs, other.inputs)
        &&& same_layout(self.outputs, other.outputs)
    }

    /// `after` is this registry with messages appended to output bags and nothing else changed.
    pub open spec fn only_emitted(self, after: ModelView<M>) -> bool {
        &&& self.name == after.name
        &&& self.inputs == after.inputs
        &&& bags_extended(self.outputs, after.outputs)
    }
}

/// The views of a list of ports.
pub open spec fn port_views<M: PortVal>(ports: Seq<Port<M>>) -> Seq<PortView<M>> {
    Seq::new(ports.len(), |i: int| ports[i]@)
}

/// Port registry of a component.
pub struct Model<M: PortVal> {
    name: String,
    in_ports: Vec<Port<M>>,
    out_ports: Vec<Port<M>>,
}

impl<M: PortVal> View for Model<M> {
    type V = ModelView<M>;

    closed spec fn view(&self) -> ModelView<M> {
        ModelView {
            name: self.name@,
            inputs: port_views(self.in_ports@),
            outputs: port_views(self.out_ports@),
        }
    }
}

/// Looks a port up by name.
fn lookup<M: PortVal>(ports: &Vec<Port<M>>, name: &str) -> (r: Option<usize>)
    ensures
        match r {
            Some(i) => find_port(port_views(ports@), name@) == Some(i as int),
            None => find_port(port_views(ports@), name@).is_none(),
        },
{
    let n = ports.len();
    let mut i: usize = 0;
    while i < n
        invariant
            i <= n,
            n == ports@.len(),
            forall|j: int| 0 <= j < i ==> (#[trigger] port_views(ports@)[j]).name != name@,
        decreases n - i,
    {
        if ports[i].has_name(name) {
            proof {
                lemma_find_port(port_views(ports@), name@);
                assert(port_views(ports@)[i as int].name == name@);
            }
            return Some(i);
        }
        i = i + 1;
    }
    proof {
        lemma_find_port(port_views(ports@), name@);
    }
    None
}

/// Empties every bag of `ports`.
fn clear_all<M: PortVal>(ports: &mut Vec<Port<M>>)
    ensures
        port_views(final(ports)@) == all_cleared(port_views(old(ports)@)),
{
    let n = ports.len();
    let mut i: usize = 0;
    while i < n
        invariant
            i <= n,
            n == ports@.len(),
            n == old(ports)@.len(),
            forall|j: int| 0 <= j < i ==> (#[trigger] ports@[j])@ == old(ports)@[j]@.cleared(),
            forall|j: int| i <= j < n ==> ports@[j] == old(ports)@[j],
        decreases n - i,
    {
        ports[i].clear();
        i = i + 1;
    }
    assert(port_views(ports@) =~= all_cleared(port_views(old(ports)@)));
}

/// Tells whether every bag of `ports` is empty.
fn none_holds<M: PortVal>(ports: &Vec<Port<M>>) -> (b: bool)
    ensures
        b == all_empty(port_views(ports@)),
{
    let n = ports.len();
    let mut i: usize = 0;
    while i < n
        invariant
            i <= n,
            n == ports@.len(),
            forall|j: int| 0 <= j < i ==> (#[trigger] port_views(ports@)[j]).values.len() == 0,
        decreases n - i,
    {
        if !ports[i].is_empty() {
            assert(port_views(ports@)[i as int].values.len() != 0);
            return false;
        }
        i = i + 1;
    }
    true
}

impl<M: PortVal> Model<M> {
    /// Creates a registry without ports.
    pub fn new(name: &str) -> (m: Model<M>)
        ensures
            m@ == (ModelView::<M> { name: name@, inputs: Seq::empty(), outputs: Seq::empty() }),
            m@.wf(),
    {
        let m = Model { name: name.to_owned(), in_ports: Vec::new(), out_ports: Vec::new() };
        assert(m@.inputs =~= Seq::empty());
        assert(m@.outputs =~= Seq::empty());
        m
    }

    /// Returns the name of the component.
    pub fn get_name(&self) -> (name: &str)
        ensures
            name@ == self@.name,
    {
        self.name.as_str()
    }

    /// Returns `true` if the component is called `name`.
    pub fn is_named(&self, name: &str) -> (b: bool)
        ensures
            b == (self@.name == name@),
    {
        self.name == name.to_owned()
    }

    /// Returns the number of input ports.
    pub fn n_in_ports(&self) -> (n: usize)
        ensures
            n == self@.inputs.len(),
    {
        self.in_ports.len()
    }

    /// Returns the number of output ports.
    pub fn n_out_ports(&self) -> (n: usize)
        ensures
            n == self@.outputs.len(),
    {
        self.out_ports.len()
    }

    /// Appends a port called `name` to `ports` unless one of that name is there already,
    /// and returns the index of the new port.
    pub fn add_port(ports: &mut Vec<Port<M>>, name: &str, kind: M::Kind) -> (r: Option<usize>)
        ensures
            match r {
                Some(i) => {
                    &&& find_port(port_views(old(ports)@), name@).is_none()
                    &&& i == old(ports)@.len()
                    &&& port_views(final(ports)@) == port_views(old(ports)@).push(
                        PortView { name: name@, kind, values: Seq::empty() },
                    )
                },
                None => find_port(port_views(old(ports)@), name@).is_some() && *final(ports) == *old(
                    ports,
                ),
            },
    {
        match lookup(ports, name) {
            Some(_) => None,
            None => {
                let i = ports.len();
                ports.push(Port::new(name, kind));
                assert(port_views(ports@) =~= port_views(old(ports)@).push(
                    PortView { name: name@, kind, values: Seq::empty() },
                ));
                Some(i)
            },
        }
    }

    /// Adds an input port and returns its handle.
    pub fn add_in_port(&mut self, name: &str, kind: M::Kind) -> (p: InPort<M>)
        requires
            old(self)@.wf(),
            find_port(old(self)@.inputs, name@).is_none(),
        ensures
            final(self)@.wf(),
            final(self)@ == (ModelView {
                inputs: old(self)@.inputs.push(PortView { name: name@, kind, values: Seq::empty() }),
                ..old(self)@
            }),
            p.index == old(self)@.inputs.len(),
            p.kind == kind,
    {
        proof {
            lemma_find_port(self@.inputs, name@);
        }
        let r = Model::add_port(&mut self.in_ports, name, kind);
        InPort { index: r.unwrap(), kind }
    }

    /// Adds an output port and returns its handle.
    pub fn add_out_port(&mut self, name: &str, kind: M::Kind) -> (p: OutPort<M>)
        requires
            old(self)@.wf(),
            find_port(old(self)@.outputs, name@).is_none(),
        ensures
            final(self)@.wf(),
            final(self)@ == (ModelView {
                outputs: old(self)@.outputs.push(
                    PortView { name: name@, kind, values: Seq::empty() },
                ),
                ..old(self)@
            }),
            p.index == old(self)@.outputs.len(),
            p.kind == kind,
    {
        proof {
            lemma_find_port(self@.outputs, name@);
        }
        let r = Model::add_port(&mut self.out_ports, name, kind);
        OutPort { index: r.unwrap(), kind }
    }

    /// Returns the handle of the input port called `name`, if there is one.
    pub fn try_get_in_port(&self, name: &str) -> (r: Option<InPort<M>>)
        ensures
            match r {
                Some(p) => find_port(self@.inputs, name@) == Some(p.index as int) && p.kind
                    == self@.inputs[p.index as int].kind,
                None => find_port(self@.inputs, name@).is_none(),
            },
    {
        proof {
            lemma_find_port(self@.inputs, name@);
        }
        match lookup(&self.in_ports, name) {
            Some(i) => Some(InPort { index: i, kind: self.in_ports[i].get_kind() }),
            None => None,
        }
    }

    /// Returns the handle of the output port called `name`, if there is one.
    pub fn try_get_out_port(&self, name: &str) -> (r: Option<OutPort<M>>)
        ensures
            match r {
                Some(p) => find_port(self@.outputs, name@) == Some(p.index as int) && p.kind
                    == self@.outputs[p.index as int].kind,
                None => find_port(self@.outputs, name@).is_none(),
            },
    {
        proof {
            lemma_find_port(self@.outputs, name@);
        }
        match lookup(&self.out_ports, name) {
            Some(i) => Some(OutPort { index: i, kind: self.out_ports[i].get_kind() }),
            None => None,
        }
    }

    /// Returns the handle of the input port called `name`.
    pub fn get_in_port(&self, name: &str) -> (p: InPort<M>)
        requires
            find_port(self@.inputs, name@).is_some(),
        ensures
            find_port(self@.inputs, name@) == Some(p.index as int),
            p.kind == self@.inputs[p.index as int].kind,
    {
        self.try_get_in_port(name).unwrap()
    }

    /// Returns the handle of the output port called `name`.
    pub fn get_out_port(&self, name: &str) -> (p: OutPort<M>)
        requires
            find_port(self@.outputs, name@).is_some(),
        ensures
            find_port(self@.outputs, name@) == Some(p.index as int),
            p.kind == self@.outputs[p.index as int].kind,
    {
        self.try_get_out_port(name).unwrap()
    }

    /// Returns the input port at `index`.
    pub fn in_port(&self, index: usize) -> (p: &Port<M>)
        requires
            index < self@.inputs.len(),
        ensures
            p@ == self@.inputs[index as int],
    {
        &self.in_ports[index]
    }

    /// Returns the output port at `index`.
    pub fn out_port(&self, index: usize) -> (p: &Port<M>)
        requires
            index < self@.outputs.len(),
        ensures
            p@ == self@.outputs[index as int],
    {
        &self.out_ports[index]
    }

    /// Empties every input bag.
    pub fn clear_in_ports(&mut self)
        ensures
            final(self)@ == old(self)@.cleared_input(),
    {
        clear_all(&mut self.in_ports);
    }

    /// Empties every output bag.
    pub fn clear_out_ports(&mut self)
        ensures
            final(self)@ == old(self)@.cleared_output(),
    {
        clear_all(&mut self.out_ports);
    }

    /// Returns `true` if every input bag is empty.
    pub fn is_input_empty(&self) -> (b: bool)
        ensures
            b == self@.input_empty(),
    {
        none_holds(&self.in_ports)
    }

    /// Returns `true` if every output bag is empty.
    pub fn is_output_empty(&self) -> (b: bool)
        ensures
            b == self@.output_empty(),
    {
        none_holds(&self.out_ports)
    }

    /// Appends `values` to the bag of input port `port`.
    pub fn receive(&mut self, port: usize, values: &Vec<M>)
        requires
            port < old(self)@.inputs.len(),
            all_of_kind(values@, old(self)@.inputs[port as int].kind),
        ensures
            final(self)@ == old(self)@.receiving(port as int, values@),
    {
        self.in_ports[port].add_values(values);
        assert(self@.inputs =~= old(self)@.inputs.update(
            port as int,
            old(self)@.inputs[port as int].receiving(values@),
        ));
    }

    /// Appends `values` to the bag of output port `port`.
    pub fn emit(&mut self, port: usize, values: &Vec<M>)
        requires
            port < old(self)@.outputs.len(),
            all_of_kind(values@, old(self)@.outputs[port as int].kind),
        ensures
            final(self)@ == old(self)@.emitting(port as int, values@),
    {
        self.out_ports[port].add_values(values);
        assert(self@.outputs =~= old(self)@.outputs.update(
            port as int,
            old(self)@.outputs[port as int].receiving(values@),
        ));
    }
}

impl<M: PortVal> InPort<M> {
    /// The handle refers to an input port of the layout with the handle's element type.
    pub open spec fn placed(self, layout: Layout<M>) -> bool {
        self.index < layout.inputs.len() && layout.inputs[self.index as int] == self.kind
    }

    /// The handle refers to a port of `model` with the handle's element type.
    pub open spec fn fits(self, model: ModelView<M>) -> bool {
        self.placed(model.layout())
    }

    /// Returns `true` if the bag of the port is empty.
    pub fn is_empty(&self, model: &Model<M>) -> (b: bool)
        requires
            self.fits(model@),
        ensures
            b == (model@.inputs[self.index as int].values.len() == 0),
    {
        model.in_port(self.index).is_empty()
    }

    /// Returns the messages in the bag of the port, oldest first.
    pub fn get_values<'a>(&self, model: &'a Model<M>) -> (values: &'a Vec<M>)
        requires
            self.fits(model@),
        ensures
            values@ == model@.inputs[self.index as int].values,
    {
        model.in_port(self.index).get_values()
    }
}

impl<M: PortVal> OutPort<M> {
    /// The handle refers to an output port of the layout with the handle's element type.
    pub open spec fn placed(self, layout: Layout<M>) -> bool {
        self.index < layout.outputs.len() && layout.outputs[self.index as int] == self.kind
    }

    /// The handle refers to a port of `model` with the handle's element type.
    pub open spec fn fits(self, model: ModelView<M>) -> bool {
        self.placed(model.layout())
    }

    /// Appends one message to the bag of the port.
    pub fn add_value(&self, model: &mut Model<M>, value: M)
        requires
            self.fits(old(model)@),
            value.kind_of() == self.kind,
        ensures
            final(model)@ == old(model)@.emitting(self.index as int, seq![value]),
    {
        let mut values: Vec<M> = Vec::new();
        values.push(value);
        assert(values@ =~= seq![value]);
        model.emit(self.index, &values);
    }

    /// Appends messages to the bag of the port, keeping their order.
    pub fn add_values(&self, model: &mut Model<M>, values: &Vec<M>)
        requires
            self.fits(old(model)@),
            all_of_kind(values@, self.kind),
        ensures
            final(model)@ == old(model)@.emitting(self.index as int, values@),
    {
        model.emit(self.index, values);
    }
}

} // verus!
