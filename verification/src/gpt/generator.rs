//! The generator: a source of numbered requests.
use crate::modeling::atomic::{counted, Atomic};
use crate::modeling::component::Component;
use crate::modeling::coupled::AtomicSimulator;
use crate::modeling::model::{lemma_emitting, Layout, Model, ModelView};
use crate::modeling::{InPort, Kind, OutPort, PortView, Value};
use crate::time::{remaining, time_left, INFINITY};
use vstd::prelude::*;

verus! {

/// Emits the number of requests made so far, first at once and then once per
/// period, until anything arrives on its stop input.
pub struct Generator {
    pub sigma: u64,
    pub period: u64,
    pub count: usize,
    pub input_stop: InPort<Value>,
    pub output_req: OutPort<Value>,
}

impl Generator {
    /// The ports of a generator: the input `input_stop` for truth values and
    /// the output `output_req` for counters.
    pub open spec fn ports(name: Seq<char>) -> ModelView<Value> {
        ModelView {
            name,
            inputs: seq![PortView { name: "input_stop"@, kind: Kind::Bool, values: Seq::empty() }],
            outputs: seq![PortView { name: "output_req"@, kind: Kind::Count, values: Seq::empty() }],
        }
    }

    /// The state of a new generator: due at once, with nothing requested yet.
    pub open spec fn initial(period: u64) -> Generator {
        Generator {
            sigma: 0,
            period,
            count: 0,
            input_stop: InPort { index: 0, kind: Kind::Bool },
            output_req: OutPort { index: 0, kind: Kind::Count },
        }
    }

    /// Creates a generator that is due at once and then every `period` ticks.
    pub fn new(name: &str, period: u64) -> (g: AtomicSimulator<Generator>)
        ensures
            g@.wf(),
            g@.component.model == Generator::ports(name@),
            g@.component.t_last == 0,
            g@.component.t_next == INFINITY,
            g.model == Generator::initial(period),
    {
        let mut component = Component::new(name);
        let input_stop = component.add_in_port("input_stop", Kind::Bool);
        let output_req = component.add_out_port("output_req", Kind::Count);
        let model = Generator { sigma: 0, period, count: 0, input_stop, output_req };
        assert(component@.model.inputs =~= Generator::ports(name@).inputs);
        assert(component@.model.outputs =~= Generator::ports(name@).outputs);
        AtomicSimulator::new(component, model)
    }
}

impl Atomic for Generator {
    type Message = Value;

    open spec fn wf(&self, layout: Layout<Value>) -> bool {
        &&& self.input_stop.placed(layout)
        &&& self.output_req.placed(layout)
        &&& self.input_stop.kind == Kind::Bool
        &&& self.output_req.kind == Kind::Count
    }

    open spec fn ta_spec(&self) -> u64 {
        self.sigma
    }

    open spec fn output(&self, ports: ModelView<Value>) -> ModelView<Value> {
        ports.emitting(self.output_req.index as int, seq![Value::Count(self.count)])
    }

    open spec fn after_int(self) -> Self {
        Generator { count: counted(self.count), sigma: self.period, ..self }
    }

    open spec fn after_ext(self, e: u64, ports: ModelView<Value>) -> Self {
        if ports.inputs[self.input_stop.index as int].values.len() > 0 {
            Generator { sigma: INFINITY, ..self }
        } else {
            Generator { sigma: time_left(self.sigma, e), ..self }
        }
    }

    open spec fn after_conf(self, ports: ModelView<Value>) -> Self {
        self.after_int().after_ext(0, ports)
    }

    open spec fn after_start(self) -> Self {
        self
    }

    open spec fn after_stop(self) -> Self {
        self
    }

    fn start(&mut self) {
    }

    fn stop(&mut self) {
    }

    fn lambda(&self, ports: &mut Model<Value>) {
        proof {
            lemma_emitting(
                ports@,
                self.output_req.index as int,
                seq![Value::Count(self.count)],
            );
        }
        self.output_req.add_value(ports, Value::Count(self.count));
    }

    fn delta_int(&mut self) {
        if self.count < usize::MAX {
            self.count = self.count + 1;
        }
        self.sigma = self.period;
    }

    fn delta_ext(&mut self, e: u64, ports: &Model<Value>) {
        self.sigma = remaining(self.sigma, e);
        if !self.input_stop.is_empty(ports) {
            self.sigma = INFINITY;
        }
    }

    fn delta_conf(&mut self, ports: &Model<Value>) {
        self.delta_int();
        self.delta_ext(0, ports);
    }

    fn ta(&self) -> (sigma: u64) {
        self.sigma
    }
}

} // verus!
