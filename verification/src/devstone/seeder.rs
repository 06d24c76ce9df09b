//! The seeder: the model that sets a benchmark going.
use crate::modeling::atomic::Atomic;
use crate::modeling::component::Component;
use crate::modeling::coupled::AtomicSimulator;
use crate::modeling::model::{lemma_emitting, Layout, Model, ModelView};
use crate::modeling::{Kind, OutPort, PortView, Value};
use crate::time::INFINITY;
use vstd::prelude::*;

verus! {

/// Emits one message at the start of the simulation and then nothing more.
pub struct DEVStoneSeeder {
    pub sigma: u64,
    pub output: OutPort<Value>,
}

impl DEVStoneSeeder {
    /// The ports of the seeder: the output `output` for counters.
    pub open spec fn ports(name: Seq<char>) -> ModelView<Value> {
        ModelView {
            name,
            inputs: Seq::empty(),
            outputs: seq![PortView { name: "output"@, kind: Kind::Count, values: Seq::empty() }],
        }
    }

    /// The state of a new seeder: due at once.
    pub open spec fn initial() -> DEVStoneSeeder {
        DEVStoneSeeder { sigma: 0, output: OutPort { index: 0, kind: Kind::Count } }
    }

    /// Creates a seeder.
    pub fn new(name: &str) -> (s: AtomicSimulator<DEVStoneSeeder>)
        ensures
            s@.wf(),
            s@.component.model == DEVStoneSeeder::ports(name@),
            s@.component.t_last == 0,
            s@.component.t_next == INFINITY,
            s.model == DEVStoneSeeder::initial(),
    {
        let mut component = Component::new(name);
        let output = component.add_out_port("output", Kind::Count);
        let model = DEVStoneSeeder { sigma: 0, output };
        assert(component@.model.outputs =~= DEVStoneSeeder::ports(name@).outputs);
        AtomicSimulator::new(component, model)
    }
}

impl Atomic for DEVStoneSeeder {
    type Message = Value;

    open spec fn wf(&self, layout: Layout<Value>) -> bool {
        &&& self.output.placed(layout)
        &&& self.output.kind == Kind::Count
    }

    open spec fn ta_spec(&self) -> u64 {
        self.sigma
    }

    open spec fn output(&self, ports: ModelView<Value>) -> ModelView<Value> {
        ports.emitting(self.output.index as int, seq![Value::Count(0)])
    }

    open spec fn after_int(self) -> Self {
        DEVStoneSeeder { sigma: INFINITY, ..self }
    }

    open spec fn after_ext(self, e: u64, ports: ModelView<Value>) -> Self {
        DEVStoneSeeder { sigma: INFINITY, ..self }
    }

    open spec fn after_conf(self, ports: ModelView<Value>) -> Self {
        self.after_int().after_ext(0, ports)
    }

    open spec fn after_start(self) -> Self {
        self
    }

    open spec fn after_stop(self) -> Self {
        self
    }

    fn start(&mut self) {
    }

    fn stop(&mut self) {
    }

    fn lambda(&self, ports: &mut Model<Value>) {
        proof {
            lemma_emitting(ports@, self.output.index as int, seq![Value::Count(0)]);
        }
        self.output.add_value(ports, Value::Count(0));
    }

    fn delta_int(&mut self) {
        self.sigma = INFINITY;
    }

    fn delta_ext(&mut self, e: u64, ports: &Model<Value>) {
        self.sigma = INFINITY;
    }

    fn delta_conf(&mut self, ports: &Model<Value>) {
        self.delta_int();
        self.delta_ext(0, ports);
    }

    fn ta(&self) -> (sigma: u64) {
        self.sigma
    }
}

} // verus!
