//! The transducer: the observer that ends an experiment.
use crate::modeling::atomic::{raised, Atomic};
use crate::modeling::component::Component;
use crate::modeling::coupled::AtomicSimulator;
use crate::modeling::model::{lemma_emitting, Layout, Model, ModelView};
use crate::modeling::{InPort, Kind, OutPort, PortView, Value};
use crate::time::{remaining, time_left, INFINITY};
use vstd::prelude::*;

verus! {

/// Counts the requests and the finished jobs it sees during its observation
/// time, and then tells the generator to stop.
pub struct Transducer {
    pub sigma: u64,
    pub arrived: usize,
    pub solved: usize,
    pub input_req: InPort<Value>,
    pub input_res: InPort<Value>,
    pub output_stop: OutPort<Value>,
}

impl Transducer {
    /// The ports of a transducer: the inputs `input_req` for counters and
    /// `input_res` for jobs, and the output `output_stop` for truth values.
    pub open spec fn ports(name: Seq<char>) -> ModelView<Value> {
        ModelView {
            name,
            inputs: seq![
                PortView { name: "input_req"@, kind: Kind::Count, values: Seq::empty() },
                PortView { name: "input_res"@, kind: Kind::Job, values: Seq::empty() },
            ],
            outputs: seq![PortView { name: "output_stop"@, kind: Kind::Bool, values: Seq::empty() }],
        }
    }

    /// The state of a new transducer: with the whole observation time ahead and nothing seen.
    pub open spec fn initial(time: u64) -> Transducer {
        Transducer {
            sigma: time,
            arrived: 0,
            solved: 0,
            input_req: InPort { index: 0, kind: Kind::Count },
            input_res: InPort { index: 1, kind: Kind::Job },
            output_stop: OutPort { index: 0, kind: Kind::Bool },
        }
    }

    /// Creates a transducer that observes for `time` ticks.
    pub fn new(name: &str, time: u64) -> (t: AtomicSimulator<Transducer>)
        ensures
            t@.wf(),
            t@.component.model == Transducer::ports(name@),
            t@.component.t_last == 0,
            t@.component.t_next == INFINITY,
            t.model == Transducer::initial(time),
    {
        let mut component = Component::new(name);
        let input_req = component.add_in_port("input_req", Kind::Count);
        proof {
            reveal_strlit("input_req");
            reveal_strlit("input_res");
            assert("input_req"@[8] != "input_res"@[8]);
            crate::modeling::model::lemma_find_port(component@.model.inputs, "input_res"@);
        }
        let input_res = component.add_in_port("input_res", Kind::Job);
        let output_stop = component.add_out_port("output_stop", Kind::Bool);
        let model = Transducer {
            sigma: time,
            arrived: 0,
            solved: 0,
            input_req,
            input_res,
            output_stop,
        };
        assert(component@.model.inputs =~= Transducer::ports(name@).inputs);
        assert(component@.model.outputs =~= Transducer::ports(name@).outputs);
        AtomicSimulator::new(component, model)
    }
}

impl Atomic for Transducer {
    type Message = Value;

    open spec fn wf(&self, layout: Layout<Value>) -> bool {
        &&& self.input_req.placed(layout)
        &&& self.input_res.placed(layout)
        &&& self.output_stop.placed(layout)
        &&& self.output_stop.kind == Kind::Bool
    }

    open spec fn ta_spec(&self) -> u64 {
        self.sigma
    }

    open spec fn output(&self, ports: ModelView<Value>) -> ModelView<Value> {
        ports.emitting(self.output_stop.index as int, seq![Value::Bool(true)])
    }

    open spec fn after_int(self) -> Self {
        Transducer { sigma: INFINITY, ..self }
    }

    open spec fn after_ext(self, e: u64, ports: ModelView<Value>) -> Self {
        Transducer {
            sigma: time_left(self.sigma, e),
            arrived: raised(self.arrived, ports.inputs[self.input_req.index as int].values.len()),
            solved: raised(self.solved, ports.inputs[self.input_res.index as int].values.len()),
            ..self
        }
    }

    open spec fn after_conf(self, ports: ModelView<Value>) -> Self {
        self.after_int().after_ext(0, ports)
    }

    open spec fn after_start(self) -> Self {
        self
    }

    open spec fn after_stop(self) -> Self {
        self
    }

    fn start(&mut self) {
    }

    fn stop(&mut self) {
    }

    fn lambda(&self, ports: &mut Model<Value>) {
        proof {
            lemma_emitting(ports@, self.output_stop.index as int, seq![Value::Bool(true)]);
        }
        self.output_stop.add_value(ports, Value::Bool(true));
    }

    fn delta_int(&mut self) {
        self.sigma = INFINITY;
    }

    fn delta_ext(&mut self, e: u64, ports: &Model<Value>) {
        self.sigma = remaining(self.sigma, e);
        self.arrived = self.arrived.saturating_add(self.input_req.get_values(ports).len());
        self.solved = self.solved.saturating_add(self.input_res.get_values(ports).len());
    }

    fn delta_conf(&mut self, ports: &Model<Value>) {
        self.delta_int();
        self.delta_ext(0, ports);
    }

    fn ta(&self) -> (sigma: u64) {
        self.sigma
    }
}

} // verus!
