//! The processor: a server that works on one request at a time.
use crate::modeling::atomic::Atomic;
use crate::modeling::component::Component;
use crate::modeling::coupled::AtomicSimulator;
use crate::modeling::model::{
    lemma_emitting, lemma_nothing_emitted, Layout, Model, ModelView,
};
use crate::modeling::{InPort, Kind, OutPort, PortView, Value};
use crate::time::{remaining, time_left, INFINITY};
use vstd::prelude::*;

verus! {

/// When idle, takes the first request that arrives, works on it for a fixed
/// time and then reports the finished job. Requests that arrive while it is
/// busy are lost.
pub struct Processor {
    pub sigma: u64,
    pub time: u64,
    pub job: Option<usize>,
    pub input_req: InPort<Value>,
    pub output_res: OutPort<Value>,
}

/// The request that an idle processor takes from what arrived, if any.
pub open spec fn first_request(values: Seq<Value>) -> Option<usize> {
    if values.len() > 0 {
        match values[0] {
            Value::Count(id) => Some(id),
            _ => None,
        }
    } else {
        None
    }
}

impl Processor {
    /// The ports of a processor: the input `input_req` for counters and the
    /// output `output_res` for jobs.
    pub open spec fn ports(name: Seq<char>) -> ModelView<Value> {
        ModelView {
            name,
            inputs: seq![PortView { name: "input_req"@, kind: Kind::Count, values: Seq::empty() }],
            outputs: seq![PortView { name: "output_res"@, kind: Kind::Job, values: Seq::empty() }],
        }
    }

    /// The state of a new processor: idle.
    pub open spec fn initial(time: u64) -> Processor {
        Processor {
            sigma: INFINITY,
            time,
            job: None,
            input_req: InPort { index: 0, kind: Kind::Count },
            output_res: OutPort { index: 0, kind: Kind::Job },
        }
    }

    /// Creates an idle processor that works `time` ticks on each request.
    pub fn new(name: &str, time: u64) -> (p: AtomicSimulator<Processor>)
        ensures
            p@.wf(),
            p@.component.model == Processor::ports(name@),
            p@.component.t_last == 0,
            p@.component.t_next == INFINITY,
            p.model == Processor::initial(time),
    {
        let mut component = Component::new(name);
        let input_req = component.add_in_port("input_req", Kind::Count);
        let output_res = component.add_out_port("output_res", Kind::Job);
        let model = Processor { sigma: INFINITY, time, job: None, input_req, output_res };
        assert(component@.model.inputs =~= Processor::ports(name@).inputs);
        assert(component@.model.outputs =~= Processor::ports(name@).outputs);
        AtomicSimulator::new(component, model)
    }
}

impl Atomic for Processor {
    type Message = Value;

    open spec fn wf(&self, layout: Layout<Value>) -> bool {
        &&& self.input_req.placed(layout)
        &&& self.output_res.placed(layout)
        &&& self.input_req.kind == Kind::Count
        &&& self.output_res.kind == Kind::Job
    }

    open spec fn ta_spec(&self) -> u64 {
        self.sigma
    }

    open spec fn output(&self, ports: ModelView<Value>) -> ModelView<Value> {
        match self.job {
            Some(id) => ports.emitting(
                self.output_res.index as int,
                seq![Value::Job(id, self.time)],
            ),
            None => ports,
        }
    }

    open spec fn after_int(self) -> Self {
        Processor { sigma: INFINITY, job: None, ..self }
    }

    open spec fn after_ext(self, e: u64, ports: ModelView<Value>) -> Self {
        let request = first_request(ports.inputs[self.input_req.index as int].values);
        if self.job is None && request is Some {
            Processor { job: request, sigma: self.time, ..self }
        } else {
            Processor { sigma: time_left(self.sigma, e), ..self }
        }
    }

    open spec fn after_conf(self, ports: ModelView<Value>) -> Self {
        self.after_int().after_ext(0, ports)
    }

    open spec fn after_start(self) -> Self {
        self
    }

    open spec fn after_stop(self) -> Self {
        self
    }

    fn start(&mut self) {
    }

    fn stop(&mut self) {
    }

    fn lambda(&self, ports: &mut Model<Value>) {
        if let Some(id) = self.job {
            proof {
                lemma_emitting(
                    ports@,
                    self.output_res.index as int,
                    seq![Value::Job(id, self.time)],
                );
            }
            self.output_res.add_value(ports, Value::Job(id, self.time));
        } else {
            proof {
                lemma_nothing_emitted(ports@);
            }
        }
    }

    fn delta_int(&mut self) {
        self.sigma = INFINITY;
        self.job = None;
    }

    fn delta_ext(&mut self, e: u64, ports: &Model<Value>) {
        self.sigma = remaining(self.sigma, e);
        if self.job.is_none() {
            let values = self.input_req.get_values(ports);
            if values.len() > 0 {
                match values[0] {
                    Value::Count(id) => {
                        self.job = Some(id);
                        self.sigma = self.time;
                    },
                    _ => {},
                }
            }
        }
    }

    fn delta_conf(&mut self, ports: &Model<Value>) {
        self.delta_int();
        self.delta_ext(0, ports);
    }

    fn ta(&self) -> (sigma: u64) {
        self.sigma
    }
}

} // verus!
