//! The atomic model of the benchmark.
use crate::modeling::atomic::{counted, raised, Atomic};
use crate::modeling::component::Component;
use crate::modeling::coupled::AtomicSimulator;
use crate::modeling::model::{lemma_emitting, Layout, Model, ModelView};
use crate::modeling::{InPort, Kind, OutPort, PortView, Value};
use crate::time::INFINITY;
use vstd::prelude::*;

verus! {

/// Reads the processor time that the current thread has used so far, in
/// nanoseconds.
///
/// This calls cpu_time's `ThreadTime::try_now` and `ThreadTime::as_duration`.
/// Nothing is claimed of the reading; it is `None` where the machine keeps
/// no such clock.
#[verifier::external_body]
fn thread_time() -> (nanos: Option<u64>) {
    match cpu_time::ThreadTime::try_now() {
        Ok(now) => Some(now.as_duration().as_nanos() as u64),
        Err(_) => None,
    }
}

/// Keeps the processor busy until the current thread has used `millis`
/// milliseconds of processor time more than it had. It returns at once on a
/// machine without such a clock, and gives up after as many readings of the
/// clock as a counter can count.
fn busy_wait(millis: u64) {
    let start: u64 = match thread_time() {
        Some(used) => used,
        None => {
            return ;
        },
    };
    let span: u64 = if millis > u64::MAX / 1_000_000 {
        u64::MAX
    } else {
        millis * 1_000_000
    };
    let mut left: u64 = u64::MAX;
    while left > 0
        decreases left,
    {
        match thread_time() {
            Some(used) => {
                if used.saturating_sub(start) >= span {
                    return ;
                }
            },
            None => {
                return ;
            },
        }
        left = left - 1;
    }
}

/// The delay that a number of milliseconds stands for; zero stands for none.
pub open spec fn delay_of(millis: u64) -> Option<u64> {
    if millis > 0 {
        Some(millis)
    } else {
        None
    }
}

/// Waits for input, and answers every input at once with the number of
/// messages it has received so far. It counts its transitions, and after each
/// it keeps the processor busy for the delay it was given.
pub struct DEVStoneAtomic {
    pub int_delay: Option<u64>,
    pub ext_delay: Option<u64>,
    pub sigma: u64,
    pub n_internals: usize,
    pub n_externals: usize,
    pub n_events: usize,
    pub input: InPort<Value>,
    pub output: OutPort<Value>,
}

impl DEVStoneAtomic {
    /// The ports of the model: the input `input` and the output `output`, both for counters.
    pub open spec fn ports(name: Seq<char>) -> ModelView<Value> {
        ModelView {
            name,
            inputs: seq![PortView { name: "input"@, kind: Kind::Count, values: Seq::empty() }],
            outputs: seq![PortView { name: "output"@, kind: Kind::Count, values: Seq::empty() }],
        }
    }

    /// The state of a new model: waiting, with nothing counted. The delays
    /// are given in milliseconds.
    pub open spec fn initial(int_delay: u64, ext_delay: u64) -> DEVStoneAtomic {
        DEVStoneAtomic {
            int_delay: delay_of(int_delay),
            ext_delay: delay_of(ext_delay),
            sigma: INFINITY,
            n_internals: 0,
            n_externals: 0,
            n_events: 0,
            input: InPort { index: 0, kind: Kind::Count },
            output: OutPort { index: 0, kind: Kind::Count },
        }
    }

    /// Creates a model that waits for input. After each internal transition
    /// it keeps the processor busy for `int_delay` milliseconds, and after
    /// each external transition for `ext_delay` milliseconds.
    pub fn new(name: &str, int_delay: u64, ext_delay: u64) -> (a: AtomicSimulator<DEVStoneAtomic>)
        ensures
            a@.wf(),
            a@.component.model == DEVStoneAtomic::ports(name@),
            a@.component.t_last == 0,
            a@.component.t_next == INFINITY,
            a.model == DEVStoneAtomic::initial(int_delay, ext_delay),
    {
        let mut component = Component::new(name);
        let input = component.add_in_port("input", Kind::Count);
        let output = component.add_out_port("output", Kind::Count);
        let model = DEVStoneAtomic {
            int_delay: if int_delay > 0 {
                Some(int_delay)
            } else {
                None
            },
            ext_delay: if ext_delay > 0 {
                Some(ext_delay)
            } else {
                None
            },
            sigma: INFINITY,
            n_internals: 0,
            n_externals: 0,
            n_events: 0,
            input,
            output,
        };
        assert(component@.model.inputs =~= DEVStoneAtomic::ports(name@).inputs);
        assert(component@.model.outputs =~= DEVStoneAtomic::ports(name@).outputs);
        AtomicSimulator::new(component, model)
    }
}

impl Atomic for DEVStoneAtomic {
    type Message = Value;

    open spec fn wf(&self, layout: Layout<Value>) -> bool {
        &&& self.input.placed(layout)
        &&& self.output.placed(layout)
        &&& self.output.kind == Kind::Count
    }

    open spec fn ta_spec(&self) -> u64 {
        self.sigma
    }

    open spec fn output(&self, ports: ModelView<Value>) -> ModelView<Value> {
        ports.emitting(self.output.index as int, seq![Value::Count(self.n_events)])
    }

    open spec fn after_int(self) -> Self {
        DEVStoneAtomic { n_internals: counted(self.n_internals), sigma: INFINITY, ..self }
    }

    open spec fn after_ext(self, e: u64, ports: ModelView<Value>) -> Self {
        DEVStoneAtomic {
            n_externals: counted(self.n_externals),
            n_events: raised(self.n_events, ports.inputs[self.input.index as int].values.len()),
            sigma: 0,
            ..self
        }
    }

    open spec fn after_conf(self, ports: ModelView<Value>) -> Self {
        self.after_int().after_ext(0, ports)
    }

    open spec fn after_start(self) -> Self {
        self
    }

    open spec fn after_stop(self) -> Self {
        self
    }

    fn start(&mut self) {
    }

    fn stop(&mut self) {
    }

    fn lambda(&self, ports: &mut Model<Value>) {
        proof {
            lemma_emitting(ports@, self.output.index as int, seq![Value::Count(self.n_events)]);
        }
        self.output.add_value(ports, Value::Count(self.n_events));
    }

    fn delta_int(&mut self) {
        self.n_internals = self.n_internals.saturating_add(1);
        self.sigma = INFINITY;
        if let Some(delay) = self.int_delay {
            busy_wait(delay);
        }
    }

    fn delta_ext(&mut self, e: u64, ports: &Model<Value>) {
        self.n_externals = self.n_externals.saturating_add(1);
        self.n_events = self.n_events.saturating_add(self.input.get_values(ports).len());
        self.sigma = 0;
        if let Some(delay) = self.ext_delay {
            busy_wait(delay);
        }
    }

    fn delta_conf(&mut self, ports: &Model<Value>) {
        self.delta_int();
        self.delta_ext(0, ports);
    }

    fn ta(&self) -> (sigma: u64) {
        self.sigma
    }
}

} // verus!
