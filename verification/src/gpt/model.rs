//! One type for the three atomic models, so that they can share a hierarchy.
use super::generator::Generator;
use super::processor::Processor;
use super::transducer::Transducer;
use crate::modeling::atomic::Atomic;
use crate::modeling::model::{Layout, Model, ModelView};
use crate::modeling::Value;
use vstd::prelude::*;

verus! {

/// A generator, a processor or a transducer.
pub enum GptModel {
    Generator(Generator),
    Processor(Processor),
    Transducer(Transducer),
}

impl Atomic for GptModel {
    type Message = Value;

    open spec fn wf(&self, layout: Layout<Value>) -> bool {
        match self {
            GptModel::Generator(g) => g.wf(layout),
            GptModel::Processor(p) => p.wf(layout),
            GptModel::Transducer(t) => t.wf(layout),
        }
    }

    open spec fn ta_spec(&self) -> u64 {
        match self {
            GptModel::Generator(g) => g.ta_spec(),
            GptModel::Processor(p) => p.ta_spec(),
            GptModel::Transducer(t) => t.ta_spec(),
        }
    }

    open spec fn output(&self, ports: ModelView<Value>) -> ModelView<Value> {
        match self {
            GptModel::Generator(g) => g.output(ports),
            GptModel::Processor(p) => p.output(ports),
            GptModel::Transducer(t) => t.output(ports),
        }
    }

    open spec fn after_int(self) -> Self {
        match self {
            GptModel::Generator(g) => GptModel::Generator(g.after_int()),
            GptModel::Processor(p) => GptModel::Processor(p.after_int()),
            GptModel::Transducer(t) => GptModel::Transducer(t.after_int()),
        }
    }

    open spec fn after_ext(self, e: u64, ports: ModelView<Value>) -> Self {
        match self {
            GptModel::Generator(g) => GptModel::Generator(g.after_ext(e, ports)),
            GptModel::Processor(p) => GptModel::Processor(p.after_ext(e, ports)),
            GptModel::Transducer(t) => GptModel::Transducer(t.after_ext(e, ports)),
        }
    }

    open spec fn after_conf(self, ports: ModelView<Value>) -> Self {
        match self {
            GptModel::Generator(g) => GptModel::Generator(g.after_conf(ports)),
            GptModel::Processor(p) => GptModel::Processor(p.after_conf(ports)),
            GptModel::Transducer(t) => GptModel::Transducer(t.after_conf(ports)),
        }
    }

    open spec fn after_start(self) -> Self {
        match self {
            GptModel::Generator(g) => GptModel::Generator(g.after_start()),
            GptModel::Processor(p) => GptModel::Processor(p.after_start()),
            GptModel::Transducer(t) => GptModel::Transducer(t.after_start()),
        }
    }

    open spec fn after_stop(self) -> Self {
        match self {
            GptModel::Generator(g) => GptModel::Generator(g.after_stop()),
            GptModel::Processor(p) => GptModel::Processor(p.after_stop()),
            GptModel::Transducer(t) => GptModel::Transducer(t.after_stop()),
        }
    }

    fn start(&mut self) {
        match self {
            GptModel::Generator(g) => g.start(),
            GptModel::Processor(p) => p.start(),
            GptModel::Transducer(t) => t.start(),
        }
    }

    fn stop(&mut self) {
        match self {
            GptModel::Generator(g) => g.stop(),
            GptModel::Processor(p) => p.stop(),
            GptModel::Transducer(t) => t.stop(),
        }
    }

    fn lambda(&self, ports: &mut Model<Value>) {
        match self {
            GptModel::Generator(g) => g.lambda(ports),
            GptModel::Processor(p) => p.lambda(ports),
            GptModel::Transducer(t) => t.lambda(ports),
        }
    }

    fn delta_int(&mut self) {
        match self {
            GptModel::Generator(g) => g.delta_int(),
            GptModel::Processor(p) => p.delta_int(),
            GptModel::Transducer(t) => t.delta_int(),
        }
    }

    fn delta_ext(&mut self, e: u64, ports: &Model<Value>) {
        match self {
            GptModel::Generator(g) => g.delta_ext(e, ports),
            GptModel::Processor(p) => p.delta_ext(e, ports),
            GptModel::Transducer(t) => t.delta_ext(e, ports),
        }
    }

    fn delta_conf(&mut self, ports: &Model<Value>) {
        match self {
            GptModel::Generator(g) => g.delta_conf(ports),
            GptModel::Processor(p) => p.delta_conf(ports),
            GptModel::Transducer(t) => t.delta_conf(ports),
        }
    }

    fn ta(&self) -> (sigma: u64) {
        match self {
            GptModel::Generator(g) => g.ta(),
            GptModel::Processor(p) => p.ta(),
            GptModel::Transducer(t) => t.ta(),
        }
    }
}

} // verus!
