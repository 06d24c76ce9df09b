//! One type for the two atomic models of the benchmark, so that they can
//! share a hierarchy.
use super::atomic::DEVStoneAtomic;
use super::seeder::DEVStoneSeeder;
use crate::modeling::atomic::Atomic;
use crate::modeling::model::{Layout, Model, ModelView};
use crate::modeling::Value;
use vstd::prelude::*;

verus! {

/// A counting atomic model or a seeder.
pub enum DEVStoneModel {
    Atomic(DEVStoneAtomic),
    Seeder(DEVStoneSeeder),
}

impl Atomic for DEVStoneModel {
    type Message = Value;

    open spec fn wf(&self, layout: Layout<Value>) -> bool {
        match self {
            DEVStoneModel::Atomic(a) => a.wf(layout),
            DEVStoneModel::Seeder(s) => s.wf(layout),
        }
    }

    open spec fn ta_spec(&self) -> u64 {
        match self {
            DEVStoneModel::Atomic(a) => a.ta_spec(),
            DEVStoneModel::Seeder(s) => s.ta_spec(),
        }
    }

    open spec fn output(&self, ports: ModelView<Value>) -> ModelView<Value> {
        match self {
            DEVStoneModel::Atomic(a) => a.output(ports),
            DEVStoneModel::Seeder(s) => s.output(ports),
        }
    }

    open spec fn after_int(self) -> Self {
        match self {
            DEVStoneModel::Atomic(a) => DEVStoneModel::Atomic(a.after_int()),
            DEVStoneModel::Seeder(s) => DEVStoneModel::Seeder(s.after_int()),
        }
    }

    open spec fn after_ext(self, e: u64, ports: ModelView<Value>) -> Self {
        match self {
            DEVStoneModel::Atomic(a) => DEVStoneModel::Atomic(a.after_ext(e, ports)),
            DEVStoneModel::Seeder(s) => DEVStoneModel::Seeder(s.after_ext(e, ports)),
        }
    }

    open spec fn after_conf(self, ports: ModelView<Value>) -> Self {
        match self {
            DEVStoneModel::Atomic(a) => DEVStoneModel::Atomic(a.after_conf(ports)),
            DEVStoneModel::Seeder(s) => DEVStoneModel::Seeder(s.after_conf(ports)),
        }
    }

    open spec fn after_start(self) -> Self {
        match self {
            DEVStoneModel::Atomic(a) => DEVStoneModel::Atomic(a.after_start()),
            DEVStoneModel::Seeder(s) => DEVStoneModel::Seeder(s.after_start()),
        }
    }

    open spec fn after_stop(self) -> Self {
        match self {
            DEVStoneModel::Atomic(a) => DEVStoneModel::Atomic(a.after_stop()),
            DEVStoneModel::Seeder(s) => DEVStoneModel::Seeder(s.after_stop()),
        }
    }

    fn start(&mut self) {
        match self {
            DEVStoneModel::Atomic(a) => a.start(),
            DEVStoneModel::Seeder(s) => s.start(),
        }
    }

    fn stop(&mut self) {
        match self {
            DEVStoneModel::Atomic(a) => a.stop(),
            DEVStoneModel::Seeder(s) => s.stop(),
        }
    }

    fn lambda(&self, ports: &mut Model<Value>) {
        match self {
            DEVStoneModel::Atomic(a) => a.lambda(ports),
            DEVStoneModel::Seeder(s) => s.lambda(ports),
        }
    }

    fn delta_int(&mut self) {
        match self {
            DEVStoneModel::Atomic(a) => a.delta_int(),
            DEVStoneModel::Seeder(s) => s.delta_int(),
        }
    }

    fn delta_ext(&mut self, e: u64, ports: &Model<Value>) {
        match self {
            DEVStoneModel::Atomic(a) => a.delta_ext(e, ports),
            DEVStoneModel::Seeder(s) => s.delta_ext(e, ports),
        }
    }

    fn delta_conf(&mut self, ports: &Model<Value>) {
        match self {
            DEVStoneModel::Atomic(a) => a.delta_conf(ports),
            DEVStoneModel::Seeder(s) => s.delta_conf(ports),
        }
    }

    fn ta(&self) -> (sigma: u64) {
        match self {
            DEVStoneModel::Atomic(a) => a.ta(),
            DEVStoneModel::Seeder(s) => s.ta(),
        }
    }
}

} // verus!
