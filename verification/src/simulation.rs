//! The abstract simulator: what the phases of a simulation step do to a model
//! hierarchy, and the code that does it.
pub mod grouping;
pub mod laws;
pub mod parallel;
pub mod phases;
pub mod root_coordinator;
pub mod rt;
pub mod semantics;
pub mod simulator;

pub use parallel::ParallelCoupled;
pub use root_coordinator::RootCoordinator;
pub use rt::{JitterExceeded, RtClock, RtEvent};
pub use simulator::Simulator;
