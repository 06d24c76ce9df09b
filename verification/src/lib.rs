//! A discrete-event simulation engine for hierarchical DEVS models.
//!
//! Models are trees: leaves are atomic models with a state and transition
//! functions, inner nodes are coupled models that wire the ports of their
//! subcomponents together. Simulated time is counted in whole ticks.
//!
//! The module `modeling` holds what models are made of, `simulation` what
//! the phases of a simulation do to them and the drivers that run them.
//! `gpt` and `devstone` hold ready-made models, `dmt` the description of a
//! model hierarchy by names alone, and `text` the numbers and names that are
//! written and read as text.
use vstd::prelude::*;

pub mod devstone;
pub mod dmt;
pub mod event;
pub mod gpt;
pub mod modeling;
pub mod simulation;
pub mod text;
pub mod time;

pub use event::Event;

verus! {

/// Helper trait for avoiding verbose trait constraints: everything that owns
/// its data can be part of a model.
pub trait DynRef: 'static {

}

impl<T: 'static + ?Sized> DynRef for T {

}

} // verus!
