//! The behaviour that the author of an atomic model supplies.
use super::model::{Layout, Model, ModelView};
use super::port::PortVal;
use crate::DynRef;
use vstd::prelude::*;

verus! {

/// The number after `count`; the largest number is followed by itself.
pub open spec fn counted(count: usize) -> usize {
    if count < usize::MAX {
        (count + 1) as usize
    } else {
        count
    }
}

/// A count raised by `more`, and no further than the largest number.
pub open spec fn raised(count: usize, more: nat) -> usize {
    if count + more > usize::MAX {
        usize::MAX
    } else {
        (count + more) as usize
    }
}

/// Interface for atomic DEVS models.
///
/// The state of the model is the implementing value. Each executable method is
/// paired with a specification function that says what it computes; the
/// simulator is verified against those functions.
pub trait Atomic: DynRef + Sized {
    /// The type of the messages that the model receives and sends.
    type Message: PortVal;

    /// The state refers only to ports that the layout has, with the element
    /// types it expects.
    spec fn wf(&self, layout: Layout<Self::Message>) -> bool;

    /// Time until the next internal event.
    spec fn ta_spec(&self) -> u64;

    /// The port registry after the output function has emitted into it.
    spec fn output(&self, ports: ModelView<Self::Message>) -> ModelView<Self::Message>;

    /// The state after an internal transition.
    spec fn after_int(self) -> Self;

    /// The state after an external transition: `e` ticks have passed since the
    /// last transition, and the input bags of `ports` hold what arrived.
    spec fn after_ext(self, e: u64, ports: ModelView<Self::Message>) -> Self;

    /// The state after a confluent transition: an internal event and input at the same instant.
    spec fn after_conf(self, ports: ModelView<Self::Message>) -> Self;

    /// The state after the start hook.
    spec fn after_start(self) -> Self;

    /// The state after the stop hook.
    spec fn after_stop(self) -> Self;

    /// Performs any operation before simulating.
    fn start(&mut self)
        ensures
            *final(self) == old(self).after_start(),
            forall|l: Layout<Self::Message>| old(self).wf(l) ==> final(self).wf(l),
    ;

    /// Performs any operation after simulating.
    fn stop(&mut self)
        ensures
            *final(self) == old(self).after_stop(),
            forall|l: Layout<Self::Message>| old(self).wf(l) ==> final(self).wf(l),
    ;

    /// Output function. It only appends messages to output bags.
    fn lambda(&self, ports: &mut Model<Self::Message>)
        requires
            old(ports)@.wf(),
            self.wf(old(ports)@.layout()),
        ensures
            final(ports)@ == self.output(old(ports)@),
            final(ports)@.wf(),
            old(ports)@.only_emitted(final(ports)@),
    ;

    /// Internal transition function.
    fn delta_int(&mut self)
        ensures
            *final(self) == old(self).after_int(),
            forall|l: Layout<Self::Message>| old(self).wf(l) ==> final(self).wf(l),
    ;

    /// External transition function. `e` is the time elapsed since the last
    /// transition; the input bags of `ports` hold the messages that arrived.
    fn delta_ext(&mut self, e: u64, ports: &Model<Self::Message>)
        requires
            ports@.wf(),
            old(self).wf(ports@.layout()),
        ensures
            *final(self) == old(self).after_ext(e, ports@),
            forall|l: Layout<Self::Message>| old(self).wf(l) ==> final(self).wf(l),
    ;

    /// Confluent transition function.
    fn delta_conf(&mut self, ports: &Model<Self::Message>)
        requires
            ports@.wf(),
            old(self).wf(ports@.layout()),
        ensures
            *final(self) == old(self).after_conf(ports@),
            forall|l: Layout<Self::Message>| old(self).wf(l) ==> final(self).wf(l),
    ;

    /// Time advance function.
    fn ta(&self) -> (sigma: u64)
        ensures
            sigma == self.ta_spec(),
    ;
}

/// The usual confluent transition: the internal transition, then the external
/// transition with no time elapsed, applied to the state that the internal
/// transition produced.
pub fn delta_conf_default<A: Atomic>(model: &mut A, ports: &Model<A::Message>)
    requires
        ports@.wf(),
        old(model).wf(ports@.layout()),
    ensures
        *final(model) == old(model).after_int().after_ext(0, ports@),
        forall|l: Layout<A::Message>| old(model).wf(l) ==> final(model).wf(l),
{
    model.delta_int();
    model.delta_ext(0, ports);
}

} // verus!
