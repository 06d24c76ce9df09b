//! The simulator interface that every node of a hierarchy offers.
use super::phases::{lemma_cleared_wf, lemma_wf_with_model};
use crate::modeling::atomic::Atomic;
use crate::modeling::component::Component;
use crate::modeling::coupled::{AtomicSimulator, Coupled, NodeView, Subcomponent};
use vstd::prelude::*;

verus! {

/// Interface for simulating DEVS models. Atomic simulators, coupled models
/// and subcomponents implement it.
pub trait Simulator: Sized {
    /// The type of the atomic models in the hierarchy.
    type Model: Atomic;

    /// The hierarchy that this simulator stands for.
    spec fn node(&self) -> NodeView<Self::Model>;

    /// Returns the component of the node.
    fn get_component(&self) -> (component: &Component<<Self::Model as Atomic>::Message>)
        ensures
            component@ == self.node().component,
    ;

    /// Returns the name of the node.
    fn get_name(&self) -> (name: &str)
        ensures
            name@ == self.node().component.model.name,
    {
        self.get_component().get_name()
    }

    /// Returns the time of the last state transition of the node.
    fn get_t_last(&self) -> (t: u64)
        ensures
            t == self.node().component.t_last,
    {
        self.get_component().get_t_last()
    }

    /// Returns the time of the next state transition of the node.
    fn get_t_next(&self) -> (t: u64)
        ensures
            t == self.node().component.t_next,
    {
        self.get_component().get_t_next()
    }

    /// Sets the times of the last and of the next state transition of the node.
    fn set_sim_t(&mut self, t_last: u64, t_next: u64)
        requires
            old(self).node().wf(),
        ensures
            final(self).node().wf(),
            final(self).node() == (NodeView {
                component: old(self).node().component.at(t_last, t_next),
                body: old(self).node().body,
            }),
    ;

    /// Empties the input bags of the node.
    fn clear_input(&mut self)
        requires
            old(self).node().wf(),
        ensures
            final(self).node().wf(),
            final(self).node() == (NodeView {
                component: old(self).node().component.with_model(
                    old(self).node().component.model.cleared_input(),
                ),
                body: old(self).node().body,
            }),
    ;

    /// Empties the output bags of the node.
    fn clear_output(&mut self)
        requires
            old(self).node().wf(),
        ensures
            final(self).node().wf(),
            final(self).node() == (NodeView {
                component: old(self).node().component.with_model(
                    old(self).node().component.model.cleared_output(),
                ),
                body: old(self).node().body,
            }),
    ;

    /// Removes all the messages from all the ports of the node.
    fn clear(&mut self)
        requires
            old(self).node().wf(),
        ensures
            final(self).node().wf(),
            final(self).node() == (NodeView {
                component: old(self).node().component.with_model(
                    old(self).node().component.model.cleared_input().cleared_output(),
                ),
                body: old(self).node().body,
            }),
    {
        self.clear_input();
        self.clear_output();
    }

    /// Starts the simulation at `t_start` and returns the time of the next event.
    fn start(&mut self, t_start: u64) -> (t_next: u64)
        requires
            old(self).node().wf(),
        ensures
            final(self).node().wf(),
            final(self).node() == old(self).node().started(t_start),
            t_next == final(self).node().component.t_next,
    ;

    /// Stops the simulation at `t_stop`.
    fn stop(&mut self, t_stop: u64)
        requires
            old(self).node().wf(),
        ensures
            final(self).node().wf(),
            final(self).node() == old(self).node().stopped(t_stop),
    ;

    /// Executes output functions and propagates messages from outputs.
    fn collection(&mut self, t: u64)
        requires
            old(self).node().wf(),
        ensures
            final(self).node().wf(),
            final(self).node() == old(self).node().collected(t),
    ;

    /// Propagates messages from inputs and executes transition functions.
    /// Returns the time of the next event.
    fn transition(&mut self, t: u64) -> (t_next: u64)
        requires
            old(self).node().wf(),
        ensures
            final(self).node().wf(),
            final(self).node() == old(self).node().after_transition(t),
            t_next == final(self).node().component.t_next,
    ;
}

impl<A: Atomic> Simulator for AtomicSimulator<A> {
    type Model = A;

    open spec fn node(&self) -> NodeView<A> {
        self@
    }

    fn get_component(&self) -> (component: &Component<A::Message>) {
        &self.component
    }

    fn set_sim_t(&mut self, t_last: u64, t_next: u64) {
        self.component.set_sim_t(t_last, t_next);
    }

    fn clear_input(&mut self) {
        proof {
            assert(self.node() == self@);
            assert(self@.component.model.wf());
            lemma_cleared_wf(self@.component.model);
            lemma_wf_with_model(self@, self@.component.model.cleared_input());
        }
        self.component.clear_input();
    }

    fn clear_output(&mut self) {
        proof {
            assert(self.node() == self@);
            assert(self@.component.model.wf());
            lemma_cleared_wf(self@.component.model);
            lemma_wf_with_model(self@, self@.component.model.cleared_output());
        }
        self.component.clear_output();
    }

    fn start(&mut self, t_start: u64) -> (t_next: u64) {
        AtomicSimulator::start(self, t_start)
    }

    fn stop(&mut self, t_stop: u64) {
        AtomicSimulator::stop(self, t_stop)
    }

    fn collection(&mut self, t: u64) {
        AtomicSimulator::collection(self, t)
    }

    fn transition(&mut self, t: u64) -> (t_next: u64) {
        AtomicSimulator::transition(self, t)
    }
}

impl<A: Atomic> Simulator for Coupled<A> {
    type Model = A;

    open spec fn node(&self) -> NodeView<A> {
        self@
    }

    fn get_component(&self) -> (component: &Component<A::Message>) {
        &self.component
    }

    fn set_sim_t(&mut self, t_last: u64, t_next: u64) {
        self.component.set_sim_t(t_last, t_next);
        proof {
            assert(self@.children() =~= old(self)@.children());
            lemma_wf_with_model(old(self)@, old(self)@.component.model);
        }
    }

    fn clear_input(&mut self) {
        proof {
            assert(self.node() == self@);
            assert(self@.component.model.wf());
            lemma_cleared_wf(self@.component.model);
            lemma_wf_with_model(self@, self@.component.model.cleared_input());
        }
        self.component.clear_input();
        assert(self@.children() =~= old(self)@.children());
    }

    fn clear_output(&mut self) {
        proof {
            assert(self.node() == self@);
            assert(self@.component.model.wf());
            lemma_cleared_wf(self@.component.model);
            lemma_wf_with_model(self@, self@.component.model.cleared_output());
        }
        self.component.clear_output();
        assert(self@.children() =~= old(self)@.children());
    }

    fn start(&mut self, t_start: u64) -> (t_next: u64) {
        Coupled::start(self, t_start)
    }

    fn stop(&mut self, t_stop: u64) {
        Coupled::stop(self, t_stop)
    }

    fn collection(&mut self, t: u64) {
        Coupled::collection(self, t)
    }

    fn transition(&mut self, t: u64) -> (t_next: u64) {
        Coupled::transition(self, t)
    }
}

impl<A: Atomic> Simulator for Subcomponent<A> {
    type Model = A;

    open spec fn node(&self) -> NodeView<A> {
        self@
    }

    fn get_component(&self) -> (component: &Component<A::Message>) {
        Subcomponent::get_component(self)
    }

    fn set_sim_t(&mut self, t_last: u64, t_next: u64) {
        match self {
            Subcomponent::Atomic(a) => a.set_sim_t(t_last, t_next),
            Subcomponent::Coupled(c) => c.set_sim_t(t_last, t_next),
        }
    }

    fn clear_input(&mut self) {
        match self {
            Subcomponent::Atomic(a) => a.clear_input(),
            Subcomponent::Coupled(c) => c.clear_input(),
        }
    }

    fn clear_output(&mut self) {
        match self {
            Subcomponent::Atomic(a) => a.clear_output(),
            Subcomponent::Coupled(c) => c.clear_output(),
        }
    }

    fn start(&mut self, t_start: u64) -> (t_next: u64) {
        Subcomponent::start(self, t_start)
    }

    fn stop(&mut self, t_stop: u64) {
        Subcomponent::stop(self, t_stop)
    }

    fn collection(&mut self, t: u64) {
        Subcomponent::collection(self, t)
    }

    fn transition(&mut self, t: u64) -> (t_next: u64) {
        Subcomponent::transition(self, t)
    }
}

} // verus!
