//! The root coordinator: the driver that advances a simulation from event to event.
use super::simulator::Simulator;
use crate::modeling::coupled::NodeView;
use crate::modeling::atomic::Atomic;
use vstd::prelude::*;

verus! {

/// The hierarchy after at most `steps` simulation steps that begin before `t_stop`.
///
/// A step runs the collection phase and then the transition phase, both at
/// the time of the next event. No step is made once the next event is at or
/// after `t_stop`.
pub open spec fn advanced<A: Atomic>(node: NodeView<A>, t_stop: u64, steps: nat) -> NodeView<A>
    decreases steps,
{
    if steps == 0 || node.component.t_next >= t_stop {
        node
    } else {
        let t = node.component.t_next;
        advanced(node.collected(t).after_transition(t), t_stop, (steps - 1) as nat)
    }
}

/// The hierarchy after a simulation that was started at time zero and given
/// `steps` steps to reach `t_stop`. If it got there, it has been stopped at
/// the time of the event it did not run any more.
pub open spec fn simulated<A: Atomic>(node: NodeView<A>, t_stop: u64, steps: nat) -> NodeView<A> {
    let last = advanced(node.started(0), t_stop, steps);
    if last.component.t_next >= t_stop {
        last.stopped(last.component.t_next)
    } else {
        last
    }
}

/// Root coordinator for sequential simulations of DEVS models.
pub struct RootCoordinator<T> {
    pub model: T,
}

impl<T: Simulator> RootCoordinator<T> {
    /// Creates a new root coordinator from a model.
    pub fn new(model: T) -> (r: Self)
        ensures
            r.model == model,
    {
        RootCoordinator { model }
    }

    /// Returns the model under simulation.
    pub fn get_model(&self) -> (model: &T)
        ensures
            *model == self.model,
    {
        &self.model
    }

    /// Runs one simulation step if the next event is before `t_stop`.
    /// Returns `true` if it did.
    pub fn step(&mut self, t_stop: u64) -> (ran: bool)
        requires
            old(self).model.node().wf(),
        ensures
            final(self).model.node().wf(),
            ran == (old(self).model.node().component.t_next < t_stop),
            final(self).model.node() == advanced(old(self).model.node(), t_stop, 1),
    {
        let t_next = self.model.get_t_next();
        if t_next < t_stop {
            self.model.collection(t_next);
            let _ = self.model.transition(t_next);
            assert(advanced(self.model.node(), t_stop, 0) == self.model.node());
            true
        } else {
            false
        }
    }

    /// Runs simulation steps until the next event is at or after `t_stop`, but
    /// at most `max_steps` of them. Returns `true` if `t_stop` was reached.
    pub fn resume(&mut self, t_stop: u64, max_steps: usize) -> (finished: bool)
        requires
            old(self).model.node().wf(),
        ensures
            final(self).model.node().wf(),
            final(self).model.node() == advanced(
                old(self).model.node(),
                t_stop,
                max_steps as nat,
            ),
            finished == (final(self).model.node().component.t_next >= t_stop),
    {
        let mut left = max_steps;
        let mut t_next = self.model.get_t_next();
        while t_next < t_stop && left > 0
            invariant
                self.model.node().wf(),
                t_next == self.model.node().component.t_next,
                advanced(old(self).model.node(), t_stop, max_steps as nat) == advanced(
                    self.model.node(),
                    t_stop,
                    left as nat,
                ),
            decreases left,
        {
            self.model.collection(t_next);
            t_next = self.model.transition(t_next);
            left = left - 1;
        }
        t_next >= t_stop
    }

    /// Runs a simulation from time zero until the next event is at or after
    /// `t_end`, but at most `max_steps` steps of it, and leaves the model as
    /// the last step left it, without stopping it. Returns `true` if `t_end`
    /// was reached.
    pub fn simulate_time(&mut self, t_end: u64, max_steps: usize) -> (finished: bool)
        requires
            old(self).model.node().wf(),
        ensures
            final(self).model.node().wf(),
            final(self).model.node() == advanced(
                old(self).model.node().started(0),
                t_end,
                max_steps as nat,
            ),
            finished == (final(self).model.node().component.t_next >= t_end),
    {
        let _ = self.model.start(0);
        self.resume(t_end, max_steps)
    }

    /// Runs a simulation from time zero until the next event is at or after
    /// `t_stop`, then stops the model. After `max_steps` steps it gives up
    /// and leaves the model as it is, so that `resume` can go on.
    /// Returns `true` if `t_stop` was reached.
    pub fn simulate(&mut self, t_stop: u64, max_steps: usize) -> (finished: bool)
        requires
            old(self).model.node().wf(),
        ensures
            final(self).model.node().wf(),
            final(self).model.node() == simulated(old(self).model.node(), t_stop, max_steps as nat),
            finished == (advanced(
                old(self).model.node().started(0),
                t_stop,
                max_steps as nat,
            ).component.t_next >= t_stop),
    {
        let _ = self.model.start(0);
        let finished = self.resume(t_stop, max_steps);
        if finished {
            let t_next = self.model.get_t_next();
            self.model.stop(t_next);
        }
        finished
    }
}

} // verus!
