//! Real-time simulation: the decisions of a driver that follows a wall clock.
//!
//! Waiting and reading the clock are left to the caller. The functions here
//! say how long to wait, which virtual time a clock reading stands for, and
//! what the simulator does with it.
use super::root_coordinator::RootCoordinator;
use super::simulator::Simulator;
use crate::time::{earlier, min_time, INFINITY};
use vstd::prelude::*;

verus! {

/// What a clock reading means for the model.
#[derive(Clone, Copy, Debug, PartialEq, Eq, Structural)]
pub enum RtEvent {
    /// The next internal event is due: outputs have been collected and wait
    /// to be handed out; the transition is to follow.
    Internal,
    /// Input arrived before the next internal event: the transition is to follow.
    External,
    /// Neither: there is nothing to do but wait again.
    Spurious,
}

impl<T: Simulator> RootCoordinator<T> {
    /// Returns the virtual time up to which the driver may wait: the next
    /// event of the model, or the end of the simulation if that comes first.
    pub fn rt_deadline(&self, t_stop: u64) -> (t_until: u64)
        ensures
            t_until == earlier(self.model.node().component.t_next, t_stop),
    {
        min_time(self.model.get_t_next(), t_stop)
    }

    /// Takes notice that the virtual time `t` has been reached.
    ///
    /// If the next internal event is due, the collection phase runs. If it
    /// is not, nothing changes, and the result tells whether input waits for
    /// a transition or the wakeup was spurious.
    pub fn rt_event(&mut self, t: u64) -> (event: RtEvent)
        requires
            old(self).model.node().wf(),
        ensures
            final(self).model.node().wf(),
            t >= old(self).model.node().component.t_next ==> event == RtEvent::Internal
                && final(self).model.node() == old(self).model.node().collected(t),
            t < old(self).model.node().component.t_next ==> final(self).model.node() == old(
                self,
            ).model.node() && event == if old(self).model.node().component.model.input_empty() {
                RtEvent::Spurious
            } else {
                RtEvent::External
            },
    {
        if t >= self.model.get_t_next() {
            self.model.collection(t);
            RtEvent::Internal
        } else if self.model.get_component().is_input_empty() {
            RtEvent::Spurious
        } else {
            RtEvent::External
        }
    }

    /// Runs the transition at the virtual time `t` and returns the time of
    /// the next internal event.
    pub fn rt_transition(&mut self, t: u64) -> (t_next: u64)
        requires
            old(self).model.node().wf(),
        ensures
            final(self).model.node().wf(),
            final(self).model.node() == old(self).model.node().after_transition(t),
            t_next == final(self).model.node().component.t_next,
    {
        self.model.transition(t)
    }
}

/// The wall clock ran further past a deadline than allowed.
#[derive(Clone, Copy, Debug, PartialEq, Eq, Structural)]
pub struct JitterExceeded {
    /// How far past the deadline the clock was, in clock units.
    pub jitter: u64,
}

/// The relation between virtual time and a wall clock.
///
/// The clock counts in units of its own; `time_scale` of them make one tick
/// of virtual time.
pub struct RtClock {
    pub time_scale: u64,
    pub max_jitter: Option<u64>,
    pub start_rt: u64,
    pub last_rt: u64,
    pub last_vt: u64,
}

impl RtClock {
    /// The last clock reading stands for the last virtual time: it lies in
    /// the stretch of the clock that belongs to that tick.
    pub open spec fn wf(self) -> bool {
        &&& self.time_scale > 0
        &&& self.start_rt + self.last_vt * self.time_scale <= self.last_rt
        &&& self.last_rt < self.start_rt + (self.last_vt + 1) * self.time_scale
    }

    /// The clock reading at which the virtual time `t_next` is due, or `None`
    /// if the clock never reads it. A later tick is due when it begins; the
    /// tick of the last reading is due at that reading.
    pub open spec fn due(self, t_next: u64) -> Option<u64> {
        let at = if t_next == self.last_vt {
            self.last_rt as int
        } else {
            self.start_rt + t_next * self.time_scale
        };
        if t_next == INFINITY || at > u64::MAX {
            None
        } else {
            Some(at as u64)
        }
    }

    /// The virtual time that the clock reading `now` stands for.
    pub open spec fn virtual_time(self, now: u64) -> u64 {
        ((now - self.start_rt) / (self.time_scale as int)) as u64
    }

    /// The clock reading `now` is at or past the time at which `t_next` is due.
    pub open spec fn on_time(self, t_next: u64, now: u64) -> bool {
        self.due(t_next) is Some && now >= self.due(t_next)->Some_0
    }

    /// The clock reading `now` is further past the time at which `t_next` is
    /// due than the jitter allowed.
    pub open spec fn too_late(self, t_next: u64, now: u64) -> bool {
        &&& self.on_time(t_next, now)
        &&& self.max_jitter is Some
        &&& now - self.due(t_next)->Some_0 > self.max_jitter->Some_0
    }

    /// Starts a clock at the reading `now`, which stands for virtual time zero.
    pub fn new(time_scale: u64, max_jitter: Option<u64>, now: u64) -> (clock: RtClock)
        requires
            time_scale > 0,
        ensures
            clock.wf(),
            clock == (RtClock { time_scale, max_jitter, start_rt: now, last_rt: now, last_vt: 0 }),
    {
        assert(0 * time_scale == 0 && (0 + 1) * time_scale == time_scale) by (nonlinear_arith);
        RtClock { time_scale, max_jitter, start_rt: now, last_rt: now, last_vt: 0 }
    }

    /// Returns the clock reading at which the virtual time `t_next` is due,
    /// or `None` if the driver has to wait without a limit.
    pub fn deadline(&self, t_next: u64) -> (at: Option<u64>)
        requires
            self.wf(),
            t_next >= self.last_vt,
        ensures
            at == self.due(t_next),
    {
        if t_next == INFINITY {
            return None;
        }
        if t_next == self.last_vt {
            return Some(self.last_rt);
        }
        match t_next.checked_mul(self.time_scale) {
            Some(span) => self.start_rt.checked_add(span),
            None => None,
        }
    }

    /// Takes the clock reading `now`, made after waiting for `t_next`, and
    /// returns the virtual time that has been reached.
    ///
    /// At or past the deadline that is `t_next` itself, unless the clock is
    /// further past it than the jitter allowed. Before the deadline it is the
    /// virtual time that the reading stands for, which is before `t_next`: the
    /// awaited time is returned exactly when the clock has reached its
    /// deadline.
    pub fn arrive(&mut self, t_next: u64, now: u64) -> (r: Result<u64, JitterExceeded>)
        requires
            old(self).wf(),
            t_next >= old(self).last_vt,
            now >= old(self).last_rt,
        ensures
            final(self).wf(),
            final(self).time_scale == old(self).time_scale,
            final(self).max_jitter == old(self).max_jitter,
            final(self).start_rt == old(self).start_rt,
            old(self).too_late(t_next, now) ==> r == Err::<u64, JitterExceeded>(
                JitterExceeded { jitter: (now - old(self).due(t_next)->Some_0) as u64 },
            ) && *final(self) == *old(self),
            !old(self).too_late(t_next, now) && old(self).on_time(t_next, now) ==> r == Ok::<
                u64,
                JitterExceeded,
            >(t_next) && final(self).last_vt == t_next && final(self).last_rt == old(self).due(
                t_next,
            )->Some_0,
            !old(self).on_time(t_next, now) ==> r == Ok::<u64, JitterExceeded>(
                old(self).virtual_time(now),
            ) && final(self).last_vt == old(self).virtual_time(now) && final(self).last_rt == now,
            r is Ok ==> old(self).last_vt <= r->Ok_0 <= t_next,
            t_next < INFINITY ==> (r == Ok::<u64, JitterExceeded>(t_next) <==> old(self).on_time(
                t_next,
                now,
            ) && !old(self).too_late(t_next, now)),
    {
        let due = self.deadline(t_next);
        match due {
            Some(next_rt) => {
                if now >= next_rt {
                    let jitter = now - next_rt;
                    match self.max_jitter {
                        Some(max) => {
                            if jitter > max {
                                return Err(JitterExceeded { jitter });
                            }
                        },
                        None => {},
                    }
                    assert((t_next + 1) * self.time_scale == t_next * self.time_scale
                        + self.time_scale) by (nonlinear_arith);
                    self.last_rt = next_rt;
                    self.last_vt = t_next;
                    return Ok(t_next);
                }
            },
            None => {},
        }
        let elapsed = now - self.start_rt;
        let vt = elapsed / self.time_scale;
        proof {
            lemma_reading(
                self.start_rt as int,
                self.last_rt as int,
                self.last_vt as int,
                t_next as int,
                self.time_scale as int,
                now as int,
            );
        }
        self.last_rt = now;
        self.last_vt = vt;
        Ok(vt)
    }
}

/// A clock reading before the beginning of a later tick stands for a virtual
/// time from the last one on and before that tick.
proof fn lemma_reading(start: int, last_rt: int, last_vt: int, t_next: int, scale: int, now: int)
    requires
        scale > 0,
        0 <= last_vt <= t_next,
        start + last_vt * scale <= last_rt < start + (last_vt + 1) * scale,
        last_rt <= now,
        now < start + t_next * scale || t_next >= u64::MAX,
        now <= u64::MAX,
        start >= 0,
    ensures
        last_vt <= (now - start) / scale,
        (now - start) / scale <= t_next,
        now < start + t_next * scale ==> (now - start) / scale < t_next,
        start + ((now - start) / scale) * scale <= now < start + ((now - start) / scale + 1)
            * scale,
{
    let x = now - start;
    let q = x / scale;
    assert(x == scale * q + x % scale && 0 <= x % scale < scale) by (nonlinear_arith)
        requires
            scale > 0,
            x >= 0,
            q == x / scale,
    ;
    assert(q * scale == scale * q) by (nonlinear_arith);
    assert((q + 1) * scale == scale * q + scale) by (nonlinear_arith);
    assert((last_vt + 1) * scale == last_vt * scale + scale) by (nonlinear_arith);
    assert(last_vt <= q) by (nonlinear_arith)
        requires
            scale > 0,
            last_vt * scale <= x,
            x < scale * q + scale,
    ;
    if now < start + t_next * scale {
        assert(q < t_next) by (nonlinear_arith)
            requires
                scale > 0,
                scale * q <= x,
                x < t_next * scale,
        ;
    } else {
        assert(q <= x) by (nonlinear_arith)
            requires
                scale > 0,
                x >= 0,
                x == scale * q + x % scale,
                0 <= x % scale,
                q == x / scale,
        ;
    }
}

} // verus!
