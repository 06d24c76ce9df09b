//! The simulation phases with the subcomponents of each coupled model worked
//! on in parallel. The bags that its couplings read are copied in parallel,
//! and the subcomponents take what is routed to them in parallel; what is
//! routed to the outputs of the coupled model itself is appended in the order
//! of the couplings. The result is the same as that of the sequential phases.
use super::phases::{
    all_wf, deliver, fill, gathered_all, lemma_cleared_wf, lemma_min_t_next_push, lemma_taken,
    lemma_takes_fit, lemma_transition_closed, taken, takes_fit,
};
use super::semantics::{children_routed, lemma_children_untouched, min_t_next, source_values};
use super::simulator::Simulator;
use crate::modeling::atomic::Atomic;
use crate::modeling::component::Component;
use crate::modeling::coupled::{
    child_views, lemma_coupled_wf, lemma_table_wf_same_shape, table_wf, Coupled, Coupling,
    NodeView, Subcomponent,
};
use crate::modeling::model::ModelView;
use crate::time::{min_time, INFINITY};
use rayon::iter::{IndexedParallelIterator, IntoParallelRefMutIterator, ParallelIterator};
use vstd::prelude::*;

verus! {

/// The phases of a simulation.
#[derive(Clone, Copy, Debug, PartialEq, Eq, Structural)]
pub enum Phase {
    Start,
    Stop,
    Collection,
    Transition,
}

impl<A: Atomic> NodeView<A> {
    /// The node after the given phase at time `t`.
    pub open spec fn after(self, phase: Phase, t: u64) -> NodeView<A> {
        match phase {
            Phase::Start => self.started(t),
            Phase::Stop => self.stopped(t),
            Phase::Collection => self.collected(t),
            Phase::Transition => self.after_transition(t),
        }
    }
}

/// Runs a phase on every subcomponent, in parallel.
///
/// This hands the list to rayon's `par_iter_mut` and the phase to its
/// `for_each`. The contract claims what rayon documents: the operation is
/// executed on each item of the list, so that afterwards every subcomponent
/// is what `Subcomponent::par_run` makes of it.
#[verifier::external_body]
fn par_for_each<A: Atomic + Send + Sync>(
    components: &mut Vec<Subcomponent<A>>,
    phase: Phase,
    t: u64,
)
    requires
        all_wf(child_views(old(components)@)),
    ensures
        final(components)@.len() == old(components)@.len(),
        forall|i: int|
            0 <= i < old(components)@.len() ==> (#[trigger] final(components)@[i])@ == old(
                components,
            )@[i]@.after(phase, t) && final(components)@[i]@.wf() && old(
                components,
            )@[i]@.component.model.same_shape(final(components)@[i]@.component.model),
{
    components.par_iter_mut().for_each(|c| c.par_run(phase, t));
}

/// Gathers the bags that the couplings of a table read, side by side.
///
/// This hands the list of bags to rayon's `par_iter_mut`, numbers the bags
/// with its `enumerate` and hands the filling to its `for_each`. The contract
/// claims what rayon documents: each item is yielded with its index and the
/// operation is executed on each, so that afterwards the bag at each place is
/// what `fill` puts there for the coupling at that place.
#[verifier::external_body]
fn par_fill<A: Atomic + Sync>(
    bags: &mut Vec<Vec<A::Message>>,
    component: &Component<A::Message>,
    components: &Vec<Subcomponent<A>>,
    table: &Vec<Coupling>,
)
    requires
        old(bags)@.len() == table@.len(),
        table_wf(component@.model, child_views(components@), table@),
    ensures
        gathered_all(component@.model, child_views(components@), table@, final(bags)@),
{
    bags.par_iter_mut().enumerate().for_each(|(k, bag)| fill(bag, component, components, table, k));
}

/// Returns a copy of the bag that each coupling of `table` reads, in the
/// order of the table. The copies are made side by side.
pub fn par_gather_all<A: Atomic + Sync>(
    component: &Component<A::Message>,
    components: &Vec<Subcomponent<A>>,
    table: &Vec<Coupling>,
) -> (bags: Vec<Vec<A::Message>>)
    requires
        table_wf(component@.model, child_views(components@), table@),
    ensures
        gathered_all(component@.model, child_views(components@), table@, bags@),
{
    let mut bags: Vec<Vec<A::Message>> = Vec::new();
    let n = table.len();
    let mut k: usize = 0;
    while k < n
        invariant
            k <= n,
            bags@.len() == k,
        decreases n - k,
    {
        bags.push(Vec::new());
        k = k + 1;
    }
    par_fill(&mut bags, component, components, table);
    bags
}

/// Lets every subcomponent take the bags gathered for the couplings that
/// end at it, side by side.
///
/// This hands the list to rayon's `par_iter_mut`, numbers the subcomponents
/// with its `enumerate` and hands the taking to its `for_each`. The contract
/// claims what rayon documents: each item is yielded with its index and the
/// operation is executed on each, so that afterwards every subcomponent is
/// what `Subcomponent::take` makes of it at its place.
#[verifier::external_body]
fn par_take<A: Atomic + Send + Sync>(
    components: &mut Vec<Subcomponent<A>>,
    table: &Vec<Coupling>,
    bags: &Vec<Vec<A::Message>>,
)
    requires
        forall|c: int|
            0 <= c < old(components)@.len() ==> (#[trigger] old(components)@[c])@.wf() && takes_fit(
                old(components)@[c]@,
                c as usize,
                table@,
                bags@,
            ),
    ensures
        final(components)@.len() == old(components)@.len(),
        forall|c: int|
            0 <= c < old(components)@.len() ==> (#[trigger] final(components)@[c])@ == taken(
                old(components)@[c]@,
                c as usize,
                table@,
                bags@,
                table@.len() as int,
            ) && final(components)@[c]@.wf() && old(components)@[c]@.component.model.same_shape(
                final(components)@[c]@.component.model,
            ),
{
    components.par_iter_mut().enumerate().for_each(|(c, child)| child.take(c, table, bags));
}

/// Appends the gathered bags to inputs of subcomponents, along the couplings
/// of `table`, which are couplings of a model with the ports `parent`; the
/// subcomponents take their bags side by side.
fn par_deliver<A: Atomic + Send + Sync>(
    components: &mut Vec<Subcomponent<A>>,
    table: &Vec<Coupling>,
    bags: &Vec<Vec<A::Message>>,
    Ghost(parent): Ghost<ModelView<A::Message>>,
)
    requires
        parent.wf(),
        all_wf(child_views(old(components)@)),
        table_wf(parent, child_views(old(components)@), table@),
        gathered_all(parent, child_views(old(components)@), table@, bags@),
    ensures
        child_views(final(components)@) == children_routed(
            parent,
            child_views(old(components)@),
            table@,
            table@.len() as int,
        ),
        all_wf(child_views(final(components)@)),
        forall|c: int|
            0 <= c < old(components)@.len() ==> (#[trigger] old(
                components,
            )@[c])@.component.model.same_shape(final(components)@[c]@.component.model),
{
    let ghost children = child_views(components@);
    let n = components.len();
    proof {
        assert forall|c: int| 0 <= c < n implies (#[trigger] components@[c])@.wf() && takes_fit(
            components@[c]@,
            c as usize,
            table@,
            bags@,
        ) by {
            assert(children[c] == components@[c]@);
            assert(children[c].wf());
            lemma_takes_fit(parent, children, table@, bags@, c as usize);
        }
    }
    par_take(components, table, bags);
    proof {
        let now = child_views(components@);
        let routed = children_routed(parent, children, table@, table@.len() as int);
        assert forall|c: int| 0 <= c < n implies now[c] == routed[c] by {
            assert(now[c] == components@[c]@);
            assert(children[c] == old(components)@[c]@);
            lemma_taken(parent, children, table@, bags@, table@.len() as int, c as usize);
        }
        assert(now =~= routed);
        assert forall|c: int| 0 <= c < n implies (#[trigger] now[c]).wf() by {
            assert(now[c] == components@[c]@);
        }
    }
}

/// Returns the earliest next event among the subcomponents.
fn earliest<A: Atomic>(components: &Vec<Subcomponent<A>>) -> (t_next: u64)
    ensures
        t_next == min_t_next(child_views(components@)),
{
    let ghost views = child_views(components@);
    let n = components.len();
    let mut t_next: u64 = INFINITY;
    let mut i: usize = 0;
    assert(views.subrange(0, 0) =~= Seq::empty());
    while i < n
        invariant
            i <= n,
            n == components@.len(),
            views == child_views(components@),
            t_next == min_t_next(views.subrange(0, i as int)),
        decreases n - i,
    {
        assert(views[i as int] == components@[i as int]@);
        let t = components[i].get_component().get_t_next();
        proof {
            assert(views.subrange(0, i + 1) =~= views.subrange(0, i as int).push(views[i as int]));
            lemma_min_t_next_push(views.subrange(0, i as int), views[i as int]);
        }
        t_next = min_time(t_next, t);
        i = i + 1;
    }
    assert(views.subrange(0, n as int) =~= views);
    t_next
}

impl<A: Atomic + Send + Sync> Coupled<A> {
    /// Appends the gathered bags to the model's own outputs, along the
    /// couplings that lead there, and then to inputs of subcomponents, along
    /// the couplings between subcomponents; the subcomponents take their
    /// bags side by side.
    pub fn par_deliver_outputs(
        &mut self,
        outward: &Vec<Vec<A::Message>>,
        inward: &Vec<Vec<A::Message>>,
    )
        requires
            old(self)@.wf(),
            gathered_all(
                old(self)@.component.model,
                old(self)@.children(),
                old(self)@.eocs(),
                outward@,
            ),
            gathered_all(
                old(self)@.component.model,
                old(self)@.children(),
                old(self)@.ics(),
                inward@,
            ),
        ensures
            final(self)@ == old(self)@.outputs_routed(),
            final(self)@.wf(),
            old(self)@.component.model.same_shape(final(self)@.component.model),
    {
        let ghost parent = self.component@.model;
        let ghost emitting = child_views(self.components@);
        assert(emitting =~= old(self)@.children());
        proof {
            lemma_children_untouched(parent, emitting, self.eocs@);
        }
        deliver(&mut self.component, &mut self.components, &self.eocs, outward);
        let ghost model = self.component@.model;
        assert(child_views(self.components@) == emitting);
        proof {
            lemma_table_wf_same_shape(parent, emitting, model, emitting, self.ics@);
            assert forall|k: int| 0 <= k < self.ics@.len() implies (#[trigger] inward@[k])@
                == source_values(model, emitting, self.ics@[k].from) by {
                assert(self.ics@[k].from.component.is_some());
            }
        }
        par_deliver(&mut self.components, &self.ics, inward, Ghost(model));
        proof {
            assert(self@.children() =~= child_views(self.components@));
            lemma_coupled_wf(old(self)@, self@);
        }
    }

    /// Appends the gathered bags to inputs of subcomponents, along the
    /// couplings from the model's own inputs, and clears the model's input;
    /// the subcomponents take their bags side by side.
    pub fn par_deliver_inputs(&mut self, bags: &Vec<Vec<A::Message>>)
        requires
            old(self)@.wf(),
            gathered_all(
                old(self)@.component.model,
                old(self)@.children(),
                old(self)@.eics(),
                bags@,
            ),
        ensures
            final(self)@ == old(self)@.inputs_routed(),
            final(self)@.wf(),
            old(self)@.component.model.same_shape(final(self)@.component.model),
    {
        assert(child_views(self.components@) =~= old(self)@.children());
        proof {
            lemma_cleared_wf(self.component@.model);
        }
        par_deliver(&mut self.components, &self.eics, bags, Ghost(self.component@.model));
        self.component.clear_input();
        proof {
            assert(self@.children() =~= child_views(self.components@));
            lemma_coupled_wf(old(self)@, self@);
        }
    }

    /// Starts every subcomponent at `t_start`, in parallel, and returns the
    /// earliest next event among them.
    pub fn par_start(&mut self, t_start: u64) -> (t_next: u64)
        requires
            old(self)@.wf(),
        ensures
            final(self)@ == old(self)@.started(t_start),
            final(self)@.wf(),
            t_next == final(self)@.component.t_next,
            old(self)@.component.model.same_shape(final(self)@.component.model),
    {
        assert(child_views(self.components@) =~= old(self)@.children());
        par_for_each(&mut self.components, Phase::Start, t_start);
        let t_next = earliest(&self.components);
        self.component.set_sim_t(t_start, t_next);
        proof {
            let now = child_views(self.components@);
            assert(self@.children() =~= now);
            assert(now =~= old(self)@.started(t_start).children());
            lemma_coupled_wf(old(self)@, self@);
        }
        t_next
    }

    /// Stops every subcomponent at `t_stop`, in parallel.
    pub fn par_stop(&mut self, t_stop: u64)
        requires
            old(self)@.wf(),
        ensures
            final(self)@ == old(self)@.stopped(t_stop),
            final(self)@.wf(),
            old(self)@.component.model.same_shape(final(self)@.component.model),
    {
        assert(child_views(self.components@) =~= old(self)@.children());
        par_for_each(&mut self.components, Phase::Stop, t_stop);
        self.component.set_sim_t(t_stop, INFINITY);
        proof {
            let now = child_views(self.components@);
            assert(self@.children() =~= now);
            assert(now =~= old(self)@.stopped(t_stop).children());
            lemma_coupled_wf(old(self)@, self@);
        }
    }

    /// If an event is due at `t`: lets every subcomponent collect, in
    /// parallel, then copies messages along the couplings to the model's own
    /// outputs, then along the couplings between subcomponents.
    pub fn par_collection(&mut self, t: u64)
        requires
            old(self)@.wf(),
        ensures
            final(self)@ == old(self)@.collected(t),
            final(self)@.wf(),
            old(self)@.component.model.same_shape(final(self)@.component.model),
    {
        if t >= self.component.get_t_next() {
            let ghost before = child_views(self.components@);
            assert(before =~= old(self)@.children());
            par_for_each(&mut self.components, Phase::Collection, t);
            proof {
                let emitting = child_views(self.components@);
                assert(self@.children() =~= emitting);
                assert(emitting =~= old(self)@.children_collected(t));
                lemma_coupled_wf(old(self)@, self@);
            }
            let outward = par_gather_all(&self.component, &self.components, &self.eocs);
            let inward = par_gather_all(&self.component, &self.components, &self.ics);
            self.par_deliver_outputs(&outward, &inward);
        }
    }

    /// Runs the transition of the coupled model at `t`, with the transitions
    /// of its subcomponents in parallel, and returns the time of its next event.
    pub fn par_transition(&mut self, t: u64) -> (t_next: u64)
        requires
            old(self)@.wf(),
        ensures
            final(self)@ == old(self)@.after_transition(t),
            final(self)@.wf(),
            t_next == final(self)@.component.t_next,
            old(self)@.component.model.same_shape(final(self)@.component.model),
    {
        assert(child_views(self.components@) =~= old(self)@.children());
        let has_input = !self.component.is_input_empty();
        if has_input {
            let bags = par_gather_all(&self.component, &self.components, &self.eics);
            self.par_deliver_inputs(&bags);
        }
        let is_internal = self.clear_due_output(t);
        if has_input || is_internal {
            let ghost before = child_views(self.components@);
            assert(before =~= old(self)@.prepared(t).children());
            par_for_each(&mut self.components, Phase::Transition, t);
            let next = earliest(&self.components);
            self.component.set_sim_t(t, next);
            proof {
                let now = child_views(self.components@);
                assert(self@.children() =~= now);
                assert forall|c: int| 0 <= c < before.len() implies (#[trigger] now[c])
                    == before[c].after_transition(t) by {
                    assert(now[c] == before[c].after(Phase::Transition, t));
                }
                lemma_transition_closed(old(self)@, t, self@);
            }
        }
        self.component.get_t_next()
    }
}

impl<A: Atomic + Send + Sync> Subcomponent<A> {
    /// Runs a phase on the node at time `t`; coupled models below it work on
    /// their subcomponents in parallel.
    pub fn par_run(&mut self, phase: Phase, t: u64)
        requires
            old(self)@.wf(),
        ensures
            final(self)@ == old(self)@.after(phase, t),
            final(self)@.wf(),
            old(self)@.component.model.same_shape(final(self)@.component.model),
    {
        match self {
            Subcomponent::Atomic(a) => match phase {
                Phase::Start => {
                    let _ = a.start(t);
                },
                Phase::Stop => a.stop(t),
                Phase::Collection => a.collection(t),
                Phase::Transition => {
                    let _ = a.transition(t);
                },
            },
            Subcomponent::Coupled(c) => match phase {
                Phase::Start => {
                    let _ = c.par_start(t);
                },
                Phase::Stop => c.par_stop(t),
                Phase::Collection => c.par_collection(t),
                Phase::Transition => {
                    let _ = c.par_transition(t);
                },
            },
        }
    }
}

/// A coupled model that is simulated with its subcomponents worked on in parallel.
pub struct ParallelCoupled<A: Atomic> {
    pub coupled: Coupled<A>,
}

impl<A: Atomic + Send + Sync> ParallelCoupled<A> {
    /// Marks a coupled model for parallel simulation.
    pub fn new(coupled: Coupled<A>) -> (p: Self)
        ensures
            p.coupled == coupled,
    {
        ParallelCoupled { coupled }
    }
}

impl<A: Atomic + Send + Sync> Simulator for ParallelCoupled<A> {
    type Model = A;

    open spec fn node(&self) -> NodeView<A> {
        self.coupled@
    }

    fn get_component(&self) -> (component: &Component<A::Message>) {
        &self.coupled.component
    }

    fn set_sim_t(&mut self, t_last: u64, t_next: u64) {
        self.coupled.set_sim_t(t_last, t_next);
    }

    fn clear_input(&mut self) {
        self.coupled.clear_input();
    }

    fn clear_output(&mut self) {
        self.coupled.clear_output();
    }

    fn start(&mut self, t_start: u64) -> (t_next: u64) {
        self.coupled.par_start(t_start)
    }

    fn stop(&mut self, t_stop: u64) {
        self.coupled.par_stop(t_stop)
    }

    fn collection(&mut self, t: u64) {
        self.coupled.par_collection(t)
    }

    fn transition(&mut self, t: u64) -> (t_next: u64) {
        self.coupled.par_transition(t)
    }
}

} // verus!
