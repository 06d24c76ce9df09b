//! Taking stock of a benchmark model.
use super::model::DEVStoneModel;
use super::TestProbe;
use crate::modeling::coupled::{child_views, BodyView, Coupled, NodeView, Subcomponent};
use vstd::prelude::*;

verus! {

/// The counts of a probe, without an upper limit.
pub struct Tally {
    pub atomics: nat,
    pub eics: nat,
    pub ics: nat,
    pub eocs: nat,
    pub internals: nat,
    pub externals: nat,
    pub events: nat,
}

impl Tally {
    /// Nothing counted.
    pub open spec fn zero() -> Tally {
        Tally { atomics: 0, eics: 0, ics: 0, eocs: 0, internals: 0, externals: 0, events: 0 }
    }

    /// The sum of two tallies.
    pub open spec fn plus(self, other: Tally) -> Tally {
        Tally {
            atomics: self.atomics + other.atomics,
            eics: self.eics + other.eics,
            ics: self.ics + other.ics,
            eocs: self.eocs + other.eocs,
            internals: self.internals + other.internals,
            externals: self.externals + other.externals,
            events: self.events + other.events,
        }
    }
}

/// A count as a probe holds it: no larger than the largest number.
pub open spec fn capped(n: nat) -> usize {
    if n > usize::MAX {
        usize::MAX
    } else {
        n as usize
    }
}

/// The probe holds the tally, each count capped.
pub open spec fn holds(probe: TestProbe, tally: Tally) -> bool {
    &&& probe.n_atomics == capped(tally.atomics)
    &&& probe.n_eics == capped(tally.eics)
    &&& probe.n_ics == capped(tally.ics)
    &&& probe.n_eocs == capped(tally.eocs)
    &&& probe.n_internals == capped(tally.internals)
    &&& probe.n_externals == capped(tally.externals)
    &&& probe.n_events == capped(tally.events)
}

/// The tally of the first `n` nodes of a list.
pub open spec fn tally_of_first(nodes: Seq<NodeView<DEVStoneModel>>, n: int) -> Tally
    decreases nodes, n,
{
    if n <= 0 || n > nodes.len() {
        Tally::zero()
    } else {
        tally_of_first(nodes, n - 1).plus(tally(nodes[n - 1]))
    }
}

/// The tally of a hierarchy: its counting atomic models with what they have
/// counted, and the couplings of its coupled models.
pub open spec fn tally(node: NodeView<DEVStoneModel>) -> Tally
    decreases node,
{
    match node.body {
        BodyView::Atomic(DEVStoneModel::Atomic(a)) => Tally {
            atomics: 1,
            eics: 0,
            ics: 0,
            eocs: 0,
            internals: a.n_internals as nat,
            externals: a.n_externals as nat,
            events: a.n_events as nat,
        },
        BodyView::Atomic(DEVStoneModel::Seeder(_)) => Tally::zero(),
        BodyView::Coupled { children, eics, ics, eocs } => Tally {
            atomics: 0,
            eics: eics.len(),
            ics: ics.len(),
            eocs: eocs.len(),
            internals: 0,
            externals: 0,
            events: 0,
        }.plus(tally_of_first(children, children.len() as int)),
    }
}

/// Adds two probes, count by count; a sum beyond the largest number is the largest number.
fn merge(a: TestProbe, b: TestProbe) -> (sum: TestProbe)
    ensures
        forall|x: Tally, y: Tally| holds(a, x) && holds(b, y) ==> holds(sum, x.plus(y)),
{
    TestProbe {
        n_atomics: a.n_atomics.saturating_add(b.n_atomics),
        n_eics: a.n_eics.saturating_add(b.n_eics),
        n_ics: a.n_ics.saturating_add(b.n_ics),
        n_eocs: a.n_eocs.saturating_add(b.n_eocs),
        n_internals: a.n_internals.saturating_add(b.n_internals),
        n_externals: a.n_externals.saturating_add(b.n_externals),
        n_events: a.n_events.saturating_add(b.n_events),
    }
}

/// Takes stock of a coupled model and everything in it.
pub fn probe_coupled(coupled: &Coupled<DEVStoneModel>) -> (probe: TestProbe)
    ensures
        holds(probe, tally(coupled@)),
    decreases coupled@.body, 0int,
{
    let mut probe = TestProbe {
        n_atomics: 0,
        n_eics: coupled.eics.len(),
        n_ics: coupled.ics.len(),
        n_eocs: coupled.eocs.len(),
        n_internals: 0,
        n_externals: 0,
        n_events: 0,
    };
    let ghost own = Tally {
        atomics: 0,
        eics: coupled@.eics().len(),
        ics: coupled@.ics().len(),
        eocs: coupled@.eocs().len(),
        internals: 0,
        externals: 0,
        events: 0,
    };
    let ghost children = coupled@.children();
    assert(children =~= child_views(coupled.components@));
    assert(own.plus(Tally::zero()) == own);
    let n = coupled.components.len();
    let mut i: usize = 0;
    while i < n
        invariant
            i <= n,
            n == coupled.components@.len(),
            children == coupled@.children(),
            children == child_views(coupled.components@),
            holds(probe, own.plus(tally_of_first(children, i as int))),
        decreases n - i,
    {
        assert(children[i as int] == coupled.components@[i as int]@);
        let below = probe_node(&coupled.components[i]);
        probe = merge(probe, below);
        assert(own.plus(tally_of_first(children, i as int)).plus(tally(children[i as int]))
            == own.plus(tally_of_first(children, i + 1)));
        i = i + 1;
    }
    probe
}

/// Takes stock of a hierarchy.
pub fn probe_node(node: &Subcomponent<DEVStoneModel>) -> (probe: TestProbe)
    ensures
        holds(probe, tally(node@)),
    decreases node@.body, 1int,
{
    match node {
        Subcomponent::Atomic(a) => match &a.model {
            DEVStoneModel::Atomic(m) => TestProbe {
                n_atomics: 1,
                n_eics: 0,
                n_ics: 0,
                n_eocs: 0,
                n_internals: m.n_internals,
                n_externals: m.n_externals,
                n_events: m.n_events,
            },
            DEVStoneModel::Seeder(_) => TestProbe {
                n_atomics: 0,
                n_eics: 0,
                n_ics: 0,
                n_eocs: 0,
                n_internals: 0,
                n_externals: 0,
                n_events: 0,
            },
        },
        Subcomponent::Coupled(c) => probe_coupled(c),
    }
}

} // verus!
