//! Couplings grouped by destination.
//!
//! What a table of couplings delivers to a port depends only on the couplings
//! that end at that port, in their order. Couplings that end at different
//! ports may therefore be applied in any order, or side by side.
use super::semantics::{
    child_routed, children_routed, delivered, parent_routed, source_values, targets,
};
use crate::modeling::atomic::Atomic;
use crate::modeling::coupled::{
    all_eics, all_eocs, all_ics, coupling_valid, table_wf, Coupled, Coupling, Endpoint, NodeView,
};
use crate::modeling::model::ModelView;
use vstd::prelude::*;

verus! {

/// The couplings among the first `k` of `table` that end at the given port, in
/// the order of the table.
pub open spec fn restricted(table: Seq<Coupling>, k: int, component: Option<int>, port: int) -> Seq<
    Coupling,
>
    decreases k,
{
    if k <= 0 {
        Seq::empty()
    } else {
        let before = restricted(table, k - 1, component, port);
        if targets(table[k - 1], component, port) {
            before.push(table[k - 1])
        } else {
            before
        }
    }
}

/// The messages that the couplings of `group` read, one bag after the other.
pub open spec fn gathered<A: Atomic>(
    parent: ModelView<A::Message>,
    children: Seq<NodeView<A>>,
    group: Seq<Coupling>,
) -> Seq<A::Message>
    decreases group.len(),
{
    if group.len() == 0 {
        Seq::empty()
    } else {
        gathered(parent, children, group.drop_last()) + source_values(
            parent,
            children,
            group.last().from,
        )
    }
}

/// Two tables hold, for every port, the same couplings that end there, in the same order.
pub open spec fn same_by_destination(a: Seq<Coupling>, b: Seq<Coupling>) -> bool {
    forall|component: Option<int>, port: int|
        restricted(a, a.len() as int, component, port) == restricted(
            b,
            b.len() as int,
            component,
            port,
        )
}

/// The couplings that end at one port stand side by side in the table.
pub open spec fn grouped(table: Seq<Coupling>) -> bool {
    forall|i: int, j: int, k: int|
        0 <= i < j < k < table.len() && table[i].to == table[k].to ==> table[j].to == table[i].to
}

/// The port that an endpoint stands for.
pub open spec fn place(end: Endpoint) -> (Option<int>, int) {
    (
        match end.component {
            Some(c) => Some(c as int),
            None => None,
        },
        end.port as int,
    )
}

/// One of the first `i` couplings of the table ends at the destination `to`.
pub open spec fn seen(table: Seq<Coupling>, i: int, to: Endpoint) -> bool {
    exists|m: int| 0 <= m < i && (#[trigger] table[m]).to == to
}

/// One of the first `i` couplings of the table ends at the given port.
pub open spec fn reached(table: Seq<Coupling>, i: int, component: Option<int>, port: int) -> bool {
    exists|m: int| 0 <= m < i && targets(#[trigger] table[m], component, port)
}

/// The coupling is one of the first `j` of the table.
pub open spec fn taken(table: Seq<Coupling>, j: int, coupling: Coupling) -> bool {
    exists|m: int| 0 <= m < j && #[trigger] table[m] == coupling
}

/// No coupling occurs twice in the table.
pub open spec fn distinct(table: Seq<Coupling>) -> bool {
    forall|x: int, y: int|
        0 <= x < table.len() && 0 <= y < table.len() && x != y ==> table[x] != table[y]
}

/// A coupling ends at the port that its destination stands for, and at no other.
pub proof fn lemma_targets_place(coupling: Coupling, component: Option<int>, port: int)
    ensures
        targets(coupling, component, port) <==> place(coupling.to) == (component, port),
{
}

/// What is delivered to a port is what the couplings that end there gather.
pub proof fn lemma_delivered_is_gathered<A: Atomic>(
    parent: ModelView<A::Message>,
    children: Seq<NodeView<A>>,
    table: Seq<Coupling>,
    k: int,
    component: Option<int>,
    port: int,
)
    requires
        k <= table.len(),
    ensures
        delivered(parent, children, table, k, component, port) == gathered(
            parent,
            children,
            restricted(table, k, component, port),
        ),
    decreases k,
{
    if k > 0 {
        lemma_delivered_is_gathered(parent, children, table, k - 1, component, port);
        let before = restricted(table, k - 1, component, port);
        if targets(table[k - 1], component, port) {
            assert(before.push(table[k - 1]).drop_last() =~= before);
        }
    }
}

/// Routing by destination: tables that hold, for every port, the same
/// couplings ending there in the same order, route the same messages to the
/// same ports, whatever the order among couplings that end at different ports.
pub proof fn law_routing_by_destination<A: Atomic>(
    parent: ModelView<A::Message>,
    children: Seq<NodeView<A>>,
    a: Seq<Coupling>,
    b: Seq<Coupling>,
)
    requires
        same_by_destination(a, b),
    ensures
        parent_routed(parent, children, a, a.len() as int) == parent_routed(
            parent,
            children,
            b,
            b.len() as int,
        ),
        children_routed(parent, children, a, a.len() as int) == children_routed(
            parent,
            children,
            b,
            b.len() as int,
        ),
{
    assert forall|component: Option<int>, port: int|
        delivered(parent, children, a, a.len() as int, component, port) == delivered(
            parent,
            children,
            b,
            b.len() as int,
            component,
            port,
        ) by {
        lemma_delivered_is_gathered(parent, children, a, a.len() as int, component, port);
        lemma_delivered_is_gathered(parent, children, b, b.len() as int, component, port);
        assert(restricted(a, a.len() as int, component, port) == restricted(
            b,
            b.len() as int,
            component,
            port,
        ));
    }
    let pa = parent_routed(parent, children, a, a.len() as int);
    let pb = parent_routed(parent, children, b, b.len() as int);
    assert(pa.outputs =~= pb.outputs);
    let ca = children_routed(parent, children, a, a.len() as int);
    let cb = children_routed(parent, children, b, b.len() as int);
    assert forall|c: int| 0 <= c < children.len() implies ca[c] == cb[c] by {
        assert(ca[c].component.model.inputs =~= cb[c].component.model.inputs);
    }
    assert(ca =~= cb);
}

/// The couplings that end at a port, taken from the first `k` of a table, do
/// not depend on what follows in the table.
pub proof fn lemma_restricted_prefix(
    a: Seq<Coupling>,
    b: Seq<Coupling>,
    k: int,
    component: Option<int>,
    port: int,
)
    requires
        k <= a.len(),
        k <= b.len(),
        forall|i: int| 0 <= i < k ==> a[i] == b[i],
    ensures
        restricted(a, k, component, port) == restricted(b, k, component, port),
    decreases k,
{
    if k > 0 {
        lemma_restricted_prefix(a, b, k - 1, component, port);
    }
}

/// No coupling among the first `k` ends at the port, so none is found there.
pub proof fn lemma_restricted_none(table: Seq<Coupling>, k: int, component: Option<int>, port: int)
    requires
        k <= table.len(),
        forall|i: int| 0 <= i < k ==> !targets(#[trigger] table[i], component, port),
    ensures
        restricted(table, k, component, port) == Seq::<Coupling>::empty(),
    decreases k,
{
    if k > 0 {
        lemma_restricted_none(table, k - 1, component, port);
    }
}

/// Every coupling found at a port is one of the table and ends at that port.
pub proof fn lemma_restricted_members(
    table: Seq<Coupling>,
    k: int,
    component: Option<int>,
    port: int,
    i: int,
)
    requires
        k <= table.len(),
        0 <= i < restricted(table, k, component, port).len(),
    ensures
        targets(restricted(table, k, component, port)[i], component, port),
        exists|m: int| 0 <= m < k && #[trigger] table[m] == restricted(table, k, component, port)[i],
    decreases k,
{
    if k > 0 {
        let before = restricted(table, k - 1, component, port);
        if i < before.len() {
            lemma_restricted_members(table, k - 1, component, port, i);
            let m = choose|m: int|
                0 <= m < k - 1 && #[trigger] table[m] == restricted(
                    table,
                    k - 1,
                    component,
                    port,
                )[i];
            assert(0 <= m < k && table[m] == restricted(table, k, component, port)[i]);
        } else {
            assert(table[k - 1] == restricted(table, k, component, port)[i]);
        }
    }
}

/// Tells whether a coupling before position `i` ends where coupling `i` ends.
fn seen_before(table: &Vec<Coupling>, i: usize) -> (seen: bool)
    requires
        i < table@.len(),
    ensures
        seen == self::seen(table@, i as int, table@[i as int].to),
{
    let mut m: usize = 0;
    while m < i
        invariant
            m <= i < table@.len(),
            forall|x: int| 0 <= x < m ==> (#[trigger] table@[x]).to != table@[i as int].to,
        decreases i - m,
    {
        if table[m].to == table[i].to {
            return true;
        }
        m = m + 1;
    }
    false
}

/// Returns the couplings of a table in groups: for each destination, in the
/// order in which the destinations first occur, the couplings that end there,
/// in the order of the table.
pub fn group_by_destination(table: &Vec<Coupling>) -> (groups: Vec<Coupling>)
    ensures
        same_by_destination(groups@, table@),
        grouped(groups@),
        forall|i: int| 0 <= i < groups@.len() ==> table@.contains(#[trigger] groups@[i]),
        distinct(table@) ==> distinct(groups@),
{
    let mut groups: Vec<Coupling> = Vec::new();
    let n = table.len();
    let mut i: usize = 0;
    while i < n
        invariant
            i <= n,
            n == table@.len(),
            grouped(groups@),
            distinct(table@) ==> distinct(groups@),
            forall|x: int| 0 <= x < groups@.len() ==> table@.contains(#[trigger] groups@[x]),
            forall|x: int|
                0 <= x < groups@.len() ==> seen(table@, i as int, (#[trigger] groups@[x]).to),
            forall|component: Option<int>, port: int|
                #[trigger] restricted(groups@, groups@.len() as int, component, port)
                    == if reached(table@, i as int, component, port) {
                    restricted(table@, n as int, component, port)
                } else {
                    Seq::<Coupling>::empty()
                },
        decreases n - i,
    {
        if !seen_before(table, i) {
            let ghost start = groups@;
            let ghost to = table@[i as int].to;
            let ghost here = place(to);
            let mut j: usize = i;
            proof {
                assert forall|x: int| 0 <= x < start.len() implies start[x].to != to by {
                    assert(seen(table@, i as int, start[x].to));
                }
                assert forall|m: int| 0 <= m < i implies !targets(
                    #[trigger] table@[m],
                    here.0,
                    here.1,
                ) by {
                    lemma_targets_place(table@[m], here.0, here.1);
                    assert(place(table@[m].to) == here ==> table@[m].to == to);
                }
                lemma_restricted_none(table@, i as int, here.0, here.1);
            }
            while j < n
                invariant
                    i <= j <= n,
                    n == table@.len(),
                    to == table@[i as int].to,
                    here == place(to),
                    start.len() <= groups@.len(),
                    forall|x: int| 0 <= x < start.len() ==> groups@[x] == start[x],
                    forall|x: int| start.len() <= x < groups@.len() ==> groups@[x].to == to,
                    forall|x: int| 0 <= x < start.len() ==> start[x].to != to,
                    grouped(start),
                    distinct(table@) ==> distinct(groups@),
                    forall|x: int|
                        start.len() <= x < groups@.len() ==> taken(
                            table@,
                            j as int,
                            #[trigger] groups@[x],
                        ),
                    forall|x: int| 0 <= x < groups@.len() ==> table@.contains(#[trigger] groups@[x]),
                    restricted(groups@, groups@.len() as int, here.0, here.1) == restricted(
                        table@,
                        j as int,
                        here.0,
                        here.1,
                    ),
                    forall|component: Option<int>, port: int|
                        (component, port) != here ==> restricted(
                            groups@,
                            groups@.len() as int,
                            component,
                            port,
                        ) == restricted(start, start.len() as int, component, port),
                decreases n - j,
            {
                let ghost sofar = groups@;
                if table[j].to == table[i].to {
                    groups.push(table[j]);
                    proof {
                        let c = table@[j as int];
                        lemma_targets_place(c, here.0, here.1);
                        lemma_restricted_prefix(
                            groups@,
                            sofar,
                            sofar.len() as int,
                            here.0,
                            here.1,
                        );
                        assert forall|component: Option<int>, port: int|
                            (component, port) != here implies restricted(
                            groups@,
                            groups@.len() as int,
                            component,
                            port,
                        ) == restricted(start, start.len() as int, component, port) by {
                            lemma_targets_place(c, component, port);
                            lemma_restricted_prefix(
                                groups@,
                                sofar,
                                sofar.len() as int,
                                component,
                                port,
                            );
                        }
                        assert(table@.contains(c));
                        assert forall|x: int| start.len() <= x < groups@.len() implies taken(
                            table@,
                            j + 1,
                            #[trigger] groups@[x],
                        ) by {
                            if x < sofar.len() {
                                assert(taken(table@, j as int, sofar[x]));
                                let m = choose|m: int| 0 <= m < j && #[trigger] table@[m] == sofar[x];
                                assert(0 <= m < j + 1 && table@[m] == groups@[x]);
                            } else {
                                assert(table@[j as int] == groups@[x]);
                            }
                        }
                        if distinct(table@) {
                            assert forall|x: int, y: int|
                                0 <= x < groups@.len() && 0 <= y < groups@.len() && x
                                    != y implies groups@[x] != groups@[y] by {
                                let last = sofar.len() as int;
                                if x < last && y < last {
                                    assert(sofar[x] != sofar[y]);
                                } else {
                                    let other = if x < last {
                                        x
                                    } else {
                                        y
                                    };
                                    if other < start.len() {
                                        assert(start[other].to != to);
                                    } else {
                                        assert(taken(table@, j as int, sofar[other]));
                                        let m = choose|m: int|
                                            0 <= m < j && #[trigger] table@[m] == sofar[other];
                                        assert(table@[m] != table@[j as int]);
                                    }
                                }
                            }
                        }
                    }
                } else {
                    proof {
                        lemma_targets_place(table@[j as int], here.0, here.1);
                        assert(place(table@[j as int].to) == here ==> table@[j as int].to == to);
                        assert forall|x: int| start.len() <= x < groups@.len() implies taken(
                            table@,
                            j + 1,
                            #[trigger] groups@[x],
                        ) by {
                            assert(taken(table@, j as int, groups@[x]));
                            let m = choose|m: int| 0 <= m < j && #[trigger] table@[m] == groups@[x];
                            assert(0 <= m < j + 1 && table@[m] == groups@[x]);
                        }
                    }
                }
                j = j + 1;
            }
            proof {
                assert forall|a: int, b: int, c: int|
                    0 <= a < b < c < groups@.len() && groups@[a].to == groups@[c].to implies groups@[b].to
                    == groups@[a].to by {
                    if c < start.len() {
                        assert(groups@[a] == start[a] && groups@[b] == start[b] && groups@[c]
                            == start[c]);
                        assert(start[a].to == start[c].to);
                        assert(start[b].to == start[a].to);
                    } else if a >= start.len() {
                        assert(groups@[a].to == to && groups@[b].to == to);
                    } else {
                        assert(groups@[c].to == to);
                        assert(start[a].to != to);
                    }
                }
                assert forall|x: int| 0 <= x < groups@.len() implies seen(
                    table@,
                    i + 1,
                    (#[trigger] groups@[x]).to,
                ) by {
                    if x < start.len() {
                        assert(seen(table@, i as int, start[x].to));
                        let m = choose|m: int| 0 <= m < i && (#[trigger] table@[m]).to == start[x].to;
                        assert(0 <= m < i + 1 && table@[m].to == groups@[x].to);
                    } else {
                        assert(table@[i as int].to == groups@[x].to);
                    }
                }
                assert forall|component: Option<int>, port: int|
                    #[trigger] restricted(groups@, groups@.len() as int, component, port)
                        == if reached(table@, i + 1, component, port) {
                        restricted(table@, n as int, component, port)
                    } else {
                        Seq::<Coupling>::empty()
                    } by {
                    lemma_targets_place(table@[i as int], component, port);
                    if (component, port) == here {
                        assert(targets(table@[i as int], component, port));
                    } else {
                        assert(restricted(groups@, groups@.len() as int, component, port)
                            == restricted(start, start.len() as int, component, port));
                        if reached(table@, i + 1, component, port) {
                            let m = choose|m: int|
                                0 <= m < i + 1 && targets(#[trigger] table@[m], component, port);
                            assert(m < i);
                            assert(reached(table@, i as int, component, port));
                        } else {
                            assert(!reached(table@, i as int, component, port));
                        }
                    }
                }
            }
        } else {
            proof {
                let m0 = choose|m: int|
                    0 <= m < i && (#[trigger] table@[m]).to == table@[i as int].to;
                assert forall|component: Option<int>, port: int|
                    #[trigger] reached(table@, i + 1, component, port) == reached(
                        table@,
                        i as int,
                        component,
                        port,
                    ) by {
                    if reached(table@, i + 1, component, port) {
                        let m = choose|m: int|
                            0 <= m < i + 1 && targets(#[trigger] table@[m], component, port);
                        if m == i {
                            lemma_targets_place(table@[i as int], component, port);
                            lemma_targets_place(table@[m0], component, port);
                            assert(targets(table@[m0], component, port));
                        }
                    }
                    if reached(table@, i as int, component, port) {
                        let m = choose|m: int|
                            0 <= m < i && targets(#[trigger] table@[m], component, port);
                        assert(0 <= m < i + 1 && targets(table@[m], component, port));
                    }
                }
                assert forall|x: int| 0 <= x < groups@.len() implies seen(
                    table@,
                    i + 1,
                    (#[trigger] groups@[x]).to,
                ) by {
                    assert(seen(table@, i as int, groups@[x].to));
                    let m = choose|m: int| 0 <= m < i && (#[trigger] table@[m]).to == groups@[x].to;
                    assert(0 <= m < i + 1 && table@[m].to == groups@[x].to);
                }
            }
        }
        i = i + 1;
    }
    proof {
        assert forall|component: Option<int>, port: int|
            restricted(groups@, groups@.len() as int, component, port) == restricted(
                table@,
                n as int,
                component,
                port,
            ) by {
            if !reached(table@, n as int, component, port) {
                assert forall|m: int| 0 <= m < n implies !targets(
                    #[trigger] table@[m],
                    component,
                    port,
                ) by {}
                lemma_restricted_none(table@, n as int, component, port);
            }
        }
    }
    groups
}

/// Two coupled models differ at most in the order of their couplings, and
/// hold, for every port, the same couplings ending there in the same order.
pub open spec fn regrouped<A: Atomic>(a: NodeView<A>, b: NodeView<A>) -> bool {
    &&& a.is_coupled()
    &&& b.is_coupled()
    &&& a.component == b.component
    &&& a.children() == b.children()
    &&& same_by_destination(a.eics(), b.eics())
    &&& same_by_destination(a.ics(), b.ics())
    &&& same_by_destination(a.eocs(), b.eocs())
}

/// Grouping keeps the phases: two coupled models that differ only in the
/// order among couplings that end at different ports have the same ports,
/// the same timestamps and the same subcomponents after any phase.
pub proof fn law_regrouped_phases<A: Atomic>(a: NodeView<A>, b: NodeView<A>, t: u64)
    requires
        regrouped(a, b),
    ensures
        a.started(t).component == b.started(t).component,
        a.started(t).children() == b.started(t).children(),
        a.stopped(t).component == b.stopped(t).component,
        a.stopped(t).children() == b.stopped(t).children(),
        a.collected(t).component == b.collected(t).component,
        a.collected(t).children() == b.collected(t).children(),
        a.after_transition(t).component == b.after_transition(t).component,
        a.after_transition(t).children() == b.after_transition(t).children(),
{
    let parent = a.component.model;
    let children = a.children();
    assert(a.started(t).children() =~= b.started(t).children());
    assert(a.stopped(t).children() =~= b.stopped(t).children());
    let emitting = a.children_collected(t);
    assert(emitting =~= b.children_collected(t));
    law_routing_by_destination(parent, emitting, a.eocs(), b.eocs());
    let outward = parent_routed(parent, emitting, a.eocs(), a.eocs().len() as int);
    law_routing_by_destination(outward, emitting, a.ics(), b.ics());
    law_routing_by_destination(parent, children, a.eics(), b.eics());
    let routed_a = children_routed(parent, children, a.eics(), a.eics().len() as int);
    let routed_b = children_routed(parent, children, b.eics(), b.eics().len() as int);
    assert forall|c: int| 0 <= c < children.len() implies child_routed(
        parent,
        children,
        a.eics(),
        a.eics().len() as int,
        c,
    ) == child_routed(parent, children, b.eics(), b.eics().len() as int, c) by {
        assert(routed_a[c].component == routed_b[c].component);
    }
    assert(a.after_transition(t).children() =~= b.after_transition(t).children());
}

impl<A: Atomic> Coupled<A> {
    /// Puts the couplings of each table in groups by destination. The order
    /// among couplings that end at the same port is kept, so that every phase
    /// does to ports and subcomponents what it did before.
    pub fn group_couplings(&mut self)
        requires
            old(self)@.wf(),
        ensures
            final(self)@.wf(),
            regrouped(old(self)@, final(self)@),
            grouped(final(self)@.eics()),
            grouped(final(self)@.ics()),
            grouped(final(self)@.eocs()),
    {
        let eics = group_by_destination(&self.eics);
        let ics = group_by_destination(&self.ics);
        let eocs = group_by_destination(&self.eocs);
        proof {
            let parent = self@.component.model;
            let children = self@.children();
            lemma_regrouped_table_wf(parent, children, self.eics@, eics@);
            lemma_regrouped_table_wf(parent, children, self.ics@, ics@);
            lemma_regrouped_table_wf(parent, children, self.eocs@, eocs@);
        }
        self.eics = eics;
        self.ics = ics;
        self.eocs = eocs;
        proof {
            assert(self@.children() =~= old(self)@.children());
            assert forall|a: Option<int>, p: int|
                restricted(old(self)@.eics(), old(self)@.eics().len() as int, a, p) == restricted(
                    self@.eics(),
                    self@.eics().len() as int,
                    a,
                    p,
                ) by {}
            assert forall|a: Option<int>, p: int|
                restricted(old(self)@.ics(), old(self)@.ics().len() as int, a, p) == restricted(
                    self@.ics(),
                    self@.ics().len() as int,
                    a,
                    p,
                ) by {}
            assert forall|a: Option<int>, p: int|
                restricted(old(self)@.eocs(), old(self)@.eocs().len() as int, a, p) == restricted(
                    self@.eocs(),
                    self@.eocs().len() as int,
                    a,
                    p,
                ) by {}
        }
    }
}

/// A table made of couplings of a well-formed table, each once, is well formed,
/// and its couplings are of the kinds that the couplings of that table are of.
pub proof fn lemma_regrouped_table_wf<A: Atomic>(
    parent: ModelView<A::Message>,
    children: Seq<NodeView<A>>,
    table: Seq<Coupling>,
    groups: Seq<Coupling>,
)
    requires
        table_wf(parent, children, table),
        forall|i: int| 0 <= i < groups.len() ==> table.contains(#[trigger] groups[i]),
        distinct(table) ==> distinct(groups),
    ensures
        table_wf(parent, children, groups),
        all_eics(table) ==> all_eics(groups),
        all_ics(table) ==> all_ics(groups),
        all_eocs(table) ==> all_eocs(groups),
{
    assert forall|k: int| 0 <= k < groups.len() implies coupling_valid(
        parent,
        children,
        #[trigger] groups[k],
    ) by {
        assert(table.contains(groups[k]));
        let m = choose|m: int| 0 <= m < table.len() && table[m] == groups[k];
        assert(coupling_valid(parent, children, table[m]));
    }
    assert forall|k: int| 0 <= k < groups.len() implies (all_eics(table)
        ==> (#[trigger] groups[k]).from.component.is_none() && groups[k].to.component.is_some())
        && (all_ics(table) ==> groups[k].from.component.is_some()
        && groups[k].to.component.is_some()) && (all_eocs(table)
        ==> groups[k].from.component.is_some() && groups[k].to.component.is_none()) by {
        assert(table.contains(groups[k]));
        let m = choose|m: int| 0 <= m < table.len() && table[m] == groups[k];
        assert(table[m] == groups[k]);
    }
    assert(distinct(table));
}

} // verus!
