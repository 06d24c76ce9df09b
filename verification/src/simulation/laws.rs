//! Properties of the simulation phases that hold for every model hierarchy.
use super::root_coordinator::advanced;
use super::semantics::{child_routed, delivered, min_t_next, targets, transitioned};
use crate::modeling::atomic::Atomic;
use crate::modeling::component::ComponentView;
use crate::modeling::coupled::{
    coupling_valid, source_ports, target_ports, BodyView, Coupling, NodeView,
};
use crate::modeling::port::{all_of_kind, PortView};
use crate::modeling::model::lemma_all_cleared;
use crate::time::{lemma_time_after_monotone, INFINITY};
use vstd::prelude::*;

verus! {

/// An internal event of the node is due at `t`: an atomic model fires exactly
/// at its next event, a coupled model at or after it.
pub open spec fn internal_due<A: Atomic>(node: NodeView<A>, t: u64) -> bool {
    match node.body {
        BodyView::Atomic(_) => t == node.component.t_next,
        BodyView::Coupled { .. } => t >= node.component.t_next,
    }
}

/// The transition at `t` does something: there is input or an internal event is due.
pub open spec fn fires<A: Atomic>(node: NodeView<A>, t: u64) -> bool {
    !node.component.model.input_empty() || internal_due(node, t)
}

/// No event of the node or of any node below it is scheduled before `t`.
pub open spec fn not_before<A: Atomic>(node: NodeView<A>, t: u64) -> bool
    decreases node,
{
    &&& node.component.t_next >= t
    &&& forall|c: int|
        0 <= c < node.children().len() ==> not_before(#[trigger] node.children()[c], t)
}

/// Phase cleanup: after the transition of a node, its input bags are empty,
/// and if an internal event was due, so are its output bags.
pub proof fn law_phase_cleanup<A: Atomic>(node: NodeView<A>, t: u64)
    ensures
        node.after_transition(t).component.model.input_empty(),
        internal_due(node, t) ==> node.after_transition(t).component.model.output_empty(),
{
    let model = node.component.model;
    lemma_all_cleared(model.inputs);
    lemma_all_cleared(model.outputs);
    lemma_all_cleared(model.cleared_output().inputs);
    lemma_all_cleared(model.cleared_input().outputs);
}

/// The earliest next event of a list is not before `t` if no node of the list
/// has its next event before `t`.
pub proof fn lemma_min_t_next_bound<A: Atomic>(nodes: Seq<NodeView<A>>, t: u64)
    requires
        forall|c: int| 0 <= c < nodes.len() ==> (#[trigger] nodes[c]).component.t_next >= t,
    ensures
        min_t_next(nodes) >= t,
    decreases nodes.len(),
{
    if nodes.len() > 0 {
        assert forall|c: int| 0 <= c < nodes.drop_last().len() implies (
        #[trigger] nodes.drop_last()[c]).component.t_next >= t by {
            assert(nodes.drop_last()[c] == nodes[c]);
        }
        lemma_min_t_next_bound(nodes.drop_last(), t);
        assert(nodes.last() == nodes[nodes.len() - 1]);
    }
}

/// A transition at `t` schedules nothing before `t`, provided nothing was
/// scheduled before `t` when it began.
pub proof fn lemma_transition_not_before<A: Atomic>(
    component: ComponentView<A::Message>,
    body: BodyView<A>,
    t: u64,
)
    requires
        not_before(NodeView { component, body }, t),
    ensures
        not_before(transitioned(component, body, t), t),
    decreases body,
{
    let node = NodeView { component, body };
    let after = transitioned(component, body, t);
    match body {
        BodyView::Atomic(state) => {
            lemma_time_after_monotone(t, state.after_int().ta_spec());
            lemma_time_after_monotone(t, state.after_conf(component.model).ta_spec());
            lemma_time_after_monotone(
                t,
                state.after_ext(
                    crate::time::time_between(component.t_last, t),
                    component.model,
                ).ta_spec(),
            );
            assert(after.children() =~= Seq::empty());
        },
        BodyView::Coupled { children, eics, ics, eocs } => {
            if fires(node, t) {
                let has_input = !component.model.input_empty();
                let next = after.children();
                assert forall|c: int| 0 <= c < next.len() implies not_before(
                    #[trigger] next[c],
                    t,
                ) by {
                    assert(not_before(node.children()[c], t));
                    let fed = if has_input {
                        child_routed(component.model, children, eics, eics.len() as int, c)
                    } else {
                        children[c].component
                    };
                    assert(not_before(NodeView { component: fed, body: children[c].body }, t)) by {
                        assert((NodeView { component: fed, body: children[c].body }).children()
                            == children[c].children());
                    }
                    lemma_transition_not_before(fed, children[c].body, t);
                }
                lemma_min_t_next_bound(next, t);
            }
        },
    }
}

/// Monotone time: a transition at a time `t` that is not before the node's
/// last transition, and not after any event still scheduled in it, leaves the
/// time of the last transition where it was or moves it forward to `t`, and
/// schedules the next event no earlier than the last transition.
pub proof fn law_monotone_time<A: Atomic>(node: NodeView<A>, t: u64)
    requires
        node.component.t_last <= t,
        node.component.t_last <= node.component.t_next,
        not_before(node, t),
    ensures
        node.component.t_last <= node.after_transition(t).component.t_last,
        node.after_transition(t).component.t_last <= node.after_transition(t).component.t_next,
        fires(node, t) ==> node.after_transition(t).component.t_last == t,
        !fires(node, t) ==> node.after_transition(t) == node,
        not_before(node.after_transition(t), t),
{
    lemma_transition_not_before(node.component, node.body, t);
}

/// Coupled schedule: right after its start, and right after a transition that
/// did something, a coupled model is scheduled at the earliest next event
/// among its subcomponents. A transition that did nothing changed nothing.
pub proof fn law_coupled_schedule<A: Atomic>(node: NodeView<A>, t: u64)
    requires
        node.is_coupled(),
    ensures
        node.started(t).component.t_next == min_t_next(node.started(t).children()),
        fires(node, t) ==> node.after_transition(t).component.t_next == min_t_next(
            node.after_transition(t).children(),
        ),
        !fires(node, t) ==> node.after_transition(t) == node,
{
}

/// Type-safe routing: in a well-formed coupled model, the two ports of every
/// coupling exist and carry the same element type.
pub proof fn law_typed_couplings<A: Atomic>(node: NodeView<A>, coupling: Coupling)
    requires
        node.wf(),
        node.eics().contains(coupling) || node.ics().contains(coupling) || node.eocs().contains(
            coupling,
        ),
    ensures
        coupling.from.port < source_ports(
            node.component.model,
            node.children(),
            coupling.from,
        ).len(),
        coupling.to.port < target_ports(node.component.model, node.children(), coupling.to).len(),
        source_ports(
            node.component.model,
            node.children(),
            coupling.from,
        )[coupling.from.port as int].kind == target_ports(
            node.component.model,
            node.children(),
            coupling.to,
        )[coupling.to.port as int].kind,
{
}

/// The ports that couplings can write to: the outputs of the coupled model
/// where `component` is `None`, else the inputs of that subcomponent.
pub open spec fn written_ports<A: Atomic>(node: NodeView<A>, component: Option<int>) -> Seq<
    PortView<A::Message>,
> {
    match component {
        None => node.component.model.outputs,
        Some(c) => node.children()[c].component.model.inputs,
    }
}

/// Type-safe routing: whatever the couplings of a well-formed coupled model
/// copy into a port is of the element type of that port. This holds of each
/// of the three tables and of every part of a table that has been applied.
pub proof fn law_typed_routing<A: Atomic>(
    node: NodeView<A>,
    table: Seq<Coupling>,
    k: int,
    component: Option<int>,
    port: int,
)
    requires
        node.wf(),
        node.is_coupled(),
        table == node.eics() || table == node.ics() || table == node.eocs(),
        k <= table.len(),
        component is Some ==> 0 <= component->Some_0 < node.children().len(),
        0 <= port < written_ports(node, component).len(),
    ensures
        all_of_kind(
            delivered(node.component.model, node.children(), table, k, component, port),
            written_ports(node, component)[port].kind,
        ),
    decreases k,
{
    if k > 0 {
        law_typed_routing(node, table, k - 1, component, port);
        let coupling = table[k - 1];
        if targets(coupling, component, port) {
            let parent = node.component.model;
            let children = node.children();
            assert(coupling_valid(parent, children, coupling));
            let source = source_ports(parent, children, coupling.from)[coupling.from.port as int];
            match coupling.from.component {
                None => {
                    assert(parent.inputs[coupling.from.port as int].wf());
                },
                Some(c) => {
                    assert(children[c as int].wf());
                    assert(children[c as int].component.model.outputs[coupling.from.port as int].wf());
                },
            }
            assert(source.wf());
            assert(target_ports(parent, children, coupling.to) == written_ports(node, component));
        }
    }
}

/// No double coupling: in a well-formed coupled model, no table holds the
/// same pair of ports twice.
pub proof fn law_no_double_coupling<A: Atomic>(node: NodeView<A>, j: int, k: int)
    requires
        node.wf(),
        j != k,
    ensures
        0 <= j < node.eics().len() && 0 <= k < node.eics().len() ==> node.eics()[j] != node.eics()[k],
        0 <= j < node.ics().len() && 0 <= k < node.ics().len() ==> node.ics()[j] != node.ics()[k],
        0 <= j < node.eocs().len() && 0 <= k < node.eocs().len() ==> node.eocs()[j] != node.eocs()[k],
{
}

/// Idempotent collection: before the next event of a node, its collection
/// phase changes nothing.
pub proof fn law_idle_collection<A: Atomic>(node: NodeView<A>, t: u64)
    requires
        t < node.component.t_next,
    ensures
        node.collected(t) == node,
{
}

/// A passive model stays passive: an atomic model that is never scheduled and
/// receives no input is left unchanged by the collection and by the
/// transition at any time that can be reached, and a simulation makes no step
/// with it.
pub proof fn law_passive_model<A: Atomic>(node: NodeView<A>, t: u64, t_stop: u64, steps: nat)
    requires
        node.body is Atomic,
        node.component.t_next == INFINITY,
        node.component.model.input_empty(),
        t < INFINITY,
    ensures
        node.collected(t) == node,
        node.after_transition(t) == node,
        advanced(node, t_stop, steps) == node,
{
}

/// An atomic model whose time advance is infinite is never scheduled: neither
/// by its start nor by any of its transitions.
pub proof fn law_infinite_time_advance<A: Atomic>(node: NodeView<A>, t: u64)
    requires
        node.body is Atomic,
    ensures
        node.started(t).body->Atomic_0.ta_spec() == INFINITY ==> node.started(
            t,
        ).component.t_next == INFINITY,
        fires(node, t) && node.after_transition(t).body->Atomic_0.ta_spec() == INFINITY
            ==> node.after_transition(t).component.t_next == INFINITY,
{
}

} // verus!
