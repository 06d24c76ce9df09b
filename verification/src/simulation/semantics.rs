//! The meaning of the simulation phases, as functions on model hierarchies.
use crate::modeling::atomic::Atomic;
use crate::modeling::component::ComponentView;
use crate::modeling::coupled::{
    endpoint_known, source_ports, target_ports, BodyView, Coupling, Endpoint, NodeView,
};
use crate::modeling::model::ModelView;
use crate::modeling::port::PortVal;
use crate::time::{earlier, time_after, time_between, INFINITY};
use vstd::prelude::*;

verus! {

/// The messages a coupling reads: the bag of its source port.
pub open spec fn source_values<A: Atomic>(
    parent: ModelView<A::Message>,
    children: Seq<NodeView<A>>,
    from: Endpoint,
) -> Seq<A::Message> {
    source_ports(parent, children, from)[from.port as int].values
}

/// The coupling writes to port `port` of subcomponent `component`, or, where
/// `component` is `None`, to output `port` of the coupled model itself.
pub open spec fn targets(coupling: Coupling, component: Option<int>, port: int) -> bool {
    &&& coupling.to.port == port
    &&& match coupling.to.component {
        None => component.is_none(),
        Some(c) => component == Some(c as int),
    }
}

/// The messages that the first `k` couplings of `table` copy into the given
/// port, in the order of the table.
pub open spec fn delivered<A: Atomic>(
    parent: ModelView<A::Message>,
    children: Seq<NodeView<A>>,
    table: Seq<Coupling>,
    k: int,
    component: Option<int>,
    port: int,
) -> Seq<A::Message>
    decreases k,
{
    if k <= 0 {
        Seq::empty()
    } else {
        let before = delivered(parent, children, table, k - 1, component, port);
        if targets(table[k - 1], component, port) {
            before + source_values(parent, children, table[k - 1].from)
        } else {
            before
        }
    }
}

/// The registry after `more(p)` was appended to the bag of each input port `p`.
pub open spec fn fed<M: PortVal>(model: ModelView<M>, more: spec_fn(int) -> Seq<M>) -> ModelView<M> {
    ModelView {
        inputs: Seq::new(model.inputs.len(), |p: int| model.inputs[p].receiving(more(p))),
        ..model
    }
}

/// The registry after `more(p)` was appended to the bag of each output port `p`.
pub open spec fn emitted<M: PortVal>(model: ModelView<M>, more: spec_fn(int) -> Seq<M>) -> ModelView<M> {
    ModelView {
        outputs: Seq::new(model.outputs.len(), |p: int| model.outputs[p].receiving(more(p))),
        ..model
    }
}

/// The coupled model's own ports after the first `k` couplings of `table` were applied.
pub open spec fn parent_routed<A: Atomic>(
    parent: ModelView<A::Message>,
    children: Seq<NodeView<A>>,
    table: Seq<Coupling>,
    k: int,
) -> ModelView<A::Message> {
    emitted(parent, |p: int| delivered(parent, children, table, k, None, p))
}

/// The component of subcomponent `c` after the first `k` couplings of `table` were applied.
pub open spec fn child_routed<A: Atomic>(
    parent: ModelView<A::Message>,
    children: Seq<NodeView<A>>,
    table: Seq<Coupling>,
    k: int,
    c: int,
) -> ComponentView<A::Message> {
    children[c].component.with_model(
        fed(
            children[c].component.model,
            |p: int| delivered(parent, children, table, k, Some(c), p),
        ),
    )
}

/// The subcomponents after the first `k` couplings of `table` were applied.
pub open spec fn children_routed<A: Atomic>(
    parent: ModelView<A::Message>,
    children: Seq<NodeView<A>>,
    table: Seq<Coupling>,
    k: int,
) -> Seq<NodeView<A>> {
    Seq::new(
        children.len(),
        |c: int|
            NodeView { component: child_routed(parent, children, table, k, c), body: children[c].body },
    )
}

/// Before any coupling is applied, nothing has changed.
pub proof fn lemma_routed_none<A: Atomic>(
    parent: ModelView<A::Message>,
    children: Seq<NodeView<A>>,
    table: Seq<Coupling>,
)
    ensures
        parent_routed(parent, children, table, 0) == parent,
        children_routed(parent, children, table, 0) == children,
{
    let routed = parent_routed(parent, children, table, 0);
    assert forall|p: int| 0 <= p < parent.outputs.len() implies routed.outputs[p]
        == parent.outputs[p] by {
        assert(parent.outputs[p].values + Seq::<A::Message>::empty() =~= parent.outputs[p].values);
    }
    assert(routed.outputs =~= parent.outputs);
    let kept = children_routed(parent, children, table, 0);
    assert forall|c: int| 0 <= c < children.len() implies kept[c] == children[c] by {
        let m = children[c].component.model;
        let port_before = kept[c].component.model;
        assert forall|p: int| 0 <= p < m.inputs.len() implies port_before.inputs[p] == m.inputs[p] by {
            assert(m.inputs[p].values + Seq::<A::Message>::empty() =~= m.inputs[p].values);
        }
        assert(port_before.inputs =~= m.inputs);
    }
    assert(kept =~= children);
}

/// Couplings that do not write to a port deliver nothing to it.
pub proof fn lemma_delivered_nothing<A: Atomic>(
    parent: ModelView<A::Message>,
    children: Seq<NodeView<A>>,
    table: Seq<Coupling>,
    k: int,
    component: Option<int>,
    port: int,
)
    requires
        k <= table.len(),
        forall|j: int| 0 <= j < k ==> !targets(#[trigger] table[j], component, port),
    ensures
        delivered(parent, children, table, k, component, port) == Seq::<A::Message>::empty(),
    decreases k,
{
    if k > 0 {
        lemma_delivered_nothing(parent, children, table, k - 1, component, port);
        assert(!targets(table[k - 1], component, port));
    }
}

/// Couplings that all end at subcomponents leave the ports of the coupled
/// model itself as they are.
pub proof fn lemma_parent_untouched<A: Atomic>(
    parent: ModelView<A::Message>,
    children: Seq<NodeView<A>>,
    table: Seq<Coupling>,
)
    requires
        forall|k: int| 0 <= k < table.len() ==> (#[trigger] table[k]).to.component.is_some(),
    ensures
        parent_routed(parent, children, table, table.len() as int) == parent,
{
    let routed = parent_routed(parent, children, table, table.len() as int);
    assert forall|p: int| 0 <= p < parent.outputs.len() implies routed.outputs[p]
        == parent.outputs[p] by {
        lemma_delivered_nothing(parent, children, table, table.len() as int, None, p);
        assert(parent.outputs[p].values + Seq::<A::Message>::empty() =~= parent.outputs[p].values);
    }
    assert(routed.outputs =~= parent.outputs);
}

/// Couplings that all end at the coupled model itself leave its subcomponents
/// as they are.
pub proof fn lemma_children_untouched<A: Atomic>(
    parent: ModelView<A::Message>,
    children: Seq<NodeView<A>>,
    table: Seq<Coupling>,
)
    requires
        forall|k: int| 0 <= k < table.len() ==> (#[trigger] table[k]).to.component.is_none(),
    ensures
        children_routed(parent, children, table, table.len() as int) == children,
{
    let routed = children_routed(parent, children, table, table.len() as int);
    assert forall|c: int| 0 <= c < children.len() implies routed[c] == children[c] by {
        let m = children[c].component.model;
        let r = routed[c].component.model;
        assert forall|p: int| 0 <= p < m.inputs.len() implies r.inputs[p] == m.inputs[p] by {
            lemma_delivered_nothing(parent, children, table, table.len() as int, Some(c), p);
            assert(m.inputs[p].values + Seq::<A::Message>::empty() =~= m.inputs[p].values);
        }
        assert(r.inputs =~= m.inputs);
    }
    assert(routed =~= children);
}

/// What applying coupling `k` of `table` adds to what the couplings before it did.
pub proof fn lemma_routed_step<A: Atomic>(
    parent: ModelView<A::Message>,
    children: Seq<NodeView<A>>,
    table: Seq<Coupling>,
    k: int,
)
    requires
        0 <= k < table.len(),
        table[k].to.port < target_ports(parent, children, table[k].to).len(),
        endpoint_known(children, table[k].to),
    ensures
        match table[k].to.component {
            None => {
                &&& parent_routed(parent, children, table, k + 1) == parent_routed(
                    parent,
                    children,
                    table,
                    k,
                ).emitting(table[k].to.port as int, source_values(parent, children, table[k].from))
                &&& children_routed(parent, children, table, k + 1) == children_routed(
                    parent,
                    children,
                    table,
                    k,
                )
            },
            Some(c) => {
                &&& parent_routed(parent, children, table, k + 1) == parent_routed(
                    parent,
                    children,
                    table,
                    k,
                )
                &&& children_routed(parent, children, table, k + 1) == children_routed(
                    parent,
                    children,
                    table,
                    k,
                ).update(
                    c as int,
                    NodeView {
                        component: child_routed(parent, children, table, k, c as int).with_model(
                            child_routed(parent, children, table, k, c as int).model.receiving(
                                table[k].to.port as int,
                                source_values(parent, children, table[k].from),
                            ),
                        ),
                        body: children[c as int].body,
                    },
                )
            },
        },
{
    let more = source_values(parent, children, table[k].from);
    let port = table[k].to.port as int;
    let routed = parent_routed(parent, children, table, k);
    let next = parent_routed(parent, children, table, k + 1);
    let kept = children_routed(parent, children, table, k);
    let moved = children_routed(parent, children, table, k + 1);
    match table[k].to.component {
        None => {
            let want = routed.emitting(port, more);
            assert forall|p: int| 0 <= p < parent.outputs.len() implies next.outputs[p]
                == want.outputs[p] by {
                if p == port {
                    assert(targets(table[k], None, p));
                    assert(parent.outputs[p].values + (delivered(
                        parent,
                        children,
                        table,
                        k,
                        None,
                        p,
                    ) + more) =~= (parent.outputs[p].values + delivered(
                        parent,
                        children,
                        table,
                        k,
                        None,
                        p,
                    )) + more);
                } else {
                    assert(!targets(table[k], None, p));
                }
            }
            assert(next.outputs =~= want.outputs);
            assert forall|c: int| 0 <= c < children.len() implies moved[c] == kept[c] by {
                let port_after = moved[c].component.model;
                let port_before = kept[c].component.model;
                assert forall|p: int| 0 <= p < port_before.inputs.len() implies port_after.inputs[p]
                    == port_before.inputs[p] by {
                    assert(!targets(table[k], Some(c), p));
                }
                assert(port_after.inputs =~= port_before.inputs);
            }
            assert(moved =~= kept);
        },
        Some(d) => {
            assert forall|p: int| 0 <= p < parent.outputs.len() implies next.outputs[p]
                == routed.outputs[p] by {
                assert(!targets(table[k], None, p));
            }
            assert(next.outputs =~= routed.outputs);
            let fedc = child_routed(parent, children, table, k, d as int);
            let want = kept.update(
                d as int,
                NodeView {
                    component: fedc.with_model(fedc.model.receiving(port, more)),
                    body: children[d as int].body,
                },
            );
            assert forall|c: int| 0 <= c < children.len() implies moved[c] == want[c] by {
                let port_after = moved[c].component.model;
                let mw = want[c].component.model;
                assert forall|p: int|
                    0 <= p < children[c].component.model.inputs.len() implies port_after.inputs[p]
                    == mw.inputs[p] by {
                    let base = children[c].component.model.inputs[p].values;
                    let before = delivered(parent, children, table, k, Some(c), p);
                    if c == d && p == port {
                        assert(targets(table[k], Some(c), p));
                        assert(base + (before + more) =~= (base + before) + more);
                    } else {
                        assert(!targets(table[k], Some(c), p));
                    }
                }
                assert(port_after.inputs =~= mw.inputs);
            }
            assert(moved =~= want);
        },
    }
}

/// The earliest next event among `nodes`; `INFINITY` if there is no node.
pub open spec fn min_t_next<A: Atomic>(nodes: Seq<NodeView<A>>) -> u64
    decreases nodes.len(),
{
    if nodes.len() == 0 {
        INFINITY
    } else {
        earlier(min_t_next(nodes.drop_last()), nodes.last().component.t_next)
    }
}

/// An atomic model after its transition at time `t`.
///
/// With input and an internal event due, the confluent transition runs and
/// both directions are cleared. With input only, the external transition runs
/// with the time elapsed since the last transition, and the input is cleared.
/// With an internal event only, the internal transition runs and the output is
/// cleared. Otherwise nothing changes.
pub open spec fn atomic_transitioned<A: Atomic>(
    component: ComponentView<A::Message>,
    state: A,
    t: u64,
) -> NodeView<A> {
    let has_input = !component.model.input_empty();
    if has_input && t == component.t_next {
        let next = state.after_conf(component.model);
        NodeView {
            component: ComponentView {
                model: component.model.cleared_output().cleared_input(),
                t_last: t,
                t_next: time_after(t, next.ta_spec()),
            },
            body: BodyView::Atomic(next),
        }
    } else if has_input {
        let next = state.after_ext(time_between(component.t_last, t), component.model);
        NodeView {
            component: ComponentView {
                model: component.model.cleared_input(),
                t_last: t,
                t_next: time_after(t, next.ta_spec()),
            },
            body: BodyView::Atomic(next),
        }
    } else if t == component.t_next {
        let next = state.after_int();
        NodeView {
            component: ComponentView {
                model: component.model.cleared_output(),
                t_last: t,
                t_next: time_after(t, next.ta_spec()),
            },
            body: BodyView::Atomic(next),
        }
    } else {
        NodeView { component, body: BodyView::Atomic(state) }
    }
}

/// The node with the given component and body after its transition at time `t`.
///
/// A coupled model with input first applies its couplings from its own inputs
/// and clears its input. If an internal event is due (`t` is not before its
/// next event), it clears its output. If either happened, every subcomponent
/// makes its transition and the coupled model is rescheduled at the earliest
/// next event among them.
pub open spec fn transitioned<A: Atomic>(
    component: ComponentView<A::Message>,
    body: BodyView<A>,
    t: u64,
) -> NodeView<A>
    decreases body,
{
    match body {
        BodyView::Atomic(state) => atomic_transitioned(component, state, t),
        BodyView::Coupled { children, eics, ics, eocs } => {
            let has_input = !component.model.input_empty();
            let is_internal = t >= component.t_next;
            if has_input || is_internal {
                let model = if has_input {
                    component.model.cleared_input()
                } else {
                    component.model
                };
                let model = if is_internal {
                    model.cleared_output()
                } else {
                    model
                };
                let next = Seq::new(
                    children.len(),
                    |c: int|
                        if 0 <= c < children.len() {
                            transitioned(
                                if has_input {
                                    child_routed(component.model, children, eics, eics.len() as int, c)
                                } else {
                                    children[c].component
                                },
                                children[c].body,
                                t,
                            )
                        } else {
                            arbitrary()
                        },
                );
                NodeView {
                    component: ComponentView { model, t_last: t, t_next: min_t_next(next) },
                    body: BodyView::Coupled { children: next, eics, ics, eocs },
                }
            } else {
                NodeView { component, body }
            }
        },
    }
}

impl<A: Atomic> NodeView<A> {
    /// The node after the start of a simulation at time `t_start`.
    ///
    /// An atomic model runs its start hook and schedules its first internal
    /// event. A coupled model starts every subcomponent and is scheduled at
    /// the earliest next event among them.
    pub open spec fn started(self, t_start: u64) -> NodeView<A>
        decreases self,
    {
        match self.body {
            BodyView::Atomic(state) => {
                let next = state.after_start();
                NodeView {
                    component: self.component.at(t_start, time_after(t_start, next.ta_spec())),
                    body: BodyView::Atomic(next),
                }
            },
            BodyView::Coupled { children, eics, ics, eocs } => {
                let next = Seq::new(
                    children.len(),
                    |c: int|
                        if 0 <= c < children.len() {
                            children[c].started(t_start)
                        } else {
                            arbitrary()
                        },
                );
                NodeView {
                    component: self.component.at(t_start, min_t_next(next)),
                    body: BodyView::Coupled { children: next, eics, ics, eocs },
                }
            },
        }
    }

    /// The node after the end of a simulation at time `t_stop`: nothing is
    /// scheduled any more, and atomic models have run their stop hook.
    pub open spec fn stopped(self, t_stop: u64) -> NodeView<A>
        decreases self,
    {
        match self.body {
            BodyView::Atomic(state) => NodeView {
                component: self.component.at(t_stop, INFINITY),
                body: BodyView::Atomic(state.after_stop()),
            },
            BodyView::Coupled { children, eics, ics, eocs } => NodeView {
                component: self.component.at(t_stop, INFINITY),
                body: BodyView::Coupled {
                    children: Seq::new(
                        children.len(),
                        |c: int|
                            if 0 <= c < children.len() {
                                children[c].stopped(t_stop)
                            } else {
                                arbitrary()
                            },
                    ),
                    eics,
                    ics,
                    eocs,
                },
            },
        }
    }

    /// The subcomponents of the node after each has run its collection phase at time `t`.
    pub open spec fn children_collected(self, t: u64) -> Seq<NodeView<A>>
        decreases self, 0int,
    {
        match self.body {
            BodyView::Atomic(_) => Seq::empty(),
            BodyView::Coupled { children, .. } => Seq::new(
                children.len(),
                |c: int|
                    if 0 <= c < children.len() {
                        children[c].collected(t)
                    } else {
                        arbitrary()
                    },
            ),
        }
    }

    /// The coupled model after the outputs of its subcomponents were copied
    /// along the couplings to its own outputs, and then along the couplings
    /// between subcomponents.
    pub open spec fn outputs_routed(self) -> NodeView<A> {
        let model = parent_routed(
            self.component.model,
            self.children(),
            self.eocs(),
            self.eocs().len() as int,
        );
        NodeView {
            component: self.component.with_model(model),
            body: BodyView::Coupled {
                children: children_routed(
                    model,
                    self.children(),
                    self.ics(),
                    self.ics().len() as int,
                ),
                eics: self.eics(),
                ics: self.ics(),
                eocs: self.eocs(),
            },
        }
    }

    /// The coupled model after its input was copied along the couplings to
    /// inputs of its subcomponents and cleared.
    pub open spec fn inputs_routed(self) -> NodeView<A> {
        NodeView {
            component: self.component.with_model(self.component.model.cleared_input()),
            body: BodyView::Coupled {
                children: children_routed(
                    self.component.model,
                    self.children(),
                    self.eics(),
                    self.eics().len() as int,
                ),
                eics: self.eics(),
                ics: self.ics(),
                eocs: self.eocs(),
            },
        }
    }

    /// The node with its output cleared, if an event is due at `t`.
    pub open spec fn due_cleared(self, t: u64) -> NodeView<A> {
        if t >= self.component.t_next {
            NodeView {
                component: self.component.with_model(self.component.model.cleared_output()),
                body: self.body,
            }
        } else {
            self
        }
    }

    /// The coupled model as its transition at `t` finds its subcomponents:
    /// with its input copied to them and cleared, if it had any, and with its
    /// output cleared, if an event is due.
    pub open spec fn prepared(self, t: u64) -> NodeView<A> {
        if self.component.model.input_empty() {
            self.due_cleared(t)
        } else {
            self.inputs_routed().due_cleared(t)
        }
    }

    /// The transition at `t` has anything to do on the coupled model: it has
    /// input, or an event is due.
    pub open spec fn acts(self, t: u64) -> bool {
        !self.component.model.input_empty() || t >= self.component.t_next
    }

    /// The node after the collection phase at time `t`.
    ///
    /// Nothing happens before the node's next event. At or after it, an atomic
    /// model emits its output. A coupled model lets every subcomponent
    /// collect, then copies outputs of subcomponents to its own outputs, then
    /// copies outputs of subcomponents to inputs of subcomponents.
    pub open spec fn collected(self, t: u64) -> NodeView<A>
        decreases self, 1int,
    {
        if t >= self.component.t_next {
            match self.body {
                BodyView::Atomic(state) => NodeView {
                    component: self.component.with_model(state.output(self.component.model)),
                    body: self.body,
                },
                BodyView::Coupled { children, eics, ics, eocs } => {
                    let emitting = self.children_collected(t);
                    let model = parent_routed(
                        self.component.model,
                        emitting,
                        eocs,
                        eocs.len() as int,
                    );
                    NodeView {
                        component: self.component.with_model(model),
                        body: BodyView::Coupled {
                            children: children_routed(model, emitting, ics, ics.len() as int),
                            eics,
                            ics,
                            eocs,
                        },
                    }
                },
            }
        } else {
            self
        }
    }

    /// The node after its transition at time `t`.
    pub open spec fn after_transition(self, t: u64) -> NodeView<A> {
        transitioned(self.component, self.body, t)
    }
}

} // verus!
