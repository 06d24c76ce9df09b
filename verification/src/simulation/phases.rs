//! The simulation phases, carried out on atomic simulators, coupled models and
//! subcomponents.
use super::semantics::{
    children_routed, lemma_children_untouched, lemma_parent_untouched, lemma_routed_none,
    lemma_routed_step, min_t_next, parent_routed, source_values,
};
use crate::event::Event;
use crate::modeling::atomic::Atomic;
use crate::modeling::component::{
    ejected, event_texts, injected, Component, ComponentView, Error,
};
use crate::modeling::coupled::{
    child_views, coupling_valid, lemma_coupled_wf, lemma_table_wf_same_shape, source_ports,
    table_wf, target_ports, AtomicSimulator, BodyView, Coupled, Coupling, NodeView, Subcomponent,
};
use crate::modeling::model::{
    lemma_all_cleared, lemma_receiving, lemma_same_shape_layout, ModelView,
};
use crate::modeling::port::{all_of_kind, PortVal};
use crate::time::{advance, elapsed, min_time, INFINITY};
use vstd::prelude::*;

verus! {

/// A well-formed node stays well formed when its ports are replaced by
/// well-formed ports of the same names and element types.
pub proof fn lemma_wf_with_model<A: Atomic>(node: NodeView<A>, model: ModelView<A::Message>)
    requires
        node.wf(),
        model.wf(),
        node.component.model.same_shape(model),
    ensures
        (NodeView { component: node.component.with_model(model), body: node.body }).wf(),
{
    let after = NodeView { component: node.component.with_model(model), body: node.body };
    let before = node.component.model;
    match node.body {
        BodyView::Atomic(state) => {
            lemma_same_shape_layout(before, model);
        },
        BodyView::Coupled { children, eics, ics, eocs } => {
            assert forall|c: Coupling| coupling_valid(before, children, c) implies coupling_valid(
                model,
                children,
                c,
            ) by {
                assert(source_ports(before, children, c.from).len() == source_ports(
                    model,
                    children,
                    c.from,
                ).len());
                assert(target_ports(before, children, c.to).len() == target_ports(
                    model,
                    children,
                    c.to,
                ).len());
            }
            assert(table_wf(model, children, eics));
            assert(table_wf(model, children, ics));
            assert(table_wf(model, children, eocs));
        },
    }
}

/// Emptying the bags of one direction keeps a registry well formed and of the same shape.
pub proof fn lemma_cleared_wf<M: PortVal>(model: ModelView<M>)
    requires
        model.wf(),
    ensures
        model.cleared_input().wf(),
        model.cleared_output().wf(),
        model.same_shape(model.cleared_input()),
        model.same_shape(model.cleared_output()),
        model.cleared_input().input_empty(),
        model.cleared_output().output_empty(),
{
    lemma_all_cleared(model.inputs);
    lemma_all_cleared(model.outputs);
}

/// Copies a bag.
fn copy_values<M: PortVal>(values: &Vec<M>) -> (copy: Vec<M>)
    ensures
        copy@ == values@,
{
    let mut copy: Vec<M> = Vec::new();
    let n = values.len();
    let mut i: usize = 0;
    while i < n
        invariant
            i <= n,
            n == values@.len(),
            copy@ == values@.subrange(0, i as int),
        decreases n - i,
    {
        copy.push(values[i]);
        assert(copy@ =~= values@.subrange(0, i + 1));
        i = i + 1;
    }
    assert(values@.subrange(0, n as int) =~= values@);
    copy
}

impl<A: Atomic> Subcomponent<A> {
    /// Returns the component of the node.
    pub fn get_component(&self) -> (component: &Component<A::Message>)
        ensures
            component@ == self@.component,
    {
        match self {
            Subcomponent::Atomic(a) => &a.component,
            Subcomponent::Coupled(c) => &c.component,
        }
    }

    /// Appends `values` to the bag of input port `port` of the node.
    pub fn receive(&mut self, port: usize, values: &Vec<A::Message>)
        requires
            old(self)@.wf(),
            port < old(self)@.component.model.inputs.len(),
            all_of_kind(values@, old(self)@.component.model.inputs[port as int].kind),
        ensures
            final(self)@ == (NodeView {
                component: old(self)@.component.with_model(
                    old(self)@.component.model.receiving(port as int, values@),
                ),
                body: old(self)@.body,
            }),
            final(self)@.wf(),
    {
        proof {
            let before = old(self)@.component.model;
            lemma_receiving(before.inputs, port as int, values@);
            lemma_wf_with_model(old(self)@, before.receiving(port as int, values@));
        }
        match self {
            Subcomponent::Atomic(a) => {
                a.component.get_model_mut().receive(port, values);
            },
            Subcomponent::Coupled(c) => {
                c.component.get_model_mut().receive(port, values);
            },
        }
    }
}

/// Every node of the list is well formed.
pub open spec fn all_wf<A: Atomic>(nodes: Seq<NodeView<A>>) -> bool {
    forall|i: int| 0 <= i < nodes.len() ==> (#[trigger] nodes[i]).wf()
}

/// Every bag holds what the coupling at its place in the table reads.
pub open spec fn gathered_all<A: Atomic>(
    parent: ModelView<A::Message>,
    children: Seq<NodeView<A>>,
    table: Seq<Coupling>,
    bags: Seq<Vec<A::Message>>,
) -> bool {
    &&& bags.len() == table.len()
    &&& forall|k: int|
        0 <= k < table.len() ==> (#[trigger] bags[k])@ == source_values(
            parent,
            children,
            table[k].from,
        )
}

/// Returns a copy of the bag that coupling `k` of the table reads.
pub fn gather<A: Atomic>(
    component: &Component<A::Message>,
    components: &Vec<Subcomponent<A>>,
    table: &Vec<Coupling>,
    k: usize,
) -> (values: Vec<A::Message>)
    requires
        k < table@.len(),
        coupling_valid(component@.model, child_views(components@), table@[k as int]),
    ensures
        values@ == source_values(component@.model, child_views(components@), table@[k as int].from),
{
    let coupling = table[k];
    match coupling.from.component {
        None => copy_values(component.get_model().in_port(coupling.from.port).get_values()),
        Some(c) => {
            assert(child_views(components@)[c as int] == components@[c as int]@);
            copy_values(
                components[c].get_component().get_model().out_port(coupling.from.port).get_values(),
            )
        },
    }
}

/// Puts a copy of the bag that coupling `k` of the table reads in place of `bag`.
pub fn fill<A: Atomic>(
    bag: &mut Vec<A::Message>,
    component: &Component<A::Message>,
    components: &Vec<Subcomponent<A>>,
    table: &Vec<Coupling>,
    k: usize,
)
    requires
        k < table@.len(),
        coupling_valid(component@.model, child_views(components@), table@[k as int]),
    ensures
        final(bag)@ == source_values(
            component@.model,
            child_views(components@),
            table@[k as int].from,
        ),
{
    *bag = gather(component, components, table, k);
}

/// The bags gathered for the couplings that end at subcomponent `c`, which
/// is `node`, go to input ports that it has and hold their element types.
pub open spec fn takes_fit<A: Atomic>(
    node: NodeView<A>,
    c: usize,
    table: Seq<Coupling>,
    bags: Seq<Vec<A::Message>>,
) -> bool {
    &&& bags.len() == table.len()
    &&& forall|k: int|
        0 <= k < table.len() && (#[trigger] table[k]).to.component == Some(c) ==> table[k].to.port
            < node.component.model.inputs.len() && all_of_kind(
            bags[k]@,
            node.component.model.inputs[table[k].to.port as int].kind,
        )
}

/// Subcomponent `c`, which is `node`, after the bags of those of the first
/// `k` couplings that end at it were appended to its inputs, in the order of
/// the table.
pub open spec fn taken<A: Atomic>(
    node: NodeView<A>,
    c: usize,
    table: Seq<Coupling>,
    bags: Seq<Vec<A::Message>>,
    k: int,
) -> NodeView<A>
    decreases k,
{
    if k <= 0 {
        node
    } else {
        let before = taken(node, c, table, bags, k - 1);
        if table[k - 1].to.component == Some(c) {
            NodeView {
                component: before.component.with_model(
                    before.component.model.receiving(table[k - 1].to.port as int, bags[k - 1]@),
                ),
                body: before.body,
            }
        } else {
            before
        }
    }
}

/// What a subcomponent takes from the gathered bags is what the couplings
/// route to it.
pub proof fn lemma_taken<A: Atomic>(
    parent: ModelView<A::Message>,
    children: Seq<NodeView<A>>,
    table: Seq<Coupling>,
    bags: Seq<Vec<A::Message>>,
    k: int,
    c: usize,
)
    requires
        table_wf(parent, children, table),
        gathered_all(parent, children, table, bags),
        0 <= k <= table.len(),
        c < children.len(),
    ensures
        taken(children[c as int], c, table, bags, k) == children_routed(
            parent,
            children,
            table,
            k,
        )[c as int],
    decreases k,
{
    if k == 0 {
        lemma_routed_none(parent, children, table);
    } else {
        lemma_taken(parent, children, table, bags, k - 1, c);
        assert(coupling_valid(parent, children, table[k - 1]));
        lemma_routed_step(parent, children, table, k - 1);
        assert(bags[k - 1]@ == source_values(parent, children, table[k - 1].from));
    }
}

/// The bags gathered for valid couplings fit the subcomponents they go to.
pub proof fn lemma_takes_fit<A: Atomic>(
    parent: ModelView<A::Message>,
    children: Seq<NodeView<A>>,
    table: Seq<Coupling>,
    bags: Seq<Vec<A::Message>>,
    c: usize,
)
    requires
        parent.wf(),
        all_wf(children),
        table_wf(parent, children, table),
        gathered_all(parent, children, table, bags),
        c < children.len(),
    ensures
        takes_fit(children[c as int], c, table, bags),
{
    assert forall|k: int|
        0 <= k < table.len() && (#[trigger] table[k]).to.component == Some(
            c,
        ) implies table[k].to.port < children[c as int].component.model.inputs.len() && all_of_kind(
        bags[k]@,
        children[c as int].component.model.inputs[table[k].to.port as int].kind,
    ) by {
        let coupling = table[k];
        assert(coupling_valid(parent, children, coupling));
        assert(bags[k]@ == source_values(parent, children, coupling.from));
        match coupling.from.component {
            None => {
                assert(parent.inputs[coupling.from.port as int].wf());
            },
            Some(d) => {
                assert(children[d as int].wf());
                assert(children[d as int].component.model.outputs[coupling.from.port as int].wf());
            },
        }
    }
}

impl<A: Atomic> Subcomponent<A> {
    /// Appends to the inputs of the node, which is subcomponent `c`, the bags
    /// gathered for the couplings of `table` that end at it, in the order of
    /// the table.
    pub fn take(&mut self, c: usize, table: &Vec<Coupling>, bags: &Vec<Vec<A::Message>>)
        requires
            old(self)@.wf(),
            takes_fit(old(self)@, c, table@, bags@),
        ensures
            final(self)@ == taken(old(self)@, c, table@, bags@, table@.len() as int),
            final(self)@.wf(),
            old(self)@.component.model.same_shape(final(self)@.component.model),
    {
        let n = table.len();
        let mut k: usize = 0;
        while k < n
            invariant
                k <= n,
                n == table@.len(),
                takes_fit(old(self)@, c, table@, bags@),
                self@ == taken(old(self)@, c, table@, bags@, k as int),
                self@.wf(),
                old(self)@.component.model.same_shape(self@.component.model),
            decreases n - k,
        {
            let coupling = table[k];
            let ends_here = match coupling.to.component {
                Some(d) => d == c,
                None => false,
            };
            if ends_here {
                assert(table@[k as int].to.component == Some(c));
                proof {
                    lemma_receiving(
                        self@.component.model.inputs,
                        coupling.to.port as int,
                        bags@[k as int]@,
                    );
                }
                self.receive(coupling.to.port, &bags[k]);
            }
            k = k + 1;
        }
    }
}

/// Appends to the destination of each coupling of `table`, in the order of
/// the table, the bag that was gathered for it.
pub fn deliver<A: Atomic>(
    component: &mut Component<A::Message>,
    components: &mut Vec<Subcomponent<A>>,
    table: &Vec<Coupling>,
    bags: &Vec<Vec<A::Message>>,
)
    requires
        old(component)@.model.wf(),
        all_wf(child_views(old(components)@)),
        table_wf(old(component)@.model, child_views(old(components)@), table@),
        gathered_all(old(component)@.model, child_views(old(components)@), table@, bags@),
    ensures
        final(component)@ == old(component)@.with_model(
            parent_routed(
                old(component)@.model,
                child_views(old(components)@),
                table@,
                table@.len() as int,
            ),
        ),
        child_views(final(components)@) == children_routed(
            old(component)@.model,
            child_views(old(components)@),
            table@,
            table@.len() as int,
        ),
        final(component)@.model.wf(),
        old(component)@.model.same_shape(final(component)@.model),
        all_wf(child_views(final(components)@)),
{
    let ghost parent = component@.model;
    let ghost children = child_views(components@);
    proof {
        lemma_routed_none(parent, children, table@);
    }
    let n = table.len();
    let mut k: usize = 0;
    while k < n
        invariant
            k <= n,
            n == table@.len(),
            parent == old(component)@.model,
            children == child_views(old(components)@),
            parent.wf(),
            all_wf(children),
            table_wf(parent, children, table@),
            gathered_all(parent, children, table@, bags@),
            components@.len() == children.len(),
            component@ == old(component)@.with_model(
                parent_routed(parent, children, table@, k as int),
            ),
            child_views(components@) == children_routed(parent, children, table@, k as int),
            component@.model.wf(),
            parent.same_shape(component@.model),
            all_wf(child_views(components@)),
        decreases n - k,
    {
        let coupling = table[k];
        let values = &bags[k];
        proof {
            assert(coupling_valid(parent, children, table@[k as int]));
            lemma_routed_step(parent, children, table@, k as int);
            assert(values@ == source_values(parent, children, coupling.from));
            match coupling.from.component {
                None => {
                    assert(parent.inputs[coupling.from.port as int].wf());
                },
                Some(c) => {
                    assert(children[c as int].wf());
                    assert(children[c as int].component.model.outputs[coupling.from.port as int].wf());
                },
            }
        }
        let ghost now = child_views(components@);
        match coupling.to.component {
            None => {
                proof {
                    lemma_receiving(component@.model.outputs, coupling.to.port as int, values@);
                }
                component.get_model_mut().emit(coupling.to.port, values);
            },
            Some(c) => {
                assert(now[c as int] == components@[c as int]@);
                assert(now[c as int].wf());
                components[c].receive(coupling.to.port, values);
                assert(child_views(components@) =~= now.update(c as int, components@[c as int]@));
            },
        }
        k = k + 1;
    }
}

/// Returns a copy of the bag that each coupling of `table` reads, in the
/// order of the table.
pub fn gather_all<A: Atomic>(
    component: &Component<A::Message>,
    components: &Vec<Subcomponent<A>>,
    table: &Vec<Coupling>,
) -> (bags: Vec<Vec<A::Message>>)
    requires
        table_wf(component@.model, child_views(components@), table@),
    ensures
        gathered_all(component@.model, child_views(components@), table@, bags@),
{
    let mut bags: Vec<Vec<A::Message>> = Vec::new();
    let n = table.len();
    let mut k: usize = 0;
    while k < n
        invariant
            k <= n,
            n == table@.len(),
            table_wf(component@.model, child_views(components@), table@),
            bags@.len() == k,
            forall|j: int|
                0 <= j < k ==> (#[trigger] bags@[j])@ == source_values(
                    component@.model,
                    child_views(components@),
                    table@[j].from,
                ),
        decreases n - k,
    {
        assert(coupling_valid(component@.model, child_views(components@), table@[k as int]));
        let values = gather(component, components, table, k);
        bags.push(values);
        k = k + 1;
    }
    bags
}

impl<A: Atomic> AtomicSimulator<A> {
    /// Joins the state of an atomic model with the component that holds its ports.
    pub fn new(component: Component<A::Message>, model: A) -> (s: Self)
        requires
            component@.model.wf(),
            model.wf(component@.model.layout()),
        ensures
            s@ == (NodeView { component: component@, body: BodyView::Atomic(model) }),
            s@.wf(),
    {
        AtomicSimulator { component, model }
    }

    /// Starts the simulation at `t_start` and returns the time of the first internal event.
    pub fn start(&mut self, t_start: u64) -> (t_next: u64)
        requires
            old(self)@.wf(),
        ensures
            final(self)@ == old(self)@.started(t_start),
            final(self)@.wf(),
            t_next == final(self)@.component.t_next,
            final(self)@.component.model == old(self)@.component.model,
    {
        self.model.start();
        let t_next = advance(t_start, self.model.ta());
        self.component.set_sim_t(t_start, t_next);
        t_next
    }

    /// Stops the simulation at `t_stop`.
    pub fn stop(&mut self, t_stop: u64)
        requires
            old(self)@.wf(),
        ensures
            final(self)@ == old(self)@.stopped(t_stop),
            final(self)@.wf(),
            final(self)@.component.model == old(self)@.component.model,
    {
        self.component.set_sim_t(t_stop, INFINITY);
        self.model.stop();
    }

    /// Runs the output function if an internal event is due at `t`.
    pub fn collection(&mut self, t: u64)
        requires
            old(self)@.wf(),
        ensures
            final(self)@ == old(self)@.collected(t),
            final(self)@.wf(),
            old(self)@.component.model.same_shape(final(self)@.component.model),
    {
        if t >= self.component.get_t_next() {
            self.model.lambda(self.component.get_model_mut());
            proof {
                lemma_same_shape_layout(old(self)@.component.model, self@.component.model);
            }
        }
    }

    /// Runs the transition that is due at `t`, if any, and returns the time of
    /// the next internal event.
    pub fn transition(&mut self, t: u64) -> (t_next: u64)
        requires
            old(self)@.wf(),
        ensures
            final(self)@ == old(self)@.after_transition(t),
            final(self)@.wf(),
            t_next == final(self)@.component.t_next,
            old(self)@.component.model.same_shape(final(self)@.component.model),
    {
        let t_next = self.component.get_t_next();
        proof {
            lemma_cleared_wf(self@.component.model);
            lemma_cleared_wf(self@.component.model.cleared_output());
        }
        if !self.component.is_input_empty() {
            if t == t_next {
                self.model.delta_conf(self.component.get_model());
                self.component.clear_output();
            } else {
                let e = elapsed(self.component.get_t_last(), t);
                self.model.delta_ext(e, self.component.get_model());
            }
            self.component.clear_input();
        } else if t == t_next {
            self.model.delta_int();
            self.component.clear_output();
        } else {
            return t_next;
        }
        let t_next = advance(t, self.model.ta());
        self.component.set_sim_t(t, t_next);
        proof {
            lemma_same_shape_layout(old(self)@.component.model, self@.component.model);
        }
        t_next
    }
}

/// The earliest next event of a list that grew by one node.
pub proof fn lemma_min_t_next_push<A: Atomic>(nodes: Seq<NodeView<A>>, node: NodeView<A>)
    ensures
        min_t_next(nodes.push(node)) == crate::time::earlier(
            min_t_next(nodes),
            node.component.t_next,
        ),
{
    assert(nodes.push(node).drop_last() =~= nodes);
}

impl<A: Atomic> Coupled<A> {
    /// Starts every subcomponent at `t_start` and returns the earliest next event among them.
    pub fn start(&mut self, t_start: u64) -> (t_next: u64)
        requires
            old(self)@.wf(),
        ensures
            final(self)@ == old(self)@.started(t_start),
            final(self)@.wf(),
            t_next == final(self)@.component.t_next,
            final(self)@.component.model == old(self)@.component.model,
        decreases old(self)@.body, 0int,
    {
        let ghost before = child_views(self.components@);
        let n = self.components.len();
        let mut t_next: u64 = INFINITY;
        let mut i: usize = 0;
        assert(child_views(self.components@).subrange(0, 0) =~= Seq::empty());
        assert(before =~= old(self)@.children());
        while i < n
            invariant
                i <= n,
                n == before.len(),
                self.components@.len() == n,
                before == old(self)@.children(),
                old(self)@.wf(),
                old(self)@.is_coupled(),
                self.component == old(self).component,
                self.eics == old(self).eics,
                self.ics == old(self).ics,
                self.eocs == old(self).eocs,
                forall|j: int|
                    0 <= j < i ==> (#[trigger] self.components@[j])@ == before[j].started(t_start)
                        && self.components@[j]@.wf() && self.components@[j]@.component.model
                        == before[j].component.model,
                forall|j: int| i <= j < n ==> (#[trigger] self.components@[j])@ == before[j],
                t_next == min_t_next(child_views(self.components@).subrange(0, i as int)),
            decreases n - i,
        {
            let ghost views = child_views(self.components@);
            assert(before[i as int].wf());
            let t = self.components[i].start(t_start);
            t_next = min_time(t_next, t);
            proof {
                let now = child_views(self.components@);
                assert(now.subrange(0, i + 1) =~= views.subrange(0, i as int).push(now[i as int]));
                lemma_min_t_next_push(views.subrange(0, i as int), now[i as int]);
            }
            i = i + 1;
        }
        self.component.set_sim_t(t_start, t_next);
        proof {
            let now = child_views(self.components@);
            assert(now.subrange(0, n as int) =~= now);
            assert(self@.children() =~= now);
            assert(now =~= old(self)@.started(t_start).children());
            lemma_coupled_wf(old(self)@, self@);
        }
        t_next
    }

    /// Stops every subcomponent at `t_stop`.
    pub fn stop(&mut self, t_stop: u64)
        requires
            old(self)@.wf(),
        ensures
            final(self)@ == old(self)@.stopped(t_stop),
            final(self)@.wf(),
            final(self)@.component.model == old(self)@.component.model,
        decreases old(self)@.body, 0int,
    {
        let ghost before = child_views(self.components@);
        let n = self.components.len();
        let mut i: usize = 0;
        assert(before =~= old(self)@.children());
        while i < n
            invariant
                i <= n,
                n == before.len(),
                self.components@.len() == n,
                before == old(self)@.children(),
                old(self)@.wf(),
                old(self)@.is_coupled(),
                self.component == old(self).component,
                self.eics == old(self).eics,
                self.ics == old(self).ics,
                self.eocs == old(self).eocs,
                forall|j: int|
                    0 <= j < i ==> (#[trigger] self.components@[j])@ == before[j].stopped(t_stop)
                        && self.components@[j]@.wf() && self.components@[j]@.component.model
                        == before[j].component.model,
                forall|j: int| i <= j < n ==> (#[trigger] self.components@[j])@ == before[j],
            decreases n - i,
        {
            assert(before[i as int].wf());
            self.components[i].stop(t_stop);
            i = i + 1;
        }
        self.component.set_sim_t(t_stop, INFINITY);
        proof {
            let now = child_views(self.components@);
            assert(self@.children() =~= now);
            assert(now =~= old(self)@.stopped(t_stop).children());
            lemma_coupled_wf(old(self)@, self@);
        }
    }
}

impl<A: Atomic> Coupled<A> {
    /// Appends the gathered bags to the model's own outputs, along the
    /// couplings that lead there, and then to inputs of subcomponents, along
    /// the couplings between subcomponents.
    pub fn deliver_outputs(
        &mut self,
        outward: &Vec<Vec<A::Message>>,
        inward: &Vec<Vec<A::Message>>,
    )
        requires
            old(self)@.wf(),
            gathered_all(
                old(self)@.component.model,
                old(self)@.children(),
                old(self)@.eocs(),
                outward@,
            ),
            gathered_all(
                old(self)@.component.model,
                old(self)@.children(),
                old(self)@.ics(),
                inward@,
            ),
        ensures
            final(self)@ == old(self)@.outputs_routed(),
            final(self)@.wf(),
            old(self)@.component.model.same_shape(final(self)@.component.model),
    {
        let ghost parent = self.component@.model;
        let ghost emitting = child_views(self.components@);
        assert(emitting =~= old(self)@.children());
        proof {
            lemma_children_untouched(parent, emitting, self.eocs@);
        }
        deliver(&mut self.component, &mut self.components, &self.eocs, outward);
        let ghost model = self.component@.model;
        assert(child_views(self.components@) == emitting);
        proof {
            lemma_table_wf_same_shape(parent, emitting, model, emitting, self.ics@);
            lemma_parent_untouched(model, emitting, self.ics@);
            assert forall|k: int| 0 <= k < self.ics@.len() implies (#[trigger] inward@[k])@
                == source_values(model, emitting, self.ics@[k].from) by {
                assert(self.ics@[k].from.component.is_some());
            }
        }
        deliver(&mut self.component, &mut self.components, &self.ics, inward);
        proof {
            let now = child_views(self.components@);
            assert(self@.children() =~= now);
            assert forall|c: int| 0 <= c < emitting.len() implies (#[trigger] now[c]).wf()
                && emitting[c].component.model.same_shape(now[c].component.model) by {
                assert(now[c].component.model.inputs.len()
                    == emitting[c].component.model.inputs.len());
            }
            lemma_coupled_wf(old(self)@, self@);
        }
    }

    /// Appends the gathered bags to inputs of subcomponents, along the
    /// couplings from the model's own inputs, and clears the model's input.
    pub fn deliver_inputs(&mut self, bags: &Vec<Vec<A::Message>>)
        requires
            old(self)@.wf(),
            gathered_all(
                old(self)@.component.model,
                old(self)@.children(),
                old(self)@.eics(),
                bags@,
            ),
        ensures
            final(self)@ == old(self)@.inputs_routed(),
            final(self)@.wf(),
            old(self)@.component.model.same_shape(final(self)@.component.model),
    {
        let ghost parent = self.component@.model;
        let ghost initial = child_views(self.components@);
        assert(initial =~= old(self)@.children());
        proof {
            lemma_parent_untouched(parent, initial, self.eics@);
            lemma_cleared_wf(parent);
        }
        deliver(&mut self.component, &mut self.components, &self.eics, bags);
        self.component.clear_input();
        proof {
            let now = child_views(self.components@);
            assert(self@.children() =~= now);
            assert forall|c: int| 0 <= c < initial.len() implies (#[trigger] now[c]).wf()
                && initial[c].component.model.same_shape(now[c].component.model) by {
                assert(now[c].component.model.inputs.len()
                    == initial[c].component.model.inputs.len());
            }
            lemma_coupled_wf(old(self)@, self@);
        }
    }
}

impl<A: Atomic> Coupled<A> {
    /// Clears the output of the model if an event is due at `t`, and says
    /// whether one is.
    pub fn clear_due_output(&mut self, t: u64) -> (due: bool)
        requires
            old(self)@.wf(),
        ensures
            due == (t >= old(self)@.component.t_next),
            final(self)@ == old(self)@.due_cleared(t),
            final(self)@.wf(),
            old(self)@.component.model.same_shape(final(self)@.component.model),
    {
        let due = t >= self.component.get_t_next();
        if due {
            proof {
                lemma_cleared_wf(self@.component.model);
            }
            self.component.clear_output();
            proof {
                lemma_wf_with_model(old(self)@, self.component@.model);
                assert(self@.body == old(self)@.body);
            }
        }
        due
    }
}

/// Closes the transition of a coupled model at `t`: once every subcomponent
/// of the prepared model has made its transition and the model is scheduled
/// at the earliest next event among them, the transition is made.
pub proof fn lemma_transition_closed<A: Atomic>(node: NodeView<A>, t: u64, last: NodeView<A>)
    requires
        node.wf(),
        node.is_coupled(),
        node.acts(t),
        node.prepared(t).wf(),
        node.component.model.same_shape(node.prepared(t).component.model),
        last.is_coupled(),
        last.eics() == node.eics(),
        last.ics() == node.ics(),
        last.eocs() == node.eocs(),
        last.children().len() == node.children().len(),
        forall|c: int|
            0 <= c < last.children().len() ==> (#[trigger] last.children()[c])
                == node.prepared(t).children()[c].after_transition(t) && last.children()[c].wf()
                && node.prepared(t).children()[c].component.model.same_shape(
                last.children()[c].component.model,
            ),
        last.component == (ComponentView::<A::Message> {
            model: node.prepared(t).component.model,
            t_last: t,
            t_next: min_t_next(last.children()),
        }),
    ensures
        last == node.after_transition(t),
        last.wf(),
        node.component.model.same_shape(last.component.model),
{
    let mid = node.prepared(t);
    assert(mid.children().len() == node.children().len());
    lemma_coupled_wf(mid, last);
    assert(last.children() =~= node.after_transition(t).children());
}

impl<A: Atomic> Coupled<A> {
    /// If an event is due at `t`: lets every subcomponent collect, then copies
    /// messages along the couplings to the model's own outputs, then along
    /// the couplings between subcomponents.
    pub fn collection(&mut self, t: u64)
        requires
            old(self)@.wf(),
        ensures
            final(self)@ == old(self)@.collected(t),
            final(self)@.wf(),
            old(self)@.component.model.same_shape(final(self)@.component.model),
        decreases old(self)@.body, 0int,
    {
        if t >= self.component.get_t_next() {
            let ghost before = child_views(self.components@);
            let n = self.components.len();
            let mut i: usize = 0;
            assert(before =~= old(self)@.children());
            while i < n
                invariant
                    i <= n,
                    n == before.len(),
                    self.components@.len() == n,
                    before == old(self)@.children(),
                    old(self)@.wf(),
                    old(self)@.is_coupled(),
                    self.component == old(self).component,
                    self.eics@ == old(self).eics@,
                    self.ics@ == old(self).ics@,
                    self.eocs@ == old(self).eocs@,
                    forall|j: int|
                        0 <= j < i ==> (#[trigger] self.components@[j])@ == before[j].collected(t)
                            && self.components@[j]@.wf() && before[j].component.model.same_shape(
                            self.components@[j]@.component.model,
                        ),
                    forall|j: int| i <= j < n ==> (#[trigger] self.components@[j])@ == before[j],
                decreases n - i,
            {
                assert(before[i as int].wf());
                self.components[i].collection(t);
                i = i + 1;
            }
            proof {
                let emitting = child_views(self.components@);
                assert(self@.children() =~= emitting);
                assert(emitting =~= old(self)@.children_collected(t));
                assert forall|c: int| 0 <= c < n implies (#[trigger] emitting[c]).wf()
                    && before[c].component.model.same_shape(emitting[c].component.model) by {
                    assert(emitting[c] == self.components@[c]@);
                }
                lemma_coupled_wf(old(self)@, self@);
            }
            let outward = gather_all(&self.component, &self.components, &self.eocs);
            let inward = gather_all(&self.component, &self.components, &self.ics);
            self.deliver_outputs(&outward, &inward);
        }
    }

    /// Runs the transition of the coupled model at `t` and returns the time of
    /// its next event.
    ///
    /// Input of the model is first copied along the couplings to its
    /// subcomponents and cleared. If an event is due, the output is cleared.
    /// If either happened, every subcomponent makes its transition.
    pub fn transition(&mut self, t: u64) -> (t_next: u64)
        requires
            old(self)@.wf(),
        ensures
            final(self)@ == old(self)@.after_transition(t),
            final(self)@.wf(),
            t_next == final(self)@.component.t_next,
            old(self)@.component.model.same_shape(final(self)@.component.model),
        decreases old(self)@.body, 0int,
    {
        assert(child_views(self.components@) =~= old(self)@.children());
        let has_input = !self.component.is_input_empty();
        if has_input {
            let bags = gather_all(&self.component, &self.components, &self.eics);
            self.deliver_inputs(&bags);
        }
        let is_internal = self.clear_due_output(t);
        if has_input || is_internal {
            let ghost before = child_views(self.components@);
            let ghost cleared = self.component;
            let n = self.components.len();
            let mut next: u64 = INFINITY;
            let mut i: usize = 0;
            assert(before =~= old(self)@.prepared(t).children());
            assert(before.subrange(0, 0) =~= Seq::empty());
            while i < n
                invariant
                    i <= n,
                    n == before.len(),
                    self.components@.len() == n,
                    before == old(self)@.prepared(t).children(),
                    old(self)@.prepared(t).wf(),
                    old(self)@.prepared(t).is_coupled(),
                    self.component == cleared,
                    self.eics@ == old(self).eics@,
                    self.ics@ == old(self).ics@,
                    self.eocs@ == old(self).eocs@,
                    forall|j: int|
                        0 <= j < i ==> (#[trigger] self.components@[j])@ == before[j].after_transition(
                            t,
                        ) && self.components@[j]@.wf() && before[j].component.model.same_shape(
                            self.components@[j]@.component.model,
                        ),
                    forall|j: int| i <= j < n ==> (#[trigger] self.components@[j])@ == before[j],
                    next == min_t_next(child_views(self.components@).subrange(0, i as int)),
                decreases n - i,
            {
                let ghost views = child_views(self.components@);
                assert(before[i as int].wf());
                let t_child = self.components[i].transition(t);
                next = min_time(next, t_child);
                proof {
                    let now = child_views(self.components@);
                    assert(now.subrange(0, i + 1) =~= views.subrange(0, i as int).push(
                        now[i as int],
                    ));
                    lemma_min_t_next_push(views.subrange(0, i as int), now[i as int]);
                }
                i = i + 1;
            }
            self.component.set_sim_t(t, next);
            proof {
                let now = child_views(self.components@);
                assert(now.subrange(0, n as int) =~= now);
                assert(self@.children() =~= now);
                assert forall|c: int| 0 <= c < n implies (#[trigger] now[c])
                    == before[c].after_transition(t) by {
                    assert(now[c] == self.components@[c]@);
                }
                lemma_transition_closed(old(self)@, t, self@);
            }
        }
        self.component.get_t_next()
    }
}

impl<A: Atomic> Coupled<A> {
    /// Injects an event into an input port of the model.
    pub fn inject(&mut self, event: &Event) -> (r: Result<(), Error>)
        requires
            old(self)@.wf(),
        ensures
            final(self)@.wf(),
            match injected(old(self)@.component.model, event.port_name(), event.value_text()) {
                Ok(model) => r is Ok && final(self)@ == (NodeView {
                    component: old(self)@.component.with_model(model),
                    body: old(self)@.body,
                }),
                Err(e) => r == Err::<(), Error>(e) && final(self)@ == old(self)@,
            },
    {
        let r = self.component.inject(event);
        proof {
            assert(self@.children() =~= old(self)@.children());
            lemma_wf_with_model(old(self)@, self@.component.model);
        }
        r
    }

    /// Ejects the messages in the output bags of the model as events.
    pub fn eject(&self) -> (events: Vec<Event>)
        ensures
            event_texts(events@) == ejected(
                self@.component.model.outputs,
                self@.component.model.outputs.len() as int,
            ),
    {
        self.component.eject()
    }
}

impl<A: Atomic> Subcomponent<A> {
    /// Runs the collection phase of the node at `t`.
    pub fn collection(&mut self, t: u64)
        requires
            old(self)@.wf(),
        ensures
            final(self)@ == old(self)@.collected(t),
            final(self)@.wf(),
            old(self)@.component.model.same_shape(final(self)@.component.model),
        decreases old(self)@.body, 1int,
    {
        match self {
            Subcomponent::Atomic(a) => a.collection(t),
            Subcomponent::Coupled(c) => c.collection(t),
        }
    }

    /// Runs the transition of the node at `t` and returns the time of its next event.
    pub fn transition(&mut self, t: u64) -> (t_next: u64)
        requires
            old(self)@.wf(),
        ensures
            final(self)@ == old(self)@.after_transition(t),
            final(self)@.wf(),
            t_next == final(self)@.component.t_next,
            old(self)@.component.model.same_shape(final(self)@.component.model),
        decreases old(self)@.body, 1int,
    {
        match self {
            Subcomponent::Atomic(a) => a.transition(t),
            Subcomponent::Coupled(c) => c.transition(t),
        }
    }

    /// Starts the node at `t_start` and returns the time of its next event.
    pub fn start(&mut self, t_start: u64) -> (t_next: u64)
        requires
            old(self)@.wf(),
        ensures
            final(self)@ == old(self)@.started(t_start),
            final(self)@.wf(),
            t_next == final(self)@.component.t_next,
            final(self)@.component.model == old(self)@.component.model,
        decreases old(self)@.body, 1int,
    {
        match self {
            Subcomponent::Atomic(a) => a.start(t_start),
            Subcomponent::Coupled(c) => c.start(t_start),
        }
    }

    /// Stops the node at `t_stop`.
    pub fn stop(&mut self, t_stop: u64)
        requires
            old(self)@.wf(),
        ensures
            final(self)@ == old(self)@.stopped(t_stop),
            final(self)@.wf(),
            final(self)@.component.model == old(self)@.component.model,
        decreases old(self)@.body, 1int,
    {
        match self {
            Subcomponent::Atomic(a) => a.stop(t_stop),
            Subcomponent::Coupled(c) => c.stop(t_stop),
        }
    }
}

} // verus!
