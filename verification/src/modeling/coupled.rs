//! Coupled models: subcomponents and the couplings between their ports.
use super::atomic::Atomic;
use super::component::{Component, ComponentView};
use super::model::{find_port, lemma_find_port, ModelView};
use super::port::{InPort, OutPort, PortVal, PortView};
use crate::time::INFINITY;
use vstd::prelude::*;

verus! {

/// One end of a coupling: a port of a subcomponent, or, where `component` is
/// `None`, a port of the coupled model itself.
#[derive(Clone, Copy, Debug, PartialEq, Eq, Structural)]
pub struct Endpoint {
    pub component: Option<usize>,
    pub port: usize,
}

/// A coupling: messages of the port `from` are copied into the port `to`.
#[derive(Clone, Copy, Debug, PartialEq, Eq, Structural)]
pub struct Coupling {
    pub to: Endpoint,
    pub from: Endpoint,
}

/// What distinguishes an atomic node from a coupled one.
pub enum BodyView<A: Atomic> {
    /// The state of an atomic model.
    Atomic(A),
    /// The subcomponents of a coupled model, in the order they were added, and
    /// its couplings: from its inputs to inputs of subcomponents (`eics`),
    /// between subcomponents (`ics`), and from outputs of subcomponents to its
    /// outputs (`eocs`).
    Coupled {
        children: Seq<NodeView<A>>,
        eics: Seq<Coupling>,
        ics: Seq<Coupling>,
        eocs: Seq<Coupling>,
    },
}

/// A node of the model hierarchy.
pub struct NodeView<A: Atomic> {
    pub component: ComponentView<A::Message>,
    pub body: BodyView<A>,
}

/// Index of the first node of `nodes` that is called `name`, if there is one.
pub open spec fn find_component<A: Atomic>(nodes: Seq<NodeView<A>>, name: Seq<char>) -> Option<int>
    decreases nodes.len(),
{
    if nodes.len() == 0 {
        None
    } else {
        match find_component(nodes.drop_last(), name) {
            Some(i) => Some(i),
            None => if nodes.last().component.model.name == name {
                Some(nodes.len() - 1)
            } else {
                None
            },
        }
    }
}

/// `find_component` returns the first index at which the name occurs, and `None` only if it occurs
/// nowhere.
pub proof fn lemma_find_component<A: Atomic>(nodes: Seq<NodeView<A>>, name: Seq<char>)
    ensures
        match find_component(nodes, name) {
            Some(i) => 0 <= i < nodes.len() && nodes[i].component.model.name == name && forall|
                j: int,
            |
                0 <= j < i ==> (#[trigger] nodes[j]).component.model.name != name,
            None => forall|j: int|
                0 <= j < nodes.len() ==> (#[trigger] nodes[j]).component.model.name != name,
        },
    decreases nodes.len(),
{
    if nodes.len() > 0 {
        lemma_find_component(nodes.drop_last(), name);
        assert(forall|j: int| 0 <= j < nodes.len() - 1 ==> nodes.drop_last()[j] == nodes[j]);
    }
}

/// A node that is called `name`, with no node of that name before it, is the one that
/// `find_component` returns.
pub proof fn lemma_find_component_at<A: Atomic>(nodes: Seq<NodeView<A>>, name: Seq<char>, i: int)
    requires
        0 <= i < nodes.len(),
        nodes[i].component.model.name == name,
        forall|j: int| 0 <= j < i ==> (#[trigger] nodes[j]).component.model.name != name,
    ensures
        find_component(nodes, name) == Some(i),
{
    lemma_find_component(nodes, name);
}

/// The endpoint names a subcomponent that exists, or the coupled model itself.
pub open spec fn endpoint_known<A: Atomic>(children: Seq<NodeView<A>>, end: Endpoint) -> bool {
    match end.component {
        None => true,
        Some(c) => c < children.len(),
    }
}

/// A coupling may read from inputs of the coupled model and from outputs of
/// subcomponents.
pub open spec fn source_ports<A: Atomic>(
    parent: ModelView<A::Message>,
    children: Seq<NodeView<A>>,
    from: Endpoint,
) -> Seq<PortView<A::Message>> {
    match from.component {
        None => parent.inputs,
        Some(c) => children[c as int].component.model.outputs,
    }
}

/// A coupling may write to outputs of the coupled model and to inputs of
/// subcomponents.
pub open spec fn target_ports<A: Atomic>(
    parent: ModelView<A::Message>,
    children: Seq<NodeView<A>>,
    to: Endpoint,
) -> Seq<PortView<A::Message>> {
    match to.component {
        None => parent.outputs,
        Some(c) => children[c as int].component.model.inputs,
    }
}

/// Both ends of the coupling exist and carry the same element type.
pub open spec fn coupling_valid<A: Atomic>(
    parent: ModelView<A::Message>,
    children: Seq<NodeView<A>>,
    coupling: Coupling,
) -> bool {
    &&& endpoint_known(children, coupling.from)
    &&& endpoint_known(children, coupling.to)
    &&& coupling.from.port < source_ports(parent, children, coupling.from).len()
    &&& coupling.to.port < target_ports(parent, children, coupling.to).len()
    &&& source_ports(parent, children, coupling.from)[coupling.from.port as int].kind
        == target_ports(parent, children, coupling.to)[coupling.to.port as int].kind
}

/// Every coupling of the table is valid and none occurs twice.
pub open spec fn table_wf<A: Atomic>(
    parent: ModelView<A::Message>,
    children: Seq<NodeView<A>>,
    table: Seq<Coupling>,
) -> bool {
    &&& forall|k: int| 0 <= k < table.len() ==> coupling_valid(parent, children, #[trigger] table[k])
    &&& forall|j: int, k: int|
        0 <= j < table.len() && 0 <= k < table.len() && j != k ==> table[j] != table[k]
}

/// Every coupling of the table leads from an input of the coupled model to an
/// input of a subcomponent.
pub open spec fn all_eics(table: Seq<Coupling>) -> bool {
    forall|k: int|
        0 <= k < table.len() ==> (#[trigger] table[k]).from.component.is_none()
            && table[k].to.component.is_some()
}

/// Every coupling of the table leads from an output of a subcomponent to an
/// input of a subcomponent.
pub open spec fn all_ics(table: Seq<Coupling>) -> bool {
    forall|k: int|
        0 <= k < table.len() ==> (#[trigger] table[k]).from.component.is_some()
            && table[k].to.component.is_some()
}

/// Every coupling of the table leads from an output of a subcomponent to an
/// output of the coupled model.
pub open spec fn all_eocs(table: Seq<Coupling>) -> bool {
    forall|k: int|
        0 <= k < table.len() ==> (#[trigger] table[k]).from.component.is_some()
            && table[k].to.component.is_none()
}

/// No two nodes of `nodes` have the same name.
pub open spec fn distinct_components<A: Atomic>(nodes: Seq<NodeView<A>>) -> bool {
    forall|i: int, j: int|
        0 <= i < nodes.len() && 0 <= j < nodes.len() && i != j ==> nodes[i].component.model.name
            != nodes[j].component.model.name
}

/// `b` starts with the ports of `a`: same names and element types at the same places.
pub open spec fn layout_extended<M: PortVal>(a: Seq<PortView<M>>, b: Seq<PortView<M>>) -> bool {
    &&& a.len() <= b.len()
    &&& forall|i: int|
        0 <= i < a.len() ==> (#[trigger] a[i]).name == b[i].name && a[i].kind == b[i].kind
}

/// Couplings that were valid stay valid when ports and subcomponents are
/// added and the existing ports keep their places, names and element types.
pub proof fn lemma_table_wf_extended<A: Atomic>(
    parent: ModelView<A::Message>,
    children: Seq<NodeView<A>>,
    parent2: ModelView<A::Message>,
    children2: Seq<NodeView<A>>,
    table: Seq<Coupling>,
)
    requires
        table_wf(parent, children, table),
        layout_extended(parent.inputs, parent2.inputs),
        layout_extended(parent.outputs, parent2.outputs),
        children.len() <= children2.len(),
        forall|c: int|
            0 <= c < children.len() ==> layout_extended(
                (#[trigger] children[c]).component.model.inputs,
                children2[c].component.model.inputs,
            ) && layout_extended(
                children[c].component.model.outputs,
                children2[c].component.model.outputs,
            ),
    ensures
        table_wf(parent2, children2, table),
{
    assert forall|k: int| 0 <= k < table.len() implies coupling_valid(
        parent2,
        children2,
        #[trigger] table[k],
    ) by {
        let coupling = table[k];
        assert(coupling_valid(parent, children, coupling));
        match coupling.from.component {
            None => {},
            Some(c) => {
                assert(layout_extended(
                    children[c as int].component.model.outputs,
                    children2[c as int].component.model.outputs,
                ));
            },
        }
        match coupling.to.component {
            None => {},
            Some(c) => {
                assert(layout_extended(
                    children[c as int].component.model.inputs,
                    children2[c as int].component.model.inputs,
                ));
            },
        }
    }
}

/// Couplings that were valid stay valid when the ports they refer to keep
/// their names and element types.
pub proof fn lemma_table_wf_same_shape<A: Atomic>(
    parent: ModelView<A::Message>,
    children: Seq<NodeView<A>>,
    parent2: ModelView<A::Message>,
    children2: Seq<NodeView<A>>,
    table: Seq<Coupling>,
)
    requires
        table_wf(parent, children, table),
        parent.same_shape(parent2),
        children.len() == children2.len(),
        forall|c: int|
            0 <= c < children.len() ==> (#[trigger] children[c]).component.model.same_shape(
                children2[c].component.model,
            ),
    ensures
        table_wf(parent2, children2, table),
{
    assert forall|k: int| 0 <= k < table.len() implies coupling_valid(
        parent2,
        children2,
        #[trigger] table[k],
    ) by {
        let coupling = table[k];
        assert(coupling_valid(parent, children, coupling));
        match coupling.from.component {
            None => {},
            Some(c) => {
                assert(children[c as int].component.model.same_shape(
                    children2[c as int].component.model,
                ));
            },
        }
        match coupling.to.component {
            None => {},
            Some(c) => {
                assert(children[c as int].component.model.same_shape(
                    children2[c as int].component.model,
                ));
            },
        }
    }
}

/// A coupled model stays well formed when its ports and its subcomponents are
/// replaced by well-formed ones with the same names and element types, and
/// its couplings stay as they are.
pub proof fn lemma_coupled_wf<A: Atomic>(before: NodeView<A>, after: NodeView<A>)
    requires
        before.wf(),
        before.is_coupled(),
        after.is_coupled(),
        after.eics() == before.eics(),
        after.ics() == before.ics(),
        after.eocs() == before.eocs(),
        after.component.model.wf(),
        before.component.model.same_shape(after.component.model),
        after.children().len() == before.children().len(),
        forall|c: int|
            0 <= c < before.children().len() ==> (#[trigger] after.children()[c]).wf()
                && before.children()[c].component.model.same_shape(
                after.children()[c].component.model,
            ),
    ensures
        after.wf(),
{
    let b = before.children();
    let a = after.children();
    assert forall|c: int| 0 <= c < b.len() implies (#[trigger] b[c]).component.model.same_shape(
        a[c].component.model,
    ) by {
        assert(a[c].wf());
    }
    lemma_table_wf_same_shape(before.component.model, b, after.component.model, a, before.eics());
    lemma_table_wf_same_shape(before.component.model, b, after.component.model, a, before.ics());
    lemma_table_wf_same_shape(before.component.model, b, after.component.model, a, before.eocs());
    assert forall|i: int, j: int|
        0 <= i < a.len() && 0 <= j < a.len() && i != j implies a[i].component.model.name
        != a[j].component.model.name by {
        assert(b[i].component.model.same_shape(a[i].component.model));
        assert(b[j].component.model.same_shape(a[j].component.model));
    }
}

impl<A: Atomic> NodeView<A> {
    /// The node is well formed: port names are unique, bags are well typed, an
    /// atomic state fits its ports, subcomponent names are unique, and every
    /// coupling connects existing ports of one element type and occurs once.
    pub open spec fn wf(self) -> bool
        decreases self,
    {
        &&& self.component.model.wf()
        &&& match self.body {
            BodyView::Atomic(state) => state.wf(self.component.model.layout()),
            BodyView::Coupled { children, eics, ics, eocs } => {
                &&& forall|i: int| 0 <= i < children.len() ==> (#[trigger] children[i]).wf()
                &&& distinct_components(children)
                &&& table_wf(self.component.model, children, eics)
                &&& table_wf(self.component.model, children, ics)
                &&& table_wf(self.component.model, children, eocs)
                &&& all_eics(eics)
                &&& all_ics(ics)
                &&& all_eocs(eocs)
            },
        }
    }

    /// The subcomponents of the node; an atomic node has none.
    pub open spec fn children(self) -> Seq<NodeView<A>> {
        match self.body {
            BodyView::Atomic(_) => Seq::empty(),
            BodyView::Coupled { children, .. } => children,
        }
    }

    /// The couplings from inputs of the node to inputs of its subcomponents.
    pub open spec fn eics(self) -> Seq<Coupling> {
        match self.body {
            BodyView::Atomic(_) => Seq::empty(),
            BodyView::Coupled { eics, .. } => eics,
        }
    }

    /// The couplings between subcomponents of the node.
    pub open spec fn ics(self) -> Seq<Coupling> {
        match self.body {
            BodyView::Atomic(_) => Seq::empty(),
            BodyView::Coupled { ics, .. } => ics,
        }
    }

    /// The couplings from outputs of subcomponents to outputs of the node.
    pub open spec fn eocs(self) -> Seq<Coupling> {
        match self.body {
            BodyView::Atomic(_) => Seq::empty(),
            BodyView::Coupled { eocs, .. } => eocs,
        }
    }

    /// The node is a coupled model.
    pub open spec fn is_coupled(self) -> bool {
        self.body is Coupled
    }

    /// The coupled model with one more coupling from its inputs to a subcomponent.
    pub open spec fn with_eic(self, coupling: Coupling) -> NodeView<A> {
        NodeView {
            component: self.component,
            body: BodyView::Coupled {
                children: self.children(),
                eics: self.eics().push(coupling),
                ics: self.ics(),
                eocs: self.eocs(),
            },
        }
    }

    /// The coupled model with one more coupling between subcomponents.
    pub open spec fn with_ic(self, coupling: Coupling) -> NodeView<A> {
        NodeView {
            component: self.component,
            body: BodyView::Coupled {
                children: self.children(),
                eics: self.eics(),
                ics: self.ics().push(coupling),
                eocs: self.eocs(),
            },
        }
    }

    /// The coupled model with one more coupling from a subcomponent to its outputs.
    pub open spec fn with_eoc(self, coupling: Coupling) -> NodeView<A> {
        NodeView {
            component: self.component,
            body: BodyView::Coupled {
                children: self.children(),
                eics: self.eics(),
                ics: self.ics(),
                eocs: self.eocs().push(coupling),
            },
        }
    }

    /// The coupling that `add_eic` would add for these names, or why it cannot.
    pub open spec fn eic(
        self,
        port_from: Seq<char>,
        component_to: Seq<char>,
        port_to: Seq<char>,
    ) -> Result<Coupling, TopologyError> {
        resolve(
            self.component.model,
            self.children(),
            self.eics(),
            None,
            port_from,
            Some(component_to),
            port_to,
        )
    }

    /// The coupling that `add_ic` would add for these names, or why it cannot.
    pub open spec fn ic(
        self,
        component_from: Seq<char>,
        port_from: Seq<char>,
        component_to: Seq<char>,
        port_to: Seq<char>,
    ) -> Result<Coupling, TopologyError> {
        resolve(
            self.component.model,
            self.children(),
            self.ics(),
            Some(component_from),
            port_from,
            Some(component_to),
            port_to,
        )
    }

    /// The coupling that `add_eoc` would add for these names, or why it cannot.
    pub open spec fn eoc(
        self,
        component_from: Seq<char>,
        port_from: Seq<char>,
        port_to: Seq<char>,
    ) -> Result<Coupling, TopologyError> {
        resolve(
            self.component.model,
            self.children(),
            self.eocs(),
            Some(component_from),
            port_from,
            None,
            port_to,
        )
    }
}

/// Why a coupling cannot be added.
#[derive(Clone, Copy, Debug, PartialEq, Eq, Structural)]
pub enum TopologyError {
    /// There is no subcomponent of that name.
    UnknownComponent,
    /// The component has no port of that name in the direction needed.
    UnknownPort,
    /// The two ports carry different element types.
    IncompatiblePorts,
    /// The same two ports are coupled already.
    DuplicateCoupling,
}

/// The port a coupling reads from: input `port` of the coupled model where
/// `component` is `None`, else output `port` of the subcomponent of that name.
pub open spec fn resolve_source<A: Atomic>(
    parent: ModelView<A::Message>,
    children: Seq<NodeView<A>>,
    component: Option<Seq<char>>,
    port: Seq<char>,
) -> Result<Endpoint, TopologyError> {
    match component {
        None => match find_port(parent.inputs, port) {
            Some(p) => Ok(Endpoint { component: None, port: p as usize }),
            None => Err(TopologyError::UnknownPort),
        },
        Some(name) => match find_component(children, name) {
            Some(c) => match find_port(children[c].component.model.outputs, port) {
                Some(p) => Ok(Endpoint { component: Some(c as usize), port: p as usize }),
                None => Err(TopologyError::UnknownPort),
            },
            None => Err(TopologyError::UnknownComponent),
        },
    }
}

/// The port a coupling writes to: output `port` of the coupled model where
/// `component` is `None`, else input `port` of the subcomponent of that name.
pub open spec fn resolve_target<A: Atomic>(
    parent: ModelView<A::Message>,
    children: Seq<NodeView<A>>,
    component: Option<Seq<char>>,
    port: Seq<char>,
) -> Result<Endpoint, TopologyError> {
    match component {
        None => match find_port(parent.outputs, port) {
            Some(p) => Ok(Endpoint { component: None, port: p as usize }),
            None => Err(TopologyError::UnknownPort),
        },
        Some(name) => match find_component(children, name) {
            Some(c) => match find_port(children[c].component.model.inputs, port) {
                Some(p) => Ok(Endpoint { component: Some(c as usize), port: p as usize }),
                None => Err(TopologyError::UnknownPort),
            },
            None => Err(TopologyError::UnknownComponent),
        },
    }
}

/// The coupling that the given names stand for, or the reason why it cannot
/// be added to `table`. The source is resolved first, then the destination,
/// then the element types are compared, then the table is searched.
pub open spec fn resolve<A: Atomic>(
    parent: ModelView<A::Message>,
    children: Seq<NodeView<A>>,
    table: Seq<Coupling>,
    component_from: Option<Seq<char>>,
    port_from: Seq<char>,
    component_to: Option<Seq<char>>,
    port_to: Seq<char>,
) -> Result<Coupling, TopologyError> {
    match resolve_source(parent, children, component_from, port_from) {
        Err(e) => Err(e),
        Ok(from) => match resolve_target(parent, children, component_to, port_to) {
            Err(e) => Err(e),
            Ok(to) => if source_ports(parent, children, from)[from.port as int].kind
                != target_ports(parent, children, to)[to.port as int].kind {
                Err(TopologyError::IncompatiblePorts)
            } else if table.contains(Coupling { to, from }) {
                Err(TopologyError::DuplicateCoupling)
            } else {
                Ok(Coupling { to, from })
            },
        },
    }
}

/// An atomic model ready for simulation: the author's state with the
/// component that holds its ports and timestamps.
pub struct AtomicSimulator<A: Atomic> {
    pub component: Component<A::Message>,
    pub model: A,
}

/// A subcomponent of a coupled model.
pub enum Subcomponent<A: Atomic> {
    Atomic(AtomicSimulator<A>),
    Coupled(Coupled<A>),
}

/// Coupled DEVS model.
pub struct Coupled<A: Atomic> {
    pub component: Component<A::Message>,
    pub components: Vec<Subcomponent<A>>,
    pub eics: Vec<Coupling>,
    pub ics: Vec<Coupling>,
    pub eocs: Vec<Coupling>,
}

impl<A: Atomic> AtomicSimulator<A> {
    pub open spec fn view(&self) -> NodeView<A> {
        NodeView { component: self.component@, body: BodyView::Atomic(self.model) }
    }
}

impl<A: Atomic> Subcomponent<A> {
    pub open spec fn view(&self) -> NodeView<A>
        decreases self,
    {
        match self {
            Subcomponent::Atomic(a) => a@,
            Subcomponent::Coupled(c) => c@,
        }
    }
}

impl<A: Atomic> Coupled<A> {
    pub open spec fn view(&self) -> NodeView<A>
        decreases self,
    {
        NodeView {
            component: self.component@,
            body: BodyView::Coupled {
                children: Seq::new(
                    self.components@.len(),
                    |i: int|
                        if 0 <= i < self.components@.len() {
                            self.components@[i]@
                        } else {
                            arbitrary()
                        },
                ),
                eics: self.eics@,
                ics: self.ics@,
                eocs: self.eocs@,
            },
        }
    }
}

/// The views of a list of subcomponents.
pub open spec fn child_views<A: Atomic>(components: Seq<Subcomponent<A>>) -> Seq<NodeView<A>> {
    Seq::new(components.len(), |i: int| components[i]@)
}

/// The name that an optional string stands for.
pub open spec fn name_of(component: Option<&str>) -> Option<Seq<char>> {
    match component {
        Some(name) => Some(name@),
        None => None,
    }
}

impl<A: Atomic> Subcomponent<A> {
    /// Returns `true` if the node is called `name`.
    pub fn is_named(&self, name: &str) -> (b: bool)
        ensures
            b == (self@.component.model.name == name@),
    {
        match self {
            Subcomponent::Atomic(a) => a.component.is_named(name),
            Subcomponent::Coupled(c) => c.component.is_named(name),
        }
    }

    /// Returns the handle of the input port called `name`, if there is one.
    pub fn get_in_port(&self, name: &str) -> (r: Option<InPort<A::Message>>)
        ensures
            match r {
                Some(p) => find_port(self@.component.model.inputs, name@) == Some(p.index as int)
                    && p.kind == self@.component.model.inputs[p.index as int].kind,
                None => find_port(self@.component.model.inputs, name@).is_none(),
            },
    {
        match self {
            Subcomponent::Atomic(a) => a.component.get_in_port(name),
            Subcomponent::Coupled(c) => c.component.get_in_port(name),
        }
    }

    /// Returns the handle of the output port called `name`, if there is one.
    pub fn get_out_port(&self, name: &str) -> (r: Option<OutPort<A::Message>>)
        ensures
            match r {
                Some(p) => find_port(self@.component.model.outputs, name@) == Some(
                    p.index as int,
                ) && p.kind == self@.component.model.outputs[p.index as int].kind,
                None => find_port(self@.component.model.outputs, name@).is_none(),
            },
    {
        match self {
            Subcomponent::Atomic(a) => a.component.get_out_port(name),
            Subcomponent::Coupled(c) => c.component.get_out_port(name),
        }
    }
}

/// Tells whether `table` holds `coupling`.
fn table_holds(table: &Vec<Coupling>, coupling: Coupling) -> (b: bool)
    ensures
        b == table@.contains(coupling),
{
    let n = table.len();
    let mut i: usize = 0;
    while i < n
        invariant
            i <= n,
            n == table@.len(),
            forall|j: int| 0 <= j < i ==> table@[j] != coupling,
        decreases n - i,
    {
        if table[i] == coupling {
            return true;
        }
        i = i + 1;
    }
    false
}

impl<A: Atomic> Coupled<A> {
    /// Creates a coupled model without ports, subcomponents or couplings.
    pub fn new(name: &str) -> (c: Self)
        ensures
            c@.wf(),
            c@.component.model == (ModelView::<A::Message> {
                name: name@,
                inputs: Seq::empty(),
                outputs: Seq::empty(),
            }),
            c@.component.t_last == 0,
            c@.component.t_next == INFINITY,
            c@.body == (BodyView::<A>::Coupled {
                children: Seq::empty(),
                eics: Seq::empty(),
                ics: Seq::empty(),
                eocs: Seq::empty(),
            }),
    {
        let c = Coupled {
            component: Component::new(name),
            components: Vec::new(),
            eics: Vec::new(),
            ics: Vec::new(),
            eocs: Vec::new(),
        };
        assert(c@.children() =~= Seq::empty());
        c
    }

    /// Returns the number of subcomponents.
    pub fn n_components(&self) -> (n: usize)
        ensures
            n == self@.children().len(),
    {
        self.components.len()
    }

    /// Returns the number of couplings from inputs of the model to inputs of subcomponents.
    pub fn n_eics(&self) -> (n: usize)
        ensures
            n == self@.eics().len(),
    {
        self.eics.len()
    }

    /// Returns the number of couplings between subcomponents.
    pub fn n_ics(&self) -> (n: usize)
        ensures
            n == self@.ics().len(),
    {
        self.ics.len()
    }

    /// Returns the number of couplings from outputs of subcomponents to outputs of the model.
    pub fn n_eocs(&self) -> (n: usize)
        ensures
            n == self@.eocs().len(),
    {
        self.eocs.len()
    }

    /// Adds an input port and returns its handle.
    pub fn add_in_port(&mut self, name: &str, kind: <A::Message as PortVal>::Kind) -> (p: InPort<
        A::Message,
    >)
        requires
            old(self)@.wf(),
            find_port(old(self)@.component.model.inputs, name@).is_none(),
        ensures
            final(self)@.wf(),
            final(self)@ == (NodeView {
                component: old(self)@.component.with_model(
                    ModelView {
                        inputs: old(self)@.component.model.inputs.push(
                            PortView { name: name@, kind, values: Seq::empty() },
                        ),
                        ..old(self)@.component.model
                    },
                ),
                body: old(self)@.body,
            }),
            p.index == old(self)@.component.model.inputs.len(),
            p.kind == kind,
    {
        let p = self.component.add_in_port(name, kind);
        proof {
            let before = old(self)@;
            let after = self@;
            assert(after.children() =~= before.children());
            lemma_table_wf_extended(
                before.component.model,
                before.children(),
                after.component.model,
                after.children(),
                before.eics(),
            );
            lemma_table_wf_extended(
                before.component.model,
                before.children(),
                after.component.model,
                after.children(),
                before.ics(),
            );
            lemma_table_wf_extended(
                before.component.model,
                before.children(),
                after.component.model,
                after.children(),
                before.eocs(),
            );
        }
        p
    }

    /// Adds an output port and returns its handle.
    pub fn add_out_port(&mut self, name: &str, kind: <A::Message as PortVal>::Kind) -> (p: OutPort<
        A::Message,
    >)
        requires
            old(self)@.wf(),
            find_port(old(self)@.component.model.outputs, name@).is_none(),
        ensures
            final(self)@.wf(),
            final(self)@ == (NodeView {
                component: old(self)@.component.with_model(
                    ModelView {
                        outputs: old(self)@.component.model.outputs.push(
                            PortView { name: name@, kind, values: Seq::empty() },
                        ),
                        ..old(self)@.component.model
                    },
                ),
                body: old(self)@.body,
            }),
            p.index == old(self)@.component.model.outputs.len(),
            p.kind == kind,
    {
        let p = self.component.add_out_port(name, kind);
        proof {
            let before = old(self)@;
            let after = self@;
            assert(after.children() =~= before.children());
            lemma_table_wf_extended(
                before.component.model,
                before.children(),
                after.component.model,
                after.children(),
                before.eics(),
            );
            lemma_table_wf_extended(
                before.component.model,
                before.children(),
                after.component.model,
                after.children(),
                before.ics(),
            );
            lemma_table_wf_extended(
                before.component.model,
                before.children(),
                after.component.model,
                after.children(),
                before.eocs(),
            );
        }
        p
    }

    /// Returns the position of the subcomponent called `name`, if there is one.
    pub fn find_component(&self, name: &str) -> (r: Option<usize>)
        ensures
            match r {
                Some(i) => find_component(self@.children(), name@) == Some(i as int) && i
                    < self.components@.len(),
                None => find_component(self@.children(), name@).is_none(),
            },
    {
        let n = self.components.len();
        let mut i: usize = 0;
        assert(self@.children() =~= child_views(self.components@));
        while i < n
            invariant
                i <= n,
                n == self.components@.len(),
                self@.children() == child_views(self.components@),
                forall|j: int|
                    0 <= j < i ==> (#[trigger] self@.children()[j]).component.model.name != name@,
            decreases n - i,
        {
            if self.components[i].is_named(name) {
                proof {
                    lemma_find_component(self@.children(), name@);
                    assert(self@.children()[i as int].component.model.name == name@);
                }
                return Some(i);
            }
            i = i + 1;
        }
        proof {
            lemma_find_component(self@.children(), name@);
        }
        None
    }

    /// Adds a subcomponent.
    pub fn add_component(&mut self, component: Subcomponent<A>)
        requires
            old(self)@.wf(),
            component@.wf(),
            find_component(old(self)@.children(), component@.component.model.name).is_none(),
        ensures
            final(self)@.wf(),
            final(self)@ == (NodeView {
                component: old(self)@.component,
                body: BodyView::Coupled {
                    children: old(self)@.children().push(component@),
                    eics: old(self)@.eics(),
                    ics: old(self)@.ics(),
                    eocs: old(self)@.eocs(),
                },
            }),
    {
        proof {
            lemma_find_component(old(self)@.children(), component@.component.model.name);
        }
        self.components.push(component);
        proof {
            let before = old(self)@;
            let after = self@;
            assert(after.children() =~= before.children().push(component@));
            let m = before.component.model;
            lemma_table_wf_extended(m, before.children(), m, after.children(), before.eics());
            lemma_table_wf_extended(m, before.children(), m, after.children(), before.ics());
            lemma_table_wf_extended(m, before.children(), m, after.children(), before.eocs());
        }
    }

    /// Finds the port that a coupling is to read from.
    fn source(&self, component: Option<&str>, port: &str) -> (r: Result<
        (Endpoint, <A::Message as PortVal>::Kind),
        TopologyError,
    >)
        ensures
            match r {
                Ok((end, kind)) => resolve_source(
                    self@.component.model,
                    self@.children(),
                    name_of(component),
                    port@,
                ) == Ok::<Endpoint, TopologyError>(end) && kind == source_ports(
                    self@.component.model,
                    self@.children(),
                    end,
                )[end.port as int].kind && endpoint_known(self@.children(), end) && end.port
                    < source_ports(self@.component.model, self@.children(), end).len(),
                Err(e) => resolve_source(
                    self@.component.model,
                    self@.children(),
                    name_of(component),
                    port@,
                ) == Err::<Endpoint, TopologyError>(e),
            },
    {
        proof {
            lemma_find_port(self@.component.model.inputs, port@);
        }
        match component {
            None => match self.component.get_in_port(port) {
                Some(p) => Ok((Endpoint { component: None, port: p.index }, p.kind)),
                None => Err(TopologyError::UnknownPort),
            },
            Some(name) => match self.find_component(name) {
                Some(c) => {
                    assert(self@.children()[c as int] == self.components@[c as int]@);
                    proof {
                        lemma_find_port(self@.children()[c as int].component.model.outputs, port@);
                    }
                    match self.components[c].get_out_port(port) {
                        Some(p) => Ok((Endpoint { component: Some(c), port: p.index }, p.kind)),
                        None => Err(TopologyError::UnknownPort),
                    }
                },
                None => Err(TopologyError::UnknownComponent),
            },
        }
    }

    /// Finds the port that a coupling is to write to.
    fn target(&self, component: Option<&str>, port: &str) -> (r: Result<
        (Endpoint, <A::Message as PortVal>::Kind),
        TopologyError,
    >)
        ensures
            match r {
                Ok((end, kind)) => resolve_target(
                    self@.component.model,
                    self@.children(),
                    name_of(component),
                    port@,
                ) == Ok::<Endpoint, TopologyError>(end) && kind == target_ports(
                    self@.component.model,
                    self@.children(),
                    end,
                )[end.port as int].kind && endpoint_known(self@.children(), end) && end.port
                    < target_ports(self@.component.model, self@.children(), end).len(),
                Err(e) => resolve_target(
                    self@.component.model,
                    self@.children(),
                    name_of(component),
                    port@,
                ) == Err::<Endpoint, TopologyError>(e),
            },
    {
        proof {
            lemma_find_port(self@.component.model.outputs, port@);
        }
        match component {
            None => match self.component.get_out_port(port) {
                Some(p) => Ok((Endpoint { component: None, port: p.index }, p.kind)),
                None => Err(TopologyError::UnknownPort),
            },
            Some(name) => match self.find_component(name) {
                Some(c) => {
                    assert(self@.children()[c as int] == self.components@[c as int]@);
                    proof {
                        lemma_find_port(self@.children()[c as int].component.model.inputs, port@);
                    }
                    match self.components[c].get_in_port(port) {
                        Some(p) => Ok((Endpoint { component: Some(c), port: p.index }, p.kind)),
                        None => Err(TopologyError::UnknownPort),
                    }
                },
                None => Err(TopologyError::UnknownComponent),
            },
        }
    }

    /// Resolves the names of a coupling and checks that it can be added to `table`.
    fn check(
        &self,
        table: &Vec<Coupling>,
        component_from: Option<&str>,
        port_from: &str,
        component_to: Option<&str>,
        port_to: &str,
    ) -> (r: Result<Coupling, TopologyError>)
        ensures
            r == resolve(
                self@.component.model,
                self@.children(),
                table@,
                name_of(component_from),
                port_from@,
                name_of(component_to),
                port_to@,
            ),
            r is Ok ==> coupling_valid(self@.component.model, self@.children(), r->Ok_0),
    {
        let (from, kind_from) = match self.source(component_from, port_from) {
            Ok(found) => found,
            Err(e) => {
                return Err(e);
            },
        };
        let (to, kind_to) = match self.target(component_to, port_to) {
            Ok(found) => found,
            Err(e) => {
                return Err(e);
            },
        };
        if !A::Message::same_kind(&kind_from, &kind_to) {
            return Err(TopologyError::IncompatiblePorts);
        }
        let coupling = Coupling { to, from };
        if table_holds(table, coupling) {
            return Err(TopologyError::DuplicateCoupling);
        }
        Ok(coupling)
    }

    /// Adds a coupling from input `port_from` of the model to input `port_to`
    /// of the subcomponent `component_to`, unless a name is unknown, the
    /// element types differ or the coupling exists already.
    pub fn try_add_eic(&mut self, port_from: &str, component_to: &str, port_to: &str) -> (r: Result<
        (),
        TopologyError,
    >)
        requires
            old(self)@.wf(),
        ensures
            final(self)@.wf(),
            match old(self)@.eic(port_from@, component_to@, port_to@) {
                Ok(coupling) => r is Ok && final(self)@ == old(self)@.with_eic(coupling),
                Err(e) => r == Err::<(), TopologyError>(e) && final(self)@ == old(self)@,
            },
    {
        match self.check(&self.eics, None, port_from, Some(component_to), port_to) {
            Ok(coupling) => {
                self.eics.push(coupling);
                proof {
                    assert(self@.children() =~= old(self)@.children());
                    assert forall|j: int| 0 <= j < old(self)@.eics().len() implies old(
                        self,
                    )@.eics()[j] != coupling by {
                        assert(!old(self)@.eics().contains(coupling));
                    }
                }
                Ok(())
            },
            Err(e) => Err(e),
        }
    }

    /// Adds a coupling from output `port_from` of the subcomponent
    /// `component_from` to input `port_to` of the subcomponent `component_to`,
    /// unless a name is unknown, the element types differ or the coupling
    /// exists already.
    pub fn try_add_ic(
        &mut self,
        component_from: &str,
        port_from: &str,
        component_to: &str,
        port_to: &str,
    ) -> (r: Result<(), TopologyError>)
        requires
            old(self)@.wf(),
        ensures
            final(self)@.wf(),
            match old(self)@.ic(component_from@, port_from@, component_to@, port_to@) {
                Ok(coupling) => r is Ok && final(self)@ == old(self)@.with_ic(coupling),
                Err(e) => r == Err::<(), TopologyError>(e) && final(self)@ == old(self)@,
            },
    {
        match self.check(&self.ics, Some(component_from), port_from, Some(component_to), port_to) {
            Ok(coupling) => {
                self.ics.push(coupling);
                proof {
                    assert(self@.children() =~= old(self)@.children());
                    assert forall|j: int| 0 <= j < old(self)@.ics().len() implies old(
                        self,
                    )@.ics()[j] != coupling by {
                        assert(!old(self)@.ics().contains(coupling));
                    }
                }
                Ok(())
            },
            Err(e) => Err(e),
        }
    }

    /// Adds a coupling from output `port_from` of the subcomponent
    /// `component_from` to output `port_to` of the model, unless a name is
    /// unknown, the element types differ or the coupling exists already.
    pub fn try_add_eoc(&mut self, component_from: &str, port_from: &str, port_to: &str) -> (r: Result<
        (),
        TopologyError,
    >)
        requires
            old(self)@.wf(),
        ensures
            final(self)@.wf(),
            match old(self)@.eoc(component_from@, port_from@, port_to@) {
                Ok(coupling) => r is Ok && final(self)@ == old(self)@.with_eoc(coupling),
                Err(e) => r == Err::<(), TopologyError>(e) && final(self)@ == old(self)@,
            },
    {
        match self.check(&self.eocs, Some(component_from), port_from, None, port_to) {
            Ok(coupling) => {
                self.eocs.push(coupling);
                proof {
                    assert(self@.children() =~= old(self)@.children());
                    assert forall|j: int| 0 <= j < old(self)@.eocs().len() implies old(
                        self,
                    )@.eocs()[j] != coupling by {
                        assert(!old(self)@.eocs().contains(coupling));
                    }
                }
                Ok(())
            },
            Err(e) => Err(e),
        }
    }

    /// Adds a coupling from input `port_from` of the model to input `port_to`
    /// of the subcomponent `component_to`.
    pub fn add_eic(&mut self, port_from: &str, component_to: &str, port_to: &str)
        requires
            old(self)@.wf(),
            old(self)@.eic(port_from@, component_to@, port_to@) is Ok,
        ensures
            final(self)@.wf(),
            final(self)@ == old(self)@.with_eic(
                old(self)@.eic(port_from@, component_to@, port_to@)->Ok_0,
            ),
    {
        let _ = self.try_add_eic(port_from, component_to, port_to);
    }

    /// Adds a coupling from output `port_from` of the subcomponent
    /// `component_from` to input `port_to` of the subcomponent `component_to`.
    pub fn add_ic(&mut self, component_from: &str, port_from: &str, component_to: &str, port_to: &str)
        requires
            old(self)@.wf(),
            old(self)@.ic(component_from@, port_from@, component_to@, port_to@) is Ok,
        ensures
            final(self)@.wf(),
            final(self)@ == old(self)@.with_ic(
                old(self)@.ic(component_from@, port_from@, component_to@, port_to@)->Ok_0,
            ),
    {
        let _ = self.try_add_ic(component_from, port_from, component_to, port_to);
    }

    /// Adds a coupling from output `port_from` of the subcomponent
    /// `component_from` to output `port_to` of the model.
    pub fn add_eoc(&mut self, component_from: &str, port_from: &str, port_to: &str)
        requires
            old(self)@.wf(),
            old(self)@.eoc(component_from@, port_from@, port_to@) is Ok,
        ensures
            final(self)@.wf(),
            final(self)@ == old(self)@.with_eoc(
                old(self)@.eoc(component_from@, port_from@, port_to@)->Ok_0,
            ),
    {
        let _ = self.try_add_eoc(component_from, port_from, port_to);
    }

    /// Adds a coupling, given by the positions of its ports, from an input of
    /// the model to an input of a subcomponent.
    pub fn connect_eic(&mut self, coupling: Coupling)
        requires
            old(self)@.wf(),
            coupling.from.component is None,
            coupling.to.component is Some,
            coupling_valid(old(self)@.component.model, old(self)@.children(), coupling),
            !old(self)@.eics().contains(coupling),
        ensures
            final(self)@.wf(),
            final(self)@ == old(self)@.with_eic(coupling),
    {
        self.eics.push(coupling);
        proof {
            assert(self@.children() =~= old(self)@.children());
            assert forall|j: int| 0 <= j < old(self)@.eics().len() implies old(self)@.eics()[j]
                != coupling by {
                assert(old(self)@.eics().contains(old(self)@.eics()[j]));
            }
        }
    }

    /// Adds a coupling, given by the positions of its ports, from an output
    /// of a subcomponent to an input of a subcomponent.
    pub fn connect_ic(&mut self, coupling: Coupling)
        requires
            old(self)@.wf(),
            coupling.from.component is Some,
            coupling.to.component is Some,
            coupling_valid(old(self)@.component.model, old(self)@.children(), coupling),
            !old(self)@.ics().contains(coupling),
        ensures
            final(self)@.wf(),
            final(self)@ == old(self)@.with_ic(coupling),
    {
        self.ics.push(coupling);
        proof {
            assert(self@.children() =~= old(self)@.children());
            assert forall|j: int| 0 <= j < old(self)@.ics().len() implies old(self)@.ics()[j]
                != coupling by {
                assert(old(self)@.ics().contains(old(self)@.ics()[j]));
            }
        }
    }

    /// Adds a coupling, given by the positions of its ports, from an output
    /// of a subcomponent to an output of the model.
    pub fn connect_eoc(&mut self, coupling: Coupling)
        requires
            old(self)@.wf(),
            coupling.from.component is Some,
            coupling.to.component is None,
            coupling_valid(old(self)@.component.model, old(self)@.children(), coupling),
            !old(self)@.eocs().contains(coupling),
        ensures
            final(self)@.wf(),
            final(self)@ == old(self)@.with_eoc(coupling),
    {
        self.eocs.push(coupling);
        proof {
            assert(self@.children() =~= old(self)@.children());
            assert forall|j: int| 0 <= j < old(self)@.eocs().len() implies old(self)@.eocs()[j]
                != coupling by {
                assert(old(self)@.eocs().contains(old(self)@.eocs()[j]));
            }
        }
    }
}

} // verus!
