//! Model trees: a description of a hierarchy by the names of its ports,
//! subcomponents and couplings, without behaviour.
use vstd::prelude::*;

pub mod topics;
pub mod tree;

pub use topics::{avoid_multihop, topic_map, MqttTopicMap};
pub use tree::{Component, DevsModelTree, TreeView};

verus! {

/// The name of a port: the subcomponent it belongs to, or `None` for the
/// model itself, and the port's own name.
pub type NodeName = (Option<Seq<char>>, Seq<char>);

/// A port of a model tree: the name of a subcomponent, or `None` for the
/// model itself, and the name of the port.
#[derive(Debug, Clone, PartialEq, Eq, PartialOrd, Ord, Hash)]
pub struct Node(pub Option<String>, pub String);

/// The name that an optional string stands for.
pub open spec fn optional_name(name: Option<String>) -> Option<Seq<char>> {
    match name {
        Some(n) => Some(n@),
        None => None,
    }
}

/// Tells whether two optional names are the same.
fn same_optional_name(a: &Option<String>, b: &Option<String>) -> (same: bool)
    ensures
        same == (optional_name(*a) == optional_name(*b)),
{
    match (a, b) {
        (Some(x), Some(y)) => *x == *y,
        (None, None) => true,
        _ => false,
    }
}

/// Copies an optional name.
fn copy_optional_name(name: &Option<String>) -> (copy: Option<String>)
    ensures
        copy == *name,
{
    match name {
        Some(n) => Some(n.clone()),
        None => None,
    }
}

impl View for Node {
    type V = NodeName;

    open spec fn view(&self) -> NodeName {
        (optional_name(self.0), self.1@)
    }
}

impl Node {
    /// Returns the name of the subcomponent, or `None` for the model itself.
    pub fn component(&self) -> (component: Option<&String>)
        ensures
            match component {
                Some(name) => self@.0 == Some(name@),
                None => self@.0.is_none(),
            },
    {
        self.0.as_ref()
    }

    /// Returns the name of the port.
    pub fn port(&self) -> (port: &String)
        ensures
            port@ == self@.1,
    {
        &self.1
    }

    /// Returns `true` if both nodes name the same port.
    pub fn same(&self, other: &Node) -> (same: bool)
        ensures
            same == (self@ == other@),
    {
        same_optional_name(&self.0, &other.0) && self.1 == other.1
    }

    /// Returns a copy of the node.
    pub fn duplicate(&self) -> (copy: Node)
        ensures
            copy == *self,
    {
        Node(copy_optional_name(&self.0), self.1.clone())
    }
}

/// The names of a list of pairs of nodes.
pub open spec fn pair_names(pairs: Seq<(Node, Node)>) -> Seq<(NodeName, NodeName)> {
    Seq::new(pairs.len(), |i: int| (pairs[i].0@, pairs[i].1@))
}

/// A relation between ports: which port sends to which.
#[derive(Debug, Default)]
pub struct CouplingMap {
    pairs: Vec<(Node, Node)>,
}

impl View for CouplingMap {
    type V = Set<(NodeName, NodeName)>;

    closed spec fn view(&self) -> Set<(NodeName, NodeName)> {
        pair_names(self.pairs@).to_set()
    }
}

impl CouplingMap {
    /// No pair is stored twice.
    pub closed spec fn wf(&self) -> bool {
        pair_names(self.pairs@).no_duplicates()
    }

    /// Creates an empty relation.
    pub fn new() -> (map: CouplingMap)
        ensures
            map.wf(),
            map@ == Set::<(NodeName, NodeName)>::empty(),
    {
        let map = CouplingMap { pairs: Vec::new() };
        assert(map@ =~= Set::<(NodeName, NodeName)>::empty());
        map
    }

    /// Tells at which position the pair is stored, if it is.
    fn position(&self, from: &Node, to: &Node) -> (r: Option<usize>)
        ensures
            match r {
                Some(i) => i < self.pairs@.len() && pair_names(self.pairs@)[i as int] == (
                    from@,
                    to@,
                ),
                None => !self@.contains((from@, to@)),
            },
    {
        let n = self.pairs.len();
        let mut i: usize = 0;
        while i < n
            invariant
                i <= n,
                n == self.pairs@.len(),
                forall|j: int| 0 <= j < i ==> pair_names(self.pairs@)[j] != (from@, to@),
            decreases n - i,
        {
            if self.pairs[i].0.same(from) && self.pairs[i].1.same(to) {
                return Some(i);
            }
            i = i + 1;
        }
        None
    }

    /// Records that `from` sends to `to`.
    pub fn insert(&mut self, from: Node, to: Node)
        requires
            old(self).wf(),
        ensures
            final(self).wf(),
            final(self)@ == old(self)@.insert((from@, to@)),
    {
        match self.position(&from, &to) {
            Some(i) => {
                assert(pair_names(self.pairs@).contains((from@, to@)));
                assert(self@ =~= old(self)@.insert((from@, to@)));
            },
            None => {
                self.pairs.push((from, to));
                assert(pair_names(self.pairs@) =~= pair_names(old(self).pairs@).push((from@, to@)));
                assert forall|p: (NodeName, NodeName)|
                    self@.contains(p) == old(self)@.insert((from@, to@)).contains(p) by {
                    let before = pair_names(old(self).pairs@);
                    let after = pair_names(self.pairs@);
                    if after.contains(p) {
                        let i = choose|i: int| 0 <= i < after.len() && after[i] == p;
                        if i < before.len() {
                            assert(before[i] == p);
                        }
                    }
                    if before.contains(p) {
                        let i = choose|i: int| 0 <= i < before.len() && before[i] == p;
                        assert(after[i] == p);
                    }
                    assert(after[after.len() - 1] == (from@, to@));
                }
                assert(self@ =~= old(self)@.insert((from@, to@)));
            },
        }
    }

    /// Returns the ports that `from` sends to, in the order they were
    /// recorded, or `None` if it sends to none.
    pub fn get(&self, from: &Node) -> (r: Option<Vec<Node>>)
        requires
            self.wf(),
        ensures
            match r {
                Some(targets) => {
                    &&& targets@.len() > 0
                    &&& forall|to: NodeName|
                        self@.contains((from@, to)) <==> exists|i: int|
                            0 <= i < targets@.len() && (#[trigger] targets@[i])@ == to
                    &&& forall|i: int, j: int|
                        0 <= i < j < targets@.len() ==> targets@[i]@ != targets@[j]@
                },
                None => forall|to: NodeName| !self@.contains((from@, to)),
            },
    {
        let mut targets: Vec<Node> = Vec::new();
        let ghost mut origin: Seq<int> = Seq::empty();
        let n = self.pairs.len();
        let mut k: usize = 0;
        let ghost names = pair_names(self.pairs@);
        while k < n
            invariant
                k <= n,
                n == self.pairs@.len(),
                names == pair_names(self.pairs@),
                names.no_duplicates(),
                origin.len() == targets@.len(),
                forall|i: int|
                    0 <= i < targets@.len() ==> 0 <= #[trigger] origin[i] < k && names[origin[i]]
                        == (from@, targets@[i]@),
                forall|i: int, j: int| 0 <= i < j < targets@.len() ==> origin[i] < origin[j],
                forall|m: int|
                    0 <= m < k && (#[trigger] names[m]).0 == from@ ==> exists|i: int|
                        0 <= i < targets@.len() && (#[trigger] targets@[i])@ == names[m].1,
            decreases n - k,
        {
            if self.pairs[k].0.same(from) {
                let ghost before = targets@;
                targets.push(self.pairs[k].1.duplicate());
                proof {
                    origin = origin.push(k as int);
                    assert forall|m: int|
                        0 <= m < k + 1 && (#[trigger] names[m]).0 == from@ implies exists|i: int|
                        0 <= i < targets@.len() && (#[trigger] targets@[i])@ == names[m].1 by {
                        if m < k {
                            let i = choose|i: int|
                                0 <= i < before.len() && (#[trigger] before[i])@ == names[m].1;
                            assert(targets@[i] == before[i]);
                        } else {
                            assert(targets@[targets@.len() - 1]@ == names[m].1);
                        }
                    }
                }
            }
            k = k + 1;
        }
        proof {
            assert forall|to: NodeName| self@.contains((from@, to)) <==> exists|i: int|
                0 <= i < targets@.len() && (#[trigger] targets@[i])@ == to by {
                if self@.contains((from@, to)) {
                    let m = choose|m: int| 0 <= m < names.len() && names[m] == (from@, to);
                    assert(names[m].0 == from@);
                }
                if exists|i: int| 0 <= i < targets@.len() && (#[trigger] targets@[i])@ == to {
                    let i = choose|i: int| 0 <= i < targets@.len() && (#[trigger] targets@[i])@ == to;
                    assert(names[origin[i]] == (from@, to));
                    assert(names.contains((from@, to)));
                }
            }
            assert forall|i: int, j: int| 0 <= i < j < targets@.len() implies targets@[i]@
                != targets@[j]@ by {
                assert(origin[i] < origin[j]);
                assert(names[origin[i]] != names[origin[j]]);
            }
        }
        if targets.len() == 0 {
            None
        } else {
            Some(targets)
        }
    }

    /// Returns every recorded pair of a sending and a receiving port, each once.
    pub fn iter(&self) -> (pairs: &Vec<(Node, Node)>)
        requires
            self.wf(),
        ensures
            pair_names(pairs@).no_duplicates(),
            pair_names(pairs@).to_set() == self@,
    {
        &self.pairs
    }

    /// Returns the relation with every pair turned round.
    pub fn reverse(&self) -> (map: CouplingMap)
        requires
            self.wf(),
        ensures
            map.wf(),
            forall|a: NodeName, b: NodeName| map@.contains((a, b)) <==> self@.contains((b, a)),
    {
        let mut map = CouplingMap::new();
        let n = self.pairs.len();
        let mut k: usize = 0;
        let ghost names = pair_names(self.pairs@);
        while k < n
            invariant
                k <= n,
                n == self.pairs@.len(),
                names == pair_names(self.pairs@),
                map.wf(),
                forall|a: NodeName, b: NodeName|
                    map@.contains((a, b)) <==> exists|m: int|
                        0 <= m < k && #[trigger] names[m] == (b, a),
            decreases n - k,
        {
            let ghost before = map@;
            map.insert(self.pairs[k].1.duplicate(), self.pairs[k].0.duplicate());
            proof {
                assert forall|a: NodeName, b: NodeName|
                    map@.contains((a, b)) <==> exists|m: int|
                        0 <= m < k + 1 && #[trigger] names[m] == (b, a) by {
                    if map@.contains((a, b)) {
                        if before.contains((a, b)) {
                            let m = choose|m: int| 0 <= m < k && #[trigger] names[m] == (b, a);
                            assert(0 <= m < k + 1 && names[m] == (b, a));
                        } else {
                            assert(names[k as int] == (b, a));
                        }
                    }
                    if exists|m: int| 0 <= m < k + 1 && #[trigger] names[m] == (b, a) {
                        let m = choose|m: int| 0 <= m < k + 1 && #[trigger] names[m] == (b, a);
                        if m < k {
                            assert(before.contains((a, b)));
                        }
                    }
                }
            }
            k = k + 1;
        }
        proof {
            assert forall|a: NodeName, b: NodeName| map@.contains((a, b)) <==> self@.contains(
                (b, a),
            ) by {
                if self@.contains((b, a)) {
                    let m = choose|m: int| 0 <= m < names.len() && names[m] == (b, a);
                    assert(0 <= m < k && names[m] == (b, a));
                }
                if map@.contains((a, b)) {
                    let m = choose|m: int| 0 <= m < k && #[trigger] names[m] == (b, a);
                    assert(names.contains((b, a)));
                }
            }
        }
        map
    }
}

/// The kinds of couplings, told apart by which ends belong to a subcomponent.
#[derive(Debug, Clone, Copy, PartialEq, Eq, PartialOrd, Ord, Hash)]
pub enum CouplingType {
    /// From an input of the model to an input of a subcomponent.
    EIC,
    /// From an output of a subcomponent to an input of a subcomponent.
    IC,
    /// From an output of a subcomponent to an output of the model.
    EOC,
    /// From the model to the model: not a coupling.
    Invalid,
}

/// Why a coupling cannot be added to a model tree.
#[derive(Debug)]
pub enum CouplingError {
    /// The model has no subcomponents.
    NoComponents,
    /// A port that the coupling names does not exist.
    InvalidPort,
    /// A subcomponent that the coupling names does not exist.
    InvalidComponent,
}

/// The names that make up a coupling of a model tree.
pub struct CouplingName {
    pub component_from: Option<Seq<char>>,
    pub port_from: Seq<char>,
    pub component_to: Option<Seq<char>>,
    pub port_to: Seq<char>,
}

impl CouplingName {
    /// The kind of the coupling.
    pub open spec fn kind(self) -> CouplingType {
        if self.component_from.is_none() && self.component_to.is_some() {
            CouplingType::EIC
        } else if self.component_from.is_some() && self.component_to.is_some() {
            CouplingType::IC
        } else if self.component_from.is_some() && self.component_to.is_none() {
            CouplingType::EOC
        } else {
            CouplingType::Invalid
        }
    }

    /// The sending port and the receiving port.
    pub open spec fn nodes(self) -> (NodeName, NodeName) {
        ((self.component_from, self.port_from), (self.component_to, self.port_to))
    }
}

/// A coupling of a model tree, by the names of its two ports.
#[derive(Debug, Clone, PartialEq, Eq, PartialOrd, Hash)]
pub struct Coupling {
    component_from: Option<String>,
    port_from: String,
    component_to: Option<String>,
    port_to: String,
}

impl View for Coupling {
    type V = CouplingName;

    closed spec fn view(&self) -> CouplingName {
        CouplingName {
            component_from: optional_name(self.component_from),
            port_from: self.port_from@,
            component_to: optional_name(self.component_to),
            port_to: self.port_to@,
        }
    }
}

impl Coupling {
    /// Creates a coupling from the names of its ports.
    pub fn new(
        component_from: Option<String>,
        port_from: String,
        component_to: Option<String>,
        port_to: String,
    ) -> (c: Coupling)
        ensures
            c@ == (CouplingName {
                component_from: optional_name(component_from),
                port_from: port_from@,
                component_to: optional_name(component_to),
                port_to: port_to@,
            }),
    {
        Coupling { component_from, port_from, component_to, port_to }
    }

    /// Returns the name of the sending subcomponent, or `None` for the model itself.
    pub fn component_from(&self) -> (name: Option<&String>)
        ensures
            match name {
                Some(n) => self@.component_from == Some(n@),
                None => self@.component_from.is_none(),
            },
    {
        self.component_from.as_ref()
    }

    /// Returns the name of the sending port.
    pub fn port_from(&self) -> (name: &String)
        ensures
            name@ == self@.port_from,
    {
        &self.port_from
    }

    /// Returns the name of the receiving subcomponent, or `None` for the model itself.
    pub fn component_to(&self) -> (name: Option<&String>)
        ensures
            match name {
                Some(n) => self@.component_to == Some(n@),
                None => self@.component_to.is_none(),
            },
    {
        self.component_to.as_ref()
    }

    /// Returns the name of the receiving port.
    pub fn port_to(&self) -> (name: &String)
        ensures
            name@ == self@.port_to,
    {
        &self.port_to
    }

    /// Returns the kind of the coupling.
    pub fn get_type(&self) -> (kind: CouplingType)
        ensures
            kind == self@.kind(),
    {
        if self.component_from.is_none() && self.component_to.is_some() {
            CouplingType::EIC
        } else if self.component_from.is_some() && self.component_to.is_some() {
            CouplingType::IC
        } else if self.component_from.is_some() && self.component_to.is_none() {
            CouplingType::EOC
        } else {
            CouplingType::Invalid
        }
    }

    /// Returns the sending port and the receiving port.
    pub fn nodes(&self) -> (nodes: (Node, Node))
        ensures
            (nodes.0@, nodes.1@) == self@.nodes(),
    {
        (
            Node(copy_optional_name(&self.component_from), self.port_from.clone()),
            Node(copy_optional_name(&self.component_to), self.port_to.clone()),
        )
    }

    /// Returns `true` if both couplings have the same names.
    pub fn same(&self, other: &Coupling) -> (same: bool)
        ensures
            same == (self@ == other@),
    {
        same_optional_name(&self.component_from, &other.component_from) && self.port_from
            == other.port_from && same_optional_name(&self.component_to, &other.component_to)
            && self.port_to == other.port_to
    }
}

} // verus!
