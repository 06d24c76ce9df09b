//! The tree itself: a component with its port names, its named subcomponents
//! and its couplings.
use super::{Coupling, CouplingError, CouplingMap, CouplingName, NodeName};
use vstd::prelude::*;

verus! {

/// The names held by a list of strings.
pub open spec fn names(list: Seq<String>) -> Seq<Seq<char>> {
    Seq::new(list.len(), |i: int| list[i]@)
}

/// The names of a list of couplings.
pub open spec fn coupling_names(list: Seq<Coupling>) -> Seq<CouplingName> {
    Seq::new(list.len(), |i: int| list[i]@)
}

/// Tells whether the list holds the name.
fn holds_name(list: &Vec<String>, name: &str) -> (b: bool)
    ensures
        b == names(list@).contains(name@),
{
    let key = name.to_owned();
    let n = list.len();
    let mut i: usize = 0;
    while i < n
        invariant
            i <= n,
            n == list@.len(),
            key@ == name@,
            forall|j: int| 0 <= j < i ==> names(list@)[j] != name@,
        decreases n - i,
    {
        if list[i] == key {
            assert(names(list@)[i as int] == name@);
            return true;
        }
        i = i + 1;
    }
    false
}

/// Adds the name to the list unless the list holds it. Returns `true` if it was added.
fn add_name(list: &mut Vec<String>, name: &str) -> (added: bool)
    requires
        names(old(list)@).no_duplicates(),
    ensures
        names(final(list)@).no_duplicates(),
        added == !names(old(list)@).to_set().contains(name@),
        names(final(list)@).to_set() == names(old(list)@).to_set().insert(name@),
{
    if holds_name(list, name) {
        assert(names(list@).to_set() =~= names(list@).to_set().insert(name@));
        false
    } else {
        list.push(name.to_owned());
        proof {
            let before = names(old(list)@);
            let after = names(list@);
            assert(after =~= before.push(name@));
            assert forall|x: Seq<char>| after.to_set().contains(x) == before.to_set().insert(
                name@,
            ).contains(x) by {
                if after.contains(x) {
                    let i = choose|i: int| 0 <= i < after.len() && after[i] == x;
                    if i < before.len() {
                        assert(before[i] == x);
                    }
                }
                if before.contains(x) {
                    let i = choose|i: int| 0 <= i < before.len() && before[i] == x;
                    assert(after[i] == x);
                }
                assert(after[after.len() - 1] == name@);
            }
            assert(after.to_set() =~= before.to_set().insert(name@));
        }
        true
    }
}

/// Adds the coupling to the list unless the list holds one of the same
/// names. Returns `true` if it was added.
fn add_unique(list: &mut Vec<Coupling>, coupling: Coupling) -> (added: bool)
    requires
        coupling_names(old(list)@).no_duplicates(),
    ensures
        coupling_names(final(list)@).no_duplicates(),
        added == !coupling_names(old(list)@).to_set().contains(coupling@),
        coupling_names(final(list)@).to_set() == coupling_names(old(list)@).to_set().insert(
            coupling@,
        ),
{
    let n = list.len();
    let mut i: usize = 0;
    while i < n
        invariant
            i <= n,
            n == list@.len(),
            *list == *old(list),
            coupling_names(old(list)@).no_duplicates(),
            forall|j: int| 0 <= j < i ==> coupling_names(list@)[j] != coupling@,
        decreases n - i,
    {
        if list[i].same(&coupling) {
            assert(coupling_names(list@)[i as int] == coupling@);
            assert(coupling_names(list@).to_set() =~= coupling_names(list@).to_set().insert(
                coupling@,
            ));
            return false;
        }
        i = i + 1;
    }
    let ghost name = coupling@;
    list.push(coupling);
    proof {
        let before = coupling_names(old(list)@);
        let after = coupling_names(list@);
        assert(after =~= before.push(name));
        assert forall|x: CouplingName| after.to_set().contains(x) == before.to_set().insert(
            name,
        ).contains(x) by {
            if after.contains(x) {
                let i = choose|i: int| 0 <= i < after.len() && after[i] == x;
                if i < before.len() {
                    assert(before[i] == x);
                }
            }
            if before.contains(x) {
                let i = choose|i: int| 0 <= i < before.len() && before[i] == x;
                assert(after[i] == x);
            }
            assert(after[after.len() - 1] == name);
        }
        assert(after.to_set() =~= before.to_set().insert(name));
    }
    true
}

/// What a model tree is: the names of its input and output ports, its
/// subcomponents by name, in the order they were added, and its couplings.
pub struct TreeView {
    pub input: Set<Seq<char>>,
    pub output: Set<Seq<char>>,
    pub components: Seq<(Seq<char>, TreeView)>,
    pub couplings: Set<CouplingName>,
}

/// Index of the first entry of `list` that is called `name`, if there is one.
pub open spec fn index_of(list: Seq<(Seq<char>, TreeView)>, name: Seq<char>) -> Option<int>
    decreases list.len(),
{
    if list.len() == 0 {
        None
    } else {
        match index_of(list.drop_last(), name) {
            Some(i) => Some(i),
            None => if list.last().0 == name {
                Some(list.len() - 1)
            } else {
                None
            },
        }
    }
}

/// `index_of` returns the first index at which the name occurs, and `None` only if it occurs
/// nowhere.
pub proof fn lemma_index_of(list: Seq<(Seq<char>, TreeView)>, name: Seq<char>)
    ensures
        match index_of(list, name) {
            Some(i) => 0 <= i < list.len() && list[i].0 == name && forall|j: int|
                0 <= j < i ==> (#[trigger] list[j]).0 != name,
            None => forall|j: int| 0 <= j < list.len() ==> (#[trigger] list[j]).0 != name,
        },
    decreases list.len(),
{
    if list.len() > 0 {
        lemma_index_of(list.drop_last(), name);
        assert(forall|j: int| 0 <= j < list.len() - 1 ==> list.drop_last()[j] == list[j]);
    }
}

impl TreeView {
    /// The subcomponent called `name`, if there is one.
    pub open spec fn child(self, name: Seq<char>) -> Option<TreeView> {
        match index_of(self.components, name) {
            Some(i) => Some(self.components[i].1),
            None => None,
        }
    }

    /// The subcomponent called `name` has an input port called `port`.
    pub open spec fn child_has_input(self, name: Seq<char>, port: Seq<char>) -> bool {
        self.child(name) is Some && self.child(name)->Some_0.input.contains(port)
    }

    /// The subcomponent called `name` has an output port called `port`.
    pub open spec fn child_has_output(self, name: Seq<char>, port: Seq<char>) -> bool {
        self.child(name) is Some && self.child(name)->Some_0.output.contains(port)
    }

    /// Whether a coupling fits the tree, and if not, why.
    ///
    /// A model without subcomponents takes no coupling. A coupling from the
    /// model to a subcomponent needs the model's input and the subcomponent's
    /// input. A coupling between subcomponents needs both of them, the
    /// sender's output and the receiver's input. A coupling from a
    /// subcomponent to the model needs the subcomponent, its output and the
    /// model's output. A coupling from the model to the model names no
    /// component that exists.
    pub open spec fn check(self, coupling: CouplingName) -> Result<(), CouplingError> {
        if self.components.len() == 0 {
            Err(CouplingError::NoComponents)
        } else {
            match (coupling.component_from, coupling.component_to) {
                (None, Some(to)) => if !self.input.contains(coupling.port_from) {
                    Err(CouplingError::InvalidPort)
                } else if self.child(to) is None {
                    Err(CouplingError::InvalidComponent)
                } else if self.child_has_input(to, coupling.port_to) {
                    Ok(())
                } else {
                    Err(CouplingError::InvalidPort)
                },
                (Some(from), Some(to)) => if self.child(from) is None || self.child(to) is None {
                    Err(CouplingError::InvalidComponent)
                } else if self.child_has_output(from, coupling.port_from) && self.child_has_input(
                    to,
                    coupling.port_to,
                ) {
                    Ok(())
                } else {
                    Err(CouplingError::InvalidPort)
                },
                (Some(from), None) => if self.child(from) is None {
                    Err(CouplingError::InvalidComponent)
                } else if self.child_has_output(from, coupling.port_from) && self.output.contains(
                    coupling.port_to,
                ) {
                    Ok(())
                } else {
                    Err(CouplingError::InvalidPort)
                },
                (None, None) => Err(CouplingError::InvalidComponent),
            }
        }
    }
}

/// A component of a model tree.
#[derive(Debug)]
pub struct Component {
    input: Vec<String>,
    output: Vec<String>,
    components: Vec<(String, Component)>,
    couplings: Vec<Coupling>,
}

/// A named subcomponent as the tree sees it.
pub open spec fn entry_view(entry: (String, Component)) -> (Seq<char>, TreeView) {
    (entry.0@, entry.1@)
}

/// The views of a list of named subcomponents.
pub open spec fn entry_views(entries: Seq<(String, Component)>) -> Seq<(Seq<char>, TreeView)> {
    Seq::new(entries.len(), |i: int| entry_view(entries[i]))
}

impl Component {
    pub closed spec fn view(&self) -> TreeView
        decreases self,
    {
        TreeView {
            input: names(self.input@).to_set(),
            output: names(self.output@).to_set(),
            components: Seq::new(
                self.components@.len(),
                |i: int|
                    if 0 <= i < self.components@.len() {
                        (self.components@[i].0@, self.components@[i].1@)
                    } else {
                        arbitrary()
                    },
            ),
            couplings: coupling_names(self.couplings@).to_set(),
        }
    }

    /// Nothing is stored twice, here or in any subcomponent.
    pub closed spec fn wf(&self) -> bool
        decreases self,
    {
        &&& names(self.input@).no_duplicates()
        &&& names(self.output@).no_duplicates()
        &&& coupling_names(self.couplings@).no_duplicates()
        &&& forall|i: int, j: int|
            0 <= i < j < self.components@.len() ==> self.components@[i].0@
                != self.components@[j].0@
        &&& forall|i: int|
            0 <= i < self.components@.len() ==> (#[trigger] self.components@[i]).1.wf()
    }

    /// Creates a component without ports, subcomponents or couplings.
    pub fn new() -> (c: Component)
        ensures
            c.wf(),
            c@ == (TreeView {
                input: Set::empty(),
                output: Set::empty(),
                components: Seq::empty(),
                couplings: Set::empty(),
            }),
    {
        let c = Component {
            input: Vec::new(),
            output: Vec::new(),
            components: Vec::new(),
            couplings: Vec::new(),
        };
        assert(c@.input =~= Set::empty());
        assert(c@.output =~= Set::empty());
        assert(c@.components =~= Seq::empty());
        assert(c@.couplings =~= Set::empty());
        c
    }

    /// Adds an input port. Returns `true` if there was none of that name.
    pub fn add_input(&mut self, input: &str) -> (added: bool)
        requires
            old(self).wf(),
        ensures
            final(self).wf(),
            added == !old(self)@.input.contains(input@),
            final(self)@ == (TreeView { input: old(self)@.input.insert(input@), ..old(self)@ }),
    {
        let added = add_name(&mut self.input, input);
        assert(self@.components =~= old(self)@.components);
        added
    }

    /// Returns `true` if there is an input port of that name.
    pub fn has_input(&self, input: &str) -> (b: bool)
        ensures
            b == self@.input.contains(input@),
    {
        holds_name(&self.input, input)
    }

    /// Adds an output port. Returns `true` if there was none of that name.
    pub fn add_output(&mut self, output: &str) -> (added: bool)
        requires
            old(self).wf(),
        ensures
            final(self).wf(),
            added == !old(self)@.output.contains(output@),
            final(self)@ == (TreeView { output: old(self)@.output.insert(output@), ..old(self)@ }),
    {
        let added = add_name(&mut self.output, output);
        assert(self@.components =~= old(self)@.components);
        added
    }

    /// Returns the names of the input ports, each once.
    pub fn inputs(&self) -> (list: &Vec<String>)
        requires
            self.wf(),
        ensures
            names(list@).no_duplicates(),
            names(list@).to_set() == self@.input,
    {
        &self.input
    }

    /// Returns the names of the output ports, each once.
    pub fn outputs(&self) -> (list: &Vec<String>)
        requires
            self.wf(),
        ensures
            names(list@).no_duplicates(),
            names(list@).to_set() == self@.output,
    {
        &self.output
    }

    /// Returns `true` if there is an output port of that name.
    pub fn has_output(&self, output: &str) -> (b: bool)
        ensures
            b == self@.output.contains(output@),
    {
        holds_name(&self.output, output)
    }

    /// Returns the position of the subcomponent called `name`, if there is one.
    fn position(&self, name: &str) -> (r: Option<usize>)
        ensures
            match r {
                Some(i) => index_of(self@.components, name@) == Some(i as int) && i
                    < self.components@.len(),
                None => index_of(self@.components, name@).is_none(),
            },
    {
        let key = name.to_owned();
        let n = self.components.len();
        let mut i: usize = 0;
        while i < n
            invariant
                i <= n,
                n == self.components@.len(),
                key@ == name@,
                forall|j: int| 0 <= j < i ==> (#[trigger] self@.components[j]).0 != name@,
            decreases n - i,
        {
            if self.components[i].0 == key {
                proof {
                    lemma_index_of(self@.components, name@);
                    assert(self@.components[i as int].0 == name@);
                }
                return Some(i);
            }
            i = i + 1;
        }
        proof {
            lemma_index_of(self@.components, name@);
        }
        None
    }

    /// Adds a subcomponent under the given name. If there was one of that
    /// name, it is replaced and returned.
    pub fn add_component(&mut self, name: &str, component: Component) -> (r: Option<Component>)
        requires
            old(self).wf(),
            component.wf(),
        ensures
            final(self).wf(),
            final(self)@.input == old(self)@.input,
            final(self)@.output == old(self)@.output,
            final(self)@.couplings == old(self)@.couplings,
            match index_of(old(self)@.components, name@) {
                Some(i) => r is Some && r->Some_0@ == old(self)@.components[i].1
                    && final(self)@.components == old(self)@.components.update(
                    i,
                    (name@, component@),
                ),
                None => r is None && final(self)@.components == old(self)@.components.push(
                    (name@, component@),
                ),
            },
    {
        proof {
            lemma_index_of(self@.components, name@);
        }
        match self.position(name) {
            Some(i) => {
                self.components.push((name.to_owned(), component));
                let replaced = self.components.swap_remove(i);
                assert(self@.components =~= old(self)@.components.update(
                    i as int,
                    (name@, component@),
                ));
                proof {
                    assert(old(self)@.components[i as int].0 == name@);
                    assert forall|a: int, b: int|
                        0 <= a < b < self.components@.len() implies self.components@[a].0@
                        != self.components@[b].0@ by {
                        assert(old(self).components@[a].0@ != old(self).components@[b].0@);
                        assert(old(self)@.components[a].0 == old(self).components@[a].0@);
                        assert(old(self)@.components[b].0 == old(self).components@[b].0@);
                    }
                    assert forall|a: int| 0 <= a < self.components@.len() implies (
                    #[trigger] self.components@[a]).1.wf() by {
                        if a != i {
                            assert(old(self).components@[a].1.wf());
                        }
                    }
                }
                Some(replaced.1)
            },
            None => {
                self.components.push((name.to_owned(), component));
                assert(self@.components =~= old(self)@.components.push((name@, component@)));
                proof {
                    assert forall|a: int, b: int|
                        0 <= a < b < self.components@.len() implies self.components@[a].0@
                        != self.components@[b].0@ by {
                        assert(old(self)@.components[a].0 == old(self).components@[a].0@);
                        if b < old(self).components@.len() {
                            assert(old(self).components@[a].0@ != old(self).components@[b].0@);
                        }
                    }
                    assert forall|a: int| 0 <= a < self.components@.len() implies (
                    #[trigger] self.components@[a]).1.wf() by {
                        if a < old(self).components@.len() {
                            assert(old(self).components@[a].1.wf());
                        }
                    }
                }
                None
            },
        }
    }

    /// Returns the subcomponents with their names, in the order they were added.
    pub fn components(&self) -> (list: &Vec<(String, Component)>)
        requires
            self.wf(),
        ensures
            entry_views(list@) == self@.components,
            forall|i: int| 0 <= i < list@.len() ==> (#[trigger] list@[i]).1.wf(),
    {
        assert(entry_views(self.components@) =~= self@.components);
        &self.components
    }

    /// Returns the subcomponent called `name`, if there is one.
    pub fn get_component(&self, name: &str) -> (r: Option<&Component>)
        requires
            self.wf(),
        ensures
            match r {
                Some(c) => self@.child(name@) == Some(c@) && c.wf(),
                None => self@.child(name@).is_none(),
            },
    {
        match self.position(name) {
            Some(i) => Some(&self.components[i].1),
            None => None,
        }
    }

    /// Returns `true` if the component has subcomponents.
    pub fn is_coupled(&self) -> (b: bool)
        ensures
            b == (self@.components.len() > 0),
    {
        self.components.len() > 0
    }

    /// Returns the couplings, each once.
    pub fn get_couplings(&self) -> (list: &Vec<Coupling>)
        requires
            self.wf(),
        ensures
            coupling_names(list@).no_duplicates(),
            coupling_names(list@).to_set() == self@.couplings,
    {
        &self.couplings
    }

    /// Tells whether the subcomponent called `name` has an input port called `port`.
    fn child_has_input(&self, name: &str, port: &str) -> (r: Option<bool>)
        requires
            self.wf(),
        ensures
            match r {
                Some(b) => self@.child(name@) is Some && b == self@.child_has_input(name@, port@),
                None => self@.child(name@) is None,
            },
    {
        match self.get_component(name) {
            Some(c) => Some(c.has_input(port)),
            None => None,
        }
    }

    /// Tells whether the subcomponent called `name` has an output port called `port`.
    fn child_has_output(&self, name: &str, port: &str) -> (r: Option<bool>)
        requires
            self.wf(),
        ensures
            match r {
                Some(b) => self@.child(name@) is Some && b == self@.child_has_output(
                    name@,
                    port@,
                ),
                None => self@.child(name@) is None,
            },
    {
        match self.get_component(name) {
            Some(c) => Some(c.has_output(port)),
            None => None,
        }
    }

    /// Tells whether the coupling fits the tree, and if not, why.
    pub fn check_coupling(&self, coupling: &Coupling) -> (r: Result<(), CouplingError>)
        requires
            self.wf(),
        ensures
            r == self@.check(coupling@),
    {
        if !self.is_coupled() {
            return Err(CouplingError::NoComponents);
        }
        match (coupling.component_from(), coupling.component_to()) {
            (None, Some(to)) => {
                if !self.has_input(coupling.port_from().as_str()) {
                    return Err(CouplingError::InvalidPort);
                }
                match self.child_has_input(to.as_str(), coupling.port_to().as_str()) {
                    Some(true) => Ok(()),
                    Some(false) => Err(CouplingError::InvalidPort),
                    None => Err(CouplingError::InvalidComponent),
                }
            },
            (Some(from), Some(to)) => {
                match (
                    self.child_has_output(from.as_str(), coupling.port_from().as_str()),
                    self.child_has_input(to.as_str(), coupling.port_to().as_str()),
                ) {
                    (Some(sends), Some(receives)) => if sends && receives {
                        Ok(())
                    } else {
                        Err(CouplingError::InvalidPort)
                    },
                    _ => Err(CouplingError::InvalidComponent),
                }
            },
            (Some(from), None) => {
                match self.child_has_output(from.as_str(), coupling.port_from().as_str()) {
                    Some(sends) => if sends && self.has_output(coupling.port_to().as_str()) {
                        Ok(())
                    } else {
                        Err(CouplingError::InvalidPort)
                    },
                    None => Err(CouplingError::InvalidComponent),
                }
            },
            (None, None) => Err(CouplingError::InvalidComponent),
        }
    }

    /// Adds a coupling if it fits the tree. Returns `true` if the coupling was
    /// not there before, and the reason if it does not fit.
    pub fn add_coupling(&mut self, coupling: Coupling) -> (r: Result<bool, CouplingError>)
        requires
            old(self).wf(),
        ensures
            final(self).wf(),
            match old(self)@.check(coupling@) {
                Ok(_) => r == Ok::<bool, CouplingError>(!old(self)@.couplings.contains(coupling@))
                    && final(self)@ == (TreeView {
                    couplings: old(self)@.couplings.insert(coupling@),
                    ..old(self)@
                }),
                Err(e) => r == Err::<bool, CouplingError>(e) && final(self)@ == old(self)@,
            },
    {
        match self.check_coupling(&coupling) {
            Ok(_) => {
                let added = add_unique(&mut self.couplings, coupling);
                assert(self@.components =~= old(self)@.components);
                Ok(added)
            },
            Err(e) => Err(e),
        }
    }

    /// Stores a coupling as it is, whether it fits the tree or not, as a tree
    /// that was written down elsewhere may hold it. Returns `true` if the
    /// coupling was not there before.
    pub fn insert_coupling(&mut self, coupling: Coupling) -> (added: bool)
        requires
            old(self).wf(),
        ensures
            final(self).wf(),
            added == !old(self)@.couplings.contains(coupling@),
            final(self)@ == (TreeView {
                couplings: old(self)@.couplings.insert(coupling@),
                ..old(self)@
            }),
    {
        let added = add_unique(&mut self.couplings, coupling);
        assert(self@.components =~= old(self)@.components);
        added
    }

    /// Returns the relation between sending and receiving ports that the couplings make.
    pub fn coupling_map(&self) -> (map: CouplingMap)
        requires
            self.wf(),
        ensures
            map.wf(),
            forall|pair: (NodeName, NodeName)|
                map@.contains(pair) <==> exists|c: CouplingName|
                    self@.couplings.contains(c) && #[trigger] c.nodes() == pair,
    {
        let mut map = CouplingMap::new();
        let n = self.couplings.len();
        let mut k: usize = 0;
        let ghost all = coupling_names(self.couplings@);
        while k < n
            invariant
                k <= n,
                n == self.couplings@.len(),
                all == coupling_names(self.couplings@),
                map.wf(),
                forall|pair: (NodeName, NodeName)|
                    map@.contains(pair) <==> exists|m: int|
                        0 <= m < k && (#[trigger] all[m]).nodes() == pair,
            decreases n - k,
        {
            let ghost before = map@;
            let (from, to) = self.couplings[k].nodes();
            map.insert(from, to);
            proof {
                assert forall|pair: (NodeName, NodeName)|
                    map@.contains(pair) <==> exists|m: int|
                        0 <= m < k + 1 && (#[trigger] all[m]).nodes() == pair by {
                    if map@.contains(pair) {
                        if before.contains(pair) {
                            let m = choose|m: int| 0 <= m < k && (#[trigger] all[m]).nodes() == pair;
                            assert(0 <= m < k + 1 && all[m].nodes() == pair);
                        } else {
                            assert(all[k as int].nodes() == pair);
                        }
                    }
                    if exists|m: int| 0 <= m < k + 1 && (#[trigger] all[m]).nodes() == pair {
                        let m = choose|m: int|
                            0 <= m < k + 1 && (#[trigger] all[m]).nodes() == pair;
                        if m < k {
                            assert(before.contains(pair));
                        }
                    }
                }
            }
            k = k + 1;
        }
        proof {
            assert forall|pair: (NodeName, NodeName)|
                map@.contains(pair) <==> exists|c: CouplingName|
                    self@.couplings.contains(c) && #[trigger] c.nodes() == pair by {
                if map@.contains(pair) {
                    let m = choose|m: int| 0 <= m < k && (#[trigger] all[m]).nodes() == pair;
                    assert(all.contains(all[m]));
                    assert(self@.couplings.contains(all[m]) && all[m].nodes() == pair);
                }
                if exists|c: CouplingName|
                    self@.couplings.contains(c) && #[trigger] c.nodes() == pair {
                    let c = choose|c: CouplingName|
                        self@.couplings.contains(c) && #[trigger] c.nodes() == pair;
                    let m = choose|m: int| 0 <= m < all.len() && all[m] == c;
                    assert(0 <= m < k && all[m].nodes() == pair);
                }
            }
        }
        map
    }
}

/// A named model tree.
#[derive(Debug)]
pub struct DevsModelTree {
    pub name: String,
    pub model: Component,
}

impl DevsModelTree {
    /// Creates a tree whose root has neither ports nor subcomponents.
    pub fn new(name: &str) -> (tree: DevsModelTree)
        ensures
            tree.model.wf(),
            tree.name@ == name@,
            tree.model@ == (TreeView {
                input: Set::empty(),
                output: Set::empty(),
                components: Seq::empty(),
                couplings: Set::empty(),
            }),
    {
        DevsModelTree { name: name.to_owned(), model: Component::new() }
    }

    /// Returns the name of the tree.
    pub fn get_name(&self) -> (name: &str)
        ensures
            name@ == self.name@,
    {
        self.name.as_str()
    }
}

} // verus!
