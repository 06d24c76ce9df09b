//! MQTT topics of a model tree: which topic has to be passed on to which.
use super::tree::{coupling_names, entry_views, Component, TreeView};
use super::{CouplingName, Node, NodeName};
use vstd::prelude::*;
use vstd::string::StringExecFns;

verus! {

/// A pair of topics: messages on the first are passed on to the second.
pub type TopicPair = (Seq<char>, Seq<char>);

/// The texts of a list of pairs of strings.
pub open spec fn pair_texts(pairs: Seq<(String, String)>) -> Seq<TopicPair> {
    Seq::new(pairs.len(), |i: int| (pairs[i].0@, pairs[i].1@))
}

/// Some pair of the relation begins with the topic.
pub open spec fn has_topic(pairs: Set<TopicPair>, topic: Seq<char>) -> bool {
    exists|to: Seq<char>| pairs.contains((topic, to))
}

/// The relation `a` after the relation `b` was laid over it: the pairs of
/// `b`, and the pairs of `a` whose first topic does not occur in `b`.
pub open spec fn overlaid(a: Set<TopicPair>, b: Set<TopicPair>) -> Set<TopicPair> {
    Set::new(|p: TopicPair| b.contains(p) || (a.contains(p) && !has_topic(b, p.0)))
}

/// The pair is one of the first `k` of the list.
pub open spec fn among(texts: Seq<TopicPair>, k: int, p: TopicPair) -> bool {
    exists|x: int| 0 <= x < k && #[trigger] texts[x] == p
}

/// A relation between topics.
#[derive(Debug, Default)]
pub struct MqttTopicMap {
    pairs: Vec<(String, String)>,
}

impl View for MqttTopicMap {
    type V = Set<TopicPair>;

    closed spec fn view(&self) -> Set<TopicPair> {
        pair_texts(self.pairs@).to_set()
    }
}

impl MqttTopicMap {
    /// No pair is stored twice.
    pub closed spec fn wf(&self) -> bool {
        pair_texts(self.pairs@).no_duplicates()
    }

    /// Creates an empty relation.
    pub fn new() -> (map: MqttTopicMap)
        ensures
            map.wf(),
            map@ == Set::<TopicPair>::empty(),
    {
        let map = MqttTopicMap { pairs: Vec::new() };
        assert(map@ =~= Set::<TopicPair>::empty());
        map
    }

    /// Tells whether the pair is stored.
    fn holds(&self, topic: &String, port: &String) -> (b: bool)
        ensures
            b == self@.contains((topic@, port@)),
    {
        let n = self.pairs.len();
        let mut i: usize = 0;
        while i < n
            invariant
                i <= n,
                n == self.pairs@.len(),
                forall|j: int| 0 <= j < i ==> pair_texts(self.pairs@)[j] != (topic@, port@),
            decreases n - i,
        {
            if self.pairs[i].0 == *topic && self.pairs[i].1 == *port {
                assert(pair_texts(self.pairs@)[i as int] == (topic@, port@));
                return true;
            }
            i = i + 1;
        }
        false
    }

    /// Records that messages on `topic` are passed on to `port`.
    pub fn insert(&mut self, topic: String, port: String)
        requires
            old(self).wf(),
        ensures
            final(self).wf(),
            final(self)@ == old(self)@.insert((topic@, port@)),
    {
        if self.holds(&topic, &port) {
            assert(self@ =~= old(self)@.insert((topic@, port@)));
        } else {
            let ghost pair = (topic@, port@);
            self.pairs.push((topic, port));
            proof {
                let before = pair_texts(old(self).pairs@);
                let after = pair_texts(self.pairs@);
                assert(after =~= before.push(pair));
                assert forall|p: TopicPair| self@.contains(p) == old(self)@.insert(pair).contains(
                    p,
                ) by {
                    if after.contains(p) {
                        let i = choose|i: int| 0 <= i < after.len() && after[i] == p;
                        if i < before.len() {
                            assert(before[i] == p);
                        }
                    }
                    if before.contains(p) {
                        let i = choose|i: int| 0 <= i < before.len() && before[i] == p;
                        assert(after[i] == p);
                    }
                    assert(after[after.len() - 1] == pair);
                }
                assert(self@ =~= old(self)@.insert(pair));
            }
        }
    }

    /// Returns the topics that messages on `topic` are passed on to, each
    /// once, or `None` if there is none.
    pub fn get(&self, topic: &str) -> (r: Option<Vec<String>>)
        requires
            self.wf(),
        ensures
            match r {
                Some(ports) => {
                    &&& ports@.len() > 0
                    &&& forall|to: Seq<char>|
                        self@.contains((topic@, to)) <==> exists|i: int|
                            0 <= i < ports@.len() && (#[trigger] ports@[i])@ == to
                    &&& forall|i: int, j: int| 0 <= i < j < ports@.len() ==> ports@[i]@ != ports@[j]@
                },
                None => !has_topic(self@, topic@),
            },
    {
        let key = topic.to_owned();
        let mut ports: Vec<String> = Vec::new();
        let ghost mut origin: Seq<int> = Seq::empty();
        let n = self.pairs.len();
        let mut k: usize = 0;
        let ghost texts = pair_texts(self.pairs@);
        while k < n
            invariant
                k <= n,
                n == self.pairs@.len(),
                key@ == topic@,
                texts == pair_texts(self.pairs@),
                texts.no_duplicates(),
                origin.len() == ports@.len(),
                forall|i: int|
                    0 <= i < ports@.len() ==> 0 <= #[trigger] origin[i] < k && texts[origin[i]] == (
                        topic@,
                        ports@[i]@,
                    ),
                forall|i: int, j: int| 0 <= i < j < ports@.len() ==> origin[i] < origin[j],
                forall|m: int|
                    0 <= m < k && (#[trigger] texts[m]).0 == topic@ ==> exists|i: int|
                        0 <= i < ports@.len() && (#[trigger] ports@[i])@ == texts[m].1,
            decreases n - k,
        {
            if self.pairs[k].0 == key {
                let ghost before = ports@;
                ports.push(self.pairs[k].1.clone());
                proof {
                    origin = origin.push(k as int);
                    assert forall|m: int|
                        0 <= m < k + 1 && (#[trigger] texts[m]).0 == topic@ implies exists|i: int|
                        0 <= i < ports@.len() && (#[trigger] ports@[i])@ == texts[m].1 by {
                        if m < k {
                            let i = choose|i: int|
                                0 <= i < before.len() && (#[trigger] before[i])@ == texts[m].1;
                            assert(ports@[i] == before[i]);
                        } else {
                            assert(ports@[ports@.len() - 1]@ == texts[m].1);
                        }
                    }
                }
            }
            k = k + 1;
        }
        proof {
            assert forall|to: Seq<char>| self@.contains((topic@, to)) <==> exists|i: int|
                0 <= i < ports@.len() && (#[trigger] ports@[i])@ == to by {
                if self@.contains((topic@, to)) {
                    let m = choose|m: int| 0 <= m < texts.len() && texts[m] == (topic@, to);
                    assert(texts[m].0 == topic@);
                }
                if exists|i: int| 0 <= i < ports@.len() && (#[trigger] ports@[i])@ == to {
                    let i = choose|i: int| 0 <= i < ports@.len() && (#[trigger] ports@[i])@ == to;
                    assert(texts[origin[i]] == (topic@, to));
                    assert(texts.contains((topic@, to)));
                }
            }
            assert forall|i: int, j: int| 0 <= i < j < ports@.len() implies ports@[i]@
                != ports@[j]@ by {
                assert(origin[i] < origin[j]);
                assert(texts[origin[i]] != texts[origin[j]]);
            }
        }
        if ports.len() == 0 {
            assert forall|to: Seq<char>| !self@.contains((topic@, to)) by {}
            None
        } else {
            Some(ports)
        }
    }

    /// Returns every recorded pair of topics, each once.
    pub fn iter(&self) -> (pairs: &Vec<(String, String)>)
        requires
            self.wf(),
        ensures
            pair_texts(pairs@).no_duplicates(),
            pair_texts(pairs@).to_set() == self@,
    {
        &self.pairs
    }

    /// Returns the relation with every pair turned round.
    pub fn reverse(&self) -> (map: MqttTopicMap)
        requires
            self.wf(),
        ensures
            map.wf(),
            forall|a: Seq<char>, b: Seq<char>| map@.contains((a, b)) <==> self@.contains((b, a)),
    {
        let mut map = MqttTopicMap::new();
        let n = self.pairs.len();
        let mut k: usize = 0;
        let ghost texts = pair_texts(self.pairs@);
        while k < n
            invariant
                k <= n,
                n == self.pairs@.len(),
                texts == pair_texts(self.pairs@),
                map.wf(),
                forall|a: Seq<char>, b: Seq<char>|
                    map@.contains((a, b)) <==> exists|m: int|
                        0 <= m < k && #[trigger] texts[m] == (b, a),
            decreases n - k,
        {
            let ghost before = map@;
            map.insert(self.pairs[k].1.clone(), self.pairs[k].0.clone());
            proof {
                assert forall|a: Seq<char>, b: Seq<char>|
                    map@.contains((a, b)) <==> exists|m: int|
                        0 <= m < k + 1 && #[trigger] texts[m] == (b, a) by {
                    if map@.contains((a, b)) {
                        if before.contains((a, b)) {
                            let m = choose|m: int| 0 <= m < k && #[trigger] texts[m] == (b, a);
                            assert(0 <= m < k + 1 && texts[m] == (b, a));
                        } else {
                            assert(texts[k as int] == (b, a));
                        }
                    }
                    if exists|m: int| 0 <= m < k + 1 && #[trigger] texts[m] == (b, a) {
                        let m = choose|m: int| 0 <= m < k + 1 && #[trigger] texts[m] == (b, a);
                        if m < k {
                            assert(before.contains((a, b)));
                        }
                    }
                }
            }
            k = k + 1;
        }
        proof {
            assert forall|a: Seq<char>, b: Seq<char>| map@.contains((a, b)) <==> self@.contains(
                (b, a),
            ) by {
                if self@.contains((b, a)) {
                    let m = choose|m: int| 0 <= m < texts.len() && texts[m] == (b, a);
                    assert(0 <= m < k && texts[m] == (b, a));
                }
                if map@.contains((a, b)) {
                    let m = choose|m: int| 0 <= m < k && #[trigger] texts[m] == (b, a);
                    assert(texts.contains((b, a)));
                }
            }
        }
        map
    }

    /// Tells whether some pair begins with the topic.
    fn has(&self, topic: &String) -> (b: bool)
        ensures
            b == has_topic(self@, topic@),
    {
        let n = self.pairs.len();
        let mut i: usize = 0;
        let ghost texts = pair_texts(self.pairs@);
        while i < n
            invariant
                i <= n,
                n == self.pairs@.len(),
                texts == pair_texts(self.pairs@),
                forall|j: int| 0 <= j < i ==> (#[trigger] texts[j]).0 != topic@,
            decreases n - i,
        {
            if self.pairs[i].0 == *topic {
                assert(texts[i as int] == (topic@, texts[i as int].1));
                assert(texts.contains((topic@, texts[i as int].1)));
                assert(self@.contains((topic@, texts[i as int].1)));
                return true;
            }
            i = i + 1;
        }
        proof {
            if has_topic(self@, topic@) {
                let to = choose|to: Seq<char>| self@.contains((topic@, to));
                let m = choose|m: int| 0 <= m < texts.len() && texts[m] == (topic@, to);
                assert(texts[m].0 == topic@);
            }
        }
        false
    }

    /// Lays another relation over this one: the pairs of `other` are added,
    /// and the pairs of this one whose first topic occurs in `other` are dropped.
    pub fn extend(&mut self, other: MqttTopicMap)
        requires
            old(self).wf(),
            other.wf(),
        ensures
            final(self).wf(),
            final(self)@ == overlaid(old(self)@, other@),
    {
        let mut kept = MqttTopicMap::new();
        let n = self.pairs.len();
        let mut i: usize = 0;
        let ghost mine = pair_texts(self.pairs@);
        while i < n
            invariant
                i <= n,
                n == self.pairs@.len(),
                mine == pair_texts(self.pairs@),
                kept.wf(),
                forall|p: TopicPair|
                    #[trigger] kept@.contains(p) <==> among(mine, i as int, p) && !has_topic(
                        other@,
                        p.0,
                    ),
            decreases n - i,
        {
            let ghost before = kept@;
            if !other.has(&self.pairs[i].0) {
                kept.insert(self.pairs[i].0.clone(), self.pairs[i].1.clone());
            }
            proof {
                assert forall|p: TopicPair|
                    #[trigger] kept@.contains(p) <==> among(mine, i + 1, p) && !has_topic(
                        other@,
                        p.0,
                    ) by {
                    if before.contains(p) {
                        assert(among(mine, i as int, p));
                        let m = choose|m: int| 0 <= m < i && #[trigger] mine[m] == p;
                        assert(0 <= m < i + 1 && mine[m] == p);
                    }
                    if kept@.contains(p) && !before.contains(p) {
                        assert(mine[i as int] == p);
                    }
                    if among(mine, i + 1, p) && !has_topic(other@, p.0) {
                        let m = choose|m: int| 0 <= m < i + 1 && #[trigger] mine[m] == p;
                        if m < i {
                            assert(among(mine, i as int, p));
                            assert(before.contains(p));
                        }
                    }
                }
            }
            i = i + 1;
        }
        let m = other.pairs.len();
        let mut j: usize = 0;
        let ghost theirs = pair_texts(other.pairs@);
        let ghost base = kept@;
        while j < m
            invariant
                j <= m,
                m == other.pairs@.len(),
                theirs == pair_texts(other.pairs@),
                kept.wf(),
                forall|p: TopicPair|
                    #[trigger] kept@.contains(p) <==> (base.contains(p) || among(
                        theirs,
                        j as int,
                        p,
                    )),
            decreases m - j,
        {
            let ghost before = kept@;
            kept.insert(other.pairs[j].0.clone(), other.pairs[j].1.clone());
            proof {
                assert forall|p: TopicPair|
                    #[trigger] kept@.contains(p) <==> (base.contains(p) || among(
                        theirs,
                        j + 1,
                        p,
                    )) by {
                    if before.contains(p) && !base.contains(p) {
                        assert(among(theirs, j as int, p));
                        let x = choose|x: int| 0 <= x < j && #[trigger] theirs[x] == p;
                        assert(0 <= x < j + 1 && theirs[x] == p);
                    }
                    if kept@.contains(p) && !before.contains(p) {
                        assert(theirs[j as int] == p);
                    }
                    if among(theirs, j + 1, p) {
                        let x = choose|x: int| 0 <= x < j + 1 && #[trigger] theirs[x] == p;
                        if x < j {
                            assert(among(theirs, j as int, p));
                            assert(before.contains(p));
                        }
                    }
                }
            }
            j = j + 1;
        }
        proof {
            assert forall|p: TopicPair| kept@.contains(p) == overlaid(old(self)@, other@).contains(
                p,
            ) by {
                if other@.contains(p) {
                    let x = choose|x: int| 0 <= x < theirs.len() && theirs[x] == p;
                    assert(among(theirs, j as int, p));
                }
                if old(self)@.contains(p) {
                    let x = choose|x: int| 0 <= x < mine.len() && mine[x] == p;
                    assert(among(mine, i as int, p));
                }
                if base.contains(p) {
                    assert(among(mine, i as int, p));
                    let x = choose|x: int| 0 <= x < i && #[trigger] mine[x] == p;
                    assert(mine.contains(p));
                }
                if among(theirs, j as int, p) {
                    let x = choose|x: int| 0 <= x < j && #[trigger] theirs[x] == p;
                    assert(theirs.contains(p));
                }
            }
            assert(kept@ =~= overlaid(old(self)@, other@));
        }
        self.pairs = kept.pairs;
    }
}

/// The topic that a sending port has below `root`: an input of the model
/// itself, or an output of one of its subcomponents.
pub open spec fn topic_from(root: Seq<char>, node: NodeName) -> Seq<char> {
    match node.0 {
        Some(component) => root + "/components/"@ + component + "/output/"@ + node.1,
        None => root + "/input/"@ + node.1,
    }
}

/// The topic that a receiving port has below `root`: an output of the model
/// itself, or an input of one of its subcomponents.
pub open spec fn topic_to(root: Seq<char>, node: NodeName) -> Seq<char> {
    match node.0 {
        Some(component) => root + "/components/"@ + component + "/input/"@ + node.1,
        None => root + "/output/"@ + node.1,
    }
}

/// The pair of topics that a coupling stands for below `root`.
pub open spec fn coupling_topic(root: Seq<char>, coupling: CouplingName) -> TopicPair {
    (topic_from(root, coupling.nodes().0), topic_to(root, coupling.nodes().1))
}

/// The pairs of topics that the couplings of a set stand for below `root`.
pub open spec fn coupling_topics(root: Seq<char>, couplings: Set<CouplingName>) -> Set<TopicPair> {
    Set::new(
        |p: TopicPair|
            exists|c: CouplingName| couplings.contains(c) && p == #[trigger] coupling_topic(
                root,
                c,
            ),
    )
}

/// The topics of the first `k` subcomponents of a list, each laid over those before it.
pub open spec fn children_topics(
    root: Seq<char>,
    children: Seq<(Seq<char>, TreeView)>,
    k: int,
) -> Set<
    TopicPair,
>
    decreases children, k,
{
    if k <= 0 || k > children.len() {
        Set::empty()
    } else {
        overlaid(
            children_topics(root, children, k - 1),
            tree_topics(root + "/components/"@ + children[k - 1].0, children[k - 1].1),
        )
    }
}

/// The topics of a tree below `root`: those of its subcomponents, each below
/// its own name, and one pair for every coupling of the tree.
pub open spec fn tree_topics(root: Seq<char>, tree: TreeView) -> Set<TopicPair>
    decreases tree,
{
    children_topics(root, tree.components, tree.components.len() as int).union(
        coupling_topics(root, tree.couplings),
    )
}

/// Makes the topic of a sending port.
fn sender_topic(root: &str, node: &Node) -> (topic: String)
    ensures
        topic@ == topic_from(root@, node@),
{
    let mut topic = String::from_str(root);
    match node.component() {
        Some(component) => {
            topic.append("/components/");
            topic.append(component.as_str());
            topic.append("/output/");
        },
        None => {
            topic.append("/input/");
        },
    }
    topic.append(node.port().as_str());
    topic
}

/// Makes the topic of a receiving port.
fn receiver_topic(root: &str, node: &Node) -> (topic: String)
    ensures
        topic@ == topic_to(root@, node@),
{
    let mut topic = String::from_str(root);
    match node.component() {
        Some(component) => {
            topic.append("/components/");
            topic.append(component.as_str());
            topic.append("/input/");
        },
        None => {
            topic.append("/output/");
        },
    }
    topic.append(node.port().as_str());
    topic
}

/// Lists which topic has to be passed on to which, for a tree whose own
/// topics begin with `root`.
pub fn topic_map(root: &str, component: &Component) -> (map: MqttTopicMap)
    requires
        component.wf(),
    ensures
        map.wf(),
        map@ == tree_topics(root@, component@),
    decreases component@,
{
    let mut map = MqttTopicMap::new();
    let children = component.components();
    let n = children.len();
    let mut k: usize = 0;
    let ghost views = component@.components;
    while k < n
        invariant
            k <= n,
            n == children@.len(),
            views == component@.components,
            entry_views(children@) == views,
            forall|i: int| 0 <= i < children@.len() ==> (#[trigger] children@[i]).1.wf(),
            map.wf(),
            map@ == children_topics(root@, views, k as int),
        decreases n - k,
    {
        assert(entry_views(children@)[k as int] == views[k as int]);
        assert(children@[k as int].1@ == views[k as int].1);
        assert(decreases_to!(component@ => component@.components));
        assert(decreases_to!(component@.components => component@.components[k as int]));
        assert(decreases_to!(component@.components[k as int] => component@.components[k as int].1));
        let mut below = String::from_str(root);
        below.append("/components/");
        below.append(children[k].0.as_str());
        let submap = topic_map(below.as_str(), &children[k].1);
        map.extend(submap);
        k = k + 1;
    }
    let couplings = component.get_couplings();
    let m = couplings.len();
    let mut j: usize = 0;
    let ghost names = coupling_names(couplings@);
    let ghost base = map@;
    while j < m
        invariant
            j <= m,
            m == couplings@.len(),
            names == coupling_names(couplings@),
            map.wf(),
            forall|p: TopicPair|
                #[trigger] map@.contains(p) <==> (base.contains(p) || made(
                    root@,
                    names,
                    j as int,
                    p,
                )),
        decreases m - j,
    {
        let ghost before = map@;
        let (from, to) = couplings[j].nodes();
        map.insert(sender_topic(root, &from), receiver_topic(root, &to));
        proof {
            assert(coupling_topic(root@, names[j as int]) == (
                topic_from(root@, from@),
                topic_to(root@, to@),
            ));
            assert forall|p: TopicPair|
                #[trigger] map@.contains(p) <==> (base.contains(p) || made(
                    root@,
                    names,
                    j + 1,
                    p,
                )) by {
                if before.contains(p) && !base.contains(p) {
                    assert(made(root@, names, j as int, p));
                    let x = choose|x: int|
                        0 <= x < j && #[trigger] coupling_topic(root@, names[x]) == p;
                    assert(0 <= x < j + 1 && coupling_topic(root@, names[x]) == p);
                }
                if map@.contains(p) && !before.contains(p) {
                    assert(coupling_topic(root@, names[j as int]) == p);
                }
                if made(root@, names, j + 1, p) {
                    let x = choose|x: int|
                        0 <= x < j + 1 && #[trigger] coupling_topic(root@, names[x]) == p;
                    if x < j {
                        assert(made(root@, names, j as int, p));
                        assert(before.contains(p));
                    }
                }
            }
        }
        j = j + 1;
    }
    proof {
        let want = tree_topics(root@, component@);
        assert forall|p: TopicPair| map@.contains(p) == want.contains(p) by {
            if made(root@, names, m as int, p) {
                let x = choose|x: int|
                    0 <= x < m && #[trigger] coupling_topic(root@, names[x]) == p;
                assert(names.contains(names[x]));
                assert(component@.couplings.contains(names[x]));
            }
            if coupling_topics(root@, component@.couplings).contains(p) {
                let c = choose|c: CouplingName|
                    component@.couplings.contains(c) && p == #[trigger] coupling_topic(root@, c);
                let x = choose|x: int| 0 <= x < names.len() && names[x] == c;
                assert(0 <= x < m && coupling_topic(root@, names[x]) == p);
            }
        }
        assert(map@ =~= want);
    }
    map
}

/// One of the first `j` couplings of the list stands for the pair of topics.
pub open spec fn made(root: Seq<char>, names: Seq<CouplingName>, j: int, p: TopicPair) -> bool {
    exists|x: int| 0 <= x < j && #[trigger] coupling_topic(root, names[x]) == p
}

/// Each topic of the list is passed on to the next one.
pub open spec fn is_path(pairs: Set<TopicPair>, path: Seq<Seq<char>>) -> bool {
    forall|i: int| 0 <= i < path.len() - 1 ==> pairs.contains((#[trigger] path[i], path[i + 1]))
}

/// The list leads from `from` to `to`, each topic passed on to the next one.
pub open spec fn leads(
    pairs: Set<TopicPair>,
    path: Seq<Seq<char>>,
    from: Seq<char>,
    to: Seq<char>,
) -> bool {
    &&& path.len() >= 2
    &&& path[0] == from
    &&& path.last() == to
    &&& is_path(pairs, path)
}

/// Messages on `from` get to `to` along pairs of the relation, in one hop or in many.
pub open spec fn reachable(pairs: Set<TopicPair>, from: Seq<char>, to: Seq<char>) -> bool {
    exists|path: Seq<Seq<char>>| leads(pairs, path, from, to)
}

/// Some topic is passed on to `topic`.
pub open spec fn is_passed_on_to(pairs: Set<TopicPair>, topic: Seq<char>) -> bool {
    exists|from: Seq<char>| pairs.contains((from, topic))
}

/// The relation without hops: every topic that nothing is passed on to is
/// paired with every topic that its messages get to, and no other topic is
/// listened to.
pub open spec fn without_hops(pairs: Set<TopicPair>) -> Set<TopicPair> {
    Set::new(|p: TopicPair| !is_passed_on_to(pairs, p.0) && reachable(pairs, p.0, p.1))
}

/// Pair `j` of the list begins where messages of `a` are: at `a` itself or at
/// a topic that they get to.
pub open spec fn started(texts: Seq<TopicPair>, a: Seq<char>, j: int) -> bool {
    texts[j].0 == a || reachable(texts.to_set(), a, texts[j].0)
}

/// Every marked pair begins where messages of `a` are.
pub open spec fn sound(texts: Seq<TopicPair>, a: Seq<char>, hit: Seq<bool>) -> bool {
    forall|j: int| 0 <= j < hit.len() && #[trigger] hit[j] ==> started(texts, a, j)
}

/// Some marked pair ends at `topic`.
pub open spec fn fed(texts: Seq<TopicPair>, hit: Seq<bool>, topic: Seq<char>) -> bool {
    exists|i: int| 0 <= i < hit.len() && #[trigger] hit[i] && texts[i].1 == topic
}

/// Pair `j` begins at `a` or where a marked pair ends.
pub open spec fn extendable(texts: Seq<TopicPair>, a: Seq<char>, hit: Seq<bool>, j: int) -> bool {
    texts[j].0 == a || fed(texts, hit, texts[j].0)
}

/// No pair is left to mark.
pub open spec fn closed(texts: Seq<TopicPair>, a: Seq<char>, hit: Seq<bool>) -> bool {
    forall|j: int| 0 <= j < hit.len() && !#[trigger] hit[j] ==> !extendable(texts, a, hit, j)
}

/// The number of pairs that are not marked.
pub open spec fn unmarked(hit: Seq<bool>) -> nat
    decreases hit.len(),
{
    if hit.len() == 0 {
        0
    } else if hit.last() {
        unmarked(hit.drop_last())
    } else {
        unmarked(hit.drop_last()) + 1
    }
}

/// Marking a pair that was not marked leaves one fewer to mark.
pub proof fn lemma_unmarked_update(hit: Seq<bool>, j: int)
    requires
        0 <= j < hit.len(),
        !hit[j],
    ensures
        unmarked(hit.update(j, true)) + 1 == unmarked(hit),
    decreases hit.len(),
{
    let after = hit.update(j, true);
    if j == hit.len() - 1 {
        assert(after.drop_last() =~= hit.drop_last());
    } else {
        lemma_unmarked_update(hit.drop_last(), j);
        assert(after.drop_last() =~= hit.drop_last().update(j, true));
    }
}

/// Where a marked pair ends, messages of `a` get to.
pub proof fn lemma_started_reaches(texts: Seq<TopicPair>, a: Seq<char>, j: int)
    requires
        0 <= j < texts.len(),
        started(texts, a, j),
    ensures
        reachable(texts.to_set(), a, texts[j].1),
{
    let pairs = texts.to_set();
    assert(texts.contains(texts[j]));
    assert(pairs.contains((texts[j].0, texts[j].1)));
    if texts[j].0 == a {
        let path = seq![a, texts[j].1];
        assert(leads(pairs, path, a, texts[j].1));
    } else {
        let before = choose|path: Seq<Seq<char>>| leads(pairs, path, a, texts[j].0);
        let path = before.push(texts[j].1);
        assert forall|i: int| 0 <= i < path.len() - 1 implies pairs.contains(
            (#[trigger] path[i], path[i + 1]),
        ) by {
            if i < before.len() - 1 {
                assert(pairs.contains((before[i], before[i + 1])));
            }
        }
        assert(leads(pairs, path, a, texts[j].1));
    }
}

/// Once no pair is left to mark, a marked pair ends wherever messages of `a` get to.
pub proof fn lemma_closed_feeds(
    texts: Seq<TopicPair>,
    a: Seq<char>,
    hit: Seq<bool>,
    path: Seq<Seq<char>>,
)
    requires
        hit.len() == texts.len(),
        closed(texts, a, hit),
        leads(texts.to_set(), path, a, path.last()),
    ensures
        fed(texts, hit, path.last()),
    decreases path.len(),
{
    let pairs = texts.to_set();
    let to = path.last();
    let via = path[path.len() - 2];
    assert(pairs.contains((path[path.len() - 2], path[path.len() - 2 + 1])));
    assert(texts.contains((via, to)));
    let k = choose|k: int| 0 <= k < texts.len() && texts[k] == (via, to);
    if path.len() > 2 {
        let before = path.drop_last();
        assert forall|i: int| 0 <= i < before.len() - 1 implies pairs.contains(
            (#[trigger] before[i], before[i + 1]),
        ) by {
            assert(pairs.contains((path[i], path[i + 1])));
        }
        assert(leads(pairs, before, a, before.last()));
        lemma_closed_feeds(texts, a, hit, before);
        assert(fed(texts, hit, via));
    }
    assert(extendable(texts, a, hit, k));
    assert(hit[k] && texts[k].1 == to);
}

/// Messages get somewhere only from a topic that is passed on.
pub proof fn lemma_reached_is_listed(pairs: Set<TopicPair>, a: Seq<char>, to: Seq<char>)
    requires
        reachable(pairs, a, to),
    ensures
        has_topic(pairs, a),
{
    let path = choose|path: Seq<Seq<char>>| leads(pairs, path, a, to);
    assert(pairs.contains((path[0int], path[0int + 1])));
}

impl MqttTopicMap {
    /// Tells whether some topic is passed on to `topic`.
    fn passed_on_to(&self, topic: &String) -> (b: bool)
        ensures
            b == is_passed_on_to(self@, topic@),
    {
        let n = self.pairs.len();
        let mut i: usize = 0;
        let ghost texts = pair_texts(self.pairs@);
        while i < n
            invariant
                i <= n,
                n == self.pairs@.len(),
                texts == pair_texts(self.pairs@),
                forall|j: int| 0 <= j < i ==> (#[trigger] texts[j]).1 != topic@,
            decreases n - i,
        {
            if self.pairs[i].1 == *topic {
                assert(texts[i as int] == (texts[i as int].0, topic@));
                assert(texts.contains((texts[i as int].0, topic@)));
                assert(self@.contains((texts[i as int].0, topic@)));
                return true;
            }
            i = i + 1;
        }
        proof {
            if is_passed_on_to(self@, topic@) {
                let from = choose|from: Seq<char>| self@.contains((from, topic@));
                let m = choose|m: int| 0 <= m < texts.len() && texts[m] == (from, topic@);
                assert(texts[m].1 == topic@);
            }
        }
        false
    }

    /// Tells whether a marked pair ends at `topic`.
    fn feeds(&self, hit: &Vec<bool>, topic: &String) -> (b: bool)
        requires
            hit@.len() == self.pairs@.len(),
        ensures
            b == fed(pair_texts(self.pairs@), hit@, topic@),
    {
        let n = self.pairs.len();
        let mut i: usize = 0;
        let ghost texts = pair_texts(self.pairs@);
        while i < n
            invariant
                i <= n,
                n == self.pairs@.len(),
                n == hit@.len(),
                texts == pair_texts(self.pairs@),
                forall|j: int| 0 <= j < i && #[trigger] hit@[j] ==> texts[j].1 != topic@,
            decreases n - i,
        {
            if hit[i] && self.pairs[i].1 == *topic {
                assert(hit@[i as int] && texts[i as int].1 == topic@);
                return true;
            }
            i = i + 1;
        }
        false
    }

    /// Marks the pairs that begin at `a` or at a topic that messages of `a` get to.
    fn marked_from(&self, a: &String) -> (hit: Vec<bool>)
        ensures
            hit@.len() == self.pairs@.len(),
            forall|j: int|
                0 <= j < hit@.len() ==> (#[trigger] hit@[j] <==> started(
                    pair_texts(self.pairs@),
                    a@,
                    j,
                )),
    {
        let n = self.pairs.len();
        let ghost texts = pair_texts(self.pairs@);
        let mut hit: Vec<bool> = Vec::new();
        let mut k: usize = 0;
        while k < n
            invariant
                k <= n,
                hit@.len() == k,
                forall|j: int| 0 <= j < k ==> !#[trigger] hit@[j],
            decreases n - k,
        {
            hit.push(false);
            k = k + 1;
        }
        let mut changed = true;
        while changed
            invariant
                n == self.pairs@.len(),
                hit@.len() == n,
                texts == pair_texts(self.pairs@),
                sound(texts, a@, hit@),
                !changed ==> closed(texts, a@, hit@),
            decreases
                    unmarked(hit@),
                    if changed {
                        1int
                    } else {
                        0int
                    },
        {
            changed = false;
            let ghost before = hit@;
            let mut j: usize = 0;
            while j < n
                invariant
                    j <= n,
                    n == self.pairs@.len(),
                    hit@.len() == n,
                    before.len() == n,
                    texts == pair_texts(self.pairs@),
                    sound(texts, a@, hit@),
                    !changed ==> hit@ == before,
                    changed ==> unmarked(hit@) < unmarked(before),
                    !changed ==> forall|i: int|
                        0 <= i < j && !#[trigger] hit@[i] ==> !extendable(texts, a@, hit@, i),
                decreases n - j,
            {
                if !hit[j] {
                    if self.pairs[j].0 == *a || self.feeds(&hit, &self.pairs[j].0) {
                        let ghost sofar = hit@;
                        proof {
                            if texts[j as int].0 != a@ {
                                let i = choose|i: int|
                                    0 <= i < sofar.len() && #[trigger] sofar[i] && texts[i].1
                                        == texts[j as int].0;
                                assert(started(texts, a@, i));
                                lemma_started_reaches(texts, a@, i);
                            }
                            assert(started(texts, a@, j as int));
                            lemma_unmarked_update(sofar, j as int);
                        }
                        hit.set(j, true);
                        changed = true;
                        proof {
                            assert(hit@ == sofar.update(j as int, true));
                            assert forall|i: int| 0 <= i < hit@.len() && #[trigger] hit@[i] implies started(
                                texts,
                                a@,
                                i,
                            ) by {
                                if i != j {
                                    assert(sofar[i]);
                                }
                            }
                        }
                    }
                }
                j = j + 1;
            }
        }
        proof {
            assert forall|j: int| 0 <= j < hit@.len() implies (#[trigger] hit@[j] <==> started(
                texts,
                a@,
                j,
            )) by {
                if started(texts, a@, j) && !hit@[j] {
                    if texts[j].0 != a@ {
                        let path = choose|path: Seq<Seq<char>>|
                            leads(texts.to_set(), path, a@, texts[j].0);
                        lemma_closed_feeds(texts, a@, hit@, path);
                    }
                    assert(extendable(texts, a@, hit@, j));
                }
            }
        }
        hit
    }
}

/// Some pair among the first `j` is marked and ends at `to`.
pub open spec fn fed_before(texts: Seq<TopicPair>, hit: Seq<bool>, j: int, to: Seq<char>) -> bool {
    exists|i: int| 0 <= i < j && #[trigger] hit[i] && texts[i].1 == to
}

/// Some pair among the first `i` begins at `a`.
pub open spec fn begun_before(texts: Seq<TopicPair>, i: int, a: Seq<char>) -> bool {
    exists|m: int| 0 <= m < i && (#[trigger] texts[m]).0 == a
}

/// Takes the hops out of the relation: a topic that is itself passed on is
/// not listened to any more, and every other topic is passed on to every
/// topic that its messages got to before, in one hop or in many.
pub fn avoid_multihop(map: &mut MqttTopicMap)
    requires
        old(map).wf(),
    ensures
        final(map).wf(),
        final(map)@ == without_hops(old(map)@),
{
    let n = map.pairs.len();
    let mut result = MqttTopicMap::new();
    let ghost texts = pair_texts(map.pairs@);
    let ghost pairs = map@;
    let mut i: usize = 0;
    while i < n
        invariant
            i <= n,
            n == map.pairs@.len(),
            *map == *old(map),
            texts == pair_texts(map.pairs@),
            pairs == map@,
            pairs == texts.to_set(),
            result.wf(),
            forall|p: TopicPair|
                #[trigger] result@.contains(p) <==> (begun_before(texts, i as int, p.0)
                    && without_hops(pairs).contains(p)),
        decreases n - i,
    {
        let ghost a = texts[i as int].0;
        let ghost base = result@;
        if !map.passed_on_to(&map.pairs[i].0) {
            let hit = map.marked_from(&map.pairs[i].0);
            let mut j: usize = 0;
            while j < n
                invariant
                    j <= n,
                    i < n,
                    n == map.pairs@.len(),
                    hit@.len() == n,
                    texts == pair_texts(map.pairs@),
                    a == texts[i as int].0,
                    result.wf(),
                    forall|p: TopicPair|
                        #[trigger] result@.contains(p) <==> (base.contains(p) || (p.0 == a
                            && fed_before(texts, hit@, j as int, p.1))),
                decreases n - j,
            {
                let ghost sofar = result@;
                if hit[j] {
                    result.insert(map.pairs[i].0.clone(), map.pairs[j].1.clone());
                }
                proof {
                    assert forall|p: TopicPair|
                        #[trigger] result@.contains(p) <==> (base.contains(p) || (p.0 == a
                            && fed_before(texts, hit@, j + 1, p.1))) by {
                        if sofar.contains(p) && !base.contains(p) {
                            assert(fed_before(texts, hit@, j as int, p.1));
                            let x = choose|x: int|
                                0 <= x < j && #[trigger] hit@[x] && texts[x].1 == p.1;
                            assert(0 <= x < j + 1 && hit@[x] && texts[x].1 == p.1);
                        }
                        if result@.contains(p) && !sofar.contains(p) {
                            assert(hit@[j as int] && texts[j as int].1 == p.1);
                        }
                        if p.0 == a && fed_before(texts, hit@, j + 1, p.1) {
                            let x = choose|x: int|
                                0 <= x < j + 1 && #[trigger] hit@[x] && texts[x].1 == p.1;
                            if x < j {
                                assert(fed_before(texts, hit@, j as int, p.1));
                            }
                        }
                    }
                }
                j = j + 1;
            }
            proof {
                assert forall|p: TopicPair|
                    #[trigger] result@.contains(p) <==> (begun_before(texts, i + 1, p.0)
                        && without_hops(pairs).contains(p)) by {
                    if p.0 == a {
                        assert(begun_before(texts, i + 1, p.0));
                        if fed_before(texts, hit@, n as int, p.1) {
                            let x = choose|x: int|
                                0 <= x < n && #[trigger] hit@[x] && texts[x].1 == p.1;
                            assert(started(texts, a, x));
                            lemma_started_reaches(texts, a, x);
                        }
                        if reachable(pairs, a, p.1) {
                            let path = choose|path: Seq<Seq<char>>| leads(pairs, path, a, p.1);
                            assert(forall|k: int| 0 <= k < n ==> (#[trigger] hit@[k] ==> started(
                                texts,
                                a,
                                k,
                            )) && (started(texts, a, k) ==> hit@[k]));
                            assert(closed(texts, a, hit@)) by {
                                assert forall|k: int|
                                    0 <= k < hit@.len() && !#[trigger] hit@[k] implies !extendable(
                                    texts,
                                    a,
                                    hit@,
                                    k,
                                ) by {
                                    if extendable(texts, a, hit@, k) {
                                        if texts[k].0 != a {
                                            let y = choose|y: int|
                                                0 <= y < hit@.len() && #[trigger] hit@[y]
                                                    && texts[y].1 == texts[k].0;
                                            assert(started(texts, a, y));
                                            lemma_started_reaches(texts, a, y);
                                        }
                                        assert(started(texts, a, k));
                                    }
                                }
                            }
                            lemma_closed_feeds(texts, a, hit@, path);
                            let x = choose|x: int|
                                0 <= x < hit@.len() && #[trigger] hit@[x] && texts[x].1 == p.1;
                            assert(fed_before(texts, hit@, n as int, p.1));
                        }
                    } else {
                        if begun_before(texts, i + 1, p.0) {
                            let m = choose|m: int| 0 <= m < i + 1 && (#[trigger] texts[m]).0 == p.0;
                            assert(m < i);
                            assert(begun_before(texts, i as int, p.0));
                        }
                        if begun_before(texts, i as int, p.0) {
                            let m = choose|m: int| 0 <= m < i && (#[trigger] texts[m]).0 == p.0;
                            assert(0 <= m < i + 1 && texts[m].0 == p.0);
                        }
                    }
                }
            }
        } else {
            proof {
                assert forall|p: TopicPair|
                    #[trigger] result@.contains(p) <==> (begun_before(texts, i + 1, p.0)
                        && without_hops(pairs).contains(p)) by {
                    if begun_before(texts, i + 1, p.0) && p.0 != a {
                        let m = choose|m: int| 0 <= m < i + 1 && (#[trigger] texts[m]).0 == p.0;
                        assert(m < i);
                        assert(begun_before(texts, i as int, p.0));
                    }
                    if begun_before(texts, i as int, p.0) {
                        let m = choose|m: int| 0 <= m < i && (#[trigger] texts[m]).0 == p.0;
                        assert(0 <= m < i + 1 && texts[m].0 == p.0);
                    }
                }
            }
        }
        i = i + 1;
    }
    proof {
        assert forall|p: TopicPair| result@.contains(p) == without_hops(pairs).contains(p) by {
            if without_hops(pairs).contains(p) {
                lemma_reached_is_listed(pairs, p.0, p.1);
                let to = choose|to: Seq<char>| pairs.contains((p.0, to));
                let k = choose|k: int| 0 <= k < texts.len() && texts[k] == (p.0, to);
                assert(0 <= k < n && texts[k].0 == p.0);
                assert(begun_before(texts, n as int, p.0));
            }
        }
        assert(result@ =~= without_hops(pairs));
    }
    map.pairs = result.pairs;
}

} // verus!
