use xdevs::dmt::{Component, Coupling, CouplingError, CouplingMap, CouplingType, DevsModelTree, Node};

fn node(component: Option<&str>, port: &str) -> Node {
    Node(component.map(|c| c.to_string()), port.to_string())
}

fn coupling(cf: Option<&str>, pf: &str, ct: Option<&str>, pt: &str) -> Coupling {
    Coupling::new(cf.map(|c| c.to_string()), pf.to_string(), ct.map(|c| c.to_string()), pt.to_string())
}

#[test]
fn efp() {
    let mut p = Component::new();
    p.add_input("input_req");
    p.add_output("output_res");

    let mut ef = Component::new();
    ef.add_input("input_res");
    ef.add_output("output_req");

    let mut efp = DevsModelTree::new("efp");
    assert!(efp.model.add_component("p", p).is_none());
    assert!(efp.model.add_component("ef", ef).is_none());
    assert_eq!(efp.get_name(), "efp");
    assert!(efp.model.is_coupled());
}

fn efp_tree() -> Component {
    let mut p = Component::new();
    assert!(p.add_input("input_req"));
    assert!(p.add_output("output_res"));
    let mut ef = Component::new();
    assert!(ef.add_input("input_res"));
    assert!(ef.add_output("output_req"));
    let mut efp = Component::new();
    assert!(efp.add_input("in"));
    assert!(efp.add_output("out"));
    assert!(efp.add_component("p", p).is_none());
    assert!(efp.add_component("ef", ef).is_none());
    efp
}

#[test]
fn node_gives_component_and_port() {
    let n = node(Some("ef"), "output_req");
    assert_eq!(n.component(), Some(&"ef".to_string()));
    assert_eq!(n.port(), "output_req");
    let m = node(None, "in");
    assert_eq!(m.component(), None);
    assert!(n.same(&n.duplicate()));
    assert!(!n.same(&m));
    assert!(!n.same(&node(Some("ef"), "other")));
    assert!(!n.same(&node(Some("p"), "output_req")));
}

#[test]
fn tree_ports_are_sets() {
    let mut c = Component::new();
    assert!(!c.has_input("a"));
    assert!(c.add_input("a"));
    assert!(!c.add_input("a"));
    assert!(c.has_input("a"));
    assert!(!c.has_output("a"));
    assert!(c.add_output("a"));
    assert!(!c.add_output("a"));
    assert!(c.has_output("a"));
    assert!(!c.is_coupled());
}

#[test]
fn tree_add_component_replaces_one_of_the_same_name() {
    let mut root = Component::new();
    let mut first = Component::new();
    first.add_input("x");
    assert!(root.add_component("a", first).is_none());
    assert!(root.add_component("b", Component::new()).is_none());
    let replaced = root.add_component("a", Component::new()).unwrap();
    assert!(replaced.has_input("x"));
    assert!(!root.get_component("a").unwrap().has_input("x"));
    assert_eq!(root.components().len(), 2);
    assert!(root.get_component("c").is_none());
}

#[test]
fn coupling_types() {
    assert!(matches!(coupling(None, "in", Some("p"), "input_req").get_type(), CouplingType::EIC));
    assert!(matches!(coupling(Some("ef"), "o", Some("p"), "i").get_type(), CouplingType::IC));
    assert!(matches!(coupling(Some("ef"), "o", None, "out").get_type(), CouplingType::EOC));
    assert!(matches!(coupling(None, "in", None, "out").get_type(), CouplingType::Invalid));
    let (from, to) = coupling(Some("ef"), "o", None, "out").nodes();
    assert!(from.same(&node(Some("ef"), "o")));
    assert!(to.same(&node(None, "out")));
}

#[test]
fn add_coupling_accepts_what_fits() {
    let mut efp = efp_tree();
    assert!(matches!(efp.add_coupling(coupling(Some("ef"), "output_req", Some("p"), "input_req")), Ok(true)));
    assert!(matches!(efp.add_coupling(coupling(Some("ef"), "output_req", Some("p"), "input_req")), Ok(false)));
    assert!(matches!(efp.add_coupling(coupling(Some("p"), "output_res", Some("ef"), "input_res")), Ok(true)));
    assert!(matches!(efp.add_coupling(coupling(None, "in", Some("p"), "input_req")), Ok(true)));
    assert!(matches!(efp.add_coupling(coupling(Some("p"), "output_res", None, "out")), Ok(true)));
    // the receiving port has to be an output of the model itself
    assert!(matches!(
        efp.add_coupling(coupling(Some("p"), "output_res", None, "nowhere")),
        Err(CouplingError::InvalidPort)
    ));
    assert_eq!(efp.get_couplings().len(), 4);
}

#[test]
fn add_coupling_tells_why_not() {
    let mut leaf = Component::new();
    leaf.add_input("in");
    assert!(matches!(
        leaf.add_coupling(coupling(None, "in", Some("p"), "input_req")),
        Err(CouplingError::NoComponents)
    ));
    let mut efp = efp_tree();
    assert!(matches!(
        efp.add_coupling(coupling(None, "nowhere", Some("p"), "input_req")),
        Err(CouplingError::InvalidPort)
    ));
    assert!(matches!(
        efp.add_coupling(coupling(None, "in", Some("q"), "input_req")),
        Err(CouplingError::InvalidComponent)
    ));
    assert!(matches!(
        efp.add_coupling(coupling(None, "in", Some("p"), "nowhere")),
        Err(CouplingError::InvalidPort)
    ));
    assert!(matches!(
        efp.add_coupling(coupling(Some("q"), "o", Some("p"), "input_req")),
        Err(CouplingError::InvalidComponent)
    ));
    assert!(matches!(
        efp.add_coupling(coupling(Some("ef"), "output_req", Some("q"), "i")),
        Err(CouplingError::InvalidComponent)
    ));
    assert!(matches!(
        efp.add_coupling(coupling(Some("ef"), "nowhere", Some("p"), "input_req")),
        Err(CouplingError::InvalidPort)
    ));
    assert!(matches!(
        efp.add_coupling(coupling(Some("ef"), "output_req", Some("p"), "nowhere")),
        Err(CouplingError::InvalidPort)
    ));
    assert!(matches!(
        efp.add_coupling(coupling(Some("q"), "o", None, "out")),
        Err(CouplingError::InvalidComponent)
    ));
    assert!(matches!(
        efp.add_coupling(coupling(Some("p"), "nowhere", None, "out")),
        Err(CouplingError::InvalidPort)
    ));
    assert!(matches!(
        efp.add_coupling(coupling(None, "in", None, "out")),
        Err(CouplingError::InvalidComponent)
    ));
    assert_eq!(efp.get_couplings().len(), 0);
}

#[test]
fn coupling_map_insert_get_reverse() {
    let mut map = CouplingMap::new();
    assert!(map.get(&node(None, "in")).is_none());
    map.insert(node(None, "in"), node(Some("p"), "i"));
    map.insert(node(None, "in"), node(Some("q"), "i"));
    map.insert(node(None, "in"), node(Some("p"), "i"));
    map.insert(node(Some("p"), "o"), node(Some("q"), "i"));
    assert_eq!(map.iter().len(), 3);
    let targets = map.get(&node(None, "in")).unwrap();
    assert_eq!(targets.len(), 2);
    assert!(targets[0].same(&node(Some("p"), "i")));
    assert!(targets[1].same(&node(Some("q"), "i")));

    let reverse = map.reverse();
    assert_eq!(reverse.iter().len(), 3);
    let senders = reverse.get(&node(Some("q"), "i")).unwrap();
    assert_eq!(senders.len(), 2);
    assert!(senders[0].same(&node(None, "in")));
    assert!(senders[1].same(&node(Some("p"), "o")));
    assert!(reverse.get(&node(None, "in")).is_none());
    let back = reverse.reverse();
    assert_eq!(back.get(&node(None, "in")).unwrap().len(), 2);
}

#[test]
fn tree_coupling_map_holds_every_coupling() {
    let mut efp = efp_tree();
    efp.add_coupling(coupling(Some("ef"), "output_req", Some("p"), "input_req")).unwrap();
    efp.add_coupling(coupling(None, "in", Some("p"), "input_req")).unwrap();
    let map = efp.coupling_map();
    assert_eq!(map.iter().len(), 2);
    let to = map.get(&node(Some("ef"), "output_req")).unwrap();
    assert!(to[0].same(&node(Some("p"), "input_req")));
    let reverse = map.reverse();
    assert_eq!(reverse.get(&node(Some("p"), "input_req")).unwrap().len(), 2);
}

fn strings(list: Vec<String>) -> Vec<String> {
    list
}

#[test]
fn topic_map_insert_get_reverse() {
    let mut map = xdevs::dmt::MqttTopicMap::new();
    assert!(map.get("a").is_none());
    map.insert("a".to_string(), "x".to_string());
    map.insert("a".to_string(), "y".to_string());
    map.insert("a".to_string(), "x".to_string());
    map.insert("b".to_string(), "x".to_string());
    assert_eq!(map.iter().len(), 3);
    assert_eq!(strings(map.get("a").unwrap()), vec!["x", "y"]);
    assert_eq!(strings(map.get("b").unwrap()), vec!["x"]);
    let reverse = map.reverse();
    assert_eq!(strings(reverse.get("x").unwrap()), vec!["a", "b"]);
    assert_eq!(strings(reverse.get("y").unwrap()), vec!["a"]);
    assert!(reverse.get("a").is_none());
}

#[test]
fn topic_map_extend_replaces_topics_that_occur_in_both() {
    let mut map = xdevs::dmt::MqttTopicMap::new();
    map.insert("a".to_string(), "x".to_string());
    map.insert("b".to_string(), "x".to_string());
    let mut other = xdevs::dmt::MqttTopicMap::new();
    other.insert("a".to_string(), "y".to_string());
    other.insert("c".to_string(), "z".to_string());
    map.extend(other);
    assert_eq!(strings(map.get("a").unwrap()), vec!["y"]);
    assert_eq!(strings(map.get("b").unwrap()), vec!["x"]);
    assert_eq!(strings(map.get("c").unwrap()), vec!["z"]);
    assert_eq!(map.iter().len(), 3);
}

#[test]
fn topics_of_a_tree() {
    let mut g = Component::new();
    g.add_output("out");
    let mut ef = Component::new();
    ef.add_input("input_res");
    ef.add_output("output_req");
    ef.add_component("g", g);
    ef.add_coupling(coupling(Some("g"), "out", None, "output_req")).unwrap();
    let mut p = Component::new();
    p.add_input("input_req");
    p.add_output("output_res");
    let mut efp = Component::new();
    efp.add_input("in");
    efp.add_component("ef", ef);
    efp.add_component("p", p);
    efp.add_coupling(coupling(Some("ef"), "output_req", Some("p"), "input_req")).unwrap();
    efp.add_coupling(coupling(None, "in", Some("p"), "input_req")).unwrap();

    let map = xdevs::dmt::topic_map("root", &efp);
    assert_eq!(map.iter().len(), 3);
    assert_eq!(
        strings(map.get("root/components/ef/components/g/output/out").unwrap()),
        vec!["root/components/ef/output/output_req"]
    );
    assert_eq!(
        strings(map.get("root/components/ef/output/output_req").unwrap()),
        vec!["root/components/p/input/input_req"]
    );
    assert_eq!(
        strings(map.get("root/input/in").unwrap()),
        vec!["root/components/p/input/input_req"]
    );
}

#[test]
fn coupling_to_an_output_that_the_model_lacks_is_refused() {
    let mut p = Component::new();
    p.add_output("o");
    let mut c = Component::new();
    c.add_component("p", p);
    assert!(matches!(
        c.add_coupling(coupling(Some("p"), "o", None, "missing")),
        Err(CouplingError::InvalidPort)
    ));
    assert_eq!(c.get_couplings().len(), 0);
    c.add_output("missing");
    assert!(matches!(c.add_coupling(coupling(Some("p"), "o", None, "missing")), Ok(true)));
    assert_eq!(c.get_couplings().len(), 1);
}

#[test]
fn insert_coupling_stores_what_does_not_fit() {
    let mut c = Component::new();
    assert!(c.insert_coupling(coupling(Some("p"), "o", None, "missing")));
    assert!(!c.insert_coupling(coupling(Some("p"), "o", None, "missing")));
    assert_eq!(c.get_couplings().len(), 1);
}

fn topics(pairs: &[(&str, &str)]) -> xdevs::dmt::MqttTopicMap {
    let mut map = xdevs::dmt::MqttTopicMap::new();
    for (from, to) in pairs {
        map.insert(from.to_string(), to.to_string());
    }
    map
}

fn sorted(map: &xdevs::dmt::MqttTopicMap) -> Vec<(String, String)> {
    let mut pairs = map.iter().clone();
    pairs.sort();
    pairs
}

fn owned(pairs: &[(&str, &str)]) -> Vec<(String, String)> {
    pairs.iter().map(|(a, b)| (a.to_string(), b.to_string())).collect()
}

#[test]
fn avoid_multihop_on_a_chain() {
    let mut map = topics(&[("a", "b"), ("b", "c"), ("c", "d")]);
    xdevs::dmt::avoid_multihop(&mut map);
    assert_eq!(sorted(&map), owned(&[("a", "b"), ("a", "c"), ("a", "d")]));
}

#[test]
fn avoid_multihop_on_a_diamond_with_a_second_source() {
    let mut map =
        topics(&[("a", "b"), ("a", "c"), ("b", "d"), ("c", "d"), ("d", "e"), ("x", "c"), ("y", "z")]);
    xdevs::dmt::avoid_multihop(&mut map);
    assert_eq!(
        sorted(&map),
        owned(&[
            ("a", "b"),
            ("a", "c"),
            ("a", "d"),
            ("a", "e"),
            ("x", "c"),
            ("x", "d"),
            ("x", "e"),
            ("y", "z"),
        ])
    );
}

#[test]
fn avoid_multihop_leaves_single_hops_and_drops_circles() {
    let mut map = topics(&[("a", "b"), ("c", "d")]);
    xdevs::dmt::avoid_multihop(&mut map);
    assert_eq!(sorted(&map), owned(&[("a", "b"), ("c", "d")]));
    let mut circle = topics(&[("a", "b"), ("b", "a")]);
    xdevs::dmt::avoid_multihop(&mut circle);
    assert!(circle.iter().is_empty());
    let mut fed_circle = topics(&[("s", "a"), ("a", "b"), ("b", "a")]);
    xdevs::dmt::avoid_multihop(&mut fed_circle);
    assert_eq!(sorted(&fed_circle), owned(&[("s", "a"), ("s", "b")]));
}
