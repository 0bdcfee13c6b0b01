use rot::graph::Graph;
use rot::props::PropMap;
use rot::RotError;

fn props(pairs: &[(&str, &str)]) -> PropMap {
    let mut p = PropMap::new();
    for (k, v) in pairs {
        p.insert(k.to_string(), v.to_string());
    }
    p
}

#[test]
fn new_graph_is_empty() {
    let mut graph = Graph::new();
    assert_eq!(graph.count_node(), 0);
    assert_eq!(graph.count_link(), 0);
    assert_eq!(graph.get_id_by_name("A").unwrap_err(), RotError::NoNodeName("A".to_string()));
    assert_eq!(graph.get_node_by_id(0).unwrap_err(), RotError::NoNodeId(0));
    assert_eq!(graph.get_link_by_id(0).unwrap_err(), RotError::NoLinkId(0));
    let graph = Graph::default();
    assert_eq!(graph.count_node(), 0);
}

#[test]
fn new_node_takes_the_next_id() {
    let mut graph = Graph::new();
    assert_eq!(graph.new_node("A", None).unwrap().id(), 0);
    assert_eq!(graph.new_node("B", Some(props(&[("k", "v")]))).unwrap().id(), 1);
    assert_eq!(graph.get_id_by_name("B").unwrap(), 1);
    assert_eq!(graph.get_node_by_id(1).unwrap().name(), "B");
    assert_eq!(graph.get_node_by_id(1).unwrap().props().as_ref().unwrap().get("k").unwrap(), "v");
}

#[test]
fn new_node_refuses_a_known_name_and_uses_no_id() {
    let mut graph = Graph::new();
    graph.new_node("A", None).unwrap();
    assert_eq!(
        graph.new_node("A", None).unwrap_err(),
        RotError::NodeOverwrite("A".to_string())
    );
    assert_eq!(graph.count_node(), 1);
    assert_eq!(graph.new_node("B", None).unwrap().id(), 1);
}

#[test]
fn make_or_get_makes_once() {
    let mut graph = Graph::new();
    assert_eq!(graph.make_or_get_node_mut("A").unwrap().id(), 0);
    assert_eq!(graph.make_or_get_node_mut("B").unwrap().id(), 1);
    assert_eq!(graph.make_or_get_node_mut("A").unwrap().id(), 0);
    assert_eq!(graph.count_node(), 2);
    assert!(graph.get_node_by_id(0).unwrap().props().is_none());
}

#[test]
fn extend_through_the_node() {
    let mut graph = Graph::new();
    graph.make_or_get_node_mut("A").unwrap().extend(props(&[("a", "1")]));
    graph.get_node_by_id_mut(0).unwrap().extend(props(&[("a", "2"), ("b", "3")]));
    let p = graph.get_node_by_id(0).unwrap().props().as_ref().unwrap();
    assert_eq!(p.get("a").unwrap(), "2");
    assert_eq!(p.get("b").unwrap(), "3");
    assert_eq!(graph.get_node_by_id_mut(7).unwrap_err(), RotError::NoNodeId(7));
}

#[test]
fn extend_prop_by_id() {
    let mut graph = Graph::new();
    graph.new_node("A", None).unwrap();
    let node = graph.extend_prop(0, props(&[("k", "v")])).unwrap();
    assert_eq!(node.props().as_ref().unwrap().get("k").unwrap(), "v");
    assert_eq!(graph.extend_prop(3, PropMap::new()).unwrap_err(), RotError::NoNodeId(3));
}

#[test]
fn link_nodes_registers_both_ends() {
    let mut graph = Graph::new();
    graph.new_node("A", None).unwrap();
    graph.new_node("B", None).unwrap();
    let link = graph.link_nodes(0, 1, Some(props(&[("w", "5")]))).unwrap();
    assert_eq!((link.id(), link.from_node_id(), link.to_node_id()), (0, 0, 1));
    assert_eq!(link.props().as_ref().unwrap().get("w").unwrap(), "5");
    let a = graph.get_node_by_id(0).unwrap();
    assert!(a.has_link(0) && !a.has_back_link(0));
    let b = graph.get_node_by_id(1).unwrap();
    assert!(b.has_back_link(0) && !b.has_link(0));
    assert_eq!(graph.link_nodes(1, 1, None).unwrap().id(), 1);
    let b = graph.get_node_by_id(1).unwrap();
    assert!(b.has_link(1) && b.has_back_link(1));
}

#[test]
fn link_nodes_refuses_unknown_ends_and_changes_nothing() {
    let mut graph = Graph::new();
    graph.new_node("A", None).unwrap();
    assert_eq!(graph.link_nodes(5, 0, None).unwrap_err(), RotError::NoNodeId(5));
    assert_eq!(graph.link_nodes(0, 6, None).unwrap_err(), RotError::NoNodeId(6));
    assert_eq!(graph.link_nodes(5, 6, None).unwrap_err(), RotError::NoNodeId(5));
    assert_eq!(graph.count_link(), 0);
    assert!(!graph.get_node_by_id(0).unwrap().has_link(0));
    assert_eq!(graph.get_link_by_id_mut(0).unwrap_err(), RotError::NoLinkId(0));
}

#[test]
fn link_by_id_mut_hands_out_the_link() {
    let mut graph = Graph::new();
    graph.new_node("A", None).unwrap();
    graph.link_nodes(0, 0, None).unwrap();
    assert_eq!(graph.get_link_by_id_mut(0).unwrap().id(), 0);
}
