use rot::builder::build;
use rot::graph::Graph;
use rot::parse2::{parse, Parser};
use rot::RotError;

fn built(text: &str) -> Graph {
    let mut graph = Graph::new();
    let items = parse(text.to_string()).unwrap();
    build(&mut graph, items).unwrap();
    graph
}

fn name_of(graph: &Graph, id: usize) -> String {
    graph.get_node_by_id(id).unwrap().name().clone()
}

#[test]
fn three_nodes_and_one_link() {
    let graph = built("A\nB\nC\nA->C\n");
    assert_eq!(graph.count_node(), 3);
    assert_eq!(name_of(&graph, 0), "A");
    assert_eq!(name_of(&graph, 1), "B");
    assert_eq!(name_of(&graph, 2), "C");
    assert_eq!(graph.count_link(), 1);
    let link = graph.get_link_by_id(0).unwrap();
    assert_eq!(link.from_node_id(), 0);
    assert_eq!(link.to_node_id(), 2);
    assert!(link.props().is_none());
}

#[test]
fn node_with_properties() {
    let graph = built("A{k:\"v\"}\n");
    assert_eq!(graph.count_node(), 1);
    let node = graph.get_node_by_id(0).unwrap();
    assert_eq!(node.name(), "A");
    let props = node.props().as_ref().unwrap();
    assert_eq!(props.len(), 1);
    assert_eq!(props.get("k").unwrap(), "v");
}

#[test]
fn list_linked_to_a_name() {
    let graph = built("[a,b]->c\n");
    assert_eq!(graph.count_node(), 3);
    assert_eq!(name_of(&graph, 0), "a");
    assert_eq!(name_of(&graph, 1), "b");
    assert_eq!(name_of(&graph, 2), "c");
    assert_eq!(graph.count_link(), 2);
    let first = graph.get_link_by_id(0).unwrap();
    assert_eq!((first.from_node_id(), first.to_node_id()), (0, 2));
    let second = graph.get_link_by_id(1).unwrap();
    assert_eq!((second.from_node_id(), second.to_node_id()), (1, 2));
}

#[test]
fn unterminated_property_block() {
    let r = parse("A{bad\n".to_string());
    assert_eq!(r.unwrap_err(), RotError::UnclosedState(Parser::OnProp));
}

#[test]
fn name_declared_twice_is_one_node() {
    let graph = built("A\nA\n");
    assert_eq!(graph.count_node(), 1);
    assert_eq!(name_of(&graph, 0), "A");
    assert!(graph.get_node_by_id(0).unwrap().props().is_none());
}
