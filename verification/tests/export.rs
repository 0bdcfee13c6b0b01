use rot::builder::build;
use rot::export::to;
use rot::graph::Graph;
use rot::parse2::{parse, Item};
use rot::props::PropMap;

fn built(text: &str) -> Graph {
    let mut graph = Graph::new();
    build(&mut graph, parse(text.to_string()).unwrap()).unwrap();
    graph
}

#[test]
fn rot_of_empty_graph_is_empty() {
    assert_eq!(to::rot(&Graph::new()), "");
}

#[test]
fn rot_writes_nodes_then_links() {
    let graph = built("A\nB\nC\nA->C\n");
    assert_eq!(to::rot(&graph), "A\nB\nC\nA->C\n");
}

#[test]
fn rot_writes_properties_as_a_debug_map() {
    let graph = built("A{k:\"v\",j:\"w\"}\nB{}\n");
    assert_eq!(to::rot(&graph), "A{\"k\": \"v\", \"j\": \"w\"}\nB{}\n");
}

#[test]
fn rot_escapes_as_debug_does() {
    let mut graph = Graph::new();
    let mut p = PropMap::new();
    p.insert("tab".to_string(), "a\tb".to_string());
    graph.new_node("A", Some(p)).unwrap();
    assert_eq!(to::rot(&graph), "A{\"tab\": \"a\\tb\"}\n");
}

#[test]
fn rot_writes_link_properties_behind_the_link() {
    let mut graph = Graph::new();
    let mut p = PropMap::new();
    p.insert("k".to_string(), "v".to_string());
    build(
        &mut graph,
        vec![
            Item::Node("a".to_string()),
            Item::Link,
            Item::Props(p),
            Item::Node("b".to_string()),
        ],
    )
    .unwrap();
    assert_eq!(to::rot(&graph), "a\nb\na->b{\"k\": \"v\"}\n");
}

#[test]
fn rot_twice_is_the_same_text() {
    let graph = built("[a,b]->c{x:\"1\",y:\"2\"}\nc->a\n");
    assert_eq!(to::rot(&graph), to::rot(&graph));
    assert_eq!(to::dot(&graph), to::dot(&graph));
}

#[test]
fn rot_text_reads_back_as_the_same_graph() {
    let graph = built("a\nb{}\nc\na->b\nc->a\nb->b\n[a,b]->c\n");
    let text = to::rot(&graph);
    assert_eq!(text, "a\nb{}\nc\na->b\nc->a\nb->b\na->c\nb->c\n");
    let again = built(&text);
    assert_eq!(again.count_node(), graph.count_node());
    assert_eq!(again.count_link(), graph.count_link());
    for id in 0..graph.count_node() {
        let (n, m) = (graph.get_node_by_id(id).unwrap(), again.get_node_by_id(id).unwrap());
        assert_eq!(n.name(), m.name());
        assert_eq!(n.props().is_some(), m.props().is_some());
        for l in 0..graph.count_link() {
            assert_eq!(n.has_link(l), m.has_link(l));
            assert_eq!(n.has_back_link(l), m.has_back_link(l));
        }
    }
    for id in 0..graph.count_link() {
        let (l, k) = (graph.get_link_by_id(id).unwrap(), again.get_link_by_id(id).unwrap());
        assert_eq!(l.from_node_id(), k.from_node_id());
        assert_eq!(l.to_node_id(), k.to_node_id());
        assert!(k.props().is_none());
    }
    assert_eq!(to::rot(&again), text);
}

#[test]
fn rot_text_with_properties_reads_back_with_quoted_keys() {
    let graph = built("A{k:\"v\"}\n");
    let again = built(&to::rot(&graph));
    let p = again.get_node_by_id(0).unwrap().props().as_ref().unwrap();
    assert!(p.get("k").is_none());
    assert_eq!(p.get("\"k\"").unwrap(), "v");
}

#[test]
fn dot_of_empty_graph() {
    assert_eq!(to::dot(&Graph::new()), "digraph RotGraph {}");
}

#[test]
fn dot_writes_nodes_then_links() {
    let graph = built("A\nB{k:\"v\",j:\"w\"}\nA->B\nC{}\n");
    assert_eq!(
        to::dot(&graph),
        "digraph RotGraph {\tA\n\tB [k=v,j=w,]\n\tC []\n\tA->B\n}"
    );
}

#[test]
fn dotex_names_the_renderer_and_hands_it_the_dot_text() {
    let graph = built("A->B\n");
    let run = to::dotex(&graph, "svg");
    assert_eq!(run.program, "dot");
    assert_eq!(run.arg, "-Tsvg");
    assert_eq!(run.input, to::dot(&graph));
}
