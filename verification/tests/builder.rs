use rot::builder::{build, to_builder_node, BuilderEntity};
use rot::graph::Graph;
use rot::parse2::{parse, Item};
use rot::props::PropMap;
use rot::RotError;

fn props(pairs: &[(&str, &str)]) -> PropMap {
    let mut p = PropMap::new();
    for (k, v) in pairs {
        p.insert(k.to_string(), v.to_string());
    }
    p
}

fn node(name: &str) -> Item {
    Item::Node(name.to_string())
}

fn list(names: &[&str]) -> Item {
    Item::NodeVec(names.iter().map(|n| n.to_string()).collect())
}

fn links(graph: &Graph) -> Vec<(String, String)> {
    let mut out = Vec::new();
    for id in 0..graph.count_link() {
        let l = graph.get_link_by_id(id).unwrap();
        out.push((
            graph.get_node_by_id(l.from_node_id()).unwrap().name().clone(),
            graph.get_node_by_id(l.to_node_id()).unwrap().name().clone(),
        ));
    }
    out
}

fn node_names(graph: &Graph) -> Vec<String> {
    (0..graph.count_node()).map(|id| graph.get_node_by_id(id).unwrap().name().clone()).collect()
}

fn pair(a: &str, b: &str) -> (String, String) {
    (a.to_string(), b.to_string())
}

#[test]
fn test_example_graphs() {
    let examples = [
        "A\nB\nC\nA->C\n",
        "# a family\n[ann,bob]->carl{born:\"1990\"}\ncarl->dora\n",
        "a->b->c->a\n",
        "[x,y]->[z,w]\n",
        "solo{colour:\"red\", shape:\"box\"}\n",
        "",
    ];
    for text in examples {
        let mut graph = Graph::new();
        let items = parse(text.to_string()).unwrap();
        build(&mut graph, items).unwrap();
    }
}

#[test]
fn pairing_attaches_block_to_item_before() {
    let items = vec![node("A"), Item::Props(props(&[("k", "v")])), Item::Link, node("B")];
    let paired = to_builder_node(items).unwrap();
    assert_eq!(paired.len(), 3);
    assert!(matches!(&paired[0].item, BuilderEntity::Node(n) if n == "A"));
    assert_eq!(paired[0].prop.as_ref().unwrap().get("k").unwrap(), "v");
    assert!(matches!(&paired[1].item, BuilderEntity::Link));
    assert!(paired[1].prop.is_none());
    assert!(matches!(&paired[2].item, BuilderEntity::Node(n) if n == "B"));
    assert!(paired[2].prop.is_none());
}

#[test]
fn leading_property_block_is_dropped() {
    let items = vec![Item::Props(props(&[("k", "v")])), node("A")];
    let paired = to_builder_node(items).unwrap();
    assert_eq!(paired.len(), 1);
    assert!(paired[0].prop.is_none());
    let mut graph = Graph::new();
    build(&mut graph, vec![Item::Props(props(&[("k", "v")])), node("A")]).unwrap();
    assert_eq!(node_names(&graph), vec!["A"]);
    assert!(graph.get_node_by_id(0).unwrap().props().is_none());
}

#[test]
fn two_property_blocks_fail_with_double_prop() {
    let mut graph = Graph::new();
    let items = vec![
        node("A"),
        Item::Link,
        node("B"),
        Item::Props(props(&[("k", "v")])),
        Item::Props(props(&[("j", "w")])),
    ];
    assert_eq!(build(&mut graph, items).unwrap_err(), RotError::DoubleProp);
    // Nothing was built.
    assert_eq!(graph.count_node(), 0);
    assert_eq!(graph.count_link(), 0);
}

#[test]
fn two_leading_property_blocks_fail_with_double_prop() {
    let mut graph = Graph::new();
    let items = vec![Item::Props(PropMap::new()), Item::Props(PropMap::new())];
    assert_eq!(build(&mut graph, items).unwrap_err(), RotError::DoubleProp);
}

#[test]
fn two_link_markers_fail_with_double_link() {
    let mut graph = Graph::new();
    let items = parse("A->->B\n".to_string()).unwrap();
    assert_eq!(build(&mut graph, items).unwrap_err(), RotError::DoubleLink);
    // What came before the second marker stays.
    assert_eq!(node_names(&graph), vec!["A"]);
}

#[test]
fn text_of_only_link_markers_fails_with_double_link() {
    let mut graph = Graph::new();
    let items = parse("->->".to_string()).unwrap();
    assert_eq!(build(&mut graph, items).unwrap_err(), RotError::DoubleLink);
}

#[test]
fn leading_link_marker_fails_with_double_link() {
    let mut graph = Graph::new();
    assert_eq!(build(&mut graph, vec![Item::Link, node("A")]).unwrap_err(), RotError::DoubleLink);
    assert_eq!(graph.count_node(), 0);
}

#[test]
fn link_markers_apart_by_a_block_fail_with_double_link() {
    let mut graph = Graph::new();
    let items = vec![node("A"), Item::Link, Item::Props(props(&[("k", "v")])), Item::Link];
    assert_eq!(build(&mut graph, items).unwrap_err(), RotError::DoubleLink);
}

#[test]
fn trailing_link_marker_is_dropped() {
    let mut graph = Graph::new();
    build(&mut graph, vec![node("A"), Item::Link]).unwrap();
    assert_eq!(node_names(&graph), vec!["A"]);
    assert_eq!(graph.count_link(), 0);
}

#[test]
fn right_hand_name_is_made_without_properties() {
    let mut graph = Graph::new();
    build(&mut graph, parse("A->B\n".to_string()).unwrap()).unwrap();
    assert_eq!(node_names(&graph), vec!["A", "B"]);
    assert!(graph.get_node_by_id(1).unwrap().props().is_none());
    assert_eq!(links(&graph), vec![pair("A", "B")]);
}

#[test]
fn right_hand_name_takes_the_block_behind_it() {
    let mut graph = Graph::new();
    build(&mut graph, parse("A->B{x:\"1\"}\n".to_string()).unwrap()).unwrap();
    let b = graph.get_node_by_id(1).unwrap();
    assert_eq!(b.props().as_ref().unwrap().get("x").unwrap(), "1");
    // The block belongs to the node, not to the link.
    assert!(graph.get_link_by_id(0).unwrap().props().is_none());
}

#[test]
fn block_behind_marker_belongs_to_the_links() {
    let mut graph = Graph::new();
    let items = vec![
        list(&["a", "b"]),
        Item::Link,
        Item::Props(props(&[("kind", "road")])),
        node("c"),
    ];
    build(&mut graph, items).unwrap();
    assert_eq!(links(&graph), vec![pair("a", "c"), pair("b", "c")]);
    for id in 0..2 {
        let l = graph.get_link_by_id(id).unwrap();
        assert_eq!(l.props().as_ref().unwrap().get("kind").unwrap(), "road");
    }
    assert!(graph.get_node_by_id(2).unwrap().props().is_none());
}

#[test]
fn list_to_list_links_every_pair_and_makes_unknown_names() {
    let mut graph = Graph::new();
    build(&mut graph, parse("[a,b]->[c,d]\n".to_string()).unwrap()).unwrap();
    assert_eq!(node_names(&graph), vec!["a", "b", "c", "d"]);
    assert_eq!(
        links(&graph),
        vec![pair("a", "c"), pair("a", "d"), pair("b", "c"), pair("b", "d")]
    );
    assert!(graph.get_node_by_id(2).unwrap().props().is_none());
}

#[test]
fn name_to_list() {
    let mut graph = Graph::new();
    build(&mut graph, parse("a->[b,c]\n".to_string()).unwrap()).unwrap();
    assert_eq!(links(&graph), vec![pair("a", "b"), pair("a", "c")]);
}

#[test]
fn block_behind_a_list_goes_to_every_name() {
    let mut graph = Graph::new();
    let items = vec![
        node("a"),
        Item::Link,
        list(&["b", "c"]),
        Item::Props(props(&[("k", "v")])),
    ];
    build(&mut graph, items).unwrap();
    for id in 1..3 {
        let n = graph.get_node_by_id(id).unwrap();
        assert_eq!(n.props().as_ref().unwrap().get("k").unwrap(), "v");
    }
    assert!(graph.get_node_by_id(0).unwrap().props().is_none());
}

#[test]
fn chain_links_neighbours() {
    let mut graph = Graph::new();
    build(&mut graph, parse("a->b->c\n".to_string()).unwrap()).unwrap();
    assert_eq!(links(&graph), vec![pair("a", "b"), pair("b", "c")]);
    let b = graph.get_node_by_id(1).unwrap();
    assert!(b.has_back_link(0) && b.has_link(1));
    assert!(!b.has_link(0) && !b.has_back_link(1));
}

#[test]
fn declaring_again_merges_properties() {
    let mut graph = Graph::new();
    build(
        &mut graph,
        parse("A{a:\"1\",b:\"2\"}\nA{b:\"3\",c:\"4\"}\n".to_string()).unwrap(),
    )
    .unwrap();
    assert_eq!(graph.count_node(), 1);
    let p = graph.get_node_by_id(0).unwrap().props().as_ref().unwrap();
    assert_eq!(p.len(), 3);
    assert_eq!(p.entry(0).unwrap(), (&"a".to_string(), &"1".to_string()));
    assert_eq!(p.entry(1).unwrap(), (&"b".to_string(), &"3".to_string()));
    assert_eq!(p.entry(2).unwrap(), (&"c".to_string(), &"4".to_string()));
}

#[test]
fn existing_right_hand_name_takes_the_block_too() {
    let mut graph = Graph::new();
    build(&mut graph, parse("c\n[a,b]->c{k:\"v\"}\n".to_string()).unwrap()).unwrap();
    assert_eq!(node_names(&graph), vec!["c", "a", "b"]);
    assert_eq!(
        graph.get_node_by_id(0).unwrap().props().as_ref().unwrap().get("k").unwrap(),
        "v"
    );
    assert_eq!(links(&graph), vec![pair("a", "c"), pair("b", "c")]);
}

#[test]
fn two_texts_into_one_graph() {
    let mut graph = Graph::new();
    build(&mut graph, parse("a->b\n".to_string()).unwrap()).unwrap();
    build(&mut graph, parse("b->c\na\n".to_string()).unwrap()).unwrap();
    assert_eq!(node_names(&graph), vec!["a", "b", "c"]);
    assert_eq!(links(&graph), vec![pair("a", "b"), pair("b", "c")]);
}

#[test]
fn same_name_twice_in_a_list_links_twice() {
    let mut graph = Graph::new();
    build(&mut graph, parse("[a,a]->b\n".to_string()).unwrap()).unwrap();
    assert_eq!(node_names(&graph), vec!["a", "b"]);
    assert_eq!(links(&graph), vec![pair("a", "b"), pair("a", "b")]);
}

fn items_of(graph: &Graph) -> Vec<Item> {
    let mut items = Vec::new();
    for id in 0..graph.count_node() {
        let n = graph.get_node_by_id(id).unwrap();
        items.push(Item::Node(n.name().clone()));
        if let Some(p) = n.props() {
            items.push(Item::Props(p.clone()));
        }
    }
    for id in 0..graph.count_link() {
        let l = graph.get_link_by_id(id).unwrap();
        items.push(Item::Node(graph.get_node_by_id(l.from_node_id()).unwrap().name().clone()));
        items.push(Item::Link);
        if let Some(p) = l.props() {
            items.push(Item::Props(p.clone()));
        }
        items.push(Item::Node(graph.get_node_by_id(l.to_node_id()).unwrap().name().clone()));
    }
    items
}

fn pairs(p: &Option<PropMap>) -> Option<Vec<(String, String)>> {
    p.as_ref().map(|p| {
        (0..p.len()).map(|i| p.entry(i).unwrap()).map(|(k, v)| (k.clone(), v.clone())).collect()
    })
}

#[test]
fn items_of_a_graph_build_the_graph() {
    let mut graph = Graph::new();
    build(
        &mut graph,
        vec![
            list(&["a", "b"]),
            Item::Props(props(&[("k", "v"), ("j", "w")])),
            Item::Link,
            Item::Props(props(&[("kind", "road")])),
            list(&["c", "a"]),
            node("d"),
            Item::Props(props(&[])),
            Item::Link,
            node("d"),
        ],
    )
    .unwrap();
    let mut again = Graph::new();
    build(&mut again, items_of(&graph)).unwrap();
    assert_eq!(again.count_node(), graph.count_node());
    assert_eq!(again.count_link(), graph.count_link());
    assert_eq!(graph.count_link(), 5);
    for id in 0..graph.count_node() {
        let (n, m) = (graph.get_node_by_id(id).unwrap(), again.get_node_by_id(id).unwrap());
        assert_eq!(n.name(), m.name());
        assert_eq!(pairs(n.props()), pairs(m.props()));
        for l in 0..graph.count_link() {
            assert_eq!(n.has_link(l), m.has_link(l));
            assert_eq!(n.has_back_link(l), m.has_back_link(l));
        }
    }
    for id in 0..graph.count_link() {
        let (l, k) = (graph.get_link_by_id(id).unwrap(), again.get_link_by_id(id).unwrap());
        assert_eq!(l.from_node_id(), k.from_node_id());
        assert_eq!(l.to_node_id(), k.to_node_id());
        assert_eq!(pairs(l.props()), pairs(k.props()));
    }
}
