//! Out and back: a graph that is written in its own language, read again and
//! built again is the graph that was written.
//!
//! Every well-formed graph is what its items build ([`lemma_items_rebuild`]):
//! the builder can make any graph, properties of nodes and of links
//! included. The text is the narrow place. A property map is written as it
//! is printed for debugging, with its keys between quotes, and comes back
//! with the quotes as part of the keys; and the properties of a link are
//! written behind the name of the node at which the link arrives, where the
//! lexer takes them for properties of that node. So the text of a graph
//! reads as the graph's items for the graphs whose names the lexer reads
//! back, whose property maps are empty and whose links have none
//! ([`plain_graph`]), and of those the law of out and back holds
//! ([`lemma_round_trip`]).
use crate::builder::{
    build_from, build_run, build_spec, build_step, declare, double_prop, ids_of,
    lemma_declare_one, link_all, link_each, pair_at, paired, Before, BuildOutcome, BuildState,
    Paired,
};
use crate::export::rot::{
    link_line, links_text, node_line, nodes_text, props_text, quoted_pairs, rot_text,
};
use crate::graph::{
    lemma_add_node, lemma_find_at, lemma_find_node, GraphView, LinkView, NodeView,
};
use crate::parse2::{
    is_blank, lemma_lex_concat, lex_from, lex_step, parse_spec, props_spec, ItemView, LexState,
    Parser,
};
use crate::props::PropSeq;
use crate::ErrorView;
use vstd::prelude::*;

verus! {

/// A name that the lexer reads back as it stands: not empty, not begun like
/// a blank, a comment, a list or a link, and free of the characters that end
/// a name or may not stand in one.
pub open spec fn plain_name(name: Seq<char>) -> bool {
    &&& name.len() > 0
    &&& !is_blank(name[0]) && name[0] != '#' && name[0] != '['
    &&& forall|i: int|
        0 <= i < name.len() ==> #[trigger] name[i] != '-' && name[i] != '\n' && name[i] != '{'
            && name[i] != ','
}

/// A graph that its own language can say: well-formed, every name plain,
/// every property map of a node empty, and no link with properties.
pub open spec fn plain_graph(g: GraphView) -> bool {
    &&& g.wf()
    &&& forall|i: int| 0 <= i < g.nodes.len() ==> plain_name((#[trigger] g.nodes[i]).name)
    &&& forall|i: int|
        0 <= i < g.nodes.len() ==> ((#[trigger] g.nodes[i]).props matches Some(p) ==> p.len()
            == 0)
    &&& forall|l: int| 0 <= l < g.links.len() ==> (#[trigger] g.links[l]).props is None
}

/// The items of a node: its name, and its properties if it has any.
pub open spec fn node_items(n: NodeView) -> Seq<ItemView> {
    match n.props {
        Some(p) => seq![ItemView::Node(n.name), ItemView::Props(p)],
        None => seq![ItemView::Node(n.name)],
    }
}

/// The items of a link: the name at which it leaves, the marker, the
/// properties of the link if it has any, and the name at which it arrives.
pub open spec fn link_items(g: GraphView, l: LinkView) -> Seq<ItemView> {
    match l.props {
        Some(p) => seq![
            ItemView::Node(g.nodes[l.from].name),
            ItemView::Link,
            ItemView::Props(p),
            ItemView::Node(g.nodes[l.to].name),
        ],
        None => seq![
            ItemView::Node(g.nodes[l.from].name),
            ItemView::Link,
            ItemView::Node(g.nodes[l.to].name),
        ],
    }
}

/// The items of the first `n` nodes.
pub open spec fn nodes_items(g: GraphView, n: int) -> Seq<ItemView>
    decreases n,
{
    if n <= 0 {
        Seq::empty()
    } else {
        nodes_items(g, n - 1) + node_items(g.nodes[n - 1])
    }
}

/// The items of the first `n` links.
pub open spec fn links_items(g: GraphView, n: int) -> Seq<ItemView>
    decreases n,
{
    if n <= 0 {
        Seq::empty()
    } else {
        links_items(g, n - 1) + link_items(g, g.links[n - 1])
    }
}

/// The items of a graph: those of its nodes by id, then those of its links
/// by id.
pub open spec fn graph_items(g: GraphView) -> Seq<ItemView> {
    nodes_items(g, g.nodes.len() as int) + links_items(g, g.links.len() as int)
}

/// The lexer between items, with nothing held back.
pub open spec fn at_rest(st: LexState) -> bool {
    st.state == Parser::Nothing && st.buffer.len() == 0
}

/// Between items, the first `k` characters of a plain name leave the lexer
/// inside the name, holding those characters.
proof fn lemma_lex_name_front(st: LexState, name: Seq<char>, k: int)
    requires
        at_rest(st),
        plain_name(name),
        1 <= k <= name.len(),
    ensures
        lex_from(st, name.take(k)) == Ok::<LexState, ErrorView>(
            LexState { state: Parser::OnNode, buffer: name.take(k), ..st },
        ),
    decreases k,
{
    let front = name.take(k);
    assert(front.drop_last() =~= name.take(k - 1));
    assert(front.last() == name[k - 1]);
    if k == 1 {
        assert(name.take(0) =~= Seq::<char>::empty());
        assert(lex_from(st, name.take(0)) == Ok::<LexState, ErrorView>(st));
        assert(st.buffer.push(name[0]) =~= name.take(1));
    } else {
        lemma_lex_name_front(st, name, k - 1);
        assert(name.take(k - 1).push(name[k - 1]) =~= name.take(k));
    }
}

/// Between items, a plain name leaves the lexer inside the name, holding it.
proof fn lemma_lex_name(st: LexState, name: Seq<char>)
    requires
        at_rest(st),
        plain_name(name),
    ensures
        lex_from(st, name) == Ok::<LexState, ErrorView>(
            LexState { state: Parser::OnNode, buffer: name, ..st },
        ),
{
    lemma_lex_name_front(st, name, name.len() as int);
    assert(name.take(name.len() as int) =~= name);
}

/// The line of a node reads as the node's items.
proof fn lemma_lex_node_line(st: LexState, n: NodeView)
    requires
        at_rest(st),
        plain_name(n.name),
        n.props matches Some(p) ==> p.len() == 0,
    ensures
        lex_from(st, node_line(n)) == Ok::<LexState, ErrorView>(
            LexState { items: st.items + node_items(n), ..st },
        ),
{
    let named = LexState { state: Parser::OnNode, buffer: n.name, ..st };
    lemma_lex_name(st, n.name);
    match n.props {
        None => {
            let rest = seq!['\n'];
            assert(node_line(n) =~= n.name + rest);
            lemma_lex_concat(st, n.name, rest);
            reveal_with_fuel(lex_from, 2);
            assert(rest.drop_last() =~= Seq::<char>::empty());
            let s1 = lex_step(named, '\n')->Ok_0;
            assert(lex_from(named, rest) == Ok::<LexState, ErrorView>(s1));
            assert(s1.items =~= st.items + node_items(n));
            assert(s1.buffer =~= st.buffer);
        },
        Some(p) => {
            let rest = seq!['{', '}', '\n'];
            assert(p =~= Seq::empty());
            assert(quoted_pairs(p) =~= Seq::empty());
            assert(props_text(n.props) =~= seq!['{', '}']);
            assert(node_line(n) =~= n.name + rest);
            lemma_lex_concat(st, n.name, rest);
            reveal_with_fuel(lex_from, 4);
            assert(rest.drop_last() =~= seq!['{', '}']);
            assert(rest.drop_last().drop_last() =~= seq!['{']);
            assert(rest.drop_last().drop_last().drop_last() =~= Seq::<char>::empty());
            let s1 = lex_step(named, '{')->Ok_0;
            assert(s1.buffer =~= Seq::<char>::empty());
            assert(props_spec(s1.buffer) == Ok::<PropSeq, ErrorView>(Seq::empty()));
            let s2 = lex_step(s1, '}')->Ok_0;
            let s3 = lex_step(s2, '\n')->Ok_0;
            assert(lex_from(named, rest) == Ok::<LexState, ErrorView>(s3));
            assert(s3.items =~= st.items + node_items(n));
            assert(s3.buffer =~= st.buffer);
        },
    }
}

/// The line of a link reads as the link's items.
proof fn lemma_lex_link_line(st: LexState, g: GraphView, l: LinkView)
    requires
        at_rest(st),
        plain_name(g.nodes[l.from].name),
        plain_name(g.nodes[l.to].name),
        l.props is None,
    ensures
        lex_from(st, link_line(g, l)) == Ok::<LexState, ErrorView>(
            LexState { items: st.items + link_items(g, l), ..st },
        ),
{
    let from = g.nodes[l.from].name;
    let to = g.nodes[l.to].name;
    let arrow = seq!['-', '>'];
    let end = seq!['\n'];
    assert(link_line(g, l) =~= from + arrow + to + end);
    lemma_lex_concat(st, from + arrow + to, end);
    lemma_lex_concat(st, from + arrow, to);
    lemma_lex_concat(st, from, arrow);
    lemma_lex_name(st, from);
    let named = LexState { state: Parser::OnNode, buffer: from, ..st };
    reveal_with_fuel(lex_from, 3);
    assert(arrow.drop_last() =~= seq!['-']);
    assert(arrow.drop_last().drop_last() =~= Seq::<char>::empty());
    let s1 = lex_step(named, '-')->Ok_0;
    let s2 = lex_step(s1, '>')->Ok_0;
    assert(lex_from(named, arrow) == Ok::<LexState, ErrorView>(s2));
    assert(s2.buffer =~= Seq::<char>::empty());
    lemma_lex_name(s2, to);
    let s3 = LexState { state: Parser::OnNode, buffer: to, ..s2 };
    assert(end.drop_last() =~= Seq::<char>::empty());
    let s4 = lex_step(s3, '\n')->Ok_0;
    assert(lex_from(s3, end) == Ok::<LexState, ErrorView>(s4));
    assert(s4.items =~= st.items + link_items(g, l));
    assert(s4.buffer =~= st.buffer);
}

/// The lines of the first `n` nodes read as their items.
proof fn lemma_lex_nodes(st: LexState, g: GraphView, n: int)
    requires
        at_rest(st),
        plain_graph(g),
        0 <= n <= g.nodes.len(),
    ensures
        lex_from(st, nodes_text(g, n)) == Ok::<LexState, ErrorView>(
            LexState { items: st.items + nodes_items(g, n), ..st },
        ),
    decreases n,
{
    if n == 0 {
        assert(st.items + nodes_items(g, n) =~= st.items);
    } else {
        lemma_lex_nodes(st, g, n - 1);
        let mid = LexState { items: st.items + nodes_items(g, n - 1), ..st };
        lemma_lex_concat(st, nodes_text(g, n - 1), node_line(g.nodes[n - 1]));
        lemma_lex_node_line(mid, g.nodes[n - 1]);
        assert(mid.items + node_items(g.nodes[n - 1]) =~= st.items + nodes_items(g, n));
    }
}

/// The lines of the first `n` links read as their items.
proof fn lemma_lex_links(st: LexState, g: GraphView, n: int)
    requires
        at_rest(st),
        plain_graph(g),
        0 <= n <= g.links.len(),
    ensures
        lex_from(st, links_text(g, n)) == Ok::<LexState, ErrorView>(
            LexState { items: st.items + links_items(g, n), ..st },
        ),
    decreases n,
{
    if n == 0 {
        assert(st.items + links_items(g, n) =~= st.items);
    } else {
        lemma_lex_links(st, g, n - 1);
        let mid = LexState { items: st.items + links_items(g, n - 1), ..st };
        let l = g.links[n - 1];
        lemma_lex_concat(st, links_text(g, n - 1), link_line(g, l));
        assert(plain_name(g.nodes[l.from].name));
        assert(plain_name(g.nodes[l.to].name));
        lemma_lex_link_line(mid, g, l);
        assert(mid.items + link_items(g, l) =~= st.items + links_items(g, n));
    }
}

/// The text of a plain graph reads as the graph's items.
pub proof fn lemma_parse_rot_text(g: GraphView)
    requires
        plain_graph(g),
    ensures
        parse_spec(rot_text(g)) == Ok::<Seq<ItemView>, ErrorView>(graph_items(g)),
{
    let start = LexState::start();
    let n = g.nodes.len() as int;
    let m = g.links.len() as int;
    lemma_lex_nodes(start, g, n);
    let mid = LexState { items: start.items + nodes_items(g, n), ..start };
    lemma_lex_links(mid, g, m);
    lemma_lex_concat(start, nodes_text(g, n), links_text(g, m));
    assert(mid.items + links_items(g, m) =~= graph_items(g));
}

/// A node's items, paired: its name with its properties.
pub open spec fn node_paired(n: NodeView) -> Seq<Paired> {
    seq![Paired { item: ItemView::Node(n.name), props: n.props }]
}

/// A link's items, paired: the name at which it leaves, the marker with the
/// properties of the link, and the name at which it arrives.
pub open spec fn link_paired(g: GraphView, l: LinkView) -> Seq<Paired> {
    seq![
        Paired { item: ItemView::Node(g.nodes[l.from].name), props: None },
        Paired { item: ItemView::Link, props: l.props },
        Paired { item: ItemView::Node(g.nodes[l.to].name), props: None },
    ]
}

/// The items of the first `n` nodes, paired.
pub open spec fn nodes_paired(g: GraphView, n: int) -> Seq<Paired>
    decreases n,
{
    if n <= 0 {
        Seq::empty()
    } else {
        nodes_paired(g, n - 1) + node_paired(g.nodes[n - 1])
    }
}

/// The items of the first `n` links, paired.
pub open spec fn links_paired(g: GraphView, n: int) -> Seq<Paired>
    decreases n,
{
    if n <= 0 {
        Seq::empty()
    } else {
        links_paired(g, n - 1) + link_paired(g, g.links[n - 1])
    }
}

/// Items that follow, and do not begin with a property block, change
/// nothing in how the items before them pair.
proof fn lemma_paired_same(a: Seq<ItemView>, b: Seq<ItemView>, n: int)
    requires
        0 <= n <= a.len(),
        b.len() == 0 || !(b[0] is Props),
    ensures
        paired(a + b, n) == paired(a, n),
    decreases n,
{
    if n > 0 {
        lemma_paired_same(a, b, n - 1);
        assert((a + b)[n - 1] == a[n - 1]);
        if n < a.len() {
            assert((a + b)[n] == a[n]);
        } else if b.len() > 0 {
            assert((a + b)[n] == b[0]);
        }
    }
}

/// Two runs of items, of which the second does not begin with a property
/// block, pair each on its own.
proof fn lemma_paired_concat(a: Seq<ItemView>, b: Seq<ItemView>, j: int)
    requires
        0 <= j <= b.len(),
        b.len() == 0 || !(b[0] is Props),
    ensures
        paired(a + b, a.len() + j) == paired(a, a.len() as int) + paired(b, j),
    decreases j,
{
    if j == 0 {
        lemma_paired_same(a, b, a.len() as int);
        assert(paired(a, a.len() as int) + paired(b, 0) =~= paired(a, a.len() as int));
    } else {
        lemma_paired_concat(a, b, j - 1);
        assert((a + b)[a.len() + j - 1] == b[j - 1]);
        if j < b.len() {
            assert((a + b)[a.len() + j] == b[j]);
        }
        assert(pair_at(a + b, a.len() + j - 1) == pair_at(b, j - 1));
        if !(b[j - 1] is Props) {
            assert(paired(a, a.len() as int) + paired(b, j) =~= (paired(a, a.len() as int)
                + paired(b, j - 1)).push(pair_at(b, j - 1)));
        }
    }
}

/// The items of a node pair as the node's paired items.
proof fn lemma_paired_node(n: NodeView)
    ensures
        paired(node_items(n), node_items(n).len() as int) == node_paired(n),
        !(node_items(n)[0] is Props),
{
    reveal_with_fuel(paired, 3);
    assert(paired(node_items(n), node_items(n).len() as int) =~= node_paired(n));
}

/// The items of a link pair as the link's paired items.
proof fn lemma_paired_link(g: GraphView, l: LinkView)
    ensures
        paired(link_items(g, l), link_items(g, l).len() as int) == link_paired(g, l),
        !(link_items(g, l)[0] is Props),
{
    reveal_with_fuel(paired, 5);
    assert(paired(link_items(g, l), link_items(g, l).len() as int) =~= link_paired(g, l));
}

/// Behind any items, the items of the first `n` nodes pair as their paired
/// items.
proof fn lemma_paired_nodes(pre: Seq<ItemView>, g: GraphView, n: int)
    requires
        n >= 0,
    ensures
        paired(pre + nodes_items(g, n), (pre + nodes_items(g, n)).len() as int) == paired(
            pre,
            pre.len() as int,
        ) + nodes_paired(g, n),
    decreases n,
{
    if n == 0 {
        assert(pre + nodes_items(g, n) =~= pre);
        assert(paired(pre, pre.len() as int) + nodes_paired(g, n) =~= paired(
            pre,
            pre.len() as int,
        ));
    } else {
        let a = pre + nodes_items(g, n - 1);
        let b = node_items(g.nodes[n - 1]);
        lemma_paired_nodes(pre, g, n - 1);
        lemma_paired_node(g.nodes[n - 1]);
        lemma_paired_concat(a, b, b.len() as int);
        assert(a + b =~= pre + nodes_items(g, n));
        assert(paired(pre, pre.len() as int) + nodes_paired(g, n - 1) + node_paired(
            g.nodes[n - 1],
        ) =~= paired(pre, pre.len() as int) + nodes_paired(g, n));
    }
}

/// Behind any items, the items of the first `n` links pair as their paired
/// items.
proof fn lemma_paired_links(pre: Seq<ItemView>, g: GraphView, n: int)
    requires
        n >= 0,
    ensures
        paired(pre + links_items(g, n), (pre + links_items(g, n)).len() as int) == paired(
            pre,
            pre.len() as int,
        ) + links_paired(g, n),
    decreases n,
{
    if n == 0 {
        assert(pre + links_items(g, n) =~= pre);
        assert(paired(pre, pre.len() as int) + links_paired(g, n) =~= paired(
            pre,
            pre.len() as int,
        ));
    } else {
        let a = pre + links_items(g, n - 1);
        let b = link_items(g, g.links[n - 1]);
        lemma_paired_links(pre, g, n - 1);
        lemma_paired_link(g, g.links[n - 1]);
        lemma_paired_concat(a, b, b.len() as int);
        assert(a + b =~= pre + links_items(g, n));
        assert(paired(pre, pre.len() as int) + links_paired(g, n - 1) + link_paired(
            g,
            g.links[n - 1],
        ) =~= paired(pre, pre.len() as int) + links_paired(g, n));
    }
}

/// Behind items that hold no two property blocks side by side, the items of
/// the first `n` nodes hold none either.
proof fn lemma_nodes_items_pair(pre: Seq<ItemView>, g: GraphView, n: int)
    requires
        n >= 0,
        !double_prop(pre),
    ensures
        !double_prop(pre + nodes_items(g, n)),
    decreases n,
{
    if n == 0 {
        assert(pre + nodes_items(g, n) =~= pre);
    } else {
        let a = pre + nodes_items(g, n - 1);
        let b = node_items(g.nodes[n - 1]);
        lemma_nodes_items_pair(pre, g, n - 1);
        assert(a + b =~= pre + nodes_items(g, n));
        lemma_no_double_prop(a, b);
    }
}

/// Behind items that hold no two property blocks side by side, the items of
/// the first `n` links hold none either.
proof fn lemma_links_items_pair(pre: Seq<ItemView>, g: GraphView, n: int)
    requires
        n >= 0,
        !double_prop(pre),
    ensures
        !double_prop(pre + links_items(g, n)),
    decreases n,
{
    if n == 0 {
        assert(pre + links_items(g, n) =~= pre);
    } else {
        let a = pre + links_items(g, n - 1);
        let b = link_items(g, g.links[n - 1]);
        lemma_links_items_pair(pre, g, n - 1);
        assert(a + b =~= pre + links_items(g, n));
        lemma_no_double_prop(a, b);
    }
}

/// Items without two property blocks side by side, followed by items that
/// begin with none and hold no two side by side, hold no two side by side.
proof fn lemma_no_double_prop(a: Seq<ItemView>, b: Seq<ItemView>)
    requires
        !double_prop(a),
        !double_prop(b),
        b.len() == 0 || !(b[0] is Props),
    ensures
        !double_prop(a + b),
{
    let all = a + b;
    if double_prop(all) {
        let i = choose|i: int|
            0 < i < all.len() && all[i - 1] is Props && (#[trigger] all[i]) is Props;
        if i < a.len() {
            assert(a[i - 1] is Props && a[i] is Props);
        } else if i == a.len() {
            assert(all[i] == b[0]);
        } else {
            assert(all[i - 1] == b[i - 1 - a.len()]);
            assert(all[i] == b[i - a.len()]);
            assert(b[i - a.len() - 1] is Props && b[i - a.len()] is Props);
        }
    }
}

/// In the items of a graph no two property blocks stand side by side.
proof fn lemma_graph_items_pair(g: GraphView)
    ensures
        !double_prop(graph_items(g)),
{
    let none = Seq::<ItemView>::empty();
    let nodes = nodes_items(g, g.nodes.len() as int);
    lemma_nodes_items_pair(none, g, g.nodes.len() as int);
    assert(none + nodes =~= nodes);
    lemma_links_items_pair(nodes, g, g.links.len() as int);
}

/// The items of a graph pair as the paired items of its nodes, then those of
/// its links.
proof fn lemma_paired_graph(g: GraphView)
    ensures
        paired(graph_items(g), graph_items(g).len() as int) == nodes_paired(
            g,
            g.nodes.len() as int,
        ) + links_paired(g, g.links.len() as int),
{
    let none = Seq::<ItemView>::empty();
    let nodes = nodes_items(g, g.nodes.len() as int);
    lemma_paired_nodes(none, g, g.nodes.len() as int);
    lemma_paired_links(nodes, g, g.links.len() as int);
    assert(none + nodes =~= nodes);
    assert(paired(none, 0) + nodes_paired(g, g.nodes.len() as int) =~= nodes_paired(
        g,
        g.nodes.len() as int,
    ));
}

/// The graph as it stands when its first `k` nodes and its first `j` links
/// have been built: each node lists the links among those `j` that leave it
/// and that arrive at it.
pub open spec fn partial(g: GraphView, k: int, j: int) -> GraphView {
    GraphView {
        nodes: Seq::new(
            k as nat,
            |i: int|
                NodeView {
                    links: Set::new(|l: int| 0 <= l < j && g.links[l].from == i),
                    back_links: Set::new(|l: int| 0 <= l < j && g.links[l].to == i),
                    ..g.nodes[i]
                },
        ),
        links: g.links.take(j),
    }
}

/// A part of a well-formed graph is well-formed, if it has no links or all
/// the nodes.
proof fn lemma_partial_wf(g: GraphView, k: int, j: int)
    requires
        g.wf(),
        0 <= k <= g.nodes.len(),
        0 <= j <= g.links.len(),
        j == 0 || k == g.nodes.len(),
    ensures
        partial(g, k, j).wf(),
{
    let p = partial(g, k, j);
    assert forall|a: int, b: int| 0 <= a < b < p.nodes.len() implies (#[trigger] p.nodes[a]).name
        != (#[trigger] p.nodes[b]).name by {
        assert(g.nodes[a].name != g.nodes[b].name);
    }
}

/// The whole of a well-formed graph is the graph.
proof fn lemma_partial_all(g: GraphView)
    requires
        g.wf(),
    ensures
        partial(g, g.nodes.len() as int, g.links.len() as int) == g,
{
    let p = partial(g, g.nodes.len() as int, g.links.len() as int);
    assert(p.links =~= g.links);
    assert forall|i: int| 0 <= i < g.nodes.len() implies p.nodes[i] == g.nodes[i] by {
        assert(p.nodes[i].links =~= g.nodes[i].links);
        assert(p.nodes[i].back_links =~= g.nodes[i].back_links);
    }
    assert(p.nodes =~= g.nodes);
}

/// A node of a part of a graph is found under its name, where the graph has
/// it.
proof fn lemma_partial_find(g: GraphView, k: int, j: int, i: int)
    requires
        g.wf(),
        0 <= i < k <= g.nodes.len(),
        0 <= j <= g.links.len(),
        j == 0 || k == g.nodes.len(),
    ensures
        partial(g, k, j).find(g.nodes[i].name) == Some(i),
{
    lemma_partial_wf(g, k, j);
    lemma_find_node(partial(g, k, j), i);
}

/// Building two runs of paired items one after the other is building the
/// second from where the first led, unless the first stopped.
pub proof fn lemma_build_concat(st: BuildState, a: Seq<Paired>, b: Seq<Paired>)
    ensures
        build_from(st, a + b) == (if build_from(st, a).error is Some {
            build_from(st, a)
        } else {
            build_from(build_from(st, a).state, b)
        }),
    decreases b.len(),
{
    if b.len() == 0 {
        assert(a + b =~= a);
    } else {
        lemma_build_concat(st, a, b.drop_last());
        assert((a + b).drop_last() =~= a + b.drop_last());
    }
}

/// The step at the line of node `k`, when the nodes before it are built and
/// no link is: node `k` is built.
proof fn lemma_build_node(g: GraphView, k: int, before: Before)
    requires
        g.wf(),
        0 <= k < g.nodes.len(),
        !(before is Marker),
    ensures
        build_from(BuildState { graph: partial(g, k, 0), before }, node_paired(g.nodes[k])) == (
        BuildOutcome {
            state: BuildState {
                graph: partial(g, k + 1, 0),
                before: Before::Names(seq![g.nodes[k].name]),
            },
            error: None,
        }),
{
    let st = BuildState { graph: partial(g, k, 0), before };
    let node = g.nodes[k];
    let p = Paired { item: ItemView::Node(node.name), props: node.props };
    let ps = node_paired(node);
    reveal_with_fuel(build_from, 2);
    assert(ps.drop_last() =~= Seq::<Paired>::empty());
    assert(ps.last() == p);
    lemma_declare_one(st.graph, node.name, node.props);
    lemma_partial_wf(g, k, 0);
    // The name is new: the nodes before have other names.
    assert forall|i: int| 0 <= i < st.graph.nodes.len() implies st.graph.nodes[i].name
        != node.name by {
        assert(g.nodes[i].name != g.nodes[k].name);
    }
    lemma_find_at(st.graph, node.name, k);
    lemma_add_node(st.graph, node.name, None);
    let made = st.graph.add_node(node.name, None);
    let declared = declare(st.graph, node.name, node.props);
    assert(declared.links =~= partial(g, k + 1, 0).links);
    assert forall|i: int| 0 <= i < k + 1 implies declared.nodes[i] == partial(g, k + 1, 0).nodes[i] by {
        assert(partial(g, k + 1, 0).nodes[i].links =~= Set::<int>::empty());
        assert(partial(g, k + 1, 0).nodes[i].back_links =~= Set::<int>::empty());
        if i < k {
            assert(made.nodes[i] == st.graph.nodes[i]);
            assert(st.graph.nodes[i].links =~= Set::<int>::empty());
            assert(st.graph.nodes[i].back_links =~= Set::<int>::empty());
        } else {
            assert(g.nodes[k].id == k);
        }
    }
    assert(declared.nodes =~= partial(g, k + 1, 0).nodes);
}

/// What the builder remembers after the lines of the first `k` nodes.
pub open spec fn after_nodes(g: GraphView, k: int) -> Before {
    if k <= 0 {
        Before::Start
    } else {
        Before::Names(seq![g.nodes[k - 1].name])
    }
}

/// The lines of the first `k` nodes build these nodes.
proof fn lemma_build_nodes(g: GraphView, k: int)
    requires
        g.wf(),
        0 <= k <= g.nodes.len(),
    ensures
        build_run(GraphView::empty(), nodes_paired(g, k)) == (BuildOutcome {
            state: BuildState { graph: partial(g, k, 0), before: after_nodes(g, k) },
            error: None,
        }),
    decreases k,
{
    let start = BuildState { graph: GraphView::empty(), before: Before::Start };
    if k == 0 {
        assert(partial(g, 0, 0).nodes =~= Seq::<NodeView>::empty());
        assert(partial(g, 0, 0).links =~= Seq::<LinkView>::empty());
    } else {
        lemma_build_nodes(g, k - 1);
        lemma_build_concat(start, nodes_paired(g, k - 1), node_paired(g.nodes[k - 1]));
        lemma_build_node(g, k - 1, after_nodes(g, k - 1));
    }
}

/// Linking one node to one node is adding one link.
proof fn lemma_link_single(g: GraphView, from: int, to: int, props: Option<PropSeq>)
    ensures
        link_all(g, seq![from], seq![to], props) == g.add_link(from, to, props),
{
    reveal_with_fuel(link_all, 2);
    reveal_with_fuel(link_each, 2);
    assert(seq![from].drop_last() =~= Seq::<int>::empty());
    assert(seq![to].drop_last() =~= Seq::<int>::empty());
}

/// The steps at the line of link `j`, when all nodes and the links before it
/// are built: link `j` is built.
proof fn lemma_build_link(g: GraphView, j: int, before: Before)
    requires
        g.wf(),
        0 <= j < g.links.len(),
        !(before is Marker),
    ensures
        build_from(
            BuildState { graph: partial(g, g.nodes.len() as int, j), before },
            link_paired(g, g.links[j]),
        ) == (BuildOutcome {
            state: BuildState {
                graph: partial(g, g.nodes.len() as int, j + 1),
                before: Before::Names(seq![g.nodes[g.links[j].to].name]),
            },
            error: None,
        }),
{
    let n = g.nodes.len() as int;
    let l = g.links[j];
    let here = partial(g, n, j);
    let st = BuildState { graph: here, before };
    let from = g.nodes[l.from].name;
    let to = g.nodes[l.to].name;
    let ps = link_paired(g, l);
    reveal_with_fuel(build_from, 4);
    assert(ps.drop_last() =~= seq![ps[0], ps[1]]);
    assert(ps.drop_last().drop_last() =~= seq![ps[0]]);
    assert(ps.drop_last().drop_last().drop_last() =~= Seq::<Paired>::empty());
    lemma_partial_wf(g, n, j);
    lemma_partial_find(g, n, j, l.from);
    lemma_partial_find(g, n, j, l.to);
    lemma_declare_one(here, from, None);
    lemma_declare_one(here, to, None);
    // The name at which the link leaves is known: nothing changes.
    let s1 = BuildState { graph: here, before: Before::Names(seq![from]) };
    assert(build_step(st, ps[0]) == Ok::<BuildState, ErrorView>(s1));
    let s2 = BuildState {
        graph: here,
        before: Before::Marker { froms: seq![from], props: l.props },
    };
    assert(build_step(s1, ps[1]) == Ok::<BuildState, ErrorView>(s2));
    // The name at which it arrives is known too: the link is added.
    assert(ids_of(here, seq![from]) =~= seq![l.from]);
    assert(ids_of(here, seq![to]) =~= seq![l.to]);
    lemma_link_single(here, l.from, l.to, l.props);
    let linked = here.add_link(l.from, l.to, l.props);
    let next = partial(g, n, j + 1);
    assert(linked.links =~= next.links);
    assert forall|i: int| 0 <= i < n implies linked.nodes[i] == next.nodes[i] by {
        assert(linked.nodes[i].links =~= next.nodes[i].links);
        assert(linked.nodes[i].back_links =~= next.nodes[i].back_links);
    }
    assert(linked.nodes =~= next.nodes);
    let s3 = BuildState { graph: next, before: Before::Names(seq![to]) };
    assert(build_step(s2, ps[2]) == Ok::<BuildState, ErrorView>(s3));
}

/// What the builder remembers after the lines of all nodes and of the first
/// `j` links.
pub open spec fn after_links(g: GraphView, j: int) -> Before {
    if j <= 0 {
        after_nodes(g, g.nodes.len() as int)
    } else {
        Before::Names(seq![g.nodes[g.links[j - 1].to].name])
    }
}

/// After all nodes, the lines of the first `j` links build these links.
proof fn lemma_build_links(g: GraphView, j: int)
    requires
        g.wf(),
        0 <= j <= g.links.len(),
    ensures
        build_from(
            BuildState {
                graph: partial(g, g.nodes.len() as int, 0),
                before: after_nodes(g, g.nodes.len() as int),
            },
            links_paired(g, j),
        ) == (BuildOutcome {
            state: BuildState {
                graph: partial(g, g.nodes.len() as int, j),
                before: after_links(g, j),
            },
            error: None,
        }),
    decreases j,
{
    if j > 0 {
        let start = BuildState {
            graph: partial(g, g.nodes.len() as int, 0),
            before: after_nodes(g, g.nodes.len() as int),
        };
        lemma_build_links(g, j - 1);
        lemma_build_concat(start, links_paired(g, j - 1), link_paired(g, g.links[j - 1]));
        lemma_build_link(g, j - 1, after_links(g, j - 1));
    }
}

/// Every well-formed graph is what its items build: built into an empty
/// graph, they build without error into the graph itself, with the same
/// nodes under the same ids with the same names and properties, and the same
/// links under the same ids between the same nodes with the same properties.
pub proof fn lemma_items_rebuild(g: GraphView)
    requires
        g.wf(),
    ensures
        build_spec(GraphView::empty(), graph_items(g)) == (g, None::<ErrorView>),
{
    let items = graph_items(g);
    let n = g.nodes.len() as int;
    let m = g.links.len() as int;
    lemma_graph_items_pair(g);
    lemma_paired_graph(g);
    lemma_build_nodes(g, n);
    lemma_build_links(g, m);
    lemma_build_concat(
        BuildState { graph: GraphView::empty(), before: Before::Start },
        nodes_paired(g, n),
        links_paired(g, m),
    );
    lemma_partial_all(g);
}

/// Out and back. A plain graph, written in its own language, reads without
/// error; and what was read, built into an empty graph, builds without error
/// into the graph that was written: the same nodes under the same ids with
/// the same names and properties, and the same links under the same ids
/// between the same nodes.
pub proof fn lemma_round_trip(g: GraphView)
    requires
        plain_graph(g),
    ensures
        parse_spec(rot_text(g)) matches Ok(items) && build_spec(GraphView::empty(), items) == (
            g,
            None::<ErrorView>,
        ),
{
    lemma_parse_rot_text(g);
    lemma_items_rebuild(g);
}

} // verus!
