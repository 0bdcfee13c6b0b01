//! The graph in Graphviz's DOT: a `digraph` with one line for each node, then
//! one line for each link, property maps as bracketed `key=value,` lists.
use crate::graph::{props_view, Graph, GraphView, Link, LinkView, Node, NodeView};
use crate::props::{PropMap, PropSeq};
use vstd::prelude::*;
use vstd::string::StringExecFns;

verus! {

/// The first `n` pairs, each as `key=value,`.
pub open spec fn pairs_text(pairs: PropSeq, n: int) -> Seq<char>
    decreases n,
{
    if n <= 0 {
        Seq::empty()
    } else {
        pairs_text(pairs, n - 1) + pairs[n - 1].0 + seq!['='] + pairs[n - 1].1 + seq![',']
    }
}

/// The properties of a node or a link: nothing where it has none, else a
/// blank and the pairs between square brackets.
pub open spec fn props_text(props: Option<PropSeq>) -> Seq<char> {
    match props {
        Some(pairs) => seq![' ', '['] + pairs_text(pairs, pairs.len() as int) + seq![']'],
        None => Seq::empty(),
    }
}

/// The line of a node: a tab, its name and its properties.
pub open spec fn node_line(n: NodeView) -> Seq<char> {
    seq!['\t'] + n.name + props_text(n.props) + seq!['\n']
}

/// The line of a link: a tab, the names of its two ends with `->` between
/// them, and its properties.
pub open spec fn link_line(g: GraphView, l: LinkView) -> Seq<char> {
    seq!['\t'] + g.nodes[l.from].name + seq!['-', '>'] + g.nodes[l.to].name + props_text(l.props)
        + seq!['\n']
}

/// The lines of the first `n` nodes.
pub open spec fn nodes_text(g: GraphView, n: int) -> Seq<char>
    decreases n,
{
    if n <= 0 {
        Seq::empty()
    } else {
        nodes_text(g, n - 1) + node_line(g.nodes[n - 1])
    }
}

/// The lines of the first `n` links.
pub open spec fn links_text(g: GraphView, n: int) -> Seq<char>
    decreases n,
{
    if n <= 0 {
        Seq::empty()
    } else {
        links_text(g, n - 1) + link_line(g, g.links[n - 1])
    }
}

/// The graph in DOT: the opening of the `digraph`, the nodes by id, the links
/// by id, and the closing brace.
pub open spec fn dot_text(g: GraphView) -> Seq<char> {
    "digraph RotGraph {"@ + nodes_text(g, g.nodes.len() as int) + links_text(
        g,
        g.links.len() as int,
    ) + seq!['}']
}

/// Writes the properties of a node or a link.
pub fn display_props(out: &mut String, p: &Option<PropMap>)
    ensures
        final(out)@ == old(out)@ + props_text(props_view(*p)),
{
    proof {
        reveal_strlit(" [");
        reveal_strlit("]");
        reveal_strlit("=");
        reveal_strlit(",");
    }
    match p {
        Some(p) => {
            out.append(" [");
            assert(" ["@ =~= seq![' ', '[']);
            let n = p.len();
            let mut i: usize = 0;
            while i < n
                invariant
                    n == p@.len(),
                    i <= n,
                    out@ == old(out)@ + seq![' ', '['] + pairs_text(p@, i as int),
                    "="@ == seq!['='],
                    ","@ == seq![','],
                decreases n - i,
            {
                let ghost before = out@;
                match p.entry(i) {
                    Some((key, value)) => {
                        out.append(key.as_str());
                        out.append("=");
                        out.append(value.as_str());
                        out.append(",");
                    },
                    None => {},
                }
                proof {
                    let pair = p@[i as int].0 + seq!['='] + p@[i as int].1 + seq![','];
                    assert(out@ =~= before + pair);
                    assert(pairs_text(p@, i as int + 1) =~= pairs_text(p@, i as int) + pair);
                    assert(out@ =~= old(out)@ + seq![' ', '['] + pairs_text(p@, i as int + 1));
                }
                i += 1;
            }
            out.append("]");
            proof {
                assert("]"@ =~= seq![']']);
                assert(out@ =~= old(out)@ + props_text(props_view(Some(*p))));
            }
        },
        None => {
            assert(out@ + Seq::<char>::empty() =~= out@);
        },
    }
}

/// Writes the line of a node.
pub fn display_node(out: &mut String, n: &Node)
    ensures
        final(out)@ == old(out)@ + node_line(n@),
{
    out.append("\t");
    out.append(n.name().as_str());
    display_props(out, n.props());
    out.append("\n");
    proof {
        reveal_strlit("\n");
        reveal_strlit("\t");
        assert("\n"@ =~= seq!['\n']);
        assert("\t"@ =~= seq!['\t']);
        assert(out@ =~= old(out)@ + node_line(n@));
    }
}

/// Writes the line of a link of the graph.
pub fn display_link(out: &mut String, g: &Graph, l: &Link)
    requires
        0 <= l@.from < g@.nodes.len(),
        0 <= l@.to < g@.nodes.len(),
    ensures
        final(out)@ == old(out)@ + link_line(g@, l@),
{
    let from = match g.get_node_by_id(l.from_node_id()) {
        Ok(node) => node,
        Err(_) => vstd::pervasive::unreached(),
    };
    let to = match g.get_node_by_id(l.to_node_id()) {
        Ok(node) => node,
        Err(_) => vstd::pervasive::unreached(),
    };
    out.append("\t");
    out.append(from.name().as_str());
    out.append("->");
    out.append(to.name().as_str());
    display_props(out, l.props());
    out.append("\n");
    proof {
        reveal_strlit("\n");
        reveal_strlit("\t");
        reveal_strlit("->");
        assert("\n"@ =~= seq!['\n']);
        assert("\t"@ =~= seq!['\t']);
        assert("->"@ =~= seq!['-', '>']);
        assert(out@ =~= old(out)@ + link_line(g@, l@));
    }
}

/// The graph in DOT.
pub fn export(g: &Graph) -> (text: String)
    requires
        g.wf(),
    ensures
        text@ == dot_text(g@),
{
    let mut out = String::new();
    out.append("digraph RotGraph {");
    let nodes = g.count_node();
    let links = g.count_link();
    proof {
        g.lemma_wf();
        assert(out@ =~= "digraph RotGraph {"@ + nodes_text(g@, 0));
    }
    let mut i: usize = 0;
    while i < nodes
        invariant
            nodes == g@.nodes.len(),
            i <= nodes,
            out@ == "digraph RotGraph {"@ + nodes_text(g@, i as int),
        decreases nodes - i,
    {
        match g.get_node_by_id(i) {
            Ok(node) => {
                display_node(&mut out, node);
            },
            Err(_) => {},
        }
        assert(out@ =~= "digraph RotGraph {"@ + nodes_text(g@, i as int + 1));
        i += 1;
    }
    let mut j: usize = 0;
    assert(out@ + Seq::<char>::empty() =~= out@);
    while j < links
        invariant
            links == g@.links.len(),
            j <= links,
            g@.wf(),
            out@ == "digraph RotGraph {"@ + nodes_text(g@, g@.nodes.len() as int) + links_text(
                g@,
                j as int,
            ),
        decreases links - j,
    {
        match g.get_link_by_id(j) {
            Ok(link) => {
                display_link(&mut out, g, link);
            },
            Err(_) => {},
        }
        assert(out@ =~= "digraph RotGraph {"@ + nodes_text(g@, g@.nodes.len() as int) + links_text(
            g@,
            j as int + 1,
        ));
        j += 1;
    }
    out.append("}");
    proof {
        reveal_strlit("}");
        assert("}"@ =~= seq!['}']);
    }
    out
}

} // verus!
