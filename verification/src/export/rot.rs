//! The graph in its own language: one line for each node, then one line for
//! each link, property maps in the form in which a map is printed for
//! debugging.
use crate::graph::{Graph, GraphView, Link, LinkView, Node, NodeView};
use crate::props::{PropMap, PropSeq};
use vstd::prelude::*;
use vstd::string::StringExecFns;

verus! {

/// What `s` looks like when printed for debugging: between double quotes,
/// with the characters that need it escaped.
pub uninterp spec fn debug_quoted(s: Seq<char>) -> Seq<char>;

/// A string as it is printed for debugging, by the `{:?}` form of `format!`.
/// Nothing is claimed of the result's shape, only that it depends on the
/// string alone.
#[verifier::external_body]
fn debug_quote(s: &str) -> (quoted: String)
    ensures
        quoted@ == debug_quoted(s@),
{
    format!("{:?}", s)
}

/// Every key and value of `pairs`, as printed for debugging.
pub open spec fn quoted_pairs(pairs: PropSeq) -> PropSeq {
    pairs.map_values(|p: (Seq<char>, Seq<char>)| (debug_quoted(p.0), debug_quoted(p.1)))
}

/// The first `n` entries of a printed map: `key: value`, with `, ` between
/// two entries.
pub open spec fn entries_text(quoted: PropSeq, n: int) -> Seq<char>
    decreases n,
{
    if n <= 0 {
        Seq::empty()
    } else {
        entries_text(quoted, n - 1) + (if n > 1 {
            seq![',', ' ']
        } else {
            Seq::empty()
        }) + quoted[n - 1].0 + seq![':', ' '] + quoted[n - 1].1
    }
}

/// A printed map, from its entries as they are to stand in it.
pub open spec fn map_text(quoted: PropSeq) -> Seq<char> {
    seq!['{'] + entries_text(quoted, quoted.len() as int) + seq!['}']
}

/// The properties of a node or a link: nothing where it has none, else the
/// map as printed for debugging.
pub open spec fn props_text(props: Option<PropSeq>) -> Seq<char> {
    match props {
        Some(pairs) => map_text(quoted_pairs(pairs)),
        None => Seq::empty(),
    }
}

/// The line of a node: its name and its properties.
pub open spec fn node_line(n: NodeView) -> Seq<char> {
    n.name + props_text(n.props) + seq!['\n']
}

/// The line of a link: the names of its two ends with `->` between them, and
/// its properties.
pub open spec fn link_line(g: GraphView, l: LinkView) -> Seq<char> {
    g.nodes[l.from].name + seq!['-', '>'] + g.nodes[l.to].name + props_text(l.props) + seq!['\n']
}

/// The lines of the first `n` nodes.
pub open spec fn nodes_text(g: GraphView, n: int) -> Seq<char>
    decreases n,
{
    if n <= 0 {
        Seq::empty()
    } else {
        nodes_text(g, n - 1) + node_line(g.nodes[n - 1])
    }
}

/// The lines of the first `n` links.
pub open spec fn links_text(g: GraphView, n: int) -> Seq<char>
    decreases n,
{
    if n <= 0 {
        Seq::empty()
    } else {
        links_text(g, n - 1) + link_line(g, g.links[n - 1])
    }
}

/// The graph in its own language: the nodes by id, then the links by id.
pub open spec fn rot_text(g: GraphView) -> Seq<char> {
    nodes_text(g, g.nodes.len() as int) + links_text(g, g.links.len() as int)
}

/// Every key and value of `p` as printed for debugging, in order.
pub fn quote_pairs(p: &PropMap) -> (quoted: Vec<(String, String)>)
    ensures
        pairs_view(quoted@) == quoted_pairs(p@),
{
    let mut quoted: Vec<(String, String)> = Vec::new();
    let n = p.len();
    let mut i: usize = 0;
    while i < n
        invariant
            n == p@.len(),
            i <= n,
            quoted@.len() == i,
            forall|k: int|
                0 <= k < i ==> (#[trigger] quoted@[k]).0@ == debug_quoted(p@[k].0) && quoted@[k].1@
                    == debug_quoted(p@[k].1),
        decreases n - i,
    {
        match p.entry(i) {
            Some((key, value)) => {
                quoted.push((debug_quote(key.as_str()), debug_quote(value.as_str())));
            },
            None => {},
        }
        i += 1;
    }
    assert(pairs_view(quoted@) =~= quoted_pairs(p@));
    quoted
}

/// What a list of pairs of strings reads as.
pub open spec fn pairs_view(pairs: Seq<(String, String)>) -> PropSeq {
    pairs.map_values(|e: (String, String)| (e.0@, e.1@))
}

/// Writes a map in the form `{key: value, key: value}`, from its entries as
/// they are to stand in it.
pub fn write_map(out: &mut String, quoted: &Vec<(String, String)>)
    ensures
        final(out)@ == old(out)@ + map_text(pairs_view(quoted@)),
{
    let ghost q = pairs_view(quoted@);
    proof {
        reveal_strlit("{");
        reveal_strlit("}");
        reveal_strlit(", ");
        reveal_strlit(": ");
    }
    out.append("{");
    assert("{"@ =~= seq!['{']);
    let mut i: usize = 0;
    while i < quoted.len()
        invariant
            i <= quoted.len(),
            q == pairs_view(quoted@),
            out@ == old(out)@ + seq!['{'] + entries_text(q, i as int),
            ", "@ == seq![',', ' '],
            ": "@ == seq![':', ' '],
        decreases quoted.len() - i,
    {
        let ghost before = out@;
        if i > 0 {
            out.append(", ");
        }
        out.append(quoted[i].0.as_str());
        out.append(": ");
        out.append(quoted[i].1.as_str());
        proof {
            let sep = if i > 0 {
                seq![',', ' ']
            } else {
                Seq::<char>::empty()
            };
            assert(q[i as int] == (quoted@[i as int].0@, quoted@[i as int].1@));
            assert(out@ =~= before + (sep + q[i as int].0 + seq![':', ' '] + q[i as int].1));
            assert(entries_text(q, i as int + 1) =~= entries_text(q, i as int) + (sep + q[i as int].0
                + seq![':', ' '] + q[i as int].1));
            assert(out@ =~= old(out)@ + seq!['{'] + entries_text(q, i as int + 1));
        }
        i += 1;
    }
    out.append("}");
    proof {
        assert("}"@ =~= seq!['}']);
        assert(out@ =~= old(out)@ + map_text(q));
    }
}

/// Writes the properties of a node or a link.
pub fn display_props(out: &mut String, p: &Option<PropMap>)
    ensures
        final(out)@ == old(out)@ + props_text(crate::graph::props_view(*p)),
{
    match p {
        Some(p) => {
            let quoted = quote_pairs(p);
            write_map(out, &quoted);
        },
        None => {
            assert(out@ + Seq::<char>::empty() =~= out@);
        },
    }
}

/// Writes the line of a node.
pub fn display_node(out: &mut String, n: &Node)
    ensures
        final(out)@ == old(out)@ + node_line(n@),
{
    out.append(n.name().as_str());
    display_props(out, n.props());
    out.append("\n");
    proof {
        reveal_strlit("\n");
        assert("\n"@ =~= seq!['\n']);
        assert(out@ =~= old(out)@ + node_line(n@));
    }
}

/// Writes the line of a link of the graph.
pub fn display_link(out: &mut String, g: &Graph, l: &Link)
    requires
        0 <= l@.from < g@.nodes.len(),
        0 <= l@.to < g@.nodes.len(),
    ensures
        final(out)@ == old(out)@ + link_line(g@, l@),
{
    let from = match g.get_node_by_id(l.from_node_id()) {
        Ok(node) => node,
        Err(_) => vstd::pervasive::unreached(),
    };
    let to = match g.get_node_by_id(l.to_node_id()) {
        Ok(node) => node,
        Err(_) => vstd::pervasive::unreached(),
    };
    out.append(from.name().as_str());
    out.append("->");
    out.append(to.name().as_str());
    display_props(out, l.props());
    out.append("\n");
    proof {
        reveal_strlit("\n");
        reveal_strlit("->");
        assert("\n"@ =~= seq!['\n']);
        assert("->"@ =~= seq!['-', '>']);
        assert(out@ =~= old(out)@ + link_line(g@, l@));
    }
}

/// The graph in its own language.
pub fn export(g: &Graph) -> (text: String)
    requires
        g.wf(),
    ensures
        text@ == rot_text(g@),
{
    let mut out = String::new();
    let nodes = g.count_node();
    let links = g.count_link();
    proof {
        g.lemma_wf();
    }
    let mut i: usize = 0;
    while i < nodes
        invariant
            nodes == g@.nodes.len(),
            i <= nodes,
            out@ == nodes_text(g@, i as int),
        decreases nodes - i,
    {
        match g.get_node_by_id(i) {
            Ok(node) => {
                display_node(&mut out, node);
            },
            Err(_) => {},
        }
        i += 1;
    }
    let mut j: usize = 0;
    assert(out@ + Seq::<char>::empty() =~= out@);
    while j < links
        invariant
            links == g@.links.len(),
            j <= links,
            g@.wf(),
            out@ == nodes_text(g@, g@.nodes.len() as int) + links_text(g@, j as int),
        decreases links - j,
    {
        let ghost before = out@;
        match g.get_link_by_id(j) {
            Ok(link) => {
                display_link(&mut out, g, link);
            },
            Err(_) => {},
        }
        assert(out@ =~= nodes_text(g@, g@.nodes.len() as int) + links_text(g@, j as int + 1));
        j += 1;
    }
    out
}

} // verus!
