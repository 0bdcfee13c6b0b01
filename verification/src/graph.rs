//! The graph store: nodes and links in append-only arrays indexed by id, and
//! an index from node names to ids.
//!
//! In contracts a graph reads as a [`GraphView`]: the sequence of its nodes
//! and the sequence of its links, each at the place of its id.
use crate::props::{prop_merge, PropMap, PropSeq};
use crate::{ErrorView, RotError};
use std::collections::HashSet;
use vstd::hash_map::StringHashMap;
use vstd::prelude::*;

verus! {

broadcast use vstd::std_specs::hash::group_hash_axioms;

/// A node as contracts see it.
pub struct NodeView {
    pub id: int,
    pub name: Seq<char>,
    pub props: Option<PropSeq>,
    /// Ids of the links that leave this node.
    pub links: Set<int>,
    /// Ids of the links that arrive at this node.
    pub back_links: Set<int>,
}

/// A link as contracts see it.
pub struct LinkView {
    pub id: int,
    pub from: int,
    pub to: int,
    pub props: Option<PropSeq>,
}

/// A graph as contracts see it.
pub struct GraphView {
    pub nodes: Seq<NodeView>,
    pub links: Seq<LinkView>,
}

/// What an optional property map reads as.
pub open spec fn props_view(p: Option<PropMap>) -> Option<PropSeq> {
    match p {
        Some(m) => Some(m@),
        None => None,
    }
}

/// `n` after `props` has been merged into its properties: a node without
/// properties takes `props` as they are.
pub open spec fn extended(n: NodeView, props: PropSeq) -> NodeView {
    NodeView {
        props: Some(
            match n.props {
                Some(p) => prop_merge(p, props),
                None => props,
            },
        ),
        ..n
    }
}

/// `b` is `a` but for its properties.
pub open spec fn same_but_props(a: NodeView, b: NodeView) -> bool {
    a.id == b.id && a.name == b.name && a.links == b.links && a.back_links == b.back_links
}

/// `b` has the id and the ends of `a`.
pub open spec fn same_ends(a: LinkView, b: LinkView) -> bool {
    a.id == b.id && a.from == b.from && a.to == b.to
}

impl GraphView {
    /// The graph without nodes or links.
    pub open spec fn empty() -> GraphView {
        GraphView { nodes: Seq::empty(), links: Seq::empty() }
    }

    /// The names of the nodes, by id.
    pub open spec fn names(self) -> Seq<Seq<char>> {
        self.nodes.map_values(|n: NodeView| n.name)
    }

    /// The id of the node called `name`, if there is one.
    pub open spec fn find(self, name: Seq<char>) -> Option<int> {
        self.names().index_of_first(name)
    }

    pub open spec fn has(self, name: Seq<char>) -> bool {
        self.find(name) is Some
    }

    /// Ids are places, names are unique, every link joins two nodes of the
    /// graph, and each node lists exactly the links that leave it and those
    /// that arrive at it.
    pub open spec fn wf(self) -> bool {
        &&& forall|i: int| 0 <= i < self.nodes.len() ==> (#[trigger] self.nodes[i]).id == i
        &&& forall|i: int, j: int|
            0 <= i < j < self.nodes.len() ==> (#[trigger] self.nodes[i]).name
                != (#[trigger] self.nodes[j]).name
        &&& forall|l: int|
            0 <= l < self.links.len() ==> {
                &&& (#[trigger] self.links[l]).id == l
                &&& 0 <= self.links[l].from < self.nodes.len()
                &&& 0 <= self.links[l].to < self.nodes.len()
            }
        &&& forall|n: int, l: int|
            0 <= n < self.nodes.len() ==> (#[trigger] self.nodes[n].links.contains(l) <==> 0 <= l
                < self.links.len() && self.links[l].from == n)
        &&& forall|n: int, l: int|
            0 <= n < self.nodes.len() ==> (#[trigger] self.nodes[n].back_links.contains(l) <==> 0
                <= l < self.links.len() && self.links[l].to == n)
    }

    /// The graph with a new node at the end, which no link touches yet.
    pub open spec fn add_node(self, name: Seq<char>, props: Option<PropSeq>) -> GraphView {
        GraphView {
            nodes: self.nodes.push(
                NodeView {
                    id: self.nodes.len() as int,
                    name,
                    props,
                    links: Set::empty(),
                    back_links: Set::empty(),
                },
            ),
            ..self
        }
    }

    /// The graph in which a node called `name` exists: itself where it has
    /// one, else with a new node of that name without properties.
    pub open spec fn ensure_node(self, name: Seq<char>) -> GraphView {
        if self.has(name) {
            self
        } else {
            self.add_node(name, None)
        }
    }

    /// The graph with `node` in the place of node `id`.
    pub open spec fn set_node(self, id: int, node: NodeView) -> GraphView {
        GraphView { nodes: self.nodes.update(id, node), ..self }
    }

    /// The graph with `link` in the place of link `id`.
    pub open spec fn set_link(self, id: int, link: LinkView) -> GraphView {
        GraphView { links: self.links.update(id, link), ..self }
    }

    /// The graph after `props` has been merged into node `id`.
    pub open spec fn extend_node(self, id: int, props: PropSeq) -> GraphView {
        self.set_node(id, extended(self.nodes[id], props))
    }

    /// The graph with a new link from node `from` to node `to` at the end,
    /// listed as leaving `from` and as arriving at `to`.
    pub open spec fn add_link(self, from: int, to: int, props: Option<PropSeq>) -> GraphView {
        let id = self.links.len() as int;
        let out = self.nodes.update(
            from,
            NodeView { links: self.nodes[from].links.insert(id), ..self.nodes[from] },
        );
        let both = out.update(
            to,
            NodeView { back_links: out[to].back_links.insert(id), ..out[to] },
        );
        GraphView { nodes: both, links: self.links.push(LinkView { id, from, to, props }) }
    }
}

/// What `find` returns, spelled out.
pub proof fn lemma_find(g: GraphView, name: Seq<char>)
    ensures
        match g.find(name) {
            Some(i) => {
                &&& 0 <= i < g.nodes.len()
                &&& g.nodes[i].name == name
                &&& forall|j: int| 0 <= j < i ==> g.nodes[j].name != name
            },
            None => forall|j: int| 0 <= j < g.nodes.len() ==> g.nodes[j].name != name,
        },
{
    let names = g.names();
    names.index_of_first_ensures(name);
    match g.find(name) {
        Some(i) => {
            assert(names[i] == g.nodes[i].name);
            assert forall|j: int| 0 <= j < i implies g.nodes[j].name != name by {
                assert(names[j] == g.nodes[j].name);
            }
        },
        None => {
            assert forall|j: int| 0 <= j < g.nodes.len() implies g.nodes[j].name != name by {
                assert(names[j] == g.nodes[j].name);
                assert(names.contains(names[j]));
            }
        },
    }
}

/// In a well-formed graph a node is found under its own name, and under no
/// other.
pub proof fn lemma_find_node(g: GraphView, i: int)
    requires
        g.wf(),
        0 <= i < g.nodes.len(),
    ensures
        g.find(g.nodes[i].name) == Some(i),
{
    lemma_find(g, g.nodes[i].name);
}

/// A name met at `i` and nowhere before is found at `i`; a name met nowhere
/// is not found.
pub proof fn lemma_find_at(g: GraphView, name: Seq<char>, i: int)
    requires
        0 <= i <= g.nodes.len(),
        forall|j: int| 0 <= j < i ==> g.nodes[j].name != name,
        i < g.nodes.len() ==> g.nodes[i].name == name,
    ensures
        g.find(name) == (if i < g.nodes.len() {
            Some(i)
        } else {
            None::<int>
        }),
{
    lemma_find(g, name);
}

/// Adding a node under a new name keeps the graph well-formed; the node is
/// found at the end, and every other name is found where it was.
pub proof fn lemma_add_node(g: GraphView, name: Seq<char>, props: Option<PropSeq>)
    requires
        g.wf(),
        !g.has(name),
    ensures
        g.add_node(name, props).wf(),
        g.add_node(name, props).find(name) == Some(g.nodes.len() as int),
        forall|other: Seq<char>|
            other != name ==> #[trigger] g.add_node(name, props).find(other) == g.find(other),
{
    let h = g.add_node(name, props);
    lemma_find(g, name);
    assert forall|j: int| 0 <= j < g.nodes.len() implies h.nodes[j] == g.nodes[j] by {}
    lemma_find_at(h, name, g.nodes.len() as int);
    assert forall|other: Seq<char>| other != name implies #[trigger] h.find(other) == g.find(
        other,
    ) by {
        lemma_find(g, other);
        match g.find(other) {
            Some(i) => {
                lemma_find_at(h, other, i);
            },
            None => {
                lemma_find_at(h, other, h.nodes.len() as int);
            },
        }
    }
}

/// Putting a node with the same id, name and link lists in a node's place
/// keeps the graph well-formed and every name where it was.
pub proof fn lemma_set_node(g: GraphView, id: int, node: NodeView)
    requires
        g.wf(),
        0 <= id < g.nodes.len(),
        same_but_props(g.nodes[id], node),
    ensures
        g.set_node(id, node).wf(),
        g.set_node(id, node).names() == g.names(),
{
    let h = g.set_node(id, node);
    assert(h.names() =~= g.names());
    assert forall|n: int, l: int| 0 <= n < h.nodes.len() implies (#[trigger] h.nodes[n].links.contains(
        l,
    ) <==> 0 <= l < h.links.len() && h.links[l].from == n) by {
        assert(g.nodes[n].links.contains(l) <==> 0 <= l < g.links.len() && g.links[l].from == n);
    }
    assert forall|n: int, l: int| 0 <= n < h.nodes.len() implies (
    #[trigger] h.nodes[n].back_links.contains(l) <==> 0 <= l < h.links.len() && h.links[l].to
        == n) by {
        assert(g.nodes[n].back_links.contains(l) <==> 0 <= l < g.links.len() && g.links[l].to
            == n);
    }
}

/// Putting a link with the same id and ends in a link's place keeps the graph
/// well-formed.
pub proof fn lemma_set_link(g: GraphView, id: int, link: LinkView)
    requires
        g.wf(),
        0 <= id < g.links.len(),
        same_ends(g.links[id], link),
    ensures
        g.set_link(id, link).wf(),
{
    let h = g.set_link(id, link);
    assert forall|n: int, l: int| 0 <= n < h.nodes.len() implies (#[trigger] h.nodes[n].links.contains(
        l,
    ) <==> 0 <= l < h.links.len() && h.links[l].from == n) by {
        assert(g.nodes[n].links.contains(l) <==> 0 <= l < g.links.len() && g.links[l].from == n);
    }
    assert forall|n: int, l: int| 0 <= n < h.nodes.len() implies (
    #[trigger] h.nodes[n].back_links.contains(l) <==> 0 <= l < h.links.len() && h.links[l].to
        == n) by {
        assert(g.nodes[n].back_links.contains(l) <==> 0 <= l < g.links.len() && g.links[l].to
            == n);
    }
}

/// Adding a link between two nodes of the graph keeps it well-formed and every
/// name where it was.
pub proof fn lemma_add_link(g: GraphView, from: int, to: int, props: Option<PropSeq>)
    requires
        g.wf(),
        0 <= from < g.nodes.len(),
        0 <= to < g.nodes.len(),
    ensures
        g.add_link(from, to, props).wf(),
        g.add_link(from, to, props).names() == g.names(),
{
    let h = g.add_link(from, to, props);
    assert(h.names() =~= g.names());
    assert forall|n: int, l: int| 0 <= n < h.nodes.len() implies (#[trigger] h.nodes[n].links.contains(
        l,
    ) <==> 0 <= l < h.links.len() && h.links[l].from == n) by {
        assert(g.nodes[n].links.contains(l) <==> 0 <= l < g.links.len() && g.links[l].from == n);
    }
    assert forall|n: int, l: int| 0 <= n < h.nodes.len() implies (
    #[trigger] h.nodes[n].back_links.contains(l) <==> 0 <= l < h.links.len() && h.links[l].to
        == n) by {
        assert(g.nodes[n].back_links.contains(l) <==> 0 <= l < g.links.len() && g.links[l].to
            == n);
    }
}

/// A link: an arrow from one node to another, with optional properties.
#[derive(Debug)]
pub struct Link {
    pub(crate) id: usize,
    pub(crate) from_node_id: usize,
    pub(crate) to_node_id: usize,
    pub(crate) props: Option<PropMap>,
}

/// A node: a name, optional properties, and the ids of the links that leave
/// it and of those that arrive at it.
#[derive(Debug)]
pub struct Node {
    pub(crate) id: usize,
    pub(crate) name: String,
    pub(crate) props: Option<PropMap>,
    pub(crate) links: HashSet<usize>,
    pub(crate) back_links: HashSet<usize>,
}

/// The ids in `s`, as integers.
pub open spec fn id_set(s: Set<usize>) -> Set<int> {
    Set::new(|l: int| 0 <= l <= usize::MAX && s.contains(l as usize))
}

/// Adding an id to the set adds it to its integers.
pub proof fn lemma_id_set_insert(s: Set<usize>, id: usize)
    ensures
        id_set(s.insert(id)) == id_set(s).insert(id as int),
{
    assert(id_set(s.insert(id)) =~= id_set(s).insert(id as int));
}

impl View for Link {
    type V = LinkView;

    closed spec fn view(&self) -> LinkView {
        LinkView {
            id: self.id as int,
            from: self.from_node_id as int,
            to: self.to_node_id as int,
            props: props_view(self.props),
        }
    }
}

impl View for Node {
    type V = NodeView;

    closed spec fn view(&self) -> NodeView {
        NodeView {
            id: self.id as int,
            name: self.name@,
            props: props_view(self.props),
            links: id_set(self.links@),
            back_links: id_set(self.back_links@),
        }
    }
}

impl Link {
    pub fn id(&self) -> (id: usize)
        ensures
            id == self@.id,
    {
        self.id
    }

    pub fn from_node_id(&self) -> (id: usize)
        ensures
            id == self@.from,
    {
        self.from_node_id
    }

    pub fn to_node_id(&self) -> (id: usize)
        ensures
            id == self@.to,
    {
        self.to_node_id
    }

    pub fn props(&self) -> (props: &Option<PropMap>)
        ensures
            props_view(*props) == self@.props,
    {
        &self.props
    }
}

impl Node {
    pub fn id(&self) -> (id: usize)
        ensures
            id == self@.id,
    {
        self.id
    }

    pub fn name(&self) -> (name: &String)
        ensures
            name@ == self@.name,
    {
        &self.name
    }

    pub fn props(&self) -> (props: &Option<PropMap>)
        ensures
            props_view(*props) == self@.props,
    {
        &self.props
    }

    /// Whether link `id` leaves this node.
    pub fn has_link(&self, id: usize) -> (b: bool)
        ensures
            b == self@.links.contains(id as int),
    {
        self.links.contains(&id)
    }

    /// Whether link `id` arrives at this node.
    pub fn has_back_link(&self, id: usize) -> (b: bool)
        ensures
            b == self@.back_links.contains(id as int),
    {
        self.back_links.contains(&id)
    }

    /// Merges `props` into the node's properties; on a key that both hold,
    /// the value of `props` wins. A node without properties takes `props`.
    pub fn extend(&mut self, props: PropMap)
        ensures
            final(self)@ == extended(old(self)@, props@),
    {
        let mut mine: Option<PropMap> = None;
        std::mem::swap(&mut mine, &mut self.props);
        match mine {
            Some(mut old_props) => {
                old_props.extend(props);
                self.props = Some(old_props);
            },
            None => {
                self.props = Some(props);
            },
        }
    }
}

/// The graph: nodes and links by id, and the index from names to node ids.
pub struct Graph {
    pub(crate) nodes: Vec<Node>,
    pub(crate) links: Vec<Link>,
    pub(crate) nodes_by_name: StringHashMap<usize>,
}

impl View for Graph {
    type V = GraphView;

    closed spec fn view(&self) -> GraphView {
        GraphView {
            nodes: self.nodes@.map_values(|n: Node| n@),
            links: self.links@.map_values(|l: Link| l@),
        }
    }
}

impl Default for Graph {
    fn default() -> (g: Graph)
        ensures
            g.wf(),
            g@ == GraphView::empty(),
    {
        Graph::new()
    }
}

impl Graph {
    /// The view is well-formed, and the index from names to ids says what
    /// the nodes say.
    pub closed spec fn wf(&self) -> bool {
        &&& self@.wf()
        &&& forall|i: int|
            0 <= i < self.nodes@.len() ==> self.nodes_by_name@.contains_key(
                (#[trigger] self.nodes@[i]).name@,
            ) && self.nodes_by_name@[self.nodes@[i].name@] == i
        &&& forall|k: Seq<char>| #[trigger]
            self.nodes_by_name@.contains_key(k) ==> self.nodes_by_name@[k] < self.nodes@.len()
                && self.nodes@[self.nodes_by_name@[k] as int].name@ == k
    }

    /// A well-formed graph has a well-formed view.
    pub proof fn lemma_wf(&self)
        requires
            self.wf(),
        ensures
            self@.wf(),
    {
    }

    /// What a graph becomes when node `id` is changed in place.
    proof fn lemma_node_replaced(before: Graph, after: Graph, id: int, node: Node)
        requires
            0 <= id < before.nodes@.len(),
            after.nodes@ == before.nodes@.update(id, node),
            after.links@ == before.links@,
            after.nodes_by_name@ == before.nodes_by_name@,
        ensures
            after@ == before@.set_node(id, node@),
            before.wf() && same_but_props(before@.nodes[id], node@) ==> after.wf(),
    {
        assert(after@.nodes =~= before@.nodes.update(id, node@));
        if before.wf() && same_but_props(before@.nodes[id], node@) {
            lemma_set_node(before@, id, node@);
            assert forall|i: int| 0 <= i < after.nodes@.len() implies after.nodes_by_name@.contains_key(
                (#[trigger] after.nodes@[i]).name@,
            ) && after.nodes_by_name@[after.nodes@[i].name@] == i by {
                assert(before.nodes@[i].name@ == after.nodes@[i].name@);
            }
        }
    }

    /// The empty graph.
    pub fn new() -> (g: Graph)
        ensures
            g.wf(),
            g@ == GraphView::empty(),
    {
        let g = Graph { nodes: Vec::new(), links: Vec::new(), nodes_by_name: StringHashMap::new() };
        assert(g@.nodes =~= Seq::empty());
        assert(g@.links =~= Seq::empty());
        g
    }

    /// The number of nodes, which is the id that the next node gets.
    pub fn count_node(&self) -> (n: usize)
        ensures
            n == self@.nodes.len(),
    {
        self.nodes.len()
    }

    /// The number of links, which is the id that the next link gets.
    pub fn count_link(&self) -> (n: usize)
        ensures
            n == self@.links.len(),
    {
        self.links.len()
    }

    /// The id of the node called `name`.
    pub fn get_id_by_name(&mut self, name: &str) -> (r: Result<usize, RotError>)
        requires
            old(self).wf(),
        ensures
            *final(self) == *old(self),
            match old(self)@.find(name@) {
                Some(i) => r matches Ok(id) && id == i,
                None => r matches Err(e) && e@ == ErrorView::NoNodeName(name@),
            },
    {
        match self.nodes_by_name.get(name) {
            Some(id) => {
                proof {
                    lemma_find_node(self@, *id as int);
                }
                Ok(*id)
            },
            None => {
                proof {
                    lemma_find_at(self@, name@, self@.nodes.len() as int);
                }
                Err(RotError::NoNodeName(name.to_owned()))
            },
        }
    }

    /// The node with this id.
    pub fn get_node_by_id(&self, id: usize) -> (r: Result<&Node, RotError>)
        ensures
            match r {
                Ok(node) => id < self@.nodes.len() && node@ == self@.nodes[id as int],
                Err(e) => id >= self@.nodes.len() && e@ == ErrorView::NoNodeId(id),
            },
    {
        if id >= self.nodes.len() {
            Err(RotError::NoNodeId(id))
        } else {
            Ok(&self.nodes[id])
        }
    }

    /// The link with this id.
    pub fn get_link_by_id(&self, id: usize) -> (r: Result<&Link, RotError>)
        ensures
            match r {
                Ok(link) => id < self@.links.len() && link@ == self@.links[id as int],
                Err(e) => id >= self@.links.len() && e@ == ErrorView::NoLinkId(id),
            },
    {
        if id >= self.links.len() {
            Err(RotError::NoLinkId(id))
        } else {
            Ok(&self.links[id])
        }
    }

    /// The node with this id, to be changed in place. The graph ends up with
    /// what the caller leaves in the node; it stays well-formed where that
    /// differs from the node in its properties alone.
    pub fn get_node_by_id_mut(&mut self, id: usize) -> (r: Result<&mut Node, RotError>)
        ensures
            match r {
                Ok(node) => {
                    &&& id < old(self)@.nodes.len()
                    &&& node@ == old(self)@.nodes[id as int]
                    &&& final(self)@ == old(self)@.set_node(id as int, final(node)@)
                    &&& old(self).wf() && same_but_props(node@, final(node)@) ==> final(self).wf()
                },
                Err(e) => {
                    &&& id >= old(self)@.nodes.len()
                    &&& e@ == ErrorView::NoNodeId(id)
                    &&& *final(self) == *old(self)
                },
            },
    {
        if id >= self.nodes.len() {
            Err(RotError::NoNodeId(id))
        } else {
            proof {
                assert forall|after: Graph, node: Node|
                    after.nodes@ == self.nodes@.update(id as int, node) && after.links@
                        == self.links@ && after.nodes_by_name@
                        == self.nodes_by_name@ implies #[trigger] after@ == self@.set_node(
                    id as int,
                    #[trigger] node@,
                ) && (self.wf() && same_but_props(self@.nodes[id as int], node@)
                    ==> after.wf()) by {
                    Self::lemma_node_replaced(*self, after, id as int, node);
                }
            }
            Ok(&mut self.nodes[id])
        }
    }

    /// What a graph becomes when link `id` is changed in place.
    proof fn lemma_link_replaced(before: Graph, after: Graph, id: int, link: Link)
        requires
            0 <= id < before.links@.len(),
            after.links@ == before.links@.update(id, link),
            after.nodes@ == before.nodes@,
            after.nodes_by_name@ == before.nodes_by_name@,
        ensures
            after@ == before@.set_link(id, link@),
            before.wf() && same_ends(before@.links[id], link@) ==> after.wf(),
    {
        assert(after@.links =~= before@.links.update(id, link@));
        if before.wf() && same_ends(before@.links[id], link@) {
            lemma_set_link(before@, id, link@);
        }
    }

    /// The link with this id, to be changed in place. The graph ends up with
    /// what the caller leaves in the link; it stays well-formed where that
    /// has the id and the ends of the link.
    pub fn get_link_by_id_mut(&mut self, id: usize) -> (r: Result<&mut Link, RotError>)
        ensures
            match r {
                Ok(link) => {
                    &&& id < old(self)@.links.len()
                    &&& link@ == old(self)@.links[id as int]
                    &&& final(self)@ == old(self)@.set_link(id as int, final(link)@)
                    &&& old(self).wf() && same_ends(link@, final(link)@) ==> final(self).wf()
                },
                Err(e) => {
                    &&& id >= old(self)@.links.len()
                    &&& e@ == ErrorView::NoLinkId(id)
                    &&& *final(self) == *old(self)
                },
            },
    {
        if id >= self.links.len() {
            Err(RotError::NoLinkId(id))
        } else {
            proof {
                assert forall|after: Graph, link: Link|
                    after.links@ == self.links@.update(id as int, link) && after.nodes@
                        == self.nodes@ && after.nodes_by_name@
                        == self.nodes_by_name@ implies #[trigger] after@ == self@.set_link(
                    id as int,
                    #[trigger] link@,
                ) && (self.wf() && same_ends(self@.links[id as int], link@) ==> after.wf()) by {
                    Self::lemma_link_replaced(*self, after, id as int, link);
                }
            }
            Ok(&mut self.links[id])
        }
    }

    /// Merges `prop` into the properties of node `node_id`.
    pub fn extend_prop(&mut self, node_id: usize, prop: PropMap) -> (r: Result<&Node, RotError>)
        ensures
            match r {
                Ok(node) => {
                    &&& node_id < old(self)@.nodes.len()
                    &&& final(self)@ == old(self)@.extend_node(node_id as int, prop@)
                    &&& node@ == final(self)@.nodes[node_id as int]
                },
                Err(e) => {
                    &&& node_id >= old(self)@.nodes.len()
                    &&& e@ == ErrorView::NoNodeId(node_id)
                    &&& *final(self) == *old(self)
                },
            },
            old(self).wf() ==> final(self).wf(),
    {
        let node = self.get_node_by_id_mut(node_id)?;
        node.extend(prop);
        Ok(node)
    }

    /// Adds a link from node `from_node_id` to node `to_node_id`. Where one
    /// of the two is no node of the graph, nothing changes.
    pub fn link_nodes(
        &mut self,
        from_node_id: usize,
        to_node_id: usize,
        props: Option<PropMap>,
    ) -> (r: Result<&Link, RotError>)
        ensures
            match r {
                Ok(link) => {
                    &&& from_node_id < old(self)@.nodes.len()
                    &&& to_node_id < old(self)@.nodes.len()
                    &&& final(self)@ == old(self)@.add_link(
                        from_node_id as int,
                        to_node_id as int,
                        props_view(props),
                    )
                    &&& link@ == final(self)@.links[old(self)@.links.len() as int]
                },
                Err(e) => {
                    &&& *final(self) == *old(self)
                    &&& if from_node_id >= old(self)@.nodes.len() {
                        e@ == ErrorView::NoNodeId(from_node_id)
                    } else {
                        to_node_id >= old(self)@.nodes.len() && e@ == ErrorView::NoNodeId(
                            to_node_id,
                        )
                    }
                },
            },
            old(self).wf() ==> final(self).wf(),
    {
        if from_node_id >= self.nodes.len() {
            return Err(RotError::NoNodeId(from_node_id));
        }
        if to_node_id >= self.nodes.len() {
            return Err(RotError::NoNodeId(to_node_id));
        }
        let id = self.links.len();
        let l = Link { id, from_node_id, to_node_id, props };
        self.links.push(l);
        self.nodes[from_node_id].links.insert(id);
        self.nodes[to_node_id].back_links.insert(id);
        proof {
            let target = old(self)@.add_link(
                from_node_id as int,
                to_node_id as int,
                props_view(props),
            );
            lemma_id_set_insert(old(self).nodes@[from_node_id as int].links@, id);
            lemma_id_set_insert(old(self).nodes@[to_node_id as int].back_links@, id);
            assert(self@.links =~= target.links);
            assert(self@.nodes =~= target.nodes);
            if old(self).wf() {
                lemma_add_link(
                    old(self)@,
                    from_node_id as int,
                    to_node_id as int,
                    props_view(props),
                );
                assert forall|i: int| 0 <= i < self.nodes@.len() implies self.nodes_by_name@.contains_key(
                    (#[trigger] self.nodes@[i]).name@,
                ) && self.nodes_by_name@[self.nodes@[i].name@] == i by {
                    assert(old(self).nodes@[i].name@ == self.nodes@[i].name@);
                }
            }
        }
        Ok(&self.links[id])
    }

    /// The node called `name`, made first, without properties, where the
    /// graph has none of that name.
    pub fn make_or_get_node_mut(&mut self, name: &str) -> (r: Result<&mut Node, RotError>)
        requires
            old(self).wf(),
        ensures
            match r {
                Ok(node) => {
                    let made = old(self)@.ensure_node(name@);
                    &&& made.find(name@) is Some
                    &&& node@ == made.nodes[made.find(name@).unwrap()]
                    &&& final(self)@ == made.set_node(made.find(name@).unwrap(), final(node)@)
                    &&& same_but_props(node@, final(node)@) ==> final(self).wf()
                },
                Err(_) => false,
            },
    {
        match self.nodes_by_name.get(name) {
            Some(id) => {
                let id = *id;
                proof {
                    lemma_find_node(self@, id as int);
                    assert forall|after: Graph, node: Node|
                        after.nodes@ == self.nodes@.update(id as int, node) && after.links@
                            == self.links@ && after.nodes_by_name@
                            == self.nodes_by_name@ implies #[trigger] after@ == self@.set_node(
                        id as int,
                        #[trigger] node@,
                    ) && (self.wf() && same_but_props(self@.nodes[id as int], node@)
                        ==> after.wf()) by {
                        Self::lemma_node_replaced(*self, after, id as int, node);
                    }
                }
                Ok(&mut self.nodes[id])
            },
            None => {
                proof {
                    lemma_find_at(self@, name@, self@.nodes.len() as int);
                    lemma_add_node(self@, name@, None);
                }
                self.new_node(name, None)
            },
        }
    }

    /// A new node called `name`, with the next id. Where the graph has a
    /// node of that name already, nothing changes.
    pub fn new_node(&mut self, name: &str, props: Option<PropMap>) -> (r: Result<
        &mut Node,
        RotError,
    >)
        requires
            old(self).wf(),
        ensures
            match r {
                Ok(node) => {
                    let made = old(self)@.add_node(name@, props_view(props));
                    let id = old(self)@.nodes.len() as int;
                    &&& !old(self)@.has(name@)
                    &&& node@ == made.nodes[id]
                    &&& final(self)@ == made.set_node(id, final(node)@)
                    &&& same_but_props(node@, final(node)@) ==> final(self).wf()
                },
                Err(e) => {
                    &&& old(self)@.has(name@)
                    &&& e@ == ErrorView::NodeOverwrite(name@)
                    &&& *final(self) == *old(self)
                },
            },
    {
        match self.nodes_by_name.get(name) {
            Some(id) => {
                proof {
                    lemma_find_node(self@, *id as int);
                }
                return Err(RotError::NodeOverwrite(name.to_owned()));
            },
            None => {},
        }
        proof {
            lemma_find_at(self@, name@, self@.nodes.len() as int);
            lemma_add_node(self@, name@, props_view(props));
        }
        let id = self.nodes.len();
        self.nodes_by_name.insert(name.to_owned(), id);
        let n = Node {
            id,
            name: name.to_owned(),
            props,
            links: HashSet::new(),
            back_links: HashSet::new(),
        };
        self.nodes.push(n);
        proof {
            let made = old(self)@.add_node(name@, props_view(props));
            assert(id_set(Set::<usize>::empty()) =~= Set::<int>::empty());
            assert(self@.nodes =~= made.nodes);
            assert(self@ == made);
            assert(self.wf()) by {
                assert forall|i: int| 0 <= i < self.nodes@.len() implies self.nodes_by_name@.contains_key(
                    (#[trigger] self.nodes@[i]).name@,
                ) && self.nodes_by_name@[self.nodes@[i].name@] == i by {
                    if i < id {
                        assert(old(self).nodes@[i].name@ == self.nodes@[i].name@);
                        assert(old(self)@.nodes[i].name == old(self).nodes@[i].name@);
                    }
                }
                assert forall|k: Seq<char>| #[trigger]
                    self.nodes_by_name@.contains_key(k) implies self.nodes_by_name@[k]
                    < self.nodes@.len() && self.nodes@[self.nodes_by_name@[k] as int].name@ == k by {
                    if k != name@ {
                        assert(old(self).nodes_by_name@.contains_key(k));
                    }
                }
            }
            assert forall|after: Graph, node: Node|
                after.nodes@ == self.nodes@.update(id as int, node) && after.links@ == self.links@
                    && after.nodes_by_name@
                    == self.nodes_by_name@ implies #[trigger] after@ == self@.set_node(
                id as int,
                #[trigger] node@,
            ) && (self.wf() && same_but_props(self@.nodes[id as int], node@) ==> after.wf()) by {
                Self::lemma_node_replaced(*self, after, id as int, node);
            }
        }
        Ok(&mut self.nodes[id])
    }
}

} // verus!
