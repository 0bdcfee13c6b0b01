//! The builder: a sequence of items to changes of a graph.
//!
//! First each property block is attached to the item that it follows
//! ([`pairing`]). Then a machine of two states walks the paired items
//! ([`build_step`]): between links, names are declared; after a link marker,
//! the next names are declared and linked from the names before the marker.
//! What [`build`] does to a graph is what [`build_spec`] says.
use crate::graph::{
    extended, lemma_add_link, lemma_add_node, lemma_find, lemma_set_node, props_view, Graph,
    GraphView,
};
use crate::parse2::{items_view, names_view, Item, ItemView};
use crate::props::{PropMap, PropSeq};
use crate::{ErrorView, RotError};
use vstd::prelude::*;

verus! {

/// An item that is no property block, with the property block that directly
/// follows it, if one does.
pub struct Paired {
    pub item: ItemView,
    pub props: Option<PropSeq>,
}

/// Two property blocks stand side by side somewhere in `items`.
pub open spec fn double_prop(items: Seq<ItemView>) -> bool {
    exists|i: int| 0 < i < items.len() && items[i - 1] is Props && (#[trigger] items[i]) is Props
}

/// Item `i` with the property block behind it.
pub open spec fn pair_at(items: Seq<ItemView>, i: int) -> Paired {
    Paired {
        item: items[i],
        props: if i + 1 < items.len() && items[i + 1] is Props {
            Some(items[i + 1]->Props_0)
        } else {
            None
        },
    }
}

/// The first `n` items, paired: every item that is no property block, in
/// order. A property block with no item before it belongs to nothing and is
/// passed over.
pub open spec fn paired(items: Seq<ItemView>, n: int) -> Seq<Paired>
    decreases n,
{
    if n <= 0 {
        Seq::empty()
    } else if items[n - 1] is Props {
        paired(items, n - 1)
    } else {
        paired(items, n - 1).push(pair_at(items, n - 1))
    }
}

/// All items, paired; two property blocks side by side are an error.
pub open spec fn pairing(items: Seq<ItemView>) -> Result<Seq<Paired>, ErrorView> {
    if double_prop(items) {
        Err(ErrorView::DoubleProp)
    } else {
        Ok(paired(items, items.len() as int))
    }
}

/// The names that an item stands for: its own for a bare name, all of them
/// for a list.
pub open spec fn item_names(item: ItemView) -> Seq<Seq<char>> {
    match item {
        ItemView::Node(name) => seq![name],
        ItemView::NodeVec(names) => names,
        _ => Seq::empty(),
    }
}

/// The graph after `name` has been declared: the node exists, made without
/// properties where it did not, and `props`, if any, are merged into it.
pub open spec fn declare(g: GraphView, name: Seq<char>, props: Option<PropSeq>) -> GraphView {
    let made = g.ensure_node(name);
    match props {
        Some(p) => made.extend_node(made.find(name).unwrap(), p),
        None => made,
    }
}

/// The graph after each of `names` has been declared, in order, each with the
/// same `props`.
pub open spec fn declare_all(
    g: GraphView,
    names: Seq<Seq<char>>,
    props: Option<PropSeq>,
) -> GraphView
    decreases names.len(),
{
    if names.len() == 0 {
        g
    } else {
        declare(declare_all(g, names.drop_last(), props), names.last(), props)
    }
}

/// The ids under which `g` knows `names`.
pub open spec fn ids_of(g: GraphView, names: Seq<Seq<char>>) -> Seq<int> {
    names.map_values(|name: Seq<char>| g.find(name).unwrap())
}

/// The graph after a link from `from` to each of `tos`, in order, each with
/// the same `props`.
pub open spec fn link_each(g: GraphView, from: int, tos: Seq<int>, props: Option<PropSeq>) -> GraphView
    decreases tos.len(),
{
    if tos.len() == 0 {
        g
    } else {
        link_each(g, from, tos.drop_last(), props).add_link(from, tos.last(), props)
    }
}

/// The graph after a link from each of `froms` to each of `tos`: all links
/// of the first of `froms` come first, then those of the second, and so on.
pub open spec fn link_all(
    g: GraphView,
    froms: Seq<int>,
    tos: Seq<int>,
    props: Option<PropSeq>,
) -> GraphView
    decreases froms.len(),
{
    if froms.len() == 0 {
        g
    } else {
        link_each(link_all(g, froms.drop_last(), tos, props), froms.last(), tos, props)
    }
}

/// What the builder remembers of the item before.
pub enum Before {
    /// There was none.
    Start,
    /// A name or a list: these names.
    Names(Seq<Seq<char>>),
    /// A link marker: the names before it, which are the left side of the
    /// link, and the properties of the link.
    Marker { froms: Seq<Seq<char>>, props: Option<PropSeq> },
}

/// All that the builder carries from one paired item to the next.
pub struct BuildState {
    pub graph: GraphView,
    pub before: Before,
}

/// One paired item.
///
/// A link marker takes the names before it as its left side, with the
/// properties that follow the marker; it is an error where no names stand
/// before it, be it at the start or after another marker.
/// A name or a list is declared, with the properties that follow it. After a
/// link marker, every name of the left side is then linked to every name of
/// the item, each link with the properties of the marker.
pub open spec fn build_step(st: BuildState, p: Paired) -> Result<BuildState, ErrorView> {
    if p.item is Link {
        match st.before {
            Before::Names(froms) => Ok(
                BuildState { before: Before::Marker { froms, props: p.props }, ..st },
            ),
            _ => Err(ErrorView::DoubleLink),
        }
    } else {
        let names = item_names(p.item);
        let declared = declare_all(st.graph, names, p.props);
        Ok(
            BuildState {
                graph: match st.before {
                    Before::Marker { froms, props } => link_all(
                        declared,
                        ids_of(declared, froms),
                        ids_of(declared, names),
                        props,
                    ),
                    _ => declared,
                },
                before: Before::Names(names),
            },
        )
    }
}

/// Where the builder stopped, and the error that stopped it, if one did.
pub struct BuildOutcome {
    pub state: BuildState,
    pub error: Option<ErrorView>,
}

/// The builder after the paired items `ps`, begun at `st`. It stops before
/// the first item that is an error.
pub open spec fn build_from(st: BuildState, ps: Seq<Paired>) -> BuildOutcome
    decreases ps.len(),
{
    if ps.len() == 0 {
        BuildOutcome { state: st, error: None }
    } else {
        let before = build_from(st, ps.drop_last());
        if before.error is Some {
            before
        } else {
            match build_step(before.state, ps.last()) {
                Ok(next) => BuildOutcome { state: next, error: None },
                Err(e) => BuildOutcome { state: before.state, error: Some(e) },
            }
        }
    }
}

/// The builder after the paired items `ps`, started on `g`.
pub open spec fn build_run(g: GraphView, ps: Seq<Paired>) -> BuildOutcome {
    build_from(BuildState { graph: g, before: Before::Start }, ps)
}

/// What building `items` into `g` gives: the graph, and the error, if any.
/// Two property blocks side by side fail before anything is built. A link
/// marker without a left side fails when the builder comes to it: what the
/// items before it built stays.
pub open spec fn build_spec(g: GraphView, items: Seq<ItemView>) -> (GraphView, Option<ErrorView>) {
    match pairing(items) {
        Err(e) => (g, Some(e)),
        Ok(ps) => (build_run(g, ps).state.graph, build_run(g, ps).error),
    }
}

/// Declaring a name keeps a well-formed graph well-formed. The name is found
/// afterwards, every name that was found is found where it was, and the links
/// are what they were.
pub proof fn lemma_declare(g: GraphView, name: Seq<char>, props: Option<PropSeq>)
    requires
        g.wf(),
    ensures
        declare(g, name, props).wf(),
        declare(g, name, props).has(name),
        declare(g, name, props).links == g.links,
        g.nodes.len() <= declare(g, name, props).nodes.len(),
        forall|other: Seq<char>|
            g.has(other) ==> #[trigger] declare(g, name, props).find(other) == g.find(other),
{
    let made = g.ensure_node(name);
    if !g.has(name) {
        lemma_add_node(g, name, None);
    }
    lemma_find(made, name);
    match props {
        Some(p) => {
            let id = made.find(name).unwrap();
            lemma_set_node(made, id, extended(made.nodes[id], p));
        },
        None => {},
    }
    let done = declare(g, name, props);
    assert(done.names() == made.names());
    assert forall|other: Seq<char>| g.has(other) implies #[trigger] done.find(other) == g.find(
        other,
    ) by {
        assert(done.find(other) == made.find(other));
    }
}

/// Declaring names keeps a well-formed graph well-formed. Each of the names
/// is found afterwards, every name that was found is found where it was, and
/// the links are what they were.
pub proof fn lemma_declare_all(g: GraphView, names: Seq<Seq<char>>, props: Option<PropSeq>)
    requires
        g.wf(),
    ensures
        declare_all(g, names, props).wf(),
        declare_all(g, names, props).links == g.links,
        g.nodes.len() <= declare_all(g, names, props).nodes.len(),
        forall|k: int|
            0 <= k < names.len() ==> declare_all(g, names, props).has(#[trigger] names[k]),
        forall|other: Seq<char>|
            g.has(other) ==> #[trigger] declare_all(g, names, props).find(other) == g.find(other),
    decreases names.len(),
{
    if names.len() > 0 {
        let front = declare_all(g, names.drop_last(), props);
        lemma_declare_all(g, names.drop_last(), props);
        lemma_declare(front, names.last(), props);
        let all = declare_all(g, names, props);
        assert forall|k: int| 0 <= k < names.len() implies all.has(#[trigger] names[k]) by {
            if k < names.len() - 1 {
                assert(names.drop_last()[k] == names[k]);
                assert(front.has(names[k]));
                assert(all.find(names[k]) == front.find(names[k]));
            }
        }
        assert forall|other: Seq<char>| g.has(other) implies #[trigger] all.find(other) == g.find(
            other,
        ) by {
            assert(front.find(other) == g.find(other));
            assert(all.find(other) == front.find(other));
        }
    }
}

/// Links between nodes of a well-formed graph keep it well-formed, with the
/// same nodes under the same names.
pub proof fn lemma_link_each(g: GraphView, from: int, tos: Seq<int>, props: Option<PropSeq>)
    requires
        g.wf(),
        0 <= from < g.nodes.len(),
        forall|k: int| 0 <= k < tos.len() ==> 0 <= #[trigger] tos[k] < g.nodes.len(),
    ensures
        link_each(g, from, tos, props).wf(),
        link_each(g, from, tos, props).names() == g.names(),
        link_each(g, from, tos, props).nodes.len() == g.nodes.len(),
        link_each(g, from, tos, props).links.len() == g.links.len() + tos.len(),
    decreases tos.len(),
{
    if tos.len() > 0 {
        lemma_link_each(g, from, tos.drop_last(), props);
        lemma_add_link(link_each(g, from, tos.drop_last(), props), from, tos.last(), props);
    }
}

/// Links between nodes of a well-formed graph keep it well-formed, with the
/// same nodes under the same names.
pub proof fn lemma_link_all(g: GraphView, froms: Seq<int>, tos: Seq<int>, props: Option<PropSeq>)
    requires
        g.wf(),
        forall|k: int| 0 <= k < froms.len() ==> 0 <= #[trigger] froms[k] < g.nodes.len(),
        forall|k: int| 0 <= k < tos.len() ==> 0 <= #[trigger] tos[k] < g.nodes.len(),
    ensures
        link_all(g, froms, tos, props).wf(),
        link_all(g, froms, tos, props).names() == g.names(),
        link_all(g, froms, tos, props).nodes.len() == g.nodes.len(),
        link_all(g, froms, tos, props).links.len() == g.links.len() + froms.len() * tos.len(),
    decreases froms.len(),
{
    if froms.len() > 0 {
        lemma_link_all(g, froms.drop_last(), tos, props);
        lemma_link_each(link_all(g, froms.drop_last(), tos, props), froms.last(), tos, props);
        assert(froms.len() * tos.len() == (froms.len() - 1) * tos.len() + tos.len())
            by (nonlinear_arith);
    }
}

/// Declares `name` in the graph, with `prop` if there is one, and returns the
/// node's id.
pub fn declare_node(graph: &mut Graph, name: &str, prop: &Option<PropMap>) -> (r: Result<
    usize,
    RotError,
>)
    requires
        old(graph).wf(),
    ensures
        final(graph).wf(),
        final(graph)@ == declare(old(graph)@, name@, props_view(*prop)),
        r matches Ok(id) && final(graph)@.find(name@) == Some(id as int),
{
    proof {
        old(graph).lemma_wf();
        lemma_declare(old(graph)@, name@, props_view(*prop));
        if !old(graph)@.has(name@) {
            lemma_add_node(old(graph)@, name@, None);
        }
        lemma_find(old(graph)@.ensure_node(name@), name@);
    }
    let id;
    {
        let node = graph.make_or_get_node_mut(name)?;
        match prop {
            Some(p) => {
                node.extend(p.clone());
            },
            None => {},
        }
        id = node.id();
    }
    proof {
        let made = old(graph)@.ensure_node(name@);
        assert(made.set_node(id as int, made.nodes[id as int]).nodes =~= made.nodes);
        let found = made.find(name@).unwrap();
        assert(made.nodes[found].id == found);
        assert(graph@.names() == made.names());
    }
    Ok(id)
}

/// What a list of ids reads as.
pub open spec fn ids_view(ids: Seq<usize>) -> Seq<int> {
    ids.map_values(|id: usize| id as int)
}

/// A copy of an optional property map.
pub fn clone_props(props: &Option<PropMap>) -> (copy: Option<PropMap>)
    ensures
        props_view(copy) == props_view(*props),
{
    match props {
        Some(p) => Some(p.clone()),
        None => None,
    }
}

/// A copy of a list of names.
pub fn clone_names(names: &Vec<String>) -> (copy: Vec<String>)
    ensures
        names_view(copy@) == names_view(names@),
{
    let mut copy: Vec<String> = Vec::new();
    let mut i: usize = 0;
    while i < names.len()
        invariant
            i <= names.len(),
            copy@.len() == i,
            forall|k: int| 0 <= k < i ==> (#[trigger] copy@[k])@ == names@[k]@,
        decreases names.len() - i,
    {
        copy.push(names[i].clone());
        i += 1;
    }
    assert(names_view(copy@) =~= names_view(names@));
    copy
}

/// Declares each of `names` in the graph, in order, each with `prop` if
/// there is one, and returns the nodes' ids.
pub fn declare_nodes(graph: &mut Graph, names: &Vec<String>, prop: &Option<PropMap>) -> (r: Result<
    Vec<usize>,
    RotError,
>)
    requires
        old(graph).wf(),
    ensures
        final(graph).wf(),
        final(graph)@ == declare_all(old(graph)@, names_view(names@), props_view(*prop)),
        r matches Ok(ids) && ids_view(ids@) == ids_of(final(graph)@, names_view(names@)),
{
    let ghost all = names_view(names@);
    let ghost p = props_view(*prop);
    let mut ids: Vec<usize> = Vec::new();
    let mut i: usize = 0;
    assert(all.take(0) =~= Seq::empty());
    while i < names.len()
        invariant
            i <= names.len(),
            all == names_view(names@),
            p == props_view(*prop),
            old(graph).wf(),
            graph.wf(),
            graph@ == declare_all(old(graph)@, all.take(i as int), p),
            ids@.len() == i,
            forall|k: int| 0 <= k < i ==> graph@.find(#[trigger] all[k]) == Some(ids@[k] as int),
        decreases names.len() - i,
    {
        proof {
            graph.lemma_wf();
            lemma_declare(graph@, all[i as int], p);
            assert(all.take(i as int + 1).drop_last() =~= all.take(i as int));
        }
        let ghost before = graph@;
        let id = declare_node(graph, names[i].as_str(), prop)?;
        ids.push(id);
        proof {
            assert forall|k: int| 0 <= k < i + 1 implies graph@.find(#[trigger] all[k]) == Some(
                ids@[k] as int,
            ) by {
                if k < i {
                    assert(before.has(all[k]));
                }
            }
        }
        i += 1;
    }
    proof {
        assert(all.take(i as int) =~= all);
        assert(ids_view(ids@) =~= ids_of(graph@, all));
    }
    Ok(ids)
}

/// The ids of the nodes called `names`, or the first of the names that no
/// node bears.
pub fn node_ids(graph: &mut Graph, names: &Vec<String>) -> (r: Result<Vec<usize>, RotError>)
    requires
        old(graph).wf(),
    ensures
        *final(graph) == *old(graph),
        match r {
            Ok(ids) => {
                &&& forall|k: int|
                    0 <= k < names@.len() ==> old(graph)@.has(#[trigger] names_view(names@)[k])
                &&& ids_view(ids@) == ids_of(old(graph)@, names_view(names@))
            },
            Err(e) => exists|k: int|
                {
                    &&& 0 <= k < names@.len()
                    &&& !old(graph)@.has(#[trigger] names_view(names@)[k])
                    &&& e@ == ErrorView::NoNodeName(names_view(names@)[k])
                    &&& forall|j: int| 0 <= j < k ==> old(graph)@.has(#[trigger] names_view(names@)[j])
                },
        },
{
    let ghost all = names_view(names@);
    let mut ids: Vec<usize> = Vec::new();
    let mut i: usize = 0;
    while i < names.len()
        invariant
            i <= names.len(),
            all == names_view(names@),
            *graph == *old(graph),
            graph.wf(),
            ids@.len() == i,
            forall|k: int| 0 <= k < i ==> graph@.find(#[trigger] all[k]) == Some(ids@[k] as int),
        decreases names.len() - i,
    {
        match graph.get_id_by_name(names[i].as_str()) {
            Ok(id) => {
                ids.push(id);
            },
            Err(e) => {
                proof {
                    assert(!graph@.has(all[i as int]));
                }
                return Err(e);
            },
        }
        i += 1;
    }
    proof {
        assert(ids_view(ids@) =~= ids_of(graph@, all));
    }
    Ok(ids)
}

/// Links each of `from_ids` to each of `to_ids`, each link with a copy of
/// `props`.
fn link_all_nodes(
    graph: &mut Graph,
    from_ids: &Vec<usize>,
    to_ids: &Vec<usize>,
    props: &Option<PropMap>,
) -> (r: Result<(), RotError>)
    requires
        old(graph).wf(),
        forall|k: int| 0 <= k < from_ids@.len() ==> #[trigger] from_ids@[k] < old(graph)@.nodes.len(),
        forall|k: int| 0 <= k < to_ids@.len() ==> #[trigger] to_ids@[k] < old(graph)@.nodes.len(),
    ensures
        final(graph).wf(),
        final(graph)@ == link_all(
            old(graph)@,
            ids_view(from_ids@),
            ids_view(to_ids@),
            props_view(*props),
        ),
        r is Ok,
{
    let ghost froms = ids_view(from_ids@);
    let ghost tos = ids_view(to_ids@);
    let ghost p = props_view(*props);
    let mut i: usize = 0;
    assert(froms.take(0) =~= Seq::empty());
    while i < from_ids.len()
        invariant
            i <= from_ids.len(),
            froms == ids_view(from_ids@),
            tos == ids_view(to_ids@),
            p == props_view(*props),
            old(graph).wf(),
            forall|k: int| 0 <= k < froms.len() ==> 0 <= #[trigger] froms[k] < old(graph)@.nodes.len(),
            forall|k: int| 0 <= k < tos.len() ==> 0 <= #[trigger] tos[k] < old(graph)@.nodes.len(),
            graph.wf(),
            graph@ == link_all(old(graph)@, froms.take(i as int), tos, p),
            graph@.nodes.len() == old(graph)@.nodes.len(),
        decreases from_ids.len() - i,
    {
        let from_id = from_ids[i];
        let ghost row = graph@;
        let mut j: usize = 0;
        proof {
            old(graph).lemma_wf();
            graph.lemma_wf();
            assert(tos.take(0) =~= Seq::empty());
            assert(froms[i as int] == from_id);
        }
        while j < to_ids.len()
            invariant
                j <= to_ids.len(),
                tos == ids_view(to_ids@),
                p == props_view(*props),
                row.wf(),
                from_id < row.nodes.len(),
                forall|k: int| 0 <= k < tos.len() ==> 0 <= #[trigger] tos[k] < row.nodes.len(),
                graph.wf(),
                graph@ == link_each(row, from_id as int, tos.take(j as int), p),
                graph@.nodes.len() == row.nodes.len(),
            decreases to_ids.len() - j,
        {
            proof {
                assert(tos.take(j as int + 1).drop_last() =~= tos.take(j as int));
                assert(tos[j as int] == to_ids@[j as int]);
            }
            let r = graph.link_nodes(from_id, to_ids[j], clone_props(props));
            match r {
                Ok(_) => {},
                Err(e) => {
                    return Err(e);
                },
            }
            proof {
                lemma_link_each(row, from_id as int, tos.take(j as int + 1), p);
            }
            j += 1;
        }
        proof {
            assert(tos.take(j as int) =~= tos);
            assert(froms.take(i as int + 1).drop_last() =~= froms.take(i as int));
        }
        i += 1;
    }
    proof {
        assert(froms.take(i as int) =~= froms);
    }
    Ok(())
}

/// What a paired item holds besides its properties.
#[derive(Debug)]
pub enum BuilderEntity {
    NodeVec(Vec<String>),
    Node(String),
    Link,
}

/// An item with the property block that follows it.
#[derive(Debug)]
pub struct BuilderItem {
    pub item: BuilderEntity,
    pub prop: Option<PropMap>,
}

/// The builder between two items: idle, or after a link marker whose left
/// side was a name, or a list of names, and which carries these properties.
#[derive(Debug)]
pub enum BuilderState {
    Nothing,
    ShouldLinkNode(String, Option<PropMap>),
    ShouldLinkNodeVec(Vec<String>, Option<PropMap>),
}

impl View for BuilderEntity {
    type V = ItemView;

    open spec fn view(&self) -> ItemView {
        match *self {
            BuilderEntity::NodeVec(names) => ItemView::NodeVec(names_view(names@)),
            BuilderEntity::Node(name) => ItemView::Node(name@),
            BuilderEntity::Link => ItemView::Link,
        }
    }
}

impl View for BuilderItem {
    type V = Paired;

    open spec fn view(&self) -> Paired {
        Paired { item: self.item@, props: props_view(self.prop) }
    }
}

/// What a list of paired items reads as.
pub open spec fn paired_view(items: Seq<BuilderItem>) -> Seq<Paired> {
    items.map_values(|b: BuilderItem| b@)
}

/// A copy of the property block that stands behind item `i`, if one does.
fn following_props(items: &Vec<Item>, i: usize) -> (props: Option<PropMap>)
    requires
        i < items@.len(),
    ensures
        props_view(props) == pair_at(items_view(items@), i as int).props,
{
    let n = items.len();
    if i + 1 < n {
        match &items[i + 1] {
            Item::Props(p) => Some(p.clone()),
            _ => None,
        }
    } else {
        None
    }
}

/// Attaches each property block to the item that it follows. A property
/// block at the very start belongs to nothing and is dropped; two property
/// blocks side by side are an error.
pub fn to_builder_node(items: Vec<Item>) -> (r: Result<Vec<BuilderItem>, RotError>)
    ensures
        match pairing(items_view(items@)) {
            Ok(ps) => r matches Ok(v) && paired_view(v@) == ps,
            Err(e) => r matches Err(x) && x@ == e,
        },
{
    let ghost iv = items_view(items@);
    let mut out: Vec<BuilderItem> = Vec::new();
    let mut i: usize = 0;
    assert(paired_view(out@) =~= paired(iv, 0));
    while i < items.len()
        invariant
            i <= items.len(),
            iv == items_view(items@),
            forall|j: int| 0 < j < i ==> !(iv[j - 1] is Props && (#[trigger] iv[j]) is Props),
            paired_view(out@) == paired(iv, i as int),
        decreases items.len() - i,
    {
        let ghost before = paired_view(out@);
        match &items[i] {
            Item::Props(_) => {
                if i > 0 {
                    match &items[i - 1] {
                        Item::Props(_) => {
                            assert(iv[i as int - 1] is Props && iv[i as int] is Props);
                            return Err(RotError::DoubleProp);
                        },
                        _ => {},
                    }
                }
            },
            Item::Node(name) => {
                let prop = following_props(&items, i);
                out.push(BuilderItem { item: BuilderEntity::Node(name.clone()), prop });
                assert(paired_view(out@) =~= before.push(pair_at(iv, i as int)));
            },
            Item::NodeVec(names) => {
                let prop = following_props(&items, i);
                out.push(BuilderItem { item: BuilderEntity::NodeVec(clone_names(names)), prop });
                assert(paired_view(out@) =~= before.push(pair_at(iv, i as int)));
            },
            Item::Link => {
                let prop = following_props(&items, i);
                out.push(BuilderItem { item: BuilderEntity::Link, prop });
                assert(paired_view(out@) =~= before.push(pair_at(iv, i as int)));
            },
        }
        i += 1;
    }
    Ok(out)
}

/// What the builder's state says of the item before, `i` items into `items`.
pub open spec fn before_view(state: BuilderState, items: Seq<Paired>, i: int) -> Before {
    match state {
        BuilderState::ShouldLinkNode(name, props) => Before::Marker {
            froms: seq![name@],
            props: props_view(props),
        },
        BuilderState::ShouldLinkNodeVec(names, props) => Before::Marker {
            froms: names_view(names@),
            props: props_view(props),
        },
        BuilderState::Nothing => if i == 0 {
            Before::Start
        } else {
            Before::Names(item_names(items[i - 1].item))
        },
    }
}

/// The names that the builder remembers are names of nodes.
pub open spec fn names_known(g: GraphView, before: Before) -> bool {
    match before {
        Before::Start => true,
        Before::Names(names) => forall|k: int| 0 <= k < names.len() ==> g.has(#[trigger] names[k]),
        Before::Marker { froms, props } => forall|k: int|
            0 <= k < froms.len() ==> g.has(#[trigger] froms[k]),
    }
}

/// One more paired item is one step from where the items before it led.
proof fn lemma_build_run_next(g: GraphView, ps: Seq<Paired>, i: int)
    requires
        0 <= i < ps.len(),
    ensures
        build_run(g, ps.take(i + 1)) == ({
            let before = build_run(g, ps.take(i));
            if before.error is Some {
                before
            } else {
                match build_step(before.state, ps[i]) {
                    Ok(st) => BuildOutcome { state: st, error: None },
                    Err(e) => BuildOutcome { state: before.state, error: Some(e) },
                }
            }
        }),
{
    assert(ps.take(i + 1).drop_last() =~= ps.take(i));
}

/// Where the builder has stopped, it stays.
proof fn lemma_build_run_err(g: GraphView, ps: Seq<Paired>, n: int)
    requires
        0 <= n <= ps.len(),
        build_run(g, ps.take(n)).error is Some,
    ensures
        build_run(g, ps) == build_run(g, ps.take(n)),
    decreases ps.len() - n,
{
    if n < ps.len() {
        lemma_build_run_next(g, ps, n);
        lemma_build_run_err(g, ps, n + 1);
    } else {
        assert(ps.take(n) =~= ps);
    }
}

/// Declaring a list of one name is declaring that name.
pub proof fn lemma_declare_one(g: GraphView, name: Seq<char>, props: Option<PropSeq>)
    ensures
        declare_all(g, seq![name], props) == declare(g, name, props),
{
    reveal_with_fuel(declare_all, 2);
    assert(seq![name].drop_last() =~= Seq::<Seq<char>>::empty());
}

/// After a link marker, links every name of its left side to each of
/// `to_ids`; between links, does nothing.
fn link_pending(graph: &mut Graph, state: &BuilderState, to_ids: &Vec<usize>) -> (r: Result<
    (),
    RotError,
>)
    requires
        old(graph).wf(),
        forall|k: int| 0 <= k < to_ids@.len() ==> #[trigger] to_ids@[k] < old(graph)@.nodes.len(),
        names_known(old(graph)@, before_view(*state, Seq::empty(), 0)),
    ensures
        final(graph).wf(),
        r is Ok,
        final(graph)@ == match before_view(*state, Seq::empty(), 0) {
            Before::Marker { froms, props } => link_all(
                old(graph)@,
                ids_of(old(graph)@, froms),
                ids_view(to_ids@),
                props,
            ),
            _ => old(graph)@,
        },
{
    let ghost known = before_view(*state, Seq::empty(), 0);
    match state {
        BuilderState::Nothing => Ok(()),
        BuilderState::ShouldLinkNode(from, link_prop) => {
            proof {
                assert(known == Before::Marker {
                    froms: seq![from@],
                    props: props_view(*link_prop),
                });
                assert(known->froms[0] == from@);
                assert(graph@.has(known->froms[0]));
                lemma_find(graph@, from@);
            }
            let from_id = graph.get_id_by_name(from.as_str())?;
            let mut from_ids: Vec<usize> = Vec::new();
            from_ids.push(from_id);
            assert(ids_view(from_ids@) =~= ids_of(graph@, seq![from@]));
            link_all_nodes(graph, &from_ids, to_ids, link_prop)
        },
        BuilderState::ShouldLinkNodeVec(froms, link_prop) => {
            proof {
                assert(known == Before::Marker {
                    froms: names_view(froms@),
                    props: props_view(*link_prop),
                });
                assert forall|k: int| 0 <= k < froms@.len() implies graph@.has(
                    #[trigger] names_view(froms@)[k],
                ) by {
                    assert(graph@.has(known->froms[k]));
                }
            }
            let from_ids = node_ids(graph, froms)?;
            proof {
                assert(ids_view(from_ids@).len() == from_ids@.len());
                assert forall|k: int| 0 <= k < from_ids@.len() implies #[trigger] from_ids@[k]
                    < graph@.nodes.len() by {
                    let name = names_view(froms@)[k];
                    lemma_find(graph@, name);
                    assert(ids_view(from_ids@)[k] == graph@.find(name).unwrap());
                }
            }
            link_all_nodes(graph, &from_ids, to_ids, link_prop)
        },
    }
}

/// The builder's step at a link marker: the names before the marker become
/// the left side of a link. A marker with no names before it is an error.
fn step_link(state: &BuilderState, items: &Vec<BuilderItem>, i: usize) -> (r: Result<
    BuilderState,
    RotError,
>)
    requires
        i < items@.len(),
        items@[i as int].item is Link,
        *state is Nothing ==> i == 0 || !(items@[i as int - 1].item is Link),
    ensures
        match before_view(*state, paired_view(items@), i as int) {
            Before::Names(froms) => r matches Ok(next) && before_view(
                next,
                paired_view(items@),
                i as int + 1,
            ) == (Before::Marker { froms, props: props_view(items@[i as int].prop) }),
            _ => r matches Err(x) && x@ == ErrorView::DoubleLink,
        },
{
    let idle = match state {
        BuilderState::Nothing => true,
        _ => false,
    };
    if !idle || i == 0 {
        return Err(RotError::DoubleLink);
    }
    let prop = clone_props(&items[i].prop);
    assert(paired_view(items@)[i as int - 1] == items@[i as int - 1]@);
    match &items[i - 1].item {
        BuilderEntity::Node(n) => Ok(BuilderState::ShouldLinkNode(n.clone(), prop)),
        BuilderEntity::NodeVec(ns) => Ok(BuilderState::ShouldLinkNodeVec(clone_names(ns), prop)),
        // A link marker leaves the builder waiting, never idle.
        BuilderEntity::Link => vstd::pervasive::unreached(),
    }
}

/// The builder's step at a name or a list: its names are declared, and after
/// a link marker each name of the marker's left side is linked to each of
/// them.
fn step_names(graph: &mut Graph, state: &BuilderState, this: &BuilderItem) -> (r: Result<
    (),
    RotError,
>)
    requires
        old(graph).wf(),
        !(this.item is Link),
        names_known(old(graph)@, before_view(*state, Seq::empty(), 0)),
    ensures
        final(graph).wf(),
        r is Ok,
        final(graph)@ == ({
            let declared = declare_all(old(graph)@, item_names(this@.item), this@.props);
            match before_view(*state, Seq::empty(), 0) {
                Before::Marker { froms, props } => link_all(
                    declared,
                    ids_of(declared, froms),
                    ids_of(declared, item_names(this@.item)),
                    props,
                ),
                _ => declared,
            }
        }),
        names_known(final(graph)@, Before::Names(item_names(this@.item))),
{
    let ghost before = graph@;
    let ghost p = this@.props;
    let ghost known = before_view(*state, Seq::empty(), 0);
    proof {
        graph.lemma_wf();
        lemma_resolve(before, known, item_names(this@.item), p);
    }
    let to_ids = match &this.item {
        BuilderEntity::Node(to) => {
            proof {
                lemma_declare_one(before, to@, p);
            }
            let id = declare_node(graph, to.as_str(), &this.prop)?;
            let mut to_ids: Vec<usize> = Vec::new();
            to_ids.push(id);
            proof {
                lemma_find(graph@, to@);
                assert(ids_view(to_ids@) =~= ids_of(graph@, seq![to@]));
            }
            to_ids
        },
        BuilderEntity::NodeVec(tos) => {
            let to_ids = declare_nodes(graph, tos, &this.prop)?;
            proof {
                assert(ids_view(to_ids@).len() == to_ids@.len());
                assert forall|k: int| 0 <= k < to_ids@.len() implies #[trigger] to_ids@[k]
                    < graph@.nodes.len() by {
                    let name = names_view(tos@)[k];
                    lemma_declare_all(before, names_view(tos@), p);
                    assert(graph@.has(names_view(tos@)[k]));
                    lemma_find(graph@, name);
                    assert(ids_view(to_ids@)[k] == graph@.find(name).unwrap());
                }
            }
            to_ids
        },
        BuilderEntity::Link => Vec::new(),
    };
    link_pending(graph, state, &to_ids)
}

/// Builds `items` into the graph.
///
/// Every name is declared where it stands: its node is made if the graph has
/// none of that name, and the property block behind the name is merged into
/// the node, be the name on the left of a link, on its right, or on its own.
/// A list stands for each of its names, with the same property block for all.
/// A property block behind a link marker belongs to the links that the marker
/// makes.
pub fn build(graph: &mut Graph, items: Vec<Item>) -> (r: Result<(), RotError>)
    requires
        old(graph).wf(),
    ensures
        final(graph).wf(),
        final(graph)@ == build_spec(old(graph)@, items_view(items@)).0,
        match build_spec(old(graph)@, items_view(items@)).1 {
            None => r is Ok,
            Some(e) => r matches Err(x) && x@ == e,
        },
{
    let ghost start = graph@;
    let ghost iv = items_view(items@);
    let paired_items = match to_builder_node(items) {
        Ok(paired_items) => paired_items,
        Err(e) => {
            return Err(e);
        },
    };
    let ghost ps = paired_view(paired_items@);
    let mut state = BuilderState::Nothing;
    let mut i: usize = 0;
    proof {
        assert(ps.take(0) =~= Seq::empty());
    }
    while i < paired_items.len()
        invariant
            i <= paired_items.len(),
            ps == paired_view(paired_items@),
            iv == items_view(items@),
            pairing(iv) == Ok::<Seq<Paired>, ErrorView>(ps),
            start == old(graph)@,
            graph.wf(),
            build_run(start, ps.take(i as int)) == (BuildOutcome {
                state: BuildState { graph: graph@, before: before_view(state, ps, i as int) },
                error: None,
            }),
            state is Nothing ==> i == 0 || !(ps[i as int - 1].item is Link),
            names_known(graph@, before_view(state, ps, i as int)),
        decreases paired_items.len() - i,
    {
        let this = &paired_items[i];
        proof {
            lemma_build_run_next(start, ps, i as int);
            assert(ps[i as int] == this@);
            if i > 0 {
                assert(ps[i as int - 1] == paired_items@[i as int - 1]@);
            }
        }
        match &this.item {
            BuilderEntity::Link => {
                match step_link(&state, &paired_items, i) {
                    Ok(next) => {
                        state = next;
                    },
                    Err(e) => {
                        proof {
                            lemma_build_run_err(start, ps, i as int + 1);
                        }
                        return Err(e);
                    },
                }
            },
            _ => {
                proof {
                    lemma_before_anywhere(state, ps, i as int);
                }
                step_names(graph, &state, this)?;
                state = BuilderState::Nothing;
            },
        }
        i += 1;
    }
    proof {
        assert(ps.take(i as int) =~= ps);
    }
    Ok(())
}

/// After a link marker the builder's state alone says what it remembers;
/// otherwise what it remembers are no names to link from.
proof fn lemma_before_anywhere(state: BuilderState, ps: Seq<Paired>, i: int)
    ensures
        !(state is Nothing) ==> before_view(state, ps, i) == before_view(state, Seq::empty(), 0),
        state is Nothing ==> !(before_view(state, ps, i) is Marker) && before_view(
            state,
            Seq::empty(),
            0,
        ) is Start,
{
}

/// The ids of names that the graph knows are ids of its nodes.
proof fn lemma_ids_in_range(g: GraphView, names: Seq<Seq<char>>)
    requires
        forall|k: int| 0 <= k < names.len() ==> g.has(#[trigger] names[k]),
    ensures
        forall|j: int| 0 <= j < names.len() ==> 0 <= #[trigger] ids_of(g, names)[j] < g.nodes.len(),
{
    assert forall|j: int| 0 <= j < names.len() implies 0 <= #[trigger] ids_of(g, names)[j]
        < g.nodes.len() by {
        assert(g.has(names[j]));
        lemma_find(g, names[j]);
    }
}

/// After a name or a list has been declared and linked, its names and the
/// names that were known before are names of nodes, and the graph is
/// well-formed.
proof fn lemma_resolve(g: GraphView, before: Before, names: Seq<Seq<char>>, props: Option<PropSeq>)
    requires
        g.wf(),
        names_known(g, before),
    ensures
        ({
            let declared = declare_all(g, names, props);
            let linked = match before {
                Before::Marker { froms, props } => link_all(
                    declared,
                    ids_of(declared, froms),
                    ids_of(declared, names),
                    props,
                ),
                _ => declared,
            };
            &&& names_known(declared, before)
            &&& linked.wf()
            &&& names_known(linked, Before::Names(names))
            &&& linked.names() == declared.names()
        }),
{
    let declared = declare_all(g, names, props);
    lemma_declare_all(g, names, props);
    match before {
        Before::Marker { froms, props: link_props } => {
            let from_ids = ids_of(declared, froms);
            let to_ids = ids_of(declared, names);
            assert forall|k: int| 0 <= k < froms.len() implies declared.has(#[trigger] froms[k]) by {
                assert(g.has(froms[k]));
                assert(declared.find(froms[k]) == g.find(froms[k]));
            }
            lemma_ids_in_range(declared, froms);
            lemma_ids_in_range(declared, names);
            lemma_link_all(declared, from_ids, to_ids, link_props);
        },
        Before::Names(known) => {
            assert forall|k: int| 0 <= k < known.len() implies declared.has(#[trigger] known[k]) by {
                assert(g.has(known[k]));
                assert(declared.find(known[k]) == g.find(known[k]));
            }
        },
        Before::Start => {},
    }
}

/// The only error of a step is a link marker out of place.
pub proof fn lemma_build_run_error(g: GraphView, ps: Seq<Paired>)
    ensures
        build_run(g, ps).error is Some ==> build_run(g, ps).error == Some(ErrorView::DoubleLink),
    decreases ps.len(),
{
    if ps.len() > 0 {
        lemma_build_run_error(g, ps.drop_last());
    }
}

/// Building has two errors, and the lookups on the way never fail: whatever
/// the items, the result is the graph alone, or `DoubleProp`, or `DoubleLink`.
pub proof fn lemma_build_errors(g: GraphView, items: Seq<ItemView>)
    ensures
        match build_spec(g, items).1 {
            None => true,
            Some(e) => e == ErrorView::DoubleProp || e == ErrorView::DoubleLink,
        },
{
    if !double_prop(items) {
        lemma_build_run_error(g, paired(items, items.len() as int));
    }
}

/// Two property blocks side by side fail with `DoubleProp`, wherever they
/// stand and whatever else the items hold, and leave the graph as it was.
pub proof fn lemma_double_prop_fails(g: GraphView, items: Seq<ItemView>, i: int)
    requires
        0 < i < items.len(),
        items[i - 1] is Props,
        items[i] is Props,
    ensures
        build_spec(g, items) == (g, Some(ErrorView::DoubleProp)),
{
}

/// The first `n` items, paired, are the front of the first `m` items,
/// paired, for `n` up to `m`.
proof fn lemma_paired_front(items: Seq<ItemView>, n: int, m: int)
    requires
        0 <= n <= m <= items.len(),
    ensures
        paired(items, n).len() <= paired(items, m).len(),
        paired(items, m).take(paired(items, n).len() as int) == paired(items, n),
    decreases m - n,
{
    if n < m {
        lemma_paired_front(items, n, m - 1);
        assert(paired(items, m).take(paired(items, n).len() as int) =~= paired(items, m - 1).take(
            paired(items, n).len() as int,
        ));
    } else {
        assert(paired(items, m).take(paired(items, n).len() as int) =~= paired(items, n));
    }
}

/// Two link markers side by side fail: with `DoubleLink`, unless two
/// property blocks stand side by side somewhere, which fails before anything
/// is built.
pub proof fn lemma_double_link_fails(g: GraphView, items: Seq<ItemView>, i: int)
    requires
        0 < i < items.len(),
        items[i - 1] is Link,
        items[i] is Link,
    ensures
        build_spec(g, items).1 == (if double_prop(items) {
            Some(ErrorView::DoubleProp)
        } else {
            Some(ErrorView::DoubleLink)
        }),
{
    if !double_prop(items) {
        let all = paired(items, items.len() as int);
        let upto = paired(items, i + 1);
        let m = upto.len() as int;
        assert(paired(items, i) == paired(items, i - 1).push(pair_at(items, i - 1)));
        assert(upto == paired(items, i).push(pair_at(items, i)));
        assert(upto[m - 1].item is Link);
        assert(upto[m - 2].item is Link);
        lemma_paired_front(items, i + 1, items.len() as int);
        // The first of the two markers leaves the builder waiting, or it has
        // stopped by then; the second finds no names before it.
        lemma_build_run_next(g, upto, m - 2);
        lemma_build_run_next(g, upto, m - 1);
        assert(upto.take(m) =~= upto);
        lemma_build_run_error(g, upto);
        lemma_build_run_err(g, all, m);
    }
}

/// A link marker at the very start fails like two markers side by side.
pub proof fn lemma_leading_link_fails(g: GraphView, items: Seq<ItemView>)
    requires
        items.len() > 0,
        items[0] is Link,
        !double_prop(items),
    ensures
        build_spec(g, items) == (g, Some(ErrorView::DoubleLink)),
{
    let all = paired(items, items.len() as int);
    reveal_with_fuel(paired, 2);
    assert(paired(items, 1) =~= seq![pair_at(items, 0)]);
    lemma_paired_front(items, 1, items.len() as int);
    lemma_build_run_next(g, paired(items, 1), 0);
    assert(paired(items, 1).take(1) =~= paired(items, 1));
    assert(paired(items, 1).take(0) =~= Seq::<Paired>::empty());
    lemma_build_run_err(g, all, 1);
}

/// Declaring names without a property block changes no node, and the nodes
/// that it makes have no properties.
pub proof fn lemma_declare_bare(g: GraphView, names: Seq<Seq<char>>)
    requires
        g.wf(),
    ensures
        ({
            let declared = declare_all(g, names, None);
            &&& g.nodes.len() <= declared.nodes.len()
            &&& forall|i: int| 0 <= i < g.nodes.len() ==> #[trigger] declared.nodes[i] == g.nodes[i]
            &&& forall|i: int|
                g.nodes.len() <= i < declared.nodes.len() ==> (#[trigger] declared.nodes[i]).props
                    is None
        }),
    decreases names.len(),
{
    if names.len() > 0 {
        lemma_declare_bare(g, names.drop_last());
        lemma_declare_all(g, names.drop_last(), None);
    }
}

/// Links leave the name and the properties of every node alone, and the
/// links that were there stay where they were.
pub proof fn lemma_link_each_keeps(g: GraphView, from: int, tos: Seq<int>, props: Option<PropSeq>)
    requires
        0 <= from < g.nodes.len(),
        forall|k: int| 0 <= k < tos.len() ==> 0 <= #[trigger] tos[k] < g.nodes.len(),
    ensures
        ({
            let linked = link_each(g, from, tos, props);
            &&& linked.nodes.len() == g.nodes.len()
            &&& forall|i: int|
                0 <= i < g.nodes.len() ==> (#[trigger] linked.nodes[i]).name == g.nodes[i].name
                    && linked.nodes[i].props == g.nodes[i].props && linked.nodes[i].id
                    == g.nodes[i].id
            &&& g.links.len() <= linked.links.len()
            &&& forall|l: int| 0 <= l < g.links.len() ==> #[trigger] linked.links[l] == g.links[l]
        }),
    decreases tos.len(),
{
    if tos.len() > 0 {
        lemma_link_each_keeps(g, from, tos.drop_last(), props);
    }
}

/// Links leave the name and the properties of every node alone, and the
/// links that were there stay where they were.
pub proof fn lemma_link_all_keeps(
    g: GraphView,
    froms: Seq<int>,
    tos: Seq<int>,
    props: Option<PropSeq>,
)
    requires
        forall|k: int| 0 <= k < froms.len() ==> 0 <= #[trigger] froms[k] < g.nodes.len(),
        forall|k: int| 0 <= k < tos.len() ==> 0 <= #[trigger] tos[k] < g.nodes.len(),
    ensures
        ({
            let linked = link_all(g, froms, tos, props);
            &&& linked.nodes.len() == g.nodes.len()
            &&& forall|i: int|
                0 <= i < g.nodes.len() ==> (#[trigger] linked.nodes[i]).name == g.nodes[i].name
                    && linked.nodes[i].props == g.nodes[i].props && linked.nodes[i].id
                    == g.nodes[i].id
            &&& g.links.len() <= linked.links.len()
            &&& forall|l: int| 0 <= l < g.links.len() ==> #[trigger] linked.links[l] == g.links[l]
        }),
    decreases froms.len(),
{
    if froms.len() > 0 {
        lemma_link_all_keeps(g, froms.drop_last(), tos, props);
        lemma_link_each_keeps(link_all(g, froms.drop_last(), tos, props), froms.last(), tos, props);
    }
}

/// A name that the graph does not know yet and that no property block
/// follows becomes a node without properties, be it on the right of a link,
/// in a list, or on its own.
pub proof fn lemma_new_name_has_no_props(st: BuildState, p: Paired, k: int)
    requires
        st.graph.wf(),
        names_known(st.graph, st.before),
        !(p.item is Link),
        p.props is None,
        0 <= k < item_names(p.item).len(),
        !st.graph.has(item_names(p.item)[k]),
    ensures
        build_step(st, p) matches Ok(next) && next.graph.has(item_names(p.item)[k])
            && next.graph.nodes[next.graph.find(item_names(p.item)[k]).unwrap()].props is None,
{
    let names = item_names(p.item);
    let name = names[k];
    let declared = declare_all(st.graph, names, None);
    let next = build_step(st, p)->Ok_0;
    lemma_declare_bare(st.graph, names);
    lemma_declare_all(st.graph, names, None);
    lemma_resolve(st.graph, st.before, names, None);
    assert(declared.has(name));
    lemma_find(declared, name);
    let id = declared.find(name).unwrap();
    if id < st.graph.nodes.len() {
        // The name was not known, so its node is none of the old ones.
        lemma_find(st.graph, name);
        assert(declared.nodes[id] == st.graph.nodes[id]);
        assert(false);
    }
    assert(next.graph.names() == declared.names());
    match st.before {
        Before::Marker { froms, props } => {
            let from_ids = ids_of(declared, froms);
            let to_ids = ids_of(declared, names);
            lemma_ids_in_range(declared, froms);
            lemma_ids_in_range(declared, names);
            lemma_link_all_keeps(declared, from_ids, to_ids, props);
        },
        _ => {},
    }
}

/// A bare name that the graph does not know yet and that a property block
/// follows becomes a node with the properties of that block, be it on the
/// right of a link or on its own.
pub proof fn lemma_new_name_takes_props(st: BuildState, name: Seq<char>, props: PropSeq)
    requires
        st.graph.wf(),
        names_known(st.graph, st.before),
        !st.graph.has(name),
    ensures
        build_step(st, Paired { item: ItemView::Node(name), props: Some(props) }) matches Ok(next)
            && next.graph.has(name) && next.graph.nodes[next.graph.find(name).unwrap()].props
            == Some(props),
{
    let p = Paired { item: ItemView::Node(name), props: Some(props) };
    let names = seq![name];
    let declared = declare_all(st.graph, names, Some(props));
    let next = build_step(st, p)->Ok_0;
    lemma_declare_one(st.graph, name, Some(props));
    lemma_declare(st.graph, name, Some(props));
    lemma_add_node(st.graph, name, None);
    lemma_resolve(st.graph, st.before, names, Some(props));
    assert(names[0] == name);
    lemma_find(declared, name);
    assert(next.graph.names() == declared.names());
    match st.before {
        Before::Marker { froms, props: link_props } => {
            let from_ids = ids_of(declared, froms);
            let to_ids = ids_of(declared, names);
            lemma_ids_in_range(declared, froms);
            lemma_ids_in_range(declared, names);
            lemma_link_all_keeps(declared, from_ids, to_ids, link_props);
        },
        _ => {},
    }
}

/// `later` is `earlier` grown: every node of `earlier` is there under its id
/// and its name, and every link of `earlier` is there as it was.
pub open spec fn grown_from(earlier: GraphView, later: GraphView) -> bool {
    &&& earlier.nodes.len() <= later.nodes.len()
    &&& forall|i: int|
        0 <= i < earlier.nodes.len() ==> (#[trigger] later.nodes[i]).id == earlier.nodes[i].id
            && later.nodes[i].name == earlier.nodes[i].name
    &&& earlier.links.len() <= later.links.len()
    &&& forall|l: int| 0 <= l < earlier.links.len() ==> #[trigger] later.links[l] == earlier.links[l]
}

/// Declaring a name takes no node away and renames none.
proof fn lemma_declare_grows(g: GraphView, name: Seq<char>, props: Option<PropSeq>)
    requires
        g.wf(),
    ensures
        grown_from(g, declare(g, name, props)),
{
    let made = g.ensure_node(name);
    if !g.has(name) {
        lemma_add_node(g, name, None);
    }
    lemma_find(made, name);
}

/// Declaring names takes no node away and renames none.
proof fn lemma_declare_all_grows(g: GraphView, names: Seq<Seq<char>>, props: Option<PropSeq>)
    requires
        g.wf(),
    ensures
        grown_from(g, declare_all(g, names, props)),
    decreases names.len(),
{
    if names.len() > 0 {
        lemma_declare_all_grows(g, names.drop_last(), props);
        lemma_declare_all(g, names.drop_last(), props);
        lemma_declare_grows(declare_all(g, names.drop_last(), props), names.last(), props);
    }
}

/// A step keeps the graph well-formed and the remembered names known, and
/// only lets the graph grow.
pub proof fn lemma_step_grows(st: BuildState, p: Paired)
    requires
        st.graph.wf(),
        names_known(st.graph, st.before),
    ensures
        build_step(st, p) matches Ok(next) ==> next.graph.wf() && names_known(
            next.graph,
            next.before,
        ) && grown_from(st.graph, next.graph),
{
    if !(p.item is Link) {
        let names = item_names(p.item);
        let declared = declare_all(st.graph, names, p.props);
        lemma_resolve(st.graph, st.before, names, p.props);
        lemma_declare_all_grows(st.graph, names, p.props);
        lemma_declare_all(st.graph, names, p.props);
        match st.before {
            Before::Marker { froms, props } => {
                let from_ids = ids_of(declared, froms);
                let to_ids = ids_of(declared, names);
                lemma_ids_in_range(declared, froms);
                lemma_ids_in_range(declared, names);
                lemma_link_all_keeps(declared, from_ids, to_ids, props);
            },
            _ => {},
        }
    }
}

/// A run keeps the graph well-formed and the remembered names known, and
/// only lets the graph grow.
pub proof fn lemma_run_grows(st: BuildState, ps: Seq<Paired>)
    requires
        st.graph.wf(),
        names_known(st.graph, st.before),
    ensures
        build_from(st, ps).state.graph.wf(),
        names_known(build_from(st, ps).state.graph, build_from(st, ps).state.before),
        grown_from(st.graph, build_from(st, ps).state.graph),
    decreases ps.len(),
{
    if ps.len() > 0 {
        lemma_run_grows(st, ps.drop_last());
        let before = build_from(st, ps.drop_last());
        if before.error is None {
            lemma_step_grows(before.state, ps.last());
        }
    }
}

/// Building is append-only. Whatever the items, and whether they build or
/// fail, a well-formed graph stays well-formed, every node that it had keeps
/// its id and its name, every link that it had stays as it was, and what is
/// new comes behind.
pub proof fn lemma_build_grows(g: GraphView, items: Seq<ItemView>)
    requires
        g.wf(),
    ensures
        build_spec(g, items).0.wf(),
        grown_from(g, build_spec(g, items).0),
{
    if !double_prop(items) {
        lemma_run_grows(
            BuildState { graph: g, before: Before::Start },
            paired(items, items.len() as int),
        );
    }
}

} // verus!
