//! The relations map: how entries and nodes are named and classified, one item's local
//! neighbourhood, the library-wide graph, and relation lists grouped for display.
//!
//! The application reads the library (entries, nodes, each item's relations) and hands
//! this module what it found as plain values.

use vstd::prelude::*;

use crate::order;
use crate::text;

verus! {

/// What a node of the library stands for.
#[derive(Debug, Clone, Copy, PartialEq, Eq, Structural)]
pub enum NodeType {
    Person,
    Concept,
    School,
    Event,
    Place,
    WorkUncataloged,
}

impl NodeType {
    /// The human label of a node type, for list rows and the type dropdown.
    pub fn label(&self) -> (s: &'static str)
        ensures
            s@ == node_type_label(*self),
    {
        proof {
            reveal_strlit("Person");
            reveal_strlit("Concept");
            reveal_strlit("School");
            reveal_strlit("Event");
            reveal_strlit("Place");
            reveal_strlit("Uncatalogued work");
        }
        match self {
            NodeType::Person => "Person",
            NodeType::Concept => "Concept",
            NodeType::School => "School",
            NodeType::Event => "Event",
            NodeType::Place => "Place",
            NodeType::WorkUncataloged => "Uncatalogued work",
        }
    }

    /// The kind the relations map gives a node of this type (it colours nodes by kind).
    pub fn kind_name(&self) -> (s: &'static str)
        ensures
            s@ == node_kind_name(*self),
    {
        proof {
            reveal_strlit("person");
            reveal_strlit("concept");
            reveal_strlit("school");
            reveal_strlit("event");
            reveal_strlit("place");
            reveal_strlit("work");
        }
        match self {
            NodeType::Person => "person",
            NodeType::Concept => "concept",
            NodeType::School => "school",
            NodeType::Event => "event",
            NodeType::Place => "place",
            NodeType::WorkUncataloged => "work",
        }
    }
}

pub open spec fn node_type_label(t: NodeType) -> Seq<char> {
    match t {
        NodeType::Person => "Person"@,
        NodeType::Concept => "Concept"@,
        NodeType::School => "School"@,
        NodeType::Event => "Event"@,
        NodeType::Place => "Place"@,
        NodeType::WorkUncataloged => "Uncatalogued work"@,
    }
}

pub open spec fn node_kind_name(t: NodeType) -> Seq<char> {
    match t {
        NodeType::Person => "person"@,
        NodeType::Concept => "concept"@,
        NodeType::School => "school"@,
        NodeType::Event => "event"@,
        NodeType::Place => "place"@,
        NodeType::WorkUncataloged => "work"@,
    }
}

/// The node-type choices, in dropdown order, each with its label.
pub fn node_type_choices() -> (v: Vec<(&'static str, NodeType)>)
    ensures
        v@.len() == 6,
        v@[0].1 == NodeType::Person,
        v@[1].1 == NodeType::Concept,
        v@[2].1 == NodeType::School,
        v@[3].1 == NodeType::Event,
        v@[4].1 == NodeType::Place,
        v@[5].1 == NodeType::WorkUncataloged,
        forall|i: int| 0 <= i < 6 ==> (#[trigger] v@[i]).0@ == node_type_label(v@[i].1),
{
    let mut v: Vec<(&'static str, NodeType)> = Vec::new();
    v.push((NodeType::Person.label(), NodeType::Person));
    v.push((NodeType::Concept.label(), NodeType::Concept));
    v.push((NodeType::School.label(), NodeType::School));
    v.push((NodeType::Event.label(), NodeType::Event));
    v.push((NodeType::Place.label(), NodeType::Place));
    v.push((NodeType::WorkUncataloged.label(), NodeType::WorkUncataloged));
    v
}

/// What the library holds under one id: an entry (with its title, empty when it has
/// none), a node (with its type and label), both, or — for a dangling id — neither.
#[derive(Debug, Clone)]
pub struct ItemInfo {
    pub id: String,
    pub entry_title: Option<String>,
    pub node: Option<(NodeType, String)>,
}

/// One relation recorded on an item's note: its target, its predicate's label, whether
/// it is a maintained inverse (backlink) edge, and whether its predicate is "cites".
#[derive(Debug, Clone)]
pub struct Relation {
    pub target: String,
    pub predicate: String,
    pub inverse: bool,
    pub cites: bool,
}

/// The first row of `table` about `id`.
pub open spec fn info_of(table: Seq<ItemInfo>, id: Seq<char>) -> Option<ItemInfo>
    decreases table.len(),
{
    if table.len() == 0 {
        None
    } else if table[0].id@ == id {
        Some(table[0])
    } else {
        info_of(table.drop_first(), id)
    }
}

/// An item's graph label and kind: an entry is a "work" labelled by its title; a node
/// is labelled by its label and classified by its type; either falls back to the bare id
/// for an empty label, and an id the library does not know is "other".
pub open spec fn node_kind(table: Seq<ItemInfo>, id: Seq<char>) -> (Seq<char>, Seq<char>) {
    match info_of(table, id) {
        Some(info) => match info.entry_title {
            Some(t) => (if t@.len() == 0 { id } else { t@ }, "work"@),
            None => match info.node {
                Some(n) => (if n.1@.len() == 0 { id } else { n.1@ }, node_kind_name(n.0)),
                None => (id, "other"@),
            },
        },
        None => (id, "other"@),
    }
}

/// A relation target's display name: the entry's title, else the node's label, else the
/// raw id (a dangling target).
pub open spec fn display_name(table: Seq<ItemInfo>, id: Seq<char>) -> Seq<char> {
    match info_of(table, id) {
        Some(info) => {
            let title = match info.entry_title {
                Some(t) => t@,
                None => Seq::<char>::empty(),
            };
            let label = match info.node {
                Some(n) => n.1@,
                None => Seq::<char>::empty(),
            };
            if title.len() > 0 {
                title
            } else if label.len() > 0 {
                label
            } else {
                id
            }
        },
        None => id,
    }
}

/// The first row of `table` about `id`.
fn find_info(table: &Vec<ItemInfo>, id: &str) -> (r: Option<usize>)
    ensures
        match r {
            Some(i) => i < table@.len() && info_of(table@, id@) == Some(table@[i as int]),
            None => info_of(table@, id@) is None,
        },
{
    let mut i: usize = 0;
    assert(table@.skip(0) =~= table@);
    while i < table.len()
        invariant
            i <= table@.len(),
            info_of(table@, id@) == info_of(table@.skip(i as int), id@),
        decreases table.len() - i,
    {
        assert(table@.skip(i as int).drop_first() =~= table@.skip(i + 1));
        if text::str_eq(table[i].id.as_str(), id) {
            return Some(i);
        }
        i += 1;
    }
    None
}

/// An item's graph label and kind.
pub fn graph_node_kind(table: &Vec<ItemInfo>, id: &str) -> (r: (String, String))
    ensures
        (r.0@, r.1@) == node_kind(table@, id@),
{
    proof {
        reveal_strlit("work");
        reveal_strlit("other");
    }
    match find_info(table, id) {
        Some(i) => {
            let info = &table[i];
            match &info.entry_title {
                Some(t) => {
                    let label = if t.as_str().is_empty() {
                        text::owned(id)
                    } else {
                        text::owned(t.as_str())
                    };
                    (label, text::owned("work"))
                },
                None => match &info.node {
                    Some(n) => {
                        let label = if n.1.as_str().is_empty() {
                            text::owned(id)
                        } else {
                            text::owned(n.1.as_str())
                        };
                        (label, text::owned(n.0.kind_name()))
                    },
                    None => (text::owned(id), text::owned("other")),
                },
            }
        },
        None => (text::owned(id), text::owned("other")),
    }
}

/// A relation target's display name.
pub fn target_display(table: &Vec<ItemInfo>, target: &str) -> (s: String)
    ensures
        s@ == display_name(table@, target@),
{
    match find_info(table, target) {
        Some(i) => {
            let info = &table[i];
            if let Some(t) = &info.entry_title {
                if !t.as_str().is_empty() {
                    return text::owned(t.as_str());
                }
            }
            if let Some(n) = &info.node {
                if !n.1.as_str().is_empty() {
                    return text::owned(n.1.as_str());
                }
            }
            text::owned(target)
        },
        None => text::owned(target),
    }
}

// ---------------------------------------------------------------------------
// Relation lists grouped for display
// ---------------------------------------------------------------------------

/// The predicate labels of `rs`, in order.
pub open spec fn predicates_of(rs: Seq<Relation>) -> Seq<Seq<char>> {
    Seq::new(rs.len(), |i: int| rs[i].predicate@)
}

/// The display names of the targets of the relations of `rs` whose predicate is `p`,
/// in order.
pub open spec fn names_under(table: Seq<ItemInfo>, rs: Seq<Relation>, p: Seq<char>) -> Seq<
    Seq<char>,
>
    decreases rs.len(),
{
    if rs.len() == 0 {
        seq![]
    } else {
        let rest = names_under(table, rs.drop_last(), p);
        if rs.last().predicate@ == p {
            rest.push(display_name(table, rs.last().target@))
        } else {
            rest
        }
    }
}

/// The views of `(label, names)` groups.
pub open spec fn group_labels(g: Seq<(String, Vec<String>)>) -> Seq<Seq<char>> {
    Seq::new(g.len(), |i: int| g[i].0@)
}

/// The display names of the relations with predicate `p`.
fn names_with(table: &Vec<ItemInfo>, relations: &Vec<Relation>, p: &str) -> (r: Vec<String>)
    ensures
        text::string_views(r@) == names_under(table@, relations@, p@),
{
    let mut out: Vec<String> = Vec::new();
    let mut i: usize = 0;
    assert(relations@.take(0) =~= Seq::<Relation>::empty());
    while i < relations.len()
        invariant
            i <= relations@.len(),
            text::string_views(out@) == names_under(table@, relations@.take(i as int), p@),
        decreases relations.len() - i,
    {
        assert(relations@.take(i + 1).drop_last() =~= relations@.take(i as int));
        assert(relations@.take(i + 1).last() == relations@[i as int]);
        if text::str_eq(relations[i].predicate.as_str(), p) {
            let ghost before = text::string_views(out@);
            out.push(target_display(table, relations[i].target.as_str()));
            assert(text::string_views(out@) =~= before.push(
                display_name(table@, relations@[i as int].target@),
            ));
        }
        i += 1;
    }
    assert(relations@.take(relations.len() as int) =~= relations@);
    out
}

/// A relation list grouped by predicate label, each target resolved to its display name:
/// the groups sorted by label, the names of each sorted and without repeats.
pub fn group_relations_display(table: &Vec<ItemInfo>, relations: &Vec<Relation>) -> (r: Vec<
    (String, Vec<String>),
>)
    ensures
        order::strictly_sorted(group_labels(r@)),
        order::same_items(group_labels(r@), predicates_of(relations@)),
        forall|i: int|
            0 <= i < r@.len() ==> order::strictly_sorted(text::string_views((#[trigger] r@[i]).1@))
                && order::same_items(
                text::string_views(r@[i].1@),
                names_under(table@, relations@, r@[i].0@),
            ),
{
    let mut preds: Vec<String> = Vec::new();
    let mut i: usize = 0;
    while i < relations.len()
        invariant
            i <= relations@.len(),
            text::string_views(preds@) =~= predicates_of(relations@).take(i as int),
        decreases relations.len() - i,
    {
        let ghost before = text::string_views(preds@);
        preds.push(text::owned(relations[i].predicate.as_str()));
        assert(text::string_views(preds@) =~= before.push(relations@[i as int].predicate@));
        i += 1;
    }
    assert(predicates_of(relations@).take(relations.len() as int) =~= predicates_of(relations@));
    let labels = order::sorted_unique(&preds);
    let mut out: Vec<(String, Vec<String>)> = Vec::new();
    let mut k: usize = 0;
    while k < labels.len()
        invariant
            k <= labels@.len(),
            group_labels(out@) =~= text::string_views(labels@).take(k as int),
            forall|j: int|
                0 <= j < out@.len() ==> order::strictly_sorted(
                    text::string_views((#[trigger] out@[j]).1@),
                ) && order::same_items(
                    text::string_views(out@[j].1@),
                    names_under(table@, relations@, out@[j].0@),
                ),
        decreases labels.len() - k,
    {
        let names = names_with(table, relations, labels[k].as_str());
        let sorted = order::sorted_unique(&names);
        let ghost before = group_labels(out@);
        out.push((text::owned(labels[k].as_str()), sorted));
        assert(group_labels(out@) =~= before.push(labels@[k as int]@));
        k += 1;
    }
    assert(text::string_views(labels@).take(labels.len() as int) =~= text::string_views(labels@));
    out
}

// ---------------------------------------------------------------------------
// The relations map
// ---------------------------------------------------------------------------

/// One node of the relations map.
#[derive(Debug, Clone)]
pub struct GraphNode {
    pub id: String,
    pub label: String,
    pub kind: String,
}

/// One edge of the relations map, labelled by its predicate.
#[derive(Debug, Clone)]
pub struct GraphEdge {
    pub from: String,
    pub to: String,
    pub label: String,
}

/// Nodes and edges to add to the map, and the node it centres on, if any.
#[derive(Debug, Clone)]
pub struct GraphPatch {
    pub center: Option<String>,
    pub nodes: Vec<GraphNode>,
    pub edges: Vec<GraphEdge>,
}

/// An edge as `(from, to, label)`.
pub type EdgeView = (Seq<char>, Seq<char>, Seq<char>);

pub open spec fn node_ids(ns: Seq<GraphNode>) -> Seq<Seq<char>> {
    Seq::new(ns.len(), |i: int| ns[i].id@)
}

pub open spec fn edge_views(es: Seq<GraphEdge>) -> Seq<EdgeView> {
    Seq::new(es.len(), |i: int| (es[i].from@, es[i].to@, es[i].label@))
}

/// Every node carries the label and kind its id resolves to.
pub open spec fn nodes_resolved(table: Seq<ItemInfo>, ns: Seq<GraphNode>) -> bool {
    forall|i: int|
        0 <= i < ns.len() ==> ((#[trigger] ns[i]).label@, ns[i].kind@) == node_kind(table, ns[i].id@)
}

/// The distinct targets among the first `n` relations of `rs`, in order of first
/// appearance.
pub open spec fn expand_targets(rs: Seq<Relation>, n: int) -> Seq<Seq<char>>
    decreases n,
{
    if n <= 0 {
        seq![]
    } else {
        let p = expand_targets(rs, n - 1);
        if p.contains(rs[n - 1].target@) {
            p
        } else {
            p.push(rs[n - 1].target@)
        }
    }
}

/// One edge from `id` per distinct target among the first `n` relations of `rs`, with
/// the predicate of the first relation naming that target.
pub open spec fn expand_edges(id: Seq<char>, rs: Seq<Relation>, n: int) -> Seq<EdgeView>
    decreases n,
{
    if n <= 0 {
        seq![]
    } else {
        let p = expand_edges(id, rs, n - 1);
        if expand_targets(rs, n - 1).contains(rs[n - 1].target@) {
            p
        } else {
            p.push((id, rs[n - 1].target@, rs[n - 1].predicate@))
        }
    }
}

/// Whether `ns` has a node with id `x`.
fn has_node(ns: &Vec<GraphNode>, x: &str) -> (b: bool)
    ensures
        b == node_ids(ns@).contains(x@),
{
    let mut i: usize = 0;
    while i < ns.len()
        invariant
            i <= ns@.len(),
            forall|j: int| 0 <= j < i ==> node_ids(ns@)[j] != x@,
        decreases ns.len() - i,
    {
        if text::str_eq(ns[i].id.as_str(), x) {
            assert(node_ids(ns@)[i as int] == x@);
            return true;
        }
        i += 1;
    }
    false
}

/// Appends the node for `id`.
fn push_node(table: &Vec<ItemInfo>, ns: &mut Vec<GraphNode>, id: &str)
    requires
        nodes_resolved(table@, old(ns)@),
    ensures
        nodes_resolved(table@, final(ns)@),
        node_ids(final(ns)@) == node_ids(old(ns)@).push(id@),
{
    let (label, kind) = graph_node_kind(table, id);
    let ghost before = ns@;
    ns.push(GraphNode { id: text::owned(id), label, kind });
    assert(node_ids(ns@) =~= node_ids(before).push(id@));
    assert forall|i: int| 0 <= i < ns@.len() implies ((#[trigger] ns@[i]).label@, ns@[i].kind@)
        == node_kind(table@, ns@[i].id@) by {
        if i < before.len() {
            assert(ns@[i] == before[i]);
        }
    }
}

/// Every relation recorded on `id`'s own note, forward and inverse together (an inverse
/// edge is the maintained backlink), as `id`'s local neighbourhood: one node and one edge
/// per distinct target.
pub fn graph_expand(table: &Vec<ItemInfo>, id: &str, relations: &Vec<Relation>) -> (p: GraphPatch)
    ensures
        p.center is None,
        node_ids(p.nodes@) == expand_targets(relations@, relations@.len() as int),
        nodes_resolved(table@, p.nodes@),
        edge_views(p.edges@) == expand_edges(id@, relations@, relations@.len() as int),
{
    let mut nodes: Vec<GraphNode> = Vec::new();
    let mut edges: Vec<GraphEdge> = Vec::new();
    let mut i: usize = 0;
    while i < relations.len()
        invariant
            i <= relations@.len(),
            node_ids(nodes@) == expand_targets(relations@, i as int),
            nodes_resolved(table@, nodes@),
            edge_views(edges@) == expand_edges(id@, relations@, i as int),
        decreases relations.len() - i,
    {
        let r = &relations[i];
        if !has_node(&nodes, r.target.as_str()) {
            push_node(table, &mut nodes, r.target.as_str());
            let ghost before = edge_views(edges@);
            edges.push(
                GraphEdge {
                    from: text::owned(id),
                    to: text::owned(r.target.as_str()),
                    label: text::owned(r.predicate.as_str()),
                },
            );
            assert(edge_views(edges@) =~= before.push((id@, r.target@, r.predicate@)));
        }
        i += 1;
    }
    GraphPatch { center: None, nodes, edges }
}

/// How many nodes the library-wide map takes before it stops adding unconnected ones.
pub const LIBRARY_GRAPH_NODE_CAP: usize = 150;

/// The library-wide map being built: node ids in order, and edges.
pub type GraphState = (Seq<Seq<char>>, Seq<EdgeView>);

/// `es` has an edge from `a` to `b`.
pub open spec fn has_pair(es: Seq<EdgeView>, a: Seq<char>, b: Seq<char>) -> bool {
    exists|j: int| 0 <= j < es.len() && (#[trigger] es[j]).0 == a && es[j].1 == b
}

/// The map after taking relation `r` of item `id`: both ends become nodes (if new), and
/// the edge is added unless the map has one between the same two ends already.
pub open spec fn add_relation(st: GraphState, id: Seq<char>, r: Relation) -> GraphState {
    let t = r.target@;
    let ids1 = if st.0.contains(id) {
        st.0
    } else {
        st.0.push(id)
    };
    let ids2 = if ids1.contains(t) {
        ids1
    } else {
        ids1.push(t)
    };
    let es = if has_pair(st.1, id, t) {
        st.1
    } else {
        st.1.push((id, t, r.predicate@))
    };
    (ids2, es)
}

/// How many new nodes taking a relation from `id` to `t` adds to a map with nodes `ids`.
pub open spec fn fresh_count(ids: Seq<Seq<char>>, id: Seq<char>, t: Seq<char>) -> nat {
    (if ids.contains(id) {
        0nat
    } else {
        1nat
    }) + (if ids.contains(t) || t == id {
        0nat
    } else {
        1nat
    })
}

/// The map after walking item `id`'s relations from the `k`-th on: inverse edges are
/// passed over (each mirrors another item's forward edge); a relation that would take the
/// map past `LIBRARY_GRAPH_NODE_CAP` nodes is passed over; and once a relation taken
/// brings the map to the cap, the item's remaining relations are passed over.
pub open spec fn walk_relations(st: GraphState, id: Seq<char>, rs: Seq<Relation>, k: int) -> GraphState
    decreases rs.len() - k,
{
    if k < 0 || k >= rs.len() {
        st
    } else if rs[k].inverse {
        walk_relations(st, id, rs, k + 1)
    } else if st.0.len() + fresh_count(st.0, id, rs[k].target@) > LIBRARY_GRAPH_NODE_CAP {
        walk_relations(st, id, rs, k + 1)
    } else {
        let st2 = add_relation(st, id, rs[k]);
        if st2.0.len() >= LIBRARY_GRAPH_NODE_CAP {
            st2
        } else {
            walk_relations(st2, id, rs, k + 1)
        }
    }
}

/// The map after walking the first `n` items, in order.
pub open spec fn walk_items(items: Seq<(String, Vec<Relation>)>, n: int) -> GraphState
    decreases n,
{
    if n <= 0 {
        (seq![], seq![])
    } else {
        walk_relations(walk_items(items, n - 1), items[n - 1].0@, items[n - 1].1@, 0)
    }
}

/// Whether `es` has an edge from `a` to `b`.
fn has_edge(es: &Vec<GraphEdge>, a: &str, b: &str) -> (r: bool)
    ensures
        r == has_pair(edge_views(es@), a@, b@),
{
    let ghost v = edge_views(es@);
    let mut i: usize = 0;
    while i < es.len()
        invariant
            i <= es@.len(),
            v == edge_views(es@),
            forall|j: int| 0 <= j < i ==> !((#[trigger] v[j]).0 == a@ && v[j].1 == b@),
        decreases es.len() - i,
    {
        if text::str_eq(es[i].from.as_str(), a) && text::str_eq(es[i].to.as_str(), b) {
            assert(v[i as int].0 == a@ && v[i as int].1 == b@);
            return true;
        }
        i += 1;
    }
    false
}

/// Takes relation `r` of item `id` into the map.
fn take_relation(
    table: &Vec<ItemInfo>,
    nodes: &mut Vec<GraphNode>,
    edges: &mut Vec<GraphEdge>,
    id: &str,
    r: &Relation,
)
    requires
        nodes_resolved(table@, old(nodes)@),
    ensures
        nodes_resolved(table@, final(nodes)@),
        (node_ids(final(nodes)@), edge_views(final(edges)@)) == add_relation(
            (node_ids(old(nodes)@), edge_views(old(edges)@)),
            id@,
            *r,
        ),
{
    if !has_node(nodes, id) {
        push_node(table, nodes, id);
    }
    if !has_node(nodes, r.target.as_str()) {
        push_node(table, nodes, r.target.as_str());
    }
    if !has_edge(edges, id, r.target.as_str()) {
        let ghost before = edge_views(edges@);
        edges.push(
            GraphEdge {
                from: text::owned(id),
                to: text::owned(r.target.as_str()),
                label: text::owned(r.predicate.as_str()),
            },
        );
        assert(edge_views(edges@) =~= before.push((id@, r.target@, r.predicate@)));
    }
}

/// How many new nodes a relation from `id` to `t` would add.
fn fresh_nodes(nodes: &Vec<GraphNode>, id: &str, t: &str) -> (n: usize)
    ensures
        n == fresh_count(node_ids(nodes@), id@, t@),
{
    let a: usize = if has_node(nodes, id) {
        0
    } else {
        1
    };
    let b: usize = if has_node(nodes, t) || text::str_eq(t, id) {
        0
    } else {
        1
    };
    a + b
}

/// Walks item `id`'s relations into the map.
fn walk_item(
    table: &Vec<ItemInfo>,
    nodes: &mut Vec<GraphNode>,
    edges: &mut Vec<GraphEdge>,
    id: &str,
    relations: &Vec<Relation>,
)
    requires
        nodes_resolved(table@, old(nodes)@),
        old(nodes)@.len() <= LIBRARY_GRAPH_NODE_CAP,
    ensures
        nodes_resolved(table@, final(nodes)@),
        final(nodes)@.len() <= LIBRARY_GRAPH_NODE_CAP,
        (node_ids(final(nodes)@), edge_views(final(edges)@)) == walk_relations(
            (node_ids(old(nodes)@), edge_views(old(edges)@)),
            id@,
            relations@,
            0,
        ),
{
    let ghost goal = walk_relations(
        (node_ids(nodes@), edge_views(edges@)),
        id@,
        relations@,
        0,
    );
    let mut k: usize = 0;
    while k < relations.len()
        invariant
            k <= relations@.len(),
            nodes_resolved(table@, nodes@),
            nodes@.len() <= LIBRARY_GRAPH_NODE_CAP,
            goal == walk_relations((node_ids(nodes@), edge_views(edges@)), id@, relations@, k as int),
            goal == walk_relations(
                (node_ids(old(nodes)@), edge_views(old(edges)@)),
                id@,
                relations@,
                0,
            ),
        decreases relations.len() - k,
    {
        let r = &relations[k];
        assert(node_ids(nodes@).len() == nodes@.len());
        if r.inverse {
        } else if nodes.len() + fresh_nodes(nodes, id, r.target.as_str()) > LIBRARY_GRAPH_NODE_CAP {
        } else {
            proof {
                lemma_add_relation_len((node_ids(nodes@), edge_views(edges@)), id@, *r);
            }
            take_relation(table, nodes, edges, id, r);
            assert(node_ids(nodes@).len() == nodes@.len());
            if nodes.len() >= LIBRARY_GRAPH_NODE_CAP {
                return;
            }
        }
        k += 1;
    }
}

/// The map of the whole library's forward relations: `items` is every entry key (sorted)
/// and then every node slug, each with the relations recorded on it. Inverse edges are
/// left out (each is the mirror of some other item's forward edge), each pair of ends gets
/// one edge, and the map never holds more than `LIBRARY_GRAPH_NODE_CAP` nodes.
pub fn build_library_graph(table: &Vec<ItemInfo>, items: &Vec<(String, Vec<Relation>)>) -> (p:
    GraphPatch)
    ensures
        p.center is None,
        (node_ids(p.nodes@), edge_views(p.edges@)) == walk_items(items@, items@.len() as int),
        nodes_resolved(table@, p.nodes@),
        p.nodes@.len() <= LIBRARY_GRAPH_NODE_CAP,
{
    let mut nodes: Vec<GraphNode> = Vec::new();
    let mut edges: Vec<GraphEdge> = Vec::new();
    let mut i: usize = 0;
    assert(node_ids(nodes@) =~= Seq::<Seq<char>>::empty());
    assert(edge_views(edges@) =~= Seq::<EdgeView>::empty());
    while i < items.len()
        invariant
            i <= items@.len(),
            nodes_resolved(table@, nodes@),
            nodes@.len() <= LIBRARY_GRAPH_NODE_CAP,
            (node_ids(nodes@), edge_views(edges@)) == walk_items(items@, i as int),
        decreases items.len() - i,
    {
        walk_item(table, &mut nodes, &mut edges, items[i].0.as_str(), &items[i].1);
        i += 1;
    }
    GraphPatch { center: None, nodes, edges }
}

// ---------------------------------------------------------------------------
// Laws of the library-wide map
// ---------------------------------------------------------------------------

/// No node twice, no two edges between the same two ends, and both ends of every edge
/// are nodes.
pub open spec fn graph_consistent(st: GraphState) -> bool {
    &&& forall|i: int, j: int| 0 <= i < j < st.0.len() ==> #[trigger] st.0[i] != #[trigger] st.0[j]
    &&& forall|i: int, j: int|
        0 <= i < j < st.1.len() ==> !((#[trigger] st.1[i]).0 == (#[trigger] st.1[j]).0 && st.1[i].1
            == st.1[j].1)
    &&& forall|j: int|
        0 <= j < st.1.len() ==> st.0.contains((#[trigger] st.1[j]).0) && st.0.contains(st.1[j].1)
}

/// `e` is a forward (not inverse) relation recorded on one of `items`, labelled by its
/// predicate.
pub open spec fn is_forward_relation(items: Seq<(String, Vec<Relation>)>, e: EdgeView) -> bool {
    exists|i: int, k: int|
        0 <= i < items.len() && 0 <= k < items[i].1@.len() && #[trigger] items[i].1@[k].target@
            == e.1 && items[i].0@ == e.0 && !items[i].1@[k].inverse && items[i].1@[k].predicate@
            == e.2
}

pub open spec fn edges_forward(items: Seq<(String, Vec<Relation>)>, st: GraphState) -> bool {
    forall|j: int| 0 <= j < st.1.len() ==> is_forward_relation(items, #[trigger] st.1[j])
}

proof fn lemma_add_relation(
    items: Seq<(String, Vec<Relation>)>,
    st: GraphState,
    i: int,
    k: int,
)
    requires
        0 <= i < items.len(),
        0 <= k < items[i].1@.len(),
        !items[i].1@[k].inverse,
        graph_consistent(st),
        edges_forward(items, st),
    ensures
        graph_consistent(add_relation(st, items[i].0@, items[i].1@[k])),
        edges_forward(items, add_relation(st, items[i].0@, items[i].1@[k])),
{
    let id = items[i].0@;
    let r = items[i].1@[k];
    let t = r.target@;
    let ids1 = if st.0.contains(id) {
        st.0
    } else {
        st.0.push(id)
    };
    let st2 = add_relation(st, id, r);
    assert forall|a: int, b: int| 0 <= a < b < ids1.len() implies #[trigger] ids1[a]
        != #[trigger] ids1[b] by {
        if b == st.0.len() {
            assert(st.0[a] == ids1[a]);
        }
    }
    assert forall|a: int, b: int| 0 <= a < b < st2.0.len() implies #[trigger] st2.0[a]
        != #[trigger] st2.0[b] by {
        if b == ids1.len() {
            assert(ids1[a] == st2.0[a]);
        }
    }
    assert forall|x: Seq<char>| st.0.contains(x) implies st2.0.contains(x) by {
        let m = choose|m: int| 0 <= m < st.0.len() && st.0[m] == x;
        assert(st2.0[m] == x);
    }
    assert(st2.0.contains(id)) by {
        if st.0.contains(id) {
        } else {
            assert(ids1[st.0.len() as int] == id);
            assert(st2.0[st.0.len() as int] == id);
        }
    }
    assert(st2.0.contains(t)) by {
        if !ids1.contains(t) {
            assert(st2.0[ids1.len() as int] == t);
        }
    }
    assert forall|j: int| 0 <= j < st2.1.len() implies st2.0.contains((#[trigger] st2.1[j]).0)
        && st2.0.contains(st2.1[j].1) by {
        if j < st.1.len() {
            assert(st2.1[j] == st.1[j]);
        }
    }
    assert forall|a: int, b: int| 0 <= a < b < st2.1.len() implies !((#[trigger] st2.1[a]).0 == (
    #[trigger] st2.1[b]).0 && st2.1[a].1 == st2.1[b].1) by {
        if b == st.1.len() {
            assert(st2.1[a] == st.1[a]);
        }
    }
    assert forall|j: int| 0 <= j < st2.1.len() implies is_forward_relation(
        items,
        #[trigger] st2.1[j],
    ) by {
        if j < st.1.len() {
            assert(st2.1[j] == st.1[j]);
        } else {
            assert(items[i].1@[k].target@ == st2.1[j].1);
        }
    }
}

proof fn lemma_walk_relations(
    items: Seq<(String, Vec<Relation>)>,
    st: GraphState,
    i: int,
    k: int,
)
    requires
        0 <= i < items.len(),
        0 <= k,
        graph_consistent(st),
        edges_forward(items, st),
    ensures
        graph_consistent(walk_relations(st, items[i].0@, items[i].1@, k)),
        edges_forward(items, walk_relations(st, items[i].0@, items[i].1@, k)),
    decreases items[i].1@.len() - k,
{
    let rs = items[i].1@;
    let id = items[i].0@;
    if k < rs.len() {
        if rs[k].inverse {
            lemma_walk_relations(items, st, i, k + 1);
        } else if st.0.len() + fresh_count(st.0, id, rs[k].target@) > LIBRARY_GRAPH_NODE_CAP {
            lemma_walk_relations(items, st, i, k + 1);
        } else {
            lemma_add_relation(items, st, i, k);
            let st2 = add_relation(st, id, rs[k]);
            if st2.0.len() < LIBRARY_GRAPH_NODE_CAP {
                lemma_walk_relations(items, st2, i, k + 1);
            }
        }
    }
}

proof fn lemma_add_relation_len(st: GraphState, id: Seq<char>, r: Relation)
    ensures
        add_relation(st, id, r).0.len() == st.0.len() + fresh_count(st.0, id, r.target@),
{
    let t = r.target@;
    let ids1 = if st.0.contains(id) {
        st.0
    } else {
        st.0.push(id)
    };
    if !st.0.contains(id) {
        assert(ids1[st.0.len() as int] == id);
        if st.0.contains(t) {
            let m = choose|m: int| 0 <= m < st.0.len() && st.0[m] == t;
            assert(ids1[m] == t);
        }
        if ids1.contains(t) && !st.0.contains(t) {
            let m = choose|m: int| 0 <= m < ids1.len() && ids1[m] == t;
            assert(m == st.0.len());
        }
    }
}

proof fn lemma_walk_relations_cap(st: GraphState, id: Seq<char>, rs: Seq<Relation>, k: int)
    requires
        st.0.len() <= LIBRARY_GRAPH_NODE_CAP,
    ensures
        walk_relations(st, id, rs, k).0.len() <= LIBRARY_GRAPH_NODE_CAP,
    decreases rs.len() - k,
{
    if 0 <= k < rs.len() {
        if rs[k].inverse || st.0.len() + fresh_count(st.0, id, rs[k].target@)
            > LIBRARY_GRAPH_NODE_CAP {
            lemma_walk_relations_cap(st, id, rs, k + 1);
        } else {
            lemma_add_relation_len(st, id, rs[k]);
            let st2 = add_relation(st, id, rs[k]);
            if st2.0.len() < LIBRARY_GRAPH_NODE_CAP {
                lemma_walk_relations_cap(st2, id, rs, k + 1);
            }
        }
    }
}

proof fn lemma_walk_items(items: Seq<(String, Vec<Relation>)>, n: int)
    requires
        0 <= n <= items.len(),
    ensures
        graph_consistent(walk_items(items, n)),
        edges_forward(items, walk_items(items, n)),
        walk_items(items, n).0.len() <= LIBRARY_GRAPH_NODE_CAP,
    decreases n,
{
    if n > 0 {
        lemma_walk_items(items, n - 1);
        lemma_walk_relations(items, walk_items(items, n - 1), n - 1, 0);
        lemma_walk_relations_cap(walk_items(items, n - 1), items[n - 1].0@, items[n - 1].1@, 0);
    }
}

/// The library-wide map never holds more than `LIBRARY_GRAPH_NODE_CAP` nodes, lists no
/// node twice and draws at most one edge between any two nodes; both ends of each edge
/// are nodes of the map, and each edge is a forward relation recorded on the item it
/// starts from, labelled by its predicate.
pub proof fn law_library_graph_well_formed(items: Seq<(String, Vec<Relation>)>)
    ensures
        walk_items(items, items.len() as int).0.len() <= LIBRARY_GRAPH_NODE_CAP,
        graph_consistent(walk_items(items, items.len() as int)),
        edges_forward(items, walk_items(items, items.len() as int)),
{
    lemma_walk_items(items, items.len() as int);
}

/// An item's local neighbourhood has one node per distinct target, none twice, and one
/// edge to each of them from the item, in the same order.
pub proof fn law_expand_one_edge_per_target(id: Seq<char>, rs: Seq<Relation>, n: int)
    requires
        0 <= n <= rs.len(),
    ensures
        expand_edges(id, rs, n).len() == expand_targets(rs, n).len(),
        forall|a: int, b: int|
            0 <= a < b < expand_targets(rs, n).len() ==> #[trigger] expand_targets(rs, n)[a]
                != #[trigger] expand_targets(rs, n)[b],
        forall|j: int|
            0 <= j < expand_edges(id, rs, n).len() ==> (#[trigger] expand_edges(id, rs, n)[j]).0
                == id && expand_edges(id, rs, n)[j].1 == expand_targets(rs, n)[j],
    decreases n,
{
    if n > 0 {
        law_expand_one_edge_per_target(id, rs, n - 1);
        let p = expand_targets(rs, n - 1);
        let e = expand_edges(id, rs, n - 1);
        let t = expand_targets(rs, n);
        let f = expand_edges(id, rs, n);
        assert forall|a: int, b: int| 0 <= a < b < t.len() implies #[trigger] t[a]
            != #[trigger] t[b] by {
            if b < p.len() {
                assert(t[a] == p[a] && t[b] == p[b]);
            } else {
                assert(t[a] == p[a]);
            }
        }
        assert forall|j: int| 0 <= j < f.len() implies (#[trigger] f[j]).0 == id && f[j].1
            == t[j] by {
            if j < e.len() {
                assert(f[j] == e[j] && t[j] == p[j]);
            }
        }
    }
}

} // verus!
