//! The graph storage: a directed `petgraph` graph map whose nodes are node
//! codes and whose edge weights are integers. Nothing in this file is proved:
//! each contract states what `petgraph` documents.

use petgraph::algo::all_simple_paths;
use petgraph::graphmap::GraphMap;
use petgraph::Directed;
use std::collections::hash_map::RandomState;
use std::hash::BuildHasher;
use vstd::prelude::*;

use crate::key::NodeCode;
use crate::paths::{is_simple_route, path_views};

verus! {

/// `petgraph::graphmap::GraphMap`, as an opaque type.
#[verifier::external_type_specification]
#[verifier::external_body]
#[verifier::reject_recursive_types(N)]
#[verifier::reject_recursive_types(E)]
#[verifier::reject_recursive_types(Ty)]
#[verifier::reject_recursive_types(S)]
pub struct ExGraphMap<N, E, Ty, S>(GraphMap<N, E, Ty, S>) where S: BuildHasher;

/// `petgraph::Directed`, the marker of a graph with directed edges.
#[verifier::external_type_specification]
#[verifier::external_body]
pub struct ExDirected(Directed);

/// The storage type: directed, keyed by node codes, weighted by integers.
pub type Storage = GraphMap<NodeCode, i128, Directed, RandomState>;

/// The nodes that a graph map holds.
pub uninterp spec fn graph_nodes(g: Storage) -> Set<NodeCode>;

/// The directed edges that a graph map holds, each with its weight.
pub uninterp spec fn graph_edges(g: Storage) -> Map<(NodeCode, NodeCode), i128>;

/// `GraphMap::new`: a graph map without nodes and without edges.
#[verifier::external_body]
pub(crate) fn graph_new() -> (g: Storage)
    ensures
        graph_nodes(g) == Set::<NodeCode>::empty(),
        graph_edges(g) == (Map::<(NodeCode, NodeCode), i128>::empty()),
{
    GraphMap::new()
}

/// `GraphMap::clone`: a graph map with the same nodes and the same edges.
#[verifier::external_body]
pub(crate) fn graph_clone(g: &Storage) -> (copy: Storage)
    ensures
        graph_nodes(copy) == graph_nodes(*g),
        graph_edges(copy) == graph_edges(*g),
{
    g.clone()
}

/// `GraphMap::contains_node`: whether the node is in the graph.
#[verifier::external_body]
pub(crate) fn graph_contains_node(g: &Storage, a: NodeCode) -> (found: bool)
    ensures
        found == graph_nodes(*g).contains(a),
{
    g.contains_node(a)
}

/// `GraphMap::edge_weight`: the weight of the edge from `a` to `b`, if the
/// graph holds that edge.
#[verifier::external_body]
pub(crate) fn graph_edge_weight(g: &Storage, a: NodeCode, b: NodeCode) -> (w: Option<i128>)
    ensures
        w == (if graph_edges(*g).contains_key((a, b)) {
            Some(graph_edges(*g)[(a, b)])
        } else {
            None
        }),
{
    g.edge_weight(a, b).copied()
}

/// `GraphMap::add_node`: adds the node where it is missing; the edges stay.
#[verifier::external_body]
pub(crate) fn graph_add_node(g: &mut Storage, a: NodeCode)
    ensures
        graph_nodes(*final(g)) == graph_nodes(*old(g)).insert(a),
        graph_edges(*final(g)) == graph_edges(*old(g)),
{
    g.add_node(a);
}

/// `GraphMap::add_edge`: sets the weight of the edge from `a` to `b`, adds
/// both nodes where they are missing, and returns the weight that the edge
/// had before, if it was there.
#[verifier::external_body]
pub(crate) fn graph_add_edge(g: &mut Storage, a: NodeCode, b: NodeCode, w: i128) -> (before: Option<i128>)
    ensures
        graph_edges(*final(g)) == graph_edges(*old(g)).insert((a, b), w),
        graph_nodes(*final(g)) == graph_nodes(*old(g)).insert(a).insert(b),
        before == (if graph_edges(*old(g)).contains_key((a, b)) {
            Some(graph_edges(*old(g))[(a, b)])
        } else {
            None
        }),
{
    g.add_edge(a, b, w)
}

/// `GraphMap::remove_edge`: removes the edge from `a` to `b` and returns its
/// weight, if it was there; the nodes stay.
#[verifier::external_body]
pub(crate) fn graph_remove_edge(g: &mut Storage, a: NodeCode, b: NodeCode) -> (before: Option<i128>)
    ensures
        graph_edges(*final(g)) == graph_edges(*old(g)).remove((a, b)),
        graph_nodes(*final(g)) == graph_nodes(*old(g)),
        before == (if graph_edges(*old(g)).contains_key((a, b)) {
            Some(graph_edges(*old(g))[(a, b)])
        } else {
            None
        }),
{
    g.remove_edge(a, b)
}

/// `GraphMap::neighbors`: the nodes that an edge from `a` leads to, each once.
#[verifier::external_body]
pub(crate) fn graph_neighbors(g: &Storage, a: NodeCode) -> (out: Vec<NodeCode>)
    ensures
        out@.no_duplicates(),
        forall|b: NodeCode| out@.contains(b) <==> graph_edges(*g).contains_key((a, b)),
{
    g.neighbors(a).collect()
}

/// `petgraph::algo::all_simple_paths`, without bounds on the length: every
/// simple route from `from` to `to` over the graph's edges, each once. It is asked only where `from`
/// is a node of the graph, since it counts on a graph with a node, and only
/// between two different nodes, since from a node to itself it lists cycles.
#[verifier::external_body]
pub(crate) fn graph_simple_paths(g: &Storage, from: NodeCode, to: NodeCode) -> (paths: Vec<Vec<NodeCode>>)
    requires
        graph_nodes(*g).contains(from),
        from != to,
    ensures
        forall|p: Seq<NodeCode>|
            path_views(paths@).contains(p) <==> is_simple_route(graph_edges(*g), from, to, p),
        path_views(paths@).no_duplicates(),
{
    all_simple_paths::<Vec<NodeCode>, &Storage>(g, from, to, 0, None).collect()
}

} // verus!
