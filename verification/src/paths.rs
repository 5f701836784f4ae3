//! Simple routes over a set of weighted links, simple paths through a graph,
//! and their sums.

use vstd::prelude::*;

use crate::key::NodeCode;

verus! {

/// The stored links: each directed pair of nodes with its weight.
pub type Links = Map<(NodeCode, NodeCode), i128>;

/// Whether a link leads from the node at `i` of `path` to the next one.
pub open spec fn linked(links: Links, path: Seq<NodeCode>, i: int) -> bool {
    links.contains_key((path[i], path[i + 1]))
}

/// Whether each node of `path` but the last has a link to the next one.
pub open spec fn follows_links(links: Links, path: Seq<NodeCode>) -> bool {
    forall|i: int| 0 <= i < path.len() - 1 ==> #[trigger] linked(links, path, i)
}

/// Whether `path` is a simple route from `from` to `to` as far as the links
/// go: it starts at `from`, ends at `to`, visits no node twice and moves
/// along links only. Nothing is asked of whether its nodes belong to a graph:
/// a node alone is a route from itself to itself over any links.
pub open spec fn is_simple_route(links: Links, from: NodeCode, to: NodeCode, path: Seq<NodeCode>) -> bool {
    &&& path.len() >= 1
    &&& path[0] == from
    &&& path[path.len() - 1] == to
    &&& path.no_duplicates()
    &&& follows_links(links, path)
}

/// Whether `path` is a simple path from `from` to `to` through a graph with
/// these nodes and links: a simple route over the links, all of whose nodes
/// are nodes of the graph.
pub open spec fn is_simple_path(
    nodes: Set<NodeCode>,
    links: Links,
    from: NodeCode,
    to: NodeCode,
    path: Seq<NodeCode>,
) -> bool {
    &&& is_simple_route(links, from, to, path)
    &&& forall|i: int| 0 <= i < path.len() ==> nodes.contains(#[trigger] path[i])
}

/// Whether some simple route leads from `from` to `to` over the links.
pub open spec fn routed(links: Links, from: NodeCode, to: NodeCode) -> bool {
    exists|p: Seq<NodeCode>| is_simple_route(links, from, to, p)
}

/// Whether two different simple routes lead from `from` to `to` over the
/// links.
pub open spec fn forked(links: Links, from: NodeCode, to: NodeCode) -> bool {
    exists|p: Seq<NodeCode>, q: Seq<NodeCode>|
        is_simple_route(links, from, to, p) && is_simple_route(links, from, to, q) && p != q
}

/// Whether no two nodes have two different simple routes between them.
pub open spec fn tree_like(links: Links) -> bool {
    forall|a: NodeCode, b: NodeCode| !forked(links, a, b)
}

/// The sum of the weights of the links along `path`.
pub open spec fn path_sum(links: Links, path: Seq<NodeCode>) -> int
    decreases path.len(),
{
    if path.len() <= 1 {
        0
    } else {
        path_sum(links, path.drop_last()) + links[(path[path.len() - 2], path[path.len() - 1])]
    }
}

/// The paths that a list of vectors holds.
pub open spec fn path_views(paths: Seq<Vec<NodeCode>>) -> Seq<Seq<NodeCode>> {
    Seq::new(paths.len(), |i: int| paths[i]@)
}

/// The only simple route from a node to itself is the node alone.
pub proof fn route_to_self(links: Links, a: NodeCode, path: Seq<NodeCode>)
    ensures
        is_simple_route(links, a, a, path) <==> path == seq![a],
{
    if is_simple_route(links, a, a, path) {
        if path.len() > 1 {
            assert(path[0] == path[path.len() - 1]);
        }
        assert(path =~= seq![a]);
    }
    if path == seq![a] {
        assert(is_simple_route(links, a, a, path));
    }
}

} // verus!
