//! The guard keeps the graph free of second ways: where at most one simple
//! path joins any two nodes, it stays so after every guarded operation. The
//! first part is about links alone, the second about graphs.

use vstd::prelude::*;

use crate::key::NodeCode;
use crate::model::{install_keeps_wf, uninstall_keeps_wf, Model};
use crate::paths::{
    follows_links, forked, is_simple_path, is_simple_route, linked, route_to_self, routed,
    tree_like, Links,
};

verus! {

/// Whether `path` leads from `from` to `to` along links, with or without
/// visiting a node twice.
pub open spec fn is_walk(links: Links, from: NodeCode, to: NodeCode, path: Seq<NodeCode>) -> bool {
    &&& path.len() >= 1
    &&& path[0] == from
    &&& path[path.len() - 1] == to
    &&& follows_links(links, path)
}

/// `path` walked backwards.
pub open spec fn backwards(path: Seq<NodeCode>) -> Seq<NodeCode> {
    Seq::new(path.len(), |i: int| path[path.len() - 1 - i])
}

/// Whether `path` takes the link between `a` and `b`, in either direction,
/// from its node at `i`.
pub open spec fn crosses(path: Seq<NodeCode>, a: NodeCode, b: NodeCode, i: int) -> bool {
    &&& 0 <= i < path.len() - 1
    &&& (path[i] == a && path[i + 1] == b) || (path[i] == b && path[i + 1] == a)
}

/// Where a walk leads from one node to another, a simple route does too.
pub proof fn walk_gives_route(links: Links, from: NodeCode, to: NodeCode, path: Seq<NodeCode>)
    requires
        is_walk(links, from, to, path),
    ensures
        exists|q: Seq<NodeCode>| is_simple_route(links, from, to, q),
    decreases path.len(),
{
    if path.no_duplicates() {
        assert(is_simple_route(links, from, to, path));
    } else {
        let (i0, j0) = choose|i: int, j: int|
            0 <= i < path.len() && 0 <= j < path.len() && i != j && path[i] == path[j];
        let i = if i0 < j0 {
            i0
        } else {
            j0
        };
        let j = if i0 < j0 {
            j0
        } else {
            i0
        };
        let shorter = path.take(i) + path.skip(j);
        assert forall|k: int| 0 <= k < shorter.len() - 1 implies #[trigger] linked(
            links,
            shorter,
            k,
        ) by {
            if k + 1 < i {
                assert(linked(links, path, k));
            } else if k + 1 == i {
                assert(linked(links, path, k));
                assert(shorter[k + 1] == path[j]);
            } else {
                assert(linked(links, path, j + k - i));
            }
        }
        walk_gives_route(links, from, to, shorter);
    }
}

/// A walk can be walked backwards, since links come in pairs.
pub proof fn walk_backwards(m: Model, from: NodeCode, to: NodeCode, path: Seq<NodeCode>)
    requires
        m.wf(),
        is_walk(m.links, from, to, path),
    ensures
        is_walk(m.links, to, from, backwards(path)),
{
    let back = backwards(path);
    assert forall|k: int| 0 <= k < back.len() - 1 implies #[trigger] linked(m.links, back, k) by {
        assert(linked(m.links, path, path.len() - 2 - k));
    }
}

/// Two walks, the second starting where the first ends, make one walk.
pub proof fn walks_join(
    links: Links,
    from: NodeCode,
    via: NodeCode,
    to: NodeCode,
    first: Seq<NodeCode>,
    second: Seq<NodeCode>,
)
    requires
        is_walk(links, from, via, first),
        is_walk(links, via, to, second),
    ensures
        is_walk(links, from, to, first + second.skip(1)),
{
    let joined = first + second.skip(1);
    assert forall|k: int| 0 <= k < joined.len() - 1 implies #[trigger] linked(links, joined, k) by {
        if k + 1 < first.len() {
            assert(linked(links, first, k));
        } else {
            assert(linked(links, second, k - first.len() + 1));
        }
    }
}

/// Where a simple route leads from `a` to `b`, one leads back.
pub proof fn routed_both_ways(m: Model, a: NodeCode, b: NodeCode)
    requires
        m.wf(),
        routed(m.links, a, b),
    ensures
        routed(m.links, b, a),
{
    let p = choose|p: Seq<NodeCode>| is_simple_route(m.links, a, b, p);
    walk_backwards(m, a, b, p);
    walk_gives_route(m.links, b, a, backwards(p));
}

/// A simple route over the links with the pair between `a` and `b`
/// installed, which does not take that pair, is a simple route over the
/// links without it.
proof fn route_beside_the_pair(
    m: Model,
    a: NodeCode,
    b: NodeCode,
    w: i64,
    from: NodeCode,
    to: NodeCode,
    path: Seq<NodeCode>,
)
    requires
        is_simple_route(m.install(a, b, w).links, from, to, path),
        forall|i: int| !crosses(path, a, b, i),
    ensures
        is_simple_route(m.links, from, to, path),
{
    assert forall|k: int| 0 <= k < path.len() - 1 implies #[trigger] linked(m.links, path, k) by {
        assert(linked(m.install(a, b, w).links, path, k));
        assert(!crosses(path, a, b, k));
    }
}

/// A simple route over the links with the pair between `a` and `b`
/// installed, which takes that pair at `i`, is made of a simple route over
/// the links without the pair up to `i` and another from `i + 1` on.
proof fn route_through_the_pair(
    m: Model,
    a: NodeCode,
    b: NodeCode,
    w: i64,
    from: NodeCode,
    to: NodeCode,
    path: Seq<NodeCode>,
    i: int,
)
    requires
        a != b,
        is_simple_route(m.install(a, b, w).links, from, to, path),
        crosses(path, a, b, i),
    ensures
        is_simple_route(m.links, from, path[i], path.take(i + 1)),
        is_simple_route(m.links, path[i + 1], to, path.skip(i + 1)),
{
    let after = m.install(a, b, w).links;
    let head = path.take(i + 1);
    let tail = path.skip(i + 1);
    assert forall|k: int| 0 <= k < head.len() - 1 implies #[trigger] linked(m.links, head, k) by {
        assert(linked(after, path, k));
        assert(path[k] != path[i + 1]);
        assert(path[k + 1] != path[i + 1]);
    }
    assert forall|k: int| 0 <= k < tail.len() - 1 implies #[trigger] linked(m.links, tail, k) by {
        assert(linked(after, path, k + i + 1));
        assert(path[k + i + 1] != path[i]);
        assert(path[k + i + 2] != path[i]);
    }
}

/// Where one simple route takes the pair between `a` and `b` and another
/// leads to the same node beside it, a route joined the ends of the pair
/// before the pair was installed.
proof fn way_round_the_pair(
    m: Model,
    a: NodeCode,
    b: NodeCode,
    w: i64,
    from: NodeCode,
    to: NodeCode,
    through: Seq<NodeCode>,
    i: int,
    beside: Seq<NodeCode>,
)
    requires
        m.wf(),
        a != b,
        is_simple_route(m.install(a, b, w).links, from, to, through),
        crosses(through, a, b, i),
        is_simple_route(m.links, from, to, beside),
    ensures
        routed(m.links, through[i], through[i + 1]),
{
    let u = through[i];
    let v = through[i + 1];
    route_through_the_pair(m, a, b, w, from, to, through, i);
    let head = through.take(i + 1);
    let tail = through.skip(i + 1);
    walk_backwards(m, from, u, head);
    walk_backwards(m, v, to, tail);
    walks_join(m.links, u, from, to, backwards(head), beside);
    let start = backwards(head) + beside.skip(1);
    walks_join(m.links, u, to, v, start, backwards(tail));
    walk_gives_route(m.links, u, v, start + backwards(tail).skip(1));
}

/// Where two simple routes from one node take the pair between `a` and `b`
/// in opposite directions, a route joined the ends of the pair before the
/// pair was installed.
proof fn way_through_both_ends(
    m: Model,
    a: NodeCode,
    b: NodeCode,
    w: i64,
    from: NodeCode,
    to: NodeCode,
    p: Seq<NodeCode>,
    i: int,
    q: Seq<NodeCode>,
    j: int,
)
    requires
        m.wf(),
        a != b,
        is_simple_route(m.install(a, b, w).links, from, to, p),
        is_simple_route(m.install(a, b, w).links, from, to, q),
        crosses(p, a, b, i),
        crosses(q, a, b, j),
    ensures
        routed(m.links, p[i], q[j]),
{
    let u = p[i];
    let v = q[j];
    route_through_the_pair(m, a, b, w, from, to, p, i);
    route_through_the_pair(m, a, b, w, from, to, q, j);
    let p_head = p.take(i + 1);
    let q_head = q.take(j + 1);
    walk_backwards(m, from, u, p_head);
    walks_join(m.links, u, from, v, backwards(p_head), q_head);
    walk_gives_route(m.links, u, v, backwards(p_head) + q_head.skip(1));
}

/// Over tree-like links that join `a` and `b` by no route, installing the
/// pair between them leaves at most one simple route between any two nodes.
proof fn one_route_after_install(
    m: Model,
    a: NodeCode,
    b: NodeCode,
    w: i64,
    from: NodeCode,
    to: NodeCode,
    p: Seq<NodeCode>,
    q: Seq<NodeCode>,
)
    requires
        m.wf(),
        tree_like(m.links),
        a != b,
        !routed(m.links, a, b),
        !routed(m.links, b, a),
        is_simple_route(m.install(a, b, w).links, from, to, p),
        is_simple_route(m.install(a, b, w).links, from, to, q),
    ensures
        p == q,
{
    let p_crosses = exists|i: int| crosses(p, a, b, i);
    let q_crosses = exists|j: int| crosses(q, a, b, j);
    assert(!forked(m.links, from, to));
    if !p_crosses && !q_crosses {
        route_beside_the_pair(m, a, b, w, from, to, p);
        route_beside_the_pair(m, a, b, w, from, to, q);
    } else if p_crosses && !q_crosses {
        let i = choose|i: int| crosses(p, a, b, i);
        route_beside_the_pair(m, a, b, w, from, to, q);
        way_round_the_pair(m, a, b, w, from, to, p, i, q);
    } else if !p_crosses && q_crosses {
        let j = choose|j: int| crosses(q, a, b, j);
        route_beside_the_pair(m, a, b, w, from, to, p);
        way_round_the_pair(m, a, b, w, from, to, q, j, p);
    } else {
        let i = choose|i: int| crosses(p, a, b, i);
        let j = choose|j: int| crosses(q, a, b, j);
        if p[i] != q[j] {
            way_through_both_ends(m, a, b, w, from, to, p, i, q, j);
        } else {
            route_through_the_pair(m, a, b, w, from, to, p, i);
            route_through_the_pair(m, a, b, w, from, to, q, j);
            assert(!forked(m.links, from, p[i]));
            assert(!forked(m.links, p[i + 1], to));
            assert(p.take(i + 1) == q.take(j + 1));
            assert(p.take(i + 1).len() == i + 1);
            assert(q.take(j + 1).len() == j + 1);
            assert(p.skip(i + 1) == q.skip(j + 1));
            assert(p =~= p.take(i + 1) + p.skip(i + 1));
            assert(q =~= q.take(j + 1) + q.skip(j + 1));
        }
    }
}

/// Tree-like links stay tree-like when a pair is installed between two
/// different nodes that no route joined.
pub proof fn install_keeps_tree_like(m: Model, a: NodeCode, b: NodeCode, w: i64)
    requires
        m.wf(),
        tree_like(m.links),
        a != b,
        !routed(m.links, a, b),
    ensures
        tree_like(m.install(a, b, w).links),
{
    if routed(m.links, b, a) {
        routed_both_ways(m, b, a);
    }
    let after = m.install(a, b, w);
    assert forall|x: NodeCode, y: NodeCode| !forked(after.links, x, y) by {
        if forked(after.links, x, y) {
            let (p, q) = choose|p: Seq<NodeCode>, q: Seq<NodeCode>|
                is_simple_route(after.links, x, y, p) && is_simple_route(after.links, x, y, q) && p
                    != q;
            one_route_after_install(m, a, b, w, x, y, p, q);
        }
    }
}

/// Graphs with links between the same pairs of nodes have the same simple
/// routes, whatever the weights.
pub proof fn same_pairs_same_routes(m: Model, n: Model)
    requires
        m.links.dom() == n.links.dom(),
    ensures
        forall|x: NodeCode, y: NodeCode, p: Seq<NodeCode>|
            is_simple_route(m.links, x, y, p) <==> is_simple_route(n.links, x, y, p),
        tree_like(m.links) <==> tree_like(n.links),
{
    assert forall|x: NodeCode, y: NodeCode, p: Seq<NodeCode>|
        is_simple_route(m.links, x, y, p) <==> is_simple_route(n.links, x, y, p) by {
        if is_simple_route(m.links, x, y, p) {
            route_with_more_links(m.links, n.links, x, y, p);
        }
        if is_simple_route(n.links, x, y, p) {
            route_with_more_links(n.links, m.links, x, y, p);
        }
    }
    if tree_like(m.links) {
        assert forall|x: NodeCode, y: NodeCode| !forked(n.links, x, y) by {
            assert(!forked(m.links, x, y));
        }
    }
    if tree_like(n.links) {
        assert forall|x: NodeCode, y: NodeCode| !forked(m.links, x, y) by {
            assert(!forked(n.links, x, y));
        }
    }
}

/// A simple route stays one over links that hold a link wherever the first
/// hold one.
pub proof fn route_with_more_links(
    links: Links,
    more: Links,
    from: NodeCode,
    to: NodeCode,
    path: Seq<NodeCode>,
)
    requires
        links.dom().subset_of(more.dom()),
        is_simple_route(links, from, to, path),
    ensures
        is_simple_route(more, from, to, path),
{
    assert forall|k: int| 0 <= k < path.len() - 1 implies #[trigger] linked(more, path, k) by {
        assert(linked(links, path, k));
    }
}

/// A walk stays one over links that hold a link wherever the first hold one.
pub proof fn walk_with_more_links(
    links: Links,
    more: Links,
    from: NodeCode,
    to: NodeCode,
    path: Seq<NodeCode>,
)
    requires
        links.dom().subset_of(more.dom()),
        is_walk(links, from, to, path),
    ensures
        is_walk(more, from, to, path),
{
    assert forall|k: int| 0 <= k < path.len() - 1 implies #[trigger] linked(more, path, k) by {
        assert(linked(links, path, k));
    }
}

/// Tree-like links stay tree-like when a pair is removed.
pub proof fn uninstall_keeps_tree_like(m: Model, a: NodeCode, b: NodeCode)
    requires
        tree_like(m.links),
    ensures
        tree_like(m.uninstall(a, b).links),
{
    let after = m.uninstall(a, b);
    assert forall|x: NodeCode, y: NodeCode| !forked(after.links, x, y) by {
        if forked(after.links, x, y) {
            let (p, q) = choose|p: Seq<NodeCode>, q: Seq<NodeCode>|
                is_simple_route(after.links, x, y, p) && is_simple_route(after.links, x, y, q) && p
                    != q;
            route_with_more_links(after.links, m.links, x, y, p);
            route_with_more_links(after.links, m.links, x, y, q);
            assert(forked(m.links, x, y));
        }
    }
}

/// Where a simple route joins `from` and `to` once the pair between `a` and
/// `b` is installed, and none did before, a route joins `a` and `b` once
/// the pair between `from` and `to` is installed instead.
proof fn pair_closes_the_gap(
    m: Model,
    a: NodeCode,
    b: NodeCode,
    w: i64,
    from: NodeCode,
    to: NodeCode,
    v: i64,
)
    requires
        m.wf(),
        a != b,
        from != to,
        !routed(m.links, from, to),
        routed(m.install(a, b, w).links, from, to),
    ensures
        routed(m.install(from, to, v).links, a, b),
{
    let p = choose|p: Seq<NodeCode>| is_simple_route(m.install(a, b, w).links, from, to, p);
    if forall|i: int| !crosses(p, a, b, i) {
        route_beside_the_pair(m, a, b, w, from, to, p);
    } else {
        let i = choose|i: int| crosses(p, a, b, i);
        route_through_the_pair(m, a, b, w, from, to, p, i);
        let other = m.install(from, to, v);
        install_keeps_wf(m, from, to, v);
        let head = p.take(i + 1);
        let tail = p.skip(i + 1);
        walk_backwards(m, from, p[i], head);
        walk_backwards(m, p[i + 1], to, tail);
        walk_with_more_links(m.links, other.links, p[i], from, backwards(head));
        walk_with_more_links(m.links, other.links, to, p[i + 1], backwards(tail));
        let step = seq![from, to];
        assert forall|k: int| 0 <= k < step.len() - 1 implies #[trigger] linked(
            other.links,
            step,
            k,
        ) by {
            assert(other.links.contains_key((from, to)));
        }
        walks_join(other.links, p[i], from, to, backwards(head), step);
        let start = backwards(head) + step.skip(1);
        walks_join(other.links, p[i], to, p[i + 1], start, backwards(tail));
        walk_gives_route(other.links, p[i], p[i + 1], start + backwards(tail).skip(1));
        if p[i] == b {
            routed_both_ways(other, b, a);
        }
    }
}

/// In a graph whose links join nodes of the graph, the simple paths from a
/// node of the graph are the simple routes from it over the links.
pub proof fn paths_are_routes_from_nodes(m: Model, a: NodeCode, b: NodeCode, p: Seq<NodeCode>)
    requires
        m.paired(),
    ensures
        is_simple_path(m.nodes, m.links, a, b, p) <==> m.nodes.contains(a) && is_simple_route(
            m.links,
            a,
            b,
            p,
        ),
{
    if m.nodes.contains(a) && is_simple_route(m.links, a, b, p) {
        assert forall|i: int| 0 <= i < p.len() implies m.nodes.contains(#[trigger] p[i]) by {
            if i > 0 {
                assert(linked(m.links, p, i - 1));
                assert(m.links.contains_key((p[i - 1], p[i])));
            }
        }
    }
    if is_simple_path(m.nodes, m.links, a, b, p) {
        assert(m.nodes.contains(p[0]));
    }
}

/// In a graph whose links join nodes of the graph: a simple path leads from
/// `a` to `b` where `a` is a node and a simple route leads there; two lead
/// there where two routes do.
pub proof fn connected_is_routed(m: Model, a: NodeCode, b: NodeCode)
    requires
        m.paired(),
    ensures
        m.connected(a, b) <==> m.nodes.contains(a) && routed(m.links, a, b),
        a != b ==> (m.connected(a, b) <==> routed(m.links, a, b)),
        m.ambiguous(a, b) <==> forked(m.links, a, b),
{
    if m.connected(a, b) {
        let p = choose|p: Seq<NodeCode>| is_simple_path(m.nodes, m.links, a, b, p);
        paths_are_routes_from_nodes(m, a, b, p);
    }
    if routed(m.links, a, b) {
        let p = choose|p: Seq<NodeCode>| is_simple_route(m.links, a, b, p);
        paths_are_routes_from_nodes(m, a, b, p);
        if a != b {
            assert(linked(m.links, p, 0));
            assert(m.links.contains_key((p[0], p[1])));
        }
    }
    if m.ambiguous(a, b) {
        let (p, q) = choose|p: Seq<NodeCode>, q: Seq<NodeCode>|
            is_simple_path(m.nodes, m.links, a, b, p) && is_simple_path(m.nodes, m.links, a, b, q)
                && p != q;
        assert(is_simple_route(m.links, a, b, p) && is_simple_route(m.links, a, b, q));
    }
    if forked(m.links, a, b) {
        let (p, q) = choose|p: Seq<NodeCode>, q: Seq<NodeCode>|
            is_simple_route(m.links, a, b, p) && is_simple_route(m.links, a, b, q) && p != q;
        if a == b {
            route_to_self(m.links, a, p);
            route_to_self(m.links, a, q);
        } else {
            assert(linked(m.links, p, 0));
            assert(m.links.contains_key((p[0], p[1])));
            paths_are_routes_from_nodes(m, a, b, p);
            paths_are_routes_from_nodes(m, a, b, q);
        }
    }
}

/// A graph whose links join nodes of the graph is consistent where its links
/// are tree-like.
pub proof fn consistent_is_tree_like(m: Model)
    requires
        m.paired(),
    ensures
        m.consistent() <==> tree_like(m.links),
{
    if m.consistent() {
        assert forall|a: NodeCode, b: NodeCode| !forked(m.links, a, b) by {
            connected_is_routed(m, a, b);
            assert(!m.ambiguous(a, b));
        }
    }
    if tree_like(m.links) {
        assert forall|a: NodeCode, b: NodeCode| !m.ambiguous(a, b) by {
            connected_is_routed(m, a, b);
            assert(!forked(m.links, a, b));
        }
    }
}

/// Where a simple path leads from `a` to `b`, one leads back.
pub proof fn connected_both_ways(m: Model, a: NodeCode, b: NodeCode)
    requires
        m.wf(),
        m.connected(a, b),
    ensures
        m.connected(b, a),
{
    connected_is_routed(m, a, b);
    connected_is_routed(m, b, a);
    routed_both_ways(m, a, b);
    let p = choose|p: Seq<NodeCode>| is_simple_path(m.nodes, m.links, a, b, p);
    assert(m.nodes.contains(p[p.len() - 1]));
}

/// A consistent graph stays consistent when a pair is installed between two
/// different nodes that no path connected.
pub proof fn install_keeps_consistent(m: Model, a: NodeCode, b: NodeCode, w: i64)
    requires
        m.wf(),
        m.consistent(),
        a != b,
        !m.connected(a, b),
    ensures
        m.install(a, b, w).consistent(),
{
    consistent_is_tree_like(m);
    connected_is_routed(m, a, b);
    install_keeps_tree_like(m, a, b, w);
    install_keeps_wf(m, a, b, w);
    consistent_is_tree_like(m.install(a, b, w));
}

/// A consistent graph stays consistent when a pair is removed.
pub proof fn uninstall_keeps_consistent(m: Model, a: NodeCode, b: NodeCode)
    requires
        m.wf(),
        m.consistent(),
    ensures
        m.uninstall(a, b).consistent(),
{
    consistent_is_tree_like(m);
    uninstall_keeps_tree_like(m, a, b);
    uninstall_keeps_wf(m, a, b);
    consistent_is_tree_like(m.uninstall(a, b));
}

/// Adding, updating and removing keep a consistent graph consistent: the
/// guard lets no second path in.
pub proof fn operations_keep_consistent(m: Model, a: NodeCode, b: NodeCode, w: i64)
    requires
        m.wf(),
        m.consistent(),
    ensures
        m.add(a, b, w).1.consistent(),
        m.update(a, b, w).1.consistent(),
        m.remove(a, b).1.consistent(),
{
    if m.add(a, b, w).0 is Ok {
        install_keeps_consistent(m, a, b, w);
    }
    if m.direct(a, b) is Some {
        assert(m.links.contains_key((a, b)));
        assert(m.links.contains_key((b, a)));
        assert(m.install(a, b, w).links.dom() =~= m.links.dom());
        same_pairs_same_routes(m, m.install(a, b, w));
        consistent_is_tree_like(m);
        install_keeps_wf(m, a, b, w);
        consistent_is_tree_like(m.install(a, b, w));
    }
    uninstall_keeps_consistent(m, a, b);
}

/// Two additions that both succeed in one order both succeed in the other
/// order, and leave the same graph.
pub proof fn additions_commute(
    m: Model,
    a: NodeCode,
    b: NodeCode,
    v: i64,
    c: NodeCode,
    d: NodeCode,
    w: i64,
)
    requires
        m.wf(),
        m.add(a, b, v).0 is Ok,
        m.add(a, b, v).1.add(c, d, w).0 is Ok,
    ensures
        m.add(c, d, w).0 is Ok,
        m.add(c, d, w).1.add(a, b, v).0 is Ok,
        m.add(c, d, w).1.add(a, b, v).1 == m.add(a, b, v).1.add(c, d, w).1,
{
    let first = m.install(a, b, v);
    let second = m.install(c, d, w);
    install_keeps_wf(m, a, b, v);
    install_keeps_wf(m, c, d, w);
    connected_is_routed(m, a, b);
    connected_is_routed(m, c, d);
    connected_is_routed(first, c, d);
    connected_is_routed(second, a, b);
    assert(!routed(m.links, a, b));
    assert(!routed(first.links, c, d));
    assert(!m.links.contains_key((c, d)));
    if routed(m.links, c, d) {
        let p = choose|p: Seq<NodeCode>| is_simple_route(m.links, c, d, p);
        route_with_more_links(m.links, first.links, c, d, p);
    }
    if forked(m.links, c, d) {
        let (p, q) = choose|p: Seq<NodeCode>, q: Seq<NodeCode>|
            is_simple_route(m.links, c, d, p) && is_simple_route(m.links, c, d, q) && p != q;
        assert(routed(m.links, c, d));
    }
    assert(m.add(c, d, w).0 is Ok);
    assert(!second.links.contains_key((a, b))) by {
        if (a, b) == (d, c) {
            assert(first.links.contains_key((b, a)));
        }
    }
    if routed(second.links, a, b) {
        pair_closes_the_gap(m, c, d, w, a, b, v);
    }
    if forked(second.links, a, b) {
        let (p, q) = choose|p: Seq<NodeCode>, q: Seq<NodeCode>|
            is_simple_route(second.links, a, b, p) && is_simple_route(second.links, a, b, q) && p
                != q;
        assert(routed(second.links, a, b));
    }
    let left = second.install(a, b, v);
    let right = first.install(c, d, w);
    assert(left.nodes =~= right.nodes);
    assert(left.links =~= right.links);
}

/// In a consistent graph no derivation is ambiguous.
pub proof fn consistent_is_never_ambiguous(m: Model, a: NodeCode, b: NodeCode)
    requires
        m.consistent(),
    ensures
        m.derived(a, b) is Ok,
        m.best(a, b) is Ok,
{
    assert(!m.ambiguous(a, b));
}

/// The empty graph is well formed and consistent.
pub proof fn empty_is_consistent()
    ensures
        Model::empty().wf(),
        Model::empty().consistent(),
{
    let m = Model::empty();
    assert forall|x: NodeCode, y: NodeCode| !m.ambiguous(x, y) by {
        if m.ambiguous(x, y) {
            let (p, q) = choose|p: Seq<NodeCode>, q: Seq<NodeCode>|
                is_simple_path(m.nodes, m.links, x, y, p) && is_simple_path(
                    m.nodes,
                    m.links,
                    x,
                    y,
                    q,
                ) && p != q;
            assert(m.nodes.contains(p[0]));
        }
    }
}

} // verus!
