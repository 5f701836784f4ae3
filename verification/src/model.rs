//! The graph as mathematics: its nodes, its links, and what each operation
//! makes of them.

use vstd::prelude::*;

use crate::error::Errors;
use crate::key::{event_key, origin_key, origin_of, NodeCode};
use crate::paths::{is_simple_path, path_sum, route_to_self, Links};

verus! {

/// Whether a weight can be a direct value or the negation of one.
pub open spec fn weight_in_range(w: i128) -> bool {
    -0x8000_0000_0000_0000 <= w <= 0x8000_0000_0000_0000
}

/// What a graph holds.
pub struct Model {
    pub nodes: Set<NodeCode>,
    pub links: Links,
}

impl Model {
    /// The graph without nodes and links.
    pub open spec fn empty() -> Model {
        Model { nodes: Set::empty(), links: Map::empty() }
    }

    /// Links come in pairs of opposite weight between two different nodes of
    /// the graph, and each weight is a direct value or the negation of one.
    pub open spec fn paired(self) -> bool {
        forall|a: NodeCode, b: NodeCode| #[trigger]
            self.links.contains_key((a, b)) ==> {
                &&& a != b
                &&& self.links.contains_key((b, a))
                &&& self.links[(b, a)] == -self.links[(a, b)]
                &&& weight_in_range(self.links[(a, b)])
                &&& self.nodes.contains(a)
                &&& self.nodes.contains(b)
            }
    }

    /// The origin of every timebase that the graph has a node of is a node of
    /// the graph.
    pub open spec fn has_origins(self) -> bool {
        forall|a: NodeCode| #[trigger] self.nodes.contains(a) ==> self.nodes.contains(origin_of(a))
    }

    /// The graph's invariant.
    pub open spec fn wf(self) -> bool {
        self.paired() && self.has_origins()
    }

    /// The stored value from `a` to `b`.
    pub open spec fn direct(self, a: NodeCode, b: NodeCode) -> Option<i128> {
        if self.links.contains_key((a, b)) {
            Some(self.links[(a, b)])
        } else {
            None
        }
    }

    /// Whether some simple path through the graph leads from `a` to `b`.
    pub open spec fn connected(self, a: NodeCode, b: NodeCode) -> bool {
        exists|p: Seq<NodeCode>| is_simple_path(self.nodes, self.links, a, b, p)
    }

    /// Whether two different simple paths through the graph lead from `a` to
    /// `b`.
    pub open spec fn ambiguous(self, a: NodeCode, b: NodeCode) -> bool {
        exists|p: Seq<NodeCode>, q: Seq<NodeCode>|
            is_simple_path(self.nodes, self.links, a, b, p) && is_simple_path(
                self.nodes,
                self.links,
                a,
                b,
                q,
            ) && p != q
    }

    /// A simple path through the graph from `a` to `b`, where there is one.
    pub open spec fn the_path(self, a: NodeCode, b: NodeCode) -> Seq<NodeCode> {
        choose|p: Seq<NodeCode>| is_simple_path(self.nodes, self.links, a, b, p)
    }

    /// The value from `a` to `b` that the graph implies: the sum along the
    /// simple path between them where there is exactly one, nothing where
    /// there is none, and an error where there are several. A path is made
    /// of nodes of the graph: from a node that the graph does not hold
    /// nothing is derived, not even the way to itself.
    pub open spec fn derived(self, a: NodeCode, b: NodeCode) -> Result<Option<int>, Errors> {
        if self.ambiguous(a, b) {
            Err(Errors::AmbiguousPath)
        } else if self.connected(a, b) {
            Ok(Some(path_sum(self.links, self.the_path(a, b))))
        } else {
            Ok(None)
        }
    }

    /// The best known value from `a` to `b`: the stored one, else the derived
    /// one.
    pub open spec fn best(self, a: NodeCode, b: NodeCode) -> Result<Option<int>, Errors> {
        match self.direct(a, b) {
            Some(w) => Ok(Some(w as int)),
            None => self.derived(a, b),
        }
    }

    /// The graph with the pair of links between `a` and `b` set to `w` and
    /// its negation; the two nodes and the origins of their timebases are
    /// nodes of it.
    pub open spec fn install(self, a: NodeCode, b: NodeCode, w: i64) -> Model {
        Model {
            nodes: self.nodes.insert(a).insert(b).insert(origin_of(a)).insert(origin_of(b)),
            links: self.links.insert((a, b), w as i128).insert((b, a), (-(w as int)) as i128),
        }
    }

    /// The graph without the pair of links between `a` and `b`.
    pub open spec fn uninstall(self, a: NodeCode, b: NodeCode) -> Model {
        Model { nodes: self.nodes, links: self.links.remove((a, b)).remove((b, a)) }
    }

    /// Adding a direct value: refused where one is stored, where one is
    /// derived or where the derivation is ambiguous; else installed. From a
    /// node to itself no value can be added, whether or not the graph holds
    /// the node: that delay is zero by what a delay is, so it counts as
    /// constrained.
    pub open spec fn add(self, a: NodeCode, b: NodeCode, w: i64) -> (Result<(), Errors>, Model) {
        if self.direct(a, b) is Some {
            (Err(Errors::AlreadyExists), self)
        } else if a == b {
            (Err(Errors::AlreadyConstrained(())), self)
        } else {
            match self.derived(a, b) {
                Ok(Some(_)) => (Err(Errors::AlreadyConstrained(())), self),
                Ok(None) => (Ok(()), self.install(a, b, w)),
                Err(e) => (Err(e), self),
            }
        }
    }

    /// Setting a direct value: as adding, but a stored value is overwritten.
    pub open spec fn update(self, a: NodeCode, b: NodeCode, w: i64) -> (Result<(), Errors>, Model) {
        if self.direct(a, b) is Some {
            (Ok(()), self.install(a, b, w))
        } else {
            self.add(a, b, w)
        }
    }

    /// Removing a direct value: refused where none is stored.
    pub open spec fn remove(self, a: NodeCode, b: NodeCode) -> (Result<(), Errors>, Model) {
        if self.direct(a, b) is Some {
            (Ok(()), self.uninstall(a, b))
        } else {
            (Err(Errors::NotFound), self)
        }
    }

    /// The nodes that a link from `a` leads to.
    pub open spec fn neighbors_of(self, a: NodeCode) -> Set<NodeCode> {
        Set::new(|b: NodeCode| self.links.contains_key((a, b)))
    }

    /// At most one simple path joins any two nodes.
    pub open spec fn consistent(self) -> bool {
        forall|a: NodeCode, b: NodeCode| !self.ambiguous(a, b)
    }
}

/// A row of a table of times: timebase, event, time.
pub type TimeRow = (usize, usize, i64);

/// A row of a table of delays: timebase and event of the first node, timebase
/// and event of the second, delay.
pub type DelayRow = (usize, usize, usize, usize, i64);

/// The graph after the times of `rows` were added to `m` in their order, or
/// the error of the first row that was refused.
pub open spec fn replay_times(m: Model, rows: Seq<TimeRow>) -> Result<Model, Errors>
    decreases rows.len(),
{
    if rows.len() == 0 {
        Ok(m)
    } else {
        let row = rows[0];
        let step = m.add(origin_key(row.0)@, event_key(row.0, row.1)@, row.2);
        match step.0 {
            Ok(_) => replay_times(step.1, rows.skip(1)),
            Err(e) => Err(e),
        }
    }
}

/// The graph after the delays of `rows` were added to `m` in their order, or
/// the error of the first row that was refused.
pub open spec fn replay_delays(m: Model, rows: Seq<DelayRow>) -> Result<Model, Errors>
    decreases rows.len(),
{
    if rows.len() == 0 {
        Ok(m)
    } else {
        let row = rows[0];
        let step = m.add(event_key(row.0, row.1)@, event_key(row.2, row.3)@, row.4);
        match step.0 {
            Ok(_) => replay_delays(step.1, rows.skip(1)),
            Err(e) => Err(e),
        }
    }
}

/// From a node of the graph to itself the derived value is zero: the node
/// alone is the one simple path.
pub proof fn derived_to_self(m: Model, a: NodeCode)
    requires
        m.nodes.contains(a),
    ensures
        m.derived(a, a) == Ok::<Option<int>, Errors>(Some(0)),
{
    assert(is_simple_path(m.nodes, m.links, a, a, seq![a]));
    assert forall|p: Seq<NodeCode>| is_simple_path(m.nodes, m.links, a, a, p) implies p == seq![
        a,
    ] by {
        route_to_self(m.links, a, p);
    }
    assert(path_sum(m.links, seq![a]) == 0);
}

/// From a node that the graph does not hold nothing is derived, to itself or
/// to any other node.
pub proof fn derived_from_missing(m: Model, a: NodeCode, b: NodeCode)
    requires
        !m.nodes.contains(a),
    ensures
        m.derived(a, b) == Ok::<Option<int>, Errors>(None),
        !m.connected(a, b),
        !m.ambiguous(a, b),
{
    assert forall|p: Seq<NodeCode>| !is_simple_path(m.nodes, m.links, a, b, p) by {
        if is_simple_path(m.nodes, m.links, a, b, p) {
            assert(m.nodes.contains(p[0]));
        }
    }
}

/// Installing a pair between two different nodes keeps the invariant.
pub proof fn install_keeps_wf(m: Model, a: NodeCode, b: NodeCode, w: i64)
    requires
        m.wf(),
        a != b,
    ensures
        m.install(a, b, w).wf(),
{
    let after = m.install(a, b, w);
    assert forall|x: NodeCode, y: NodeCode| #[trigger] after.links.contains_key((x, y)) implies {
        &&& x != y
        &&& after.links.contains_key((y, x))
        &&& after.links[(y, x)] == -after.links[(x, y)]
        &&& weight_in_range(after.links[(x, y)])
        &&& after.nodes.contains(x)
        &&& after.nodes.contains(y)
    } by {
        if (x, y) != (a, b) && (x, y) != (b, a) {
            assert(m.links.contains_key((x, y)));
            assert(m.links.contains_key((y, x)));
        }
    }
}

/// Removing a pair keeps the invariant.
pub proof fn uninstall_keeps_wf(m: Model, a: NodeCode, b: NodeCode)
    requires
        m.wf(),
    ensures
        m.uninstall(a, b).wf(),
{
    let after = m.uninstall(a, b);
    assert forall|x: NodeCode, y: NodeCode| #[trigger] after.links.contains_key((x, y)) implies {
        &&& x != y
        &&& after.links.contains_key((y, x))
        &&& after.links[(y, x)] == -after.links[(x, y)]
        &&& weight_in_range(after.links[(x, y)])
        &&& after.nodes.contains(x)
        &&& after.nodes.contains(y)
    } by {
        assert(m.links.contains_key((x, y)));
        assert(m.links.contains_key((y, x)));
    }
}

} // verus!
