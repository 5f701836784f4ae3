//! What holds of the operations, whatever the graph and the values.

use vstd::prelude::*;

use crate::error::Errors;
use crate::key::{event_key, origin_key, NodeCode};
use crate::model::{derived_from_missing, install_keeps_wf, uninstall_keeps_wf, Model};
use crate::paths::{is_simple_path, route_to_self};

verus! {

/// A refused operation leaves the graph as it was.
pub proof fn refusal_changes_nothing(m: Model, a: NodeCode, b: NodeCode, w: i64)
    ensures
        m.add(a, b, w).0 is Err ==> m.add(a, b, w).1 == m,
        m.update(a, b, w).0 is Err ==> m.update(a, b, w).1 == m,
        m.remove(a, b).0 is Err ==> m.remove(a, b).1 == m,
{
}

/// The guard, in its order: a stored value refuses with `AlreadyExists`;
/// else a value from a node to itself, or a derived one, refuses with
/// `AlreadyConstrained`; else an ambiguous derivation refuses with
/// `AmbiguousPath`; else the value is added.
pub proof fn guard_order(m: Model, a: NodeCode, b: NodeCode, w: i64)
    ensures
        m.direct(a, b) is Some ==> m.add(a, b, w).0 == Err::<(), Errors>(Errors::AlreadyExists),
        m.direct(a, b) is None && a == b ==> m.add(a, b, w).0 == Err::<(), Errors>(
            Errors::AlreadyConstrained(()),
        ),
        m.direct(a, b) is None && m.derived(a, b) is Ok && m.derived(a, b)->Ok_0 is Some ==> m.add(
            a,
            b,
            w,
        ).0 == Err::<(), Errors>(Errors::AlreadyConstrained(())),
        m.direct(a, b) is None && m.derived(a, b) is Err ==> m.add(a, b, w).0 == Err::<
            (),
            Errors,
        >(Errors::AmbiguousPath),
        m.add(a, b, w).0 is Ok <==> m.direct(a, b) is None && a != b && m.derived(a, b) == Ok::<
            Option<int>,
            Errors,
        >(None),
        m.add(a, b, w).0 is Ok ==> m.add(a, b, w).1 == m.install(a, b, w),
{
    if a == b && m.ambiguous(a, b) {
        let (p, q) = choose|p: Seq<NodeCode>, q: Seq<NodeCode>|
            is_simple_path(m.nodes, m.links, a, b, p) && is_simple_path(m.nodes, m.links, a, b, q)
                && p != q;
        route_to_self(m.links, a, p);
        route_to_self(m.links, a, q);
    }
}

/// Every operation keeps the graph's invariant.
pub proof fn operations_keep_wf(m: Model, a: NodeCode, b: NodeCode, w: i64)
    requires
        m.wf(),
    ensures
        m.add(a, b, w).1.wf(),
        m.update(a, b, w).1.wf(),
        m.remove(a, b).1.wf(),
{
    if m.direct(a, b) is Some {
        assert(m.links.contains_key((a, b)));
    }
    if a != b {
        install_keeps_wf(m, a, b, w);
    }
    uninstall_keeps_wf(m, a, b);
}

/// On the empty graph nothing is stored and nothing is derived, from a node
/// to another or to itself.
pub proof fn empty_graph_knows_nothing(a: NodeCode, b: NodeCode)
    ensures
        Model::empty().direct(a, b) is None,
        Model::empty().derived(a, b) == Ok::<Option<int>, Errors>(None),
        Model::empty().best(a, b) == Ok::<Option<int>, Errors>(None),
{
    derived_from_missing(Model::empty(), a, b);
}

/// After a value was added between two nodes, it is the stored value and the
/// best known value from the first to the second, and its negation is the
/// stored value back.
pub proof fn added_value_is_read_back(m: Model, a: NodeCode, b: NodeCode, w: i64)
    requires
        m.add(a, b, w).0 is Ok,
    ensures
        m.add(a, b, w).1.direct(a, b) == Some(w as i128),
        m.add(a, b, w).1.direct(b, a) == Some((-(w as int)) as i128),
        m.add(a, b, w).1.best(a, b) == Ok::<Option<int>, Errors>(Some(w as int)),
        m.add(a, b, w).1.best(b, a) == Ok::<Option<int>, Errors>(Some(-(w as int))),
{
}

/// After `add_time` stored a time for an event, `lookup_time` and `get_time`
/// return that time.
pub proof fn direct_round_trip(m: Model, timebase: usize, event: usize, time: i64)
    requires
        m.add(origin_key(timebase)@, event_key(timebase, event)@, time).0 is Ok,
    ensures
        m.add(origin_key(timebase)@, event_key(timebase, event)@, time).1.direct(
            origin_key(timebase)@,
            event_key(timebase, event)@,
        ) == Some(time as i128),
        m.add(origin_key(timebase)@, event_key(timebase, event)@, time).1.best(
            origin_key(timebase)@,
            event_key(timebase, event)@,
        ) == Ok::<Option<int>, Errors>(Some(time as int)),
{
    added_value_is_read_back(m, origin_key(timebase)@, event_key(timebase, event)@, time);
}

/// Updating where no value is stored is adding, so a value that is only
/// derived is refused with `AlreadyConstrained`; updating where a value is
/// stored succeeds and replaces that value and the one back, and nothing
/// else.
pub proof fn update_semantics(m: Model, a: NodeCode, b: NodeCode, w: i64)
    requires
        m.wf(),
    ensures
        m.direct(a, b) is None ==> m.update(a, b, w) == m.add(a, b, w),
        m.direct(a, b) is None && m.derived(a, b) is Ok && m.derived(a, b)->Ok_0 is Some
            ==> m.update(a, b, w) == (Err::<(), Errors>(Errors::AlreadyConstrained(())), m),
        m.direct(a, b) is Some ==> {
            &&& m.update(a, b, w).0 is Ok
            &&& m.update(a, b, w).1.direct(a, b) == Some(w as i128)
            &&& m.update(a, b, w).1.direct(b, a) == Some((-(w as int)) as i128)
            &&& m.update(a, b, w).1.nodes == m.nodes
            &&& m.update(a, b, w).1.links.dom() == m.links.dom()
            &&& forall|x: NodeCode, y: NodeCode|
                (x, y) != (a, b) && (x, y) != (b, a) ==> m.update(a, b, w).1.direct(x, y)
                    == m.direct(x, y)
        },
{
    if m.direct(a, b) is Some {
        assert(m.links.contains_key((a, b)));
        assert(m.links.contains_key((b, a)));
        let after = m.update(a, b, w).1;
        assert(after.nodes =~= m.nodes);
        assert(after.links.dom() =~= m.links.dom());
    }
}

/// `update_time` on an event without a stored time is `add_time`; on one
/// with a stored time it overwrites; on one whose time is only derived it is
/// refused with `AlreadyConstrained`.
pub proof fn update_time_semantics(m: Model, timebase: usize, event: usize, time: i64)
    requires
        m.wf(),
    ensures
        ({
            let a = origin_key(timebase)@;
            let b = event_key(timebase, event)@;
            &&& m.direct(a, b) is None ==> m.update(a, b, time) == m.add(a, b, time)
            &&& m.direct(a, b) is Some ==> m.update(a, b, time).0 is Ok && m.update(
                a,
                b,
                time,
            ).1.direct(a, b) == Some(time as i128)
            &&& m.direct(a, b) is None && m.derived(a, b) is Ok && m.derived(a, b)->Ok_0 is Some
                ==> m.update(a, b, time) == (Err::<(), Errors>(Errors::AlreadyConstrained(())), m)
        }),
{
    update_semantics(m, origin_key(timebase)@, event_key(timebase, event)@, time);
}

/// A removed value is stored no more, in either direction; the nodes and all
/// other values stay.
pub proof fn removed_value_is_gone(m: Model, a: NodeCode, b: NodeCode)
    requires
        m.remove(a, b).0 is Ok,
    ensures
        m.remove(a, b).1.direct(a, b) is None,
        m.remove(a, b).1.direct(b, a) is None,
        m.remove(a, b).1.nodes == m.nodes,
        forall|x: NodeCode, y: NodeCode|
            (x, y) != (a, b) && (x, y) != (b, a) ==> m.remove(a, b).1.direct(x, y) == m.direct(
                x,
                y,
            ),
{
}

/// Two pairs between different pairs of nodes can be installed in either
/// order: the graph that results is the same.
pub proof fn install_order_is_irrelevant(
    m: Model,
    a: NodeCode,
    b: NodeCode,
    v: i64,
    c: NodeCode,
    d: NodeCode,
    w: i64,
)
    requires
        (a, b) != (c, d),
        (a, b) != (d, c),
    ensures
        m.install(a, b, v).install(c, d, w) == m.install(c, d, w).install(a, b, v),
{
    let left = m.install(a, b, v).install(c, d, w);
    let right = m.install(c, d, w).install(a, b, v);
    assert(left.nodes =~= right.nodes);
    assert(left.links =~= right.links);
}

} // verus!
