//! What holds of derived values: a stored value is the derived one, and the
//! value back is the negation of the value forth.

use vstd::prelude::*;

use crate::consistency::{
    backwards, install_keeps_consistent, route_with_more_links, walk_backwards,
};
use crate::error::Errors;
use crate::key::{event_key, origin_key, NodeCode};
use crate::model::Model;
use crate::paths::{follows_links, is_simple_path, linked, path_sum, Links};

verus! {

/// A derived value with its sign changed.
pub open spec fn negated(r: Result<Option<int>, Errors>) -> Result<Option<int>, Errors> {
    match r {
        Ok(Some(v)) => Ok(Some(-v)),
        Ok(None) => Ok(None),
        Err(e) => Err(e),
    }
}

/// The sum along a path is the weight of its first link and the sum along
/// the rest.
pub proof fn path_sum_from_the_front(links: Links, path: Seq<NodeCode>)
    requires
        path.len() >= 2,
    ensures
        path_sum(links, path) == links[(path[0], path[1])] + path_sum(links, path.skip(1)),
    decreases path.len(),
{
    if path.len() == 2 {
        assert(path_sum(links, path.drop_last()) == 0);
        assert(path_sum(links, path.skip(1)) == 0);
    } else {
        path_sum_from_the_front(links, path.drop_last());
        assert(path.drop_last().skip(1) =~= path.skip(1).drop_last());
    }
}

/// The sum along a path walked backwards is the negation of the sum along
/// the path.
pub proof fn path_sum_backwards(m: Model, path: Seq<NodeCode>)
    requires
        m.wf(),
        follows_links(m.links, path),
    ensures
        path_sum(m.links, backwards(path)) == -path_sum(m.links, path),
    decreases path.len(),
{
    if path.len() >= 2 {
        let rest = path.skip(1);
        assert forall|k: int| 0 <= k < rest.len() - 1 implies #[trigger] linked(m.links, rest, k) by {
            assert(linked(m.links, path, k + 1));
        }
        path_sum_backwards(m, rest);
        path_sum_from_the_front(m.links, path);
        assert(backwards(path).drop_last() =~= backwards(rest));
        assert(linked(m.links, path, 0));
    } else {
        assert(path_sum(m.links, backwards(path)) == 0);
    }
}

/// A simple path walked backwards is a simple path back.
pub proof fn simple_path_backwards(m: Model, a: NodeCode, b: NodeCode, path: Seq<NodeCode>)
    requires
        m.wf(),
        is_simple_path(m.nodes, m.links, a, b, path),
    ensures
        is_simple_path(m.nodes, m.links, b, a, backwards(path)),
        backwards(backwards(path)) == path,
{
    walk_backwards(m, a, b, path);
    assert(backwards(backwards(path)) =~= path);
}

/// The derived value from `b` to `a` is the negation of the one from `a` to
/// `b`: known, unknown or ambiguous together.
pub proof fn derived_back_is_negated(m: Model, a: NodeCode, b: NodeCode)
    requires
        m.wf(),
    ensures
        m.derived(b, a) == negated(m.derived(a, b)),
{
    if m.ambiguous(a, b) {
        let (p, q) = choose|p: Seq<NodeCode>, q: Seq<NodeCode>|
            is_simple_path(m.nodes, m.links, a, b, p) && is_simple_path(m.nodes, m.links, a, b, q) && p != q;
        simple_path_backwards(m, a, b, p);
        simple_path_backwards(m, a, b, q);
        assert(m.ambiguous(b, a));
    } else if m.ambiguous(b, a) {
        let (p, q) = choose|p: Seq<NodeCode>, q: Seq<NodeCode>|
            is_simple_path(m.nodes, m.links, b, a, p) && is_simple_path(m.nodes, m.links, b, a, q) && p != q;
        simple_path_backwards(m, b, a, p);
        simple_path_backwards(m, b, a, q);
        assert(m.ambiguous(a, b));
    } else if m.connected(a, b) {
        let p = m.the_path(a, b);
        simple_path_backwards(m, a, b, p);
        assert(m.the_path(b, a) == backwards(p));
        path_sum_backwards(m, p);
    } else if m.connected(b, a) {
        let p = m.the_path(b, a);
        simple_path_backwards(m, b, a, p);
    }
}

/// Where nothing is ambiguous, a stored value is also the derived one: the
/// link is the one simple path.
pub proof fn direct_value_is_derived(m: Model, a: NodeCode, b: NodeCode)
    requires
        m.wf(),
        m.direct(a, b) is Some,
        !m.ambiguous(a, b),
    ensures
        m.derived(a, b) == Ok::<Option<int>, Errors>(Some(m.direct(a, b)->Some_0 as int)),
        m.best(a, b) == m.derived(a, b),
{
    let step = seq![a, b];
    assert(m.links.contains_key((a, b)));
    assert forall|k: int| 0 <= k < step.len() - 1 implies #[trigger] linked(m.links, step, k) by {
    }
    assert(is_simple_path(m.nodes, m.links, a, b, step));
    assert(m.the_path(a, b) == step);
    assert(step.drop_last() =~= seq![a]);
    assert(path_sum(m.links, step.drop_last()) == 0);
}

/// The sum along a path with one more node at its end.
pub proof fn path_sum_with_one_more(links: Links, path: Seq<NodeCode>, next: NodeCode)
    requires
        path.len() >= 1,
    ensures
        path_sum(links, path.push(next)) == path_sum(links, path) + links[(
            path[path.len() - 1],
            next,
        )],
{
    assert(path.push(next).drop_last() =~= path);
}

/// Where nothing is ambiguous and two events of one timebase have stored
/// times, the derived delay from the first to the second is the second time
/// less the first.
pub proof fn same_timebase_delay(m: Model, timebase: usize, event_1: usize, event_2: usize)
    requires
        m.wf(),
        event_1 != event_2,
        m.direct(origin_key(timebase)@, event_key(timebase, event_1)@) is Some,
        m.direct(origin_key(timebase)@, event_key(timebase, event_2)@) is Some,
        !m.ambiguous(event_key(timebase, event_1)@, event_key(timebase, event_2)@),
    ensures
        m.derived(event_key(timebase, event_1)@, event_key(timebase, event_2)@) == Ok::<
            Option<int>,
            Errors,
        >(
            Some(
                m.direct(origin_key(timebase)@, event_key(timebase, event_2)@)->Some_0 - m.direct(
                    origin_key(timebase)@,
                    event_key(timebase, event_1)@,
                )->Some_0,
            ),
        ),
{
    let origin = origin_key(timebase)@;
    let first = event_key(timebase, event_1)@;
    let second = event_key(timebase, event_2)@;
    assert(m.links.contains_key((origin, first)));
    assert(m.links.contains_key((origin, second)));
    let way = seq![first, origin, second];
    assert forall|k: int| 0 <= k < way.len() - 1 implies #[trigger] linked(m.links, way, k) by {
    }
    assert(is_simple_path(m.nodes, m.links, first, second, way));
    assert(m.the_path(first, second) == way);
    assert(way =~= seq![first].push(origin).push(second));
    path_sum_with_one_more(m.links, seq![first].push(origin), second);
    path_sum_with_one_more(m.links, seq![first], origin);
    assert(path_sum(m.links, seq![first]) == 0);
}

/// Where nothing is ambiguous, two events on each of two timebases have
/// stored times, and a delay is stored between the first events, the derived
/// delay between the second events is the way over both origins: back along
/// the first timebase, across, and forth along the second.
pub proof fn cross_timebase_delay(
    m: Model,
    timebase_1: usize,
    timebase_2: usize,
    linked_1: usize,
    linked_2: usize,
    event_1: usize,
    event_2: usize,
)
    requires
        m.wf(),
        timebase_1 != timebase_2,
        linked_1 != event_1,
        linked_2 != event_2,
        m.direct(origin_key(timebase_1)@, event_key(timebase_1, linked_1)@) is Some,
        m.direct(origin_key(timebase_1)@, event_key(timebase_1, event_1)@) is Some,
        m.direct(origin_key(timebase_2)@, event_key(timebase_2, linked_2)@) is Some,
        m.direct(origin_key(timebase_2)@, event_key(timebase_2, event_2)@) is Some,
        m.direct(event_key(timebase_1, linked_1)@, event_key(timebase_2, linked_2)@) is Some,
        !m.ambiguous(event_key(timebase_1, event_1)@, event_key(timebase_2, event_2)@),
    ensures
        m.derived(event_key(timebase_1, event_1)@, event_key(timebase_2, event_2)@) == Ok::<
            Option<int>,
            Errors,
        >(
            Some(
                m.direct(origin_key(timebase_1)@, event_key(timebase_1, linked_1)@)->Some_0
                    - m.direct(origin_key(timebase_1)@, event_key(timebase_1, event_1)@)->Some_0
                    + m.direct(
                    event_key(timebase_1, linked_1)@,
                    event_key(timebase_2, linked_2)@,
                )->Some_0 - m.direct(
                    origin_key(timebase_2)@,
                    event_key(timebase_2, linked_2)@,
                )->Some_0 + m.direct(
                    origin_key(timebase_2)@,
                    event_key(timebase_2, event_2)@,
                )->Some_0,
            ),
        ),
{
    let o1 = origin_key(timebase_1)@;
    let o2 = origin_key(timebase_2)@;
    let l1 = event_key(timebase_1, linked_1)@;
    let l2 = event_key(timebase_2, linked_2)@;
    let e1 = event_key(timebase_1, event_1)@;
    let e2 = event_key(timebase_2, event_2)@;
    assert(m.links.contains_key((o1, l1)));
    assert(m.links.contains_key((o1, e1)));
    assert(m.links.contains_key((o2, l2)));
    assert(m.links.contains_key((o2, e2)));
    assert(m.links.contains_key((l1, l2)));
    let way = seq![e1, o1, l1, l2, o2, e2];
    assert forall|k: int| 0 <= k < way.len() - 1 implies #[trigger] linked(m.links, way, k) by {
    }
    assert(is_simple_path(m.nodes, m.links, e1, e2, way));
    assert(m.the_path(e1, e2) == way);
    let s1 = seq![e1];
    let s2 = s1.push(o1);
    let s3 = s2.push(l1);
    let s4 = s3.push(l2);
    let s5 = s4.push(o2);
    assert(way =~= s5.push(e2));
    path_sum_with_one_more(m.links, s5, e2);
    path_sum_with_one_more(m.links, s4, o2);
    path_sum_with_one_more(m.links, s3, l2);
    path_sum_with_one_more(m.links, s2, l1);
    path_sum_with_one_more(m.links, s1, o1);
    assert(path_sum(m.links, s1) == 0);
}

/// The sum along a path is the same over any links that hold the path's
/// links with their weights.
pub proof fn path_sum_over_more_links(links: Links, more: Links, path: Seq<NodeCode>)
    requires
        follows_links(links, path),
        forall|pair: (NodeCode, NodeCode)| #[trigger]
            links.contains_key(pair) ==> more.contains_key(pair) && more[pair] == links[pair],
    ensures
        path_sum(more, path) == path_sum(links, path),
    decreases path.len(),
{
    if path.len() >= 2 {
        let front = path.drop_last();
        assert forall|k: int| 0 <= k < front.len() - 1 implies #[trigger] linked(links, front, k) by {
            assert(linked(links, path, k));
        }
        path_sum_over_more_links(links, more, front);
        assert(linked(links, path, path.len() - 2));
    }
}

/// What a consistent graph derives stays as it is when a value is added: the
/// guard lets nothing in that would change a known value.
pub proof fn known_values_stay(
    m: Model,
    a: NodeCode,
    b: NodeCode,
    w: i64,
    from: NodeCode,
    to: NodeCode,
)
    requires
        m.wf(),
        m.consistent(),
        m.add(a, b, w).0 is Ok,
        m.derived(from, to) is Ok,
        m.derived(from, to)->Ok_0 is Some,
    ensures
        m.add(a, b, w).1.derived(from, to) == m.derived(from, to),
        m.add(a, b, w).1.direct(from, to) is None ==> m.add(a, b, w).1.best(from, to) == m.best(
            from,
            to,
        ),
{
    let after = m.install(a, b, w);
    install_keeps_consistent(m, a, b, w);
    assert(!m.links.contains_key((a, b)));
    assert(!m.links.contains_key((b, a)));
    let p = m.the_path(from, to);
    route_with_more_links(m.links, after.links, from, to, p);
    assert forall|i: int| 0 <= i < p.len() implies after.nodes.contains(#[trigger] p[i]) by {
        assert(m.nodes.contains(p[i]));
    }
    assert(is_simple_path(after.nodes, after.links, from, to, p));
    assert(!after.ambiguous(from, to));
    assert(after.the_path(from, to) == p);
    path_sum_over_more_links(m.links, after.links, p);
}

} // verus!
