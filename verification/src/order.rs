//! The order of additions does not matter: additions that all succeed in two
//! orders leave the same graph.

use vstd::prelude::*;

use crate::error::Errors;
use crate::key::{event_key, origin_key, origin_of, NodeCode};
use crate::consistency::{
    connected_is_routed, consistent_is_tree_like, operations_keep_consistent,
    route_with_more_links,
};
use crate::model::{install_keeps_wf, replay_delays, replay_times, DelayRow, Model, TimeRow};
use crate::paths::{forked, is_simple_route, linked, routed, tree_like};

verus! {

/// An addition: the node that the value is counted from, the node that it
/// is counted to, and the value.
pub type Addition = (NodeCode, NodeCode, i64);

/// What `add_time` adds.
pub open spec fn time_addition(row: TimeRow) -> Addition {
    (origin_key(row.0)@, event_key(row.0, row.1)@, row.2)
}

/// What `add_delay` adds.
pub open spec fn delay_addition(row: DelayRow) -> Addition {
    (event_key(row.0, row.1)@, event_key(row.2, row.3)@, row.4)
}

/// The graph after the additions were made to `m` in their order, or the
/// error of the first that was refused.
pub open spec fn replay(m: Model, additions: Seq<Addition>) -> Result<Model, Errors>
    decreases additions.len(),
{
    if additions.len() == 0 {
        Ok(m)
    } else {
        let step = m.add(additions[0].0, additions[0].1, additions[0].2);
        match step.0 {
            Ok(_) => replay(step.1, additions.skip(1)),
            Err(e) => Err(e),
        }
    }
}

/// What the rows of a table of times add.
pub open spec fn time_additions(rows: Seq<TimeRow>) -> Seq<Addition> {
    Seq::new(rows.len(), |i: int| time_addition(rows[i]))
}

/// What the rows of a table of delays add.
pub open spec fn delay_additions(rows: Seq<DelayRow>) -> Seq<Addition> {
    Seq::new(rows.len(), |i: int| delay_addition(rows[i]))
}

/// Whether an addition makes `node` a node of the graph: its two nodes and
/// the origins of their timebases.
pub open spec fn touches(addition: Addition, node: NodeCode) -> bool {
    ||| node == addition.0
    ||| node == addition.1
    ||| node == origin_of(addition.0)
    ||| node == origin_of(addition.1)
}

/// Whether an addition stores a link from the first node of `pair` to the
/// second.
pub open spec fn stores(addition: Addition, pair: (NodeCode, NodeCode)) -> bool {
    pair == (addition.0, addition.1) || pair == (addition.1, addition.0)
}

/// Whether `after` is `before` with the additions made, said without their
/// order: the nodes and links of `before`, unchanged, and those of every
/// addition, each with its value forth and its negation back.
pub open spec fn holds_additions(after: Model, before: Model, additions: Seq<Addition>) -> bool {
    &&& forall|node: NodeCode| #[trigger]
        after.nodes.contains(node) <==> before.nodes.contains(node) || exists|ad: Addition|
            additions.contains(ad) && touches(ad, node)
    &&& forall|pair: (NodeCode, NodeCode)| #[trigger]
        after.links.contains_key(pair) <==> before.links.contains_key(pair) || exists|
            ad: Addition,
        |
            additions.contains(ad) && stores(ad, pair)
    &&& forall|pair: (NodeCode, NodeCode)| #[trigger]
        before.links.contains_key(pair) ==> after.links[pair] == before.links[pair]
    &&& forall|ad: Addition| #[trigger]
        additions.contains(ad) ==> after.links[(ad.0, ad.1)] == ad.2 && after.links[(ad.1, ad.0)]
            == -ad.2
}

/// Additions that all succeed leave the graph with what it had and what they
/// added, whatever their order was.
pub proof fn replay_holds_additions(m: Model, additions: Seq<Addition>)
    requires
        m.wf(),
        replay(m, additions) is Ok,
    ensures
        holds_additions(replay(m, additions)->Ok_0, m, additions),
        replay(m, additions)->Ok_0.wf(),
    decreases additions.len(),
{
    if additions.len() > 0 {
        let first = additions[0];
        let rest = additions.skip(1);
        let next = m.install(first.0, first.1, first.2);
        let after = replay(m, additions)->Ok_0;
        install_keeps_wf(m, first.0, first.1, first.2);
        replay_holds_additions(next, rest);
        assert(!m.links.contains_key((first.0, first.1)));
        assert(!m.links.contains_key((first.1, first.0)));
        assert(next.links.contains_key((first.0, first.1)));
        assert(next.links.contains_key((first.1, first.0)));
        assert forall|ad: Addition| additions.contains(ad) <==> ad == first || rest.contains(
            ad,
        ) by {
            if additions.contains(ad) {
                let i = choose|i: int| 0 <= i < additions.len() && additions[i] == ad;
                if i > 0 {
                    assert(rest[i - 1] == ad);
                }
            }
            if rest.contains(ad) {
                let i = choose|i: int| 0 <= i < rest.len() && rest[i] == ad;
                assert(additions[i + 1] == ad);
            }
            assert(additions[0] == first);
        }
        assert forall|node: NodeCode| #[trigger]
            after.nodes.contains(node) <==> m.nodes.contains(node) || exists|ad: Addition|
                additions.contains(ad) && touches(ad, node) by {
            if next.nodes.contains(node) && !m.nodes.contains(node) {
                assert(additions.contains(first) && touches(first, node));
            }
        }
        assert forall|pair: (NodeCode, NodeCode)| #[trigger]
            after.links.contains_key(pair) <==> m.links.contains_key(pair) || exists|
                ad: Addition,
            |
                additions.contains(ad) && stores(ad, pair) by {
            if next.links.contains_key(pair) && !m.links.contains_key(pair) {
                assert(additions.contains(first) && stores(first, pair));
            }
        }
        assert forall|pair: (NodeCode, NodeCode)| #[trigger]
            m.links.contains_key(pair) implies after.links[pair] == m.links[pair] by {
            assert(next.links.contains_key(pair));
        }
        assert forall|ad: Addition| #[trigger] additions.contains(ad) implies after.links[(
            ad.0,
            ad.1,
        )] == ad.2 && after.links[(ad.1, ad.0)] == -ad.2 by {
            if !rest.contains(ad) {
                assert(ad == first);
            }
        }
    } else {
        assert forall|ad: Addition| !additions.contains(ad) by {
        }
    }
}

/// Additions that all succeed in one order and in another leave the same
/// graph: the same values are stored, and the same values are derived,
/// between any two nodes.
pub proof fn order_of_additions_is_irrelevant(
    m: Model,
    first: Seq<Addition>,
    second: Seq<Addition>,
)
    requires
        m.wf(),
        first.to_multiset() == second.to_multiset(),
        replay(m, first) is Ok,
        replay(m, second) is Ok,
    ensures
        replay(m, first) == replay(m, second),
        forall|a: NodeCode, b: NodeCode|
            replay(m, first)->Ok_0.direct(a, b) == replay(m, second)->Ok_0.direct(a, b),
        forall|a: NodeCode, b: NodeCode|
            replay(m, first)->Ok_0.best(a, b) == replay(m, second)->Ok_0.best(a, b),
{
    let left = replay(m, first)->Ok_0;
    let right = replay(m, second)->Ok_0;
    replay_holds_additions(m, first);
    replay_holds_additions(m, second);
    first.to_multiset_ensures();
    second.to_multiset_ensures();
    assert forall|ad: Addition| first.contains(ad) <==> second.contains(ad) by {
        assert(first.contains(ad) <==> first.to_multiset().count(ad) > 0);
        assert(second.contains(ad) <==> second.to_multiset().count(ad) > 0);
    }
    assert forall|node: NodeCode| left.nodes.contains(node) <==> right.nodes.contains(node) by {
    }
    assert(left.nodes =~= right.nodes);
    assert forall|pair: (NodeCode, NodeCode)|
        left.links.contains_key(pair) <==> right.links.contains_key(pair) by {
    }
    assert forall|pair: (NodeCode, NodeCode)| left.links.contains_key(pair) implies left.links[pair]
        == right.links[pair] by {
        if !m.links.contains_key(pair) {
            let ad = choose|ad: Addition| first.contains(ad) && stores(ad, pair);
            assert(second.contains(ad));
        }
    }
    assert(left.links =~= right.links);
}

/// Replaying the rows of a table of times is replaying what they add.
pub proof fn replay_times_is_replay(m: Model, rows: Seq<TimeRow>)
    ensures
        replay_times(m, rows) == replay(m, time_additions(rows)),
    decreases rows.len(),
{
    if rows.len() > 0 {
        let step = m.add(origin_key(rows[0].0)@, event_key(rows[0].0, rows[0].1)@, rows[0].2);
        replay_times_is_replay(step.1, rows.skip(1));
        assert(time_additions(rows).skip(1) =~= time_additions(rows.skip(1)));
    }
}

/// Replaying the rows of a table of delays is replaying what they add.
pub proof fn replay_delays_is_replay(m: Model, rows: Seq<DelayRow>)
    ensures
        replay_delays(m, rows) == replay(m, delay_additions(rows)),
    decreases rows.len(),
{
    if rows.len() > 0 {
        let step = m.add(
            event_key(rows[0].0, rows[0].1)@,
            event_key(rows[0].2, rows[0].3)@,
            rows[0].4,
        );
        replay_delays_is_replay(step.1, rows.skip(1));
        assert(delay_additions(rows).skip(1) =~= delay_additions(rows.skip(1)));
    }
}

/// Whether none of the additions stores a pair that `m` holds or that
/// another of them stores.
pub open spec fn fresh(m: Model, additions: Seq<Addition>) -> bool {
    &&& forall|i: int|
        0 <= i < additions.len() ==> !m.links.contains_key(
            ((#[trigger] additions[i]).0, additions[i].1),
        )
    &&& forall|i: int, j: int|
        0 <= i < additions.len() && 0 <= j < additions.len() && i != j ==> !stores(
            #[trigger] additions[i],
            ((#[trigger] additions[j]).0, additions[j].1),
        )
}

/// Additions that all succeed are fresh.
pub proof fn replayed_additions_are_fresh(m: Model, additions: Seq<Addition>)
    requires
        m.wf(),
        replay(m, additions) is Ok,
    ensures
        fresh(m, additions),
    decreases additions.len(),
{
    if additions.len() > 0 {
        let first = additions[0];
        let rest = additions.skip(1);
        let next = m.install(first.0, first.1, first.2);
        install_keeps_wf(m, first.0, first.1, first.2);
        replayed_additions_are_fresh(next, rest);
        assert(next.links.contains_key((first.0, first.1)));
        assert(next.links.contains_key((first.1, first.0)));
        assert forall|i: int| 0 <= i < additions.len() implies !m.links.contains_key(
            ((#[trigger] additions[i]).0, additions[i].1),
        ) by {
            if i > 0 {
                assert(rest[i - 1] == additions[i]);
                assert(!next.links.contains_key((rest[i - 1].0, rest[i - 1].1)));
            }
        }
        assert forall|i: int, j: int|
            0 <= i < additions.len() && 0 <= j < additions.len() && i != j implies !stores(
            #[trigger] additions[i],
            ((#[trigger] additions[j]).0, additions[j].1),
        ) by {
            if i > 0 && j > 0 {
                assert(rest[i - 1] == additions[i]);
                assert(rest[j - 1] == additions[j]);
            } else if i == 0 {
                assert(rest[j - 1] == additions[j]);
                assert(!next.links.contains_key((rest[j - 1].0, rest[j - 1].1)));
            } else {
                assert(rest[i - 1] == additions[i]);
                assert(!next.links.contains_key((rest[i - 1].0, rest[i - 1].1)));
            }
        }
    }
}

/// Additions that all succeed keep a consistent graph consistent.
pub proof fn replay_keeps_consistent(m: Model, additions: Seq<Addition>)
    requires
        m.wf(),
        m.consistent(),
        replay(m, additions) is Ok,
    ensures
        replay(m, additions)->Ok_0.consistent(),
    decreases additions.len(),
{
    if additions.len() > 0 {
        let first = additions[0];
        install_keeps_wf(m, first.0, first.1, first.2);
        operations_keep_consistent(m, first.0, first.1, first.2);
        replay_keeps_consistent(m.install(first.0, first.1, first.2), additions.skip(1));
    }
}

/// A value that occurs at two places of a sequence occurs twice in its
/// multiset, and the other way round.
proof fn twice_in_multiset(s: Seq<Addition>, x: Addition)
    ensures
        s.to_multiset().count(x) >= 2 <==> exists|i: int, j: int|
            0 <= i < s.len() && 0 <= j < s.len() && i != j && s[i] == x && s[j] == x,
{
    s.to_multiset_ensures();
    if exists|i: int, j: int|
        0 <= i < s.len() && 0 <= j < s.len() && i != j && s[i] == x && s[j] == x {
        let (i, j) = choose|i: int, j: int|
            0 <= i < s.len() && 0 <= j < s.len() && i != j && s[i] == x && s[j] == x;
        let t = s.remove(i);
        t.to_multiset_ensures();
        if j < i {
            assert(t[j] == x);
        } else {
            assert(t[j - 1] == x);
        }
        assert(t.contains(x));
        assert(t.to_multiset().count(x) > 0);
        assert(t.to_multiset() =~= s.to_multiset().remove(s[i]));
    }
    if s.to_multiset().count(x) >= 2 {
        assert(s.contains(x));
        let i = choose|i: int| 0 <= i < s.len() && s[i] == x;
        let t = s.remove(i);
        t.to_multiset_ensures();
        assert(t.to_multiset() =~= s.to_multiset().remove(s[i]));
        assert(t.to_multiset().count(x) > 0);
        assert(t.contains(x));
        let k = choose|k: int| 0 <= k < t.len() && t[k] == x;
        if k < i {
            assert(s[k] == x);
        } else {
            assert(s[k + 1] == x);
        }
    }
}

/// Additions that are fresh in one order are fresh in every order.
proof fn fresh_in_any_order(m: Model, first: Seq<Addition>, second: Seq<Addition>)
    requires
        first.to_multiset() == second.to_multiset(),
        fresh(m, first),
    ensures
        fresh(m, second),
{
    first.to_multiset_ensures();
    second.to_multiset_ensures();
    assert forall|ad: Addition| second.contains(ad) implies first.contains(ad) by {
        assert(second.contains(ad) <==> second.to_multiset().count(ad) > 0);
        assert(first.contains(ad) <==> first.to_multiset().count(ad) > 0);
    }
    assert forall|i: int| 0 <= i < second.len() implies !m.links.contains_key(
        ((#[trigger] second[i]).0, second[i].1),
    ) by {
        assert(second.contains(second[i]));
        let k = choose|k: int| 0 <= k < first.len() && first[k] == second[i];
        assert(!m.links.contains_key((first[k].0, first[k].1)));
    }
    assert forall|i: int, j: int|
        0 <= i < second.len() && 0 <= j < second.len() && i != j implies !stores(
        #[trigger] second[i],
        ((#[trigger] second[j]).0, second[j].1),
    ) by {
        let x = second[i];
        let y = second[j];
        assert(second.contains(x));
        assert(second.contains(y));
        if x == y {
            twice_in_multiset(second, x);
            twice_in_multiset(first, x);
            let (k, l) = choose|k: int, l: int|
                0 <= k < first.len() && 0 <= l < first.len() && k != l && first[k] == x && first[l]
                    == x;
            assert(stores(first[k], (first[l].0, first[l].1)));
        } else {
            let k = choose|k: int| 0 <= k < first.len() && first[k] == x;
            let l = choose|l: int| 0 <= l < first.len() && first[l] == y;
            assert(!stores(first[k], (first[l].0, first[l].1)));
        }
    }
}

/// Fresh additions whose pairs a tree-like graph holds, made to a graph
/// within that graph, all succeed.
proof fn additions_within_a_tree_succeed(cur: Model, rest: Seq<Addition>, goal: Model)
    requires
        cur.wf(),
        goal.paired(),
        tree_like(goal.links),
        forall|pair: (NodeCode, NodeCode)| #[trigger]
            cur.links.contains_key(pair) ==> goal.links.contains_key(pair),
        forall|i: int|
            0 <= i < rest.len() ==> goal.links.contains_key(((#[trigger] rest[i]).0, rest[i].1)),
        fresh(cur, rest),
    ensures
        replay(cur, rest) is Ok,
    decreases rest.len(),
{
    if rest.len() > 0 {
        let ad = rest[0];
        let a = ad.0;
        let b = ad.1;
        let later = rest.skip(1);
        assert(goal.links.contains_key((a, b)));
        assert(goal.links.contains_key((b, a)));
        assert(!cur.links.contains_key((a, b)));
        assert(cur.links.dom().subset_of(goal.links.dom()));
        let step = seq![a, b];
        assert forall|k: int| 0 <= k < step.len() - 1 implies #[trigger] linked(
            goal.links,
            step,
            k,
        ) by {
        }
        assert(is_simple_route(goal.links, a, b, step));
        assert(!forked(goal.links, a, b));
        if routed(cur.links, a, b) {
            let p = choose|p: Seq<NodeCode>| is_simple_route(cur.links, a, b, p);
            route_with_more_links(cur.links, goal.links, a, b, p);
            if p == step {
                assert(linked(cur.links, p, 0));
            }
        }
        if forked(cur.links, a, b) {
            let (p, q) = choose|p: Seq<NodeCode>, q: Seq<NodeCode>|
                is_simple_route(cur.links, a, b, p) && is_simple_route(cur.links, a, b, q) && p
                    != q;
            assert(routed(cur.links, a, b));
        }
        connected_is_routed(cur, a, b);
        assert(cur.add(a, b, ad.2).0 is Ok);
        let next = cur.install(a, b, ad.2);
        install_keeps_wf(cur, a, b, ad.2);
        assert forall|i: int| 0 <= i < later.len() implies goal.links.contains_key(
            ((#[trigger] later[i]).0, later[i].1),
        ) by {
            assert(later[i] == rest[i + 1]);
        }
        assert forall|i: int| 0 <= i < later.len() implies !next.links.contains_key(
            ((#[trigger] later[i]).0, later[i].1),
        ) by {
            assert(later[i] == rest[i + 1]);
            assert(!stores(rest[0], (rest[i + 1].0, rest[i + 1].1)));
        }
        assert forall|i: int, j: int|
            0 <= i < later.len() && 0 <= j < later.len() && i != j implies !stores(
            #[trigger] later[i],
            ((#[trigger] later[j]).0, later[j].1),
        ) by {
            assert(later[i] == rest[i + 1]);
            assert(later[j] == rest[j + 1]);
        }
        additions_within_a_tree_succeed(next, later, goal);
    }
}

/// Additions that all succeed on a consistent graph succeed in every other
/// order too, and leave the same graph.
pub proof fn additions_succeed_in_any_order(
    m: Model,
    first: Seq<Addition>,
    second: Seq<Addition>,
)
    requires
        m.wf(),
        m.consistent(),
        first.to_multiset() == second.to_multiset(),
        replay(m, first) is Ok,
    ensures
        replay(m, second) is Ok,
        replay(m, second) == replay(m, first),
{
    let goal = replay(m, first)->Ok_0;
    replay_holds_additions(m, first);
    replay_keeps_consistent(m, first);
    consistent_is_tree_like(goal);
    replayed_additions_are_fresh(m, first);
    fresh_in_any_order(m, first, second);
    first.to_multiset_ensures();
    second.to_multiset_ensures();
    assert forall|i: int| 0 <= i < second.len() implies goal.links.contains_key(
        ((#[trigger] second[i]).0, second[i].1),
    ) by {
        let ad = second[i];
        assert(second.contains(ad));
        assert(second.contains(ad) <==> second.to_multiset().count(ad) > 0);
        assert(first.contains(ad) <==> first.to_multiset().count(ad) > 0);
        assert(first.contains(ad) && stores(ad, (ad.0, ad.1)));
    }
    additions_within_a_tree_succeed(m, second, goal);
    order_of_additions_is_irrelevant(m, first, second);
}

} // verus!
