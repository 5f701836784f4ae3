use delays::graph::DelayGraph;
use delays::{Errors, Event, TimebaseEventKey};

#[test]
fn keys_and_codes() {
    let key = TimebaseEventKey::new(3, 7);
    assert_eq!(key.timebase, 3);
    assert_eq!(key.event, Event::Event(7));
    assert_eq!(key.code(), (3, 1, 7));
    let origin = TimebaseEventKey::new_t0(3);
    assert_eq!(origin.event, Event::T0);
    assert_eq!(origin.code(), (3, 0, 0));
    assert_eq!(key.t0_key(), origin);
    assert_eq!(origin.t0_key(), origin);
    // an event named 0 is not the origin
    assert_ne!(TimebaseEventKey::new(3, 0).code(), origin.code());
}

#[test]
fn empty_graph_knows_nothing() {
    let g = DelayGraph::new();
    assert_eq!(g.lookup_time(1, 1), None);
    assert_eq!(g.calculate_time(1, 1), Ok(None));
    assert_eq!(g.get_time(1, 1), Ok(None));
    assert_eq!(g.lookup_delay(1, 1, 2, 2), None);
    assert_eq!(g.get_delay(1, 1, 2, 2), Ok(None));
    assert_eq!(g.neighbors(1, 1), 0);
    assert!(!g.time_exists(1, 1));
    // not even from a node to itself: the graph holds no node
    assert_eq!(g.lookup_delay(1, 1, 1, 1), None);
    assert_eq!(g.get_delay(1, 1, 1, 1), Ok(None));
    assert_eq!(g.calculate_delay(1, Event::Event(1), 1, Event::Event(1)), Ok(None));
    assert_eq!(g.calculate_delay(1, Event::T0, 1, Event::T0), Ok(None));
    for t in 0..4usize {
        for e in 0..4usize {
            assert_eq!(g.get_time(t, e), Ok(None));
            for t2 in 0..4usize {
                for e2 in 0..4usize {
                    assert_eq!(g.lookup_delay(t, e, t2, e2), None);
                    assert_eq!(g.get_delay(t, e, t2, e2), Ok(None));
                }
            }
        }
    }
}

#[test]
fn direct_round_trip() {
    for (t, e, v) in [(1usize, 1usize, 500i64), (7, 0, -3), (0, 9, 0), (2, 2, i64::MAX), (5, 5, i64::MIN)] {
        let mut g = DelayGraph::new();
        assert_eq!(g.add_time(t, e, v), Ok(()));
        assert_eq!(g.lookup_time(t, e), Some(v as i128));
        assert_eq!(g.get_time(t, e), Ok(Some(v as i128)));
        assert!(g.time_exists(t, e));
    }
}

#[test]
fn redundancy_rejection() {
    let mut g = DelayGraph::new();
    assert_eq!(g.add_time(1, 1, 500), Ok(()));
    assert_eq!(g.add_time(1, 1, 999), Err(Errors::AlreadyExists));
    assert_eq!(g.lookup_time(1, 1), Some(500));
}

#[test]
fn over_constraint_rejection() {
    let mut g = DelayGraph::new();
    g.add_time(1, 1, 500).unwrap();
    g.add_time(1, 2, 1000).unwrap();
    assert_eq!(g.get_delay(1, 1, 1, 2), Ok(Some(500)));
    assert_eq!(g.add_delay(1, 1, 1, 2, 500), Err(Errors::AlreadyConstrained(())));
    assert_eq!(g.add_delay(1, 1, 1, 2, 1), Err(Errors::AlreadyConstrained(())));
    // nothing was stored
    assert_eq!(g.lookup_delay(1, 1, 1, 2), None);
    assert_eq!(g.neighbors(1, 1), 1);
}

#[test]
fn multi_hop_chain() {
    // three timebases chained by delays of 1500 and 100, direct times on
    // each, and a delay of 150 that ties in an event without a time
    let mut g = DelayGraph::new();
    g.add_time(1, 1, 0).unwrap();
    g.add_time(2, 1, 2500).unwrap();
    g.add_time(2, 2, 30).unwrap();
    g.add_time(3, 2, 0).unwrap();
    g.add_time(3, 3, 2700).unwrap();
    g.add_delay(1, 1, 2, 1, 1500).unwrap();
    g.add_delay(2, 2, 3, 2, 100).unwrap();
    g.add_delay(1, 3, 3, 3, 150).unwrap();
    // 1500 - 2500 + 30 + 100 + 2700 - 150
    assert_eq!(g.get_delay(1, 1, 1, 3), Ok(Some(1680)));
    assert_eq!(g.calculate_time(1, 3), Ok(Some(1680)));
    assert_eq!(g.lookup_time(1, 3), None);
    assert_eq!(g.add_time(1, 3, 1680), Err(Errors::AlreadyConstrained(())));
}

#[test]
fn update_semantics() {
    let mut g = DelayGraph::new();
    // a node never seen: as add_time
    assert_eq!(g.update_time(1, 1, 10), Ok(()));
    assert_eq!(g.lookup_time(1, 1), Some(10));
    // a direct value: overwritten, in both directions
    assert_eq!(g.update_time(1, 1, 25), Ok(()));
    assert_eq!(g.lookup_time(1, 1), Some(25));
    assert_eq!(g.calculate_delay(1, Event::Event(1), 1, Event::T0), Ok(Some(-25)));
    assert_eq!(g.neighbors(1, 1), 1);
    // a derived value only: refused
    g.add_delay(1, 1, 1, 2, 5).unwrap();
    assert_eq!(g.get_time(1, 2), Ok(Some(30)));
    assert_eq!(g.update_time(1, 2, 31), Err(Errors::AlreadyConstrained(())));
    assert_eq!(g.lookup_time(1, 2), None);
    assert_eq!(g.get_time(1, 2), Ok(Some(30)));
}

#[test]
fn update_delay_overwrites_the_pair() {
    let mut g = DelayGraph::new();
    assert_eq!(g.update_delay(1, 1, 2, 1, 40), Ok(()));
    assert_eq!(g.update_delay(1, 1, 2, 1, 60), Ok(()));
    assert_eq!(g.lookup_delay(1, 1, 2, 1), Some(60));
    assert_eq!(g.lookup_delay(2, 1, 1, 1), Some(-60));
    // the pair is one fact: the other direction is stored too
    assert_eq!(g.add_delay(2, 1, 1, 1, 7), Err(Errors::AlreadyExists));
    assert_eq!(g.update_delay(2, 1, 1, 1, 7), Ok(()));
    assert_eq!(g.lookup_delay(1, 1, 2, 1), Some(-7));
}

#[test]
fn remove_needs_a_direct_value() {
    let mut g = DelayGraph::new();
    assert_eq!(g.remove_time(1, 1), Err(Errors::NotFound));
    assert_eq!(g.remove_delay(1, 1, 2, 1), Err(Errors::NotFound));
    g.add_time(1, 1, 10).unwrap();
    g.add_delay(1, 1, 1, 2, 5).unwrap();
    // derived only: nothing to remove
    assert_eq!(g.get_time(1, 2), Ok(Some(15)));
    assert_eq!(g.remove_time(1, 2), Err(Errors::NotFound));
    assert_eq!(g.remove_delay(1, 1, 1, 2), Ok(()));
    assert_eq!(g.lookup_delay(1, 1, 1, 2), None);
    assert_eq!(g.lookup_delay(1, 2, 1, 1), None);
    assert_eq!(g.get_time(1, 2), Ok(None));
    // the node stays
    assert!(g.time_exists(1, 2));
    assert_eq!(g.remove_time(1, 1), Ok(()));
    assert_eq!(g.get_time(1, 1), Ok(None));
    assert_eq!(g.remove_time(1, 1), Err(Errors::NotFound));
    // and the value can be added again
    assert_eq!(g.add_time(1, 1, 11), Ok(()));
    assert_eq!(g.get_time(1, 1), Ok(Some(11)));
}

#[test]
fn delay_endpoints_exist_without_times() {
    let mut g = DelayGraph::new();
    g.add_delay(1, 1, 2, 1, 10).unwrap();
    assert!(g.time_exists(1, 1));
    assert!(g.time_exists(2, 1));
    assert_eq!(g.lookup_time(1, 1), None);
    assert_eq!(g.get_time(1, 1), Ok(None));
    g.add_time(2, 1, 100).unwrap();
    assert_eq!(g.get_time(1, 1), Ok(None));
    assert_eq!(g.get_delay(1, 1, 2, 1), Ok(Some(10)));
}

#[test]
fn delay_to_itself() {
    let mut g = DelayGraph::new();
    // a node that the graph does not hold: nothing is known, nothing can be added
    assert_eq!(g.get_delay(1, 1, 1, 1), Ok(None));
    assert_eq!(g.add_delay(1, 1, 1, 1, 5), Err(Errors::AlreadyConstrained(())));
    assert_eq!(g.update_delay(1, 1, 1, 1, 0), Err(Errors::AlreadyConstrained(())));
    assert_eq!(g.lookup_delay(1, 1, 1, 1), None);
    assert_eq!(g.get_delay(1, 1, 1, 1), Ok(None));
    assert!(!g.time_exists(1, 1));
    assert!(!g.timebase_exists(1));
    // a node that it holds: the way to itself is zero
    g.add_time(1, 1, 3).unwrap();
    g.add_time(1, 2, 4).unwrap();
    assert_eq!(g.get_delay(1, 1, 1, 1), Ok(Some(0)));
    assert_eq!(g.calculate_delay(1, Event::Event(1), 1, Event::Event(1)), Ok(Some(0)));
    assert_eq!(g.calculate_delay(1, Event::T0, 1, Event::T0), Ok(Some(0)));
    assert_eq!(g.add_delay(1, 1, 1, 1, 0), Err(Errors::AlreadyConstrained(())));
    // other nodes are still unknown
    assert_eq!(g.get_delay(1, 3, 1, 3), Ok(None));
    assert_eq!(g.get_delay(2, 1, 2, 1), Ok(None));
    assert_eq!(g.calculate_delay(2, Event::T0, 2, Event::T0), Ok(None));
    // a node stays when its value goes
    g.remove_time(1, 2).unwrap();
    assert_eq!(g.get_delay(1, 2, 1, 2), Ok(Some(0)));
}

#[test]
fn neighbors_counts_direct_values() {
    let mut g = DelayGraph::new();
    g.add_time(1, 1, 10).unwrap();
    assert_eq!(g.neighbors(1, 1), 1);
    g.add_delay(1, 1, 2, 1, 5).unwrap();
    g.add_delay(3, 1, 1, 1, 5).unwrap();
    assert_eq!(g.neighbors(1, 1), 3);
    assert_eq!(g.neighbors(2, 1), 1);
    assert_eq!(g.neighbors(9, 9), 0);
    g.remove_delay(1, 1, 2, 1).unwrap();
    assert_eq!(g.neighbors(1, 1), 2);
    assert_eq!(g.neighbors(2, 1), 0);
}

#[test]
fn ambiguity_is_reported_when_the_guard_is_bypassed() {
    let mut g = DelayGraph::new();
    g.add_time(1, 1, 0).unwrap();
    g.add_delay(1, 1, 1, 2, 5).unwrap();
    // the guard refuses the second way to the same node
    assert_eq!(g.add_time(1, 2, 7), Err(Errors::AlreadyConstrained(())));
    assert_eq!(g.calculate_delay(1, Event::Event(1), 1, Event::Event(2)), Ok(Some(5)));
    // without the guard there are two
    g.add_time_unchecked(1, 2, 7);
    assert_eq!(g.lookup_time(1, 2), Some(7));
    assert_eq!(g.calculate_time(1, 2), Err(Errors::AmbiguousPath));
    assert_eq!(
        g.calculate_delay(1, Event::Event(1), 1, Event::Event(2)),
        Err(Errors::AmbiguousPath)
    );
    // a stored value is still the best known one
    assert_eq!(g.get_time(1, 2), Ok(Some(7)));
    // and an unrelated addition over the ambiguous part is refused as such
    assert_eq!(g.add_delay(1, 1, 1, 2, 1), Err(Errors::AlreadyExists));
    assert_eq!(g.remove_time(1, 2), Ok(()));
    assert_eq!(g.calculate_time(1, 2), Ok(Some(5)));
}

#[test]
fn extreme_values_sum_exactly() {
    let mut g = DelayGraph::new();
    g.add_time(1, 1, i64::MIN).unwrap();
    g.add_time(1, 2, i64::MAX).unwrap();
    assert_eq!(g.lookup_time(1, 1), Some(i64::MIN as i128));
    let span = (i64::MAX as i128) - (i64::MIN as i128);
    assert_eq!(g.get_delay(1, 1, 1, 2), Ok(Some(span)));
    assert_eq!(g.get_delay(1, 2, 1, 1), Ok(Some(-span)));
    assert_eq!(
        g.calculate_delay(1, Event::Event(1), 1, Event::T0),
        Ok(Some(-(i64::MIN as i128)))
    );
}

#[test]
fn order_of_insertion_does_not_matter() {
    let mut first = DelayGraph::new();
    first.add_time(1, 1, 0).unwrap();
    first.add_time(2, 1, 100).unwrap();
    first.add_time(2, 2, 200).unwrap();
    first.add_delay(1, 1, 2, 1, 0).unwrap();
    first.add_delay(1, 2, 2, 2, 0).unwrap();

    let mut second = DelayGraph::new();
    second.add_delay(1, 2, 2, 2, 0).unwrap();
    second.add_time(2, 2, 200).unwrap();
    second.add_delay(1, 1, 2, 1, 0).unwrap();
    second.add_time(2, 1, 100).unwrap();
    second.add_time(1, 1, 0).unwrap();

    for (a, b) in [(1usize, 1usize), (1, 2), (2, 1), (2, 2)] {
        assert_eq!(first.get_time(a, b), second.get_time(a, b));
        for (c, d) in [(1usize, 1usize), (1, 2), (2, 1), (2, 2)] {
            assert_eq!(first.get_delay(a, b, c, d), second.get_delay(a, b, c, d));
        }
    }
    assert_eq!(first.get_delay(1, 1, 1, 2), Ok(Some(100)));
    assert_eq!(first.get_time(1, 2), Ok(Some(100)));
}

#[test]
fn clone_is_a_copy() {
    let mut g = DelayGraph::new();
    g.add_time(1, 1, 10).unwrap();
    g.add_delay(1, 1, 2, 1, 5).unwrap();
    let mut copy = g.clone();
    assert_eq!(copy.lookup_time(1, 1), Some(10));
    assert_eq!(copy.lookup_delay(2, 1, 1, 1), Some(-5));
    assert!(copy.time_exists(2, 1));
    assert_eq!(copy.neighbors(1, 1), 2);
    copy.add_time(2, 2, 7).unwrap();
    copy.remove_time(1, 1).unwrap();
    assert_eq!(g.lookup_time(2, 2), None);
    assert_eq!(g.lookup_time(1, 1), Some(10));
    assert_eq!(copy.lookup_time(1, 1), None);
}

#[test]
fn stored_value_is_also_the_derived_one() {
    let mut g = DelayGraph::new();
    g.add_time(1, 1, 10).unwrap();
    g.add_delay(1, 1, 2, 1, 5).unwrap();
    assert_eq!(g.calculate_time(1, 1), Ok(Some(10)));
    assert_eq!(g.calculate_delay(1, Event::Event(1), 2, Event::Event(1)), Ok(Some(5)));
    assert_eq!(g.calculate_delay(2, Event::Event(1), 1, Event::Event(1)), Ok(Some(-5)));
    // from the other timebase's event to this timebase's origin
    assert_eq!(g.calculate_delay(2, Event::Event(1), 1, Event::T0), Ok(Some(-15)));
    assert_eq!(g.calculate_delay(1, Event::T0, 2, Event::Event(1)), Ok(Some(15)));
    // the other timebase has no origin in the graph yet
    assert_eq!(g.calculate_delay(2, Event::T0, 2, Event::Event(1)), Ok(None));
    assert_eq!(g.calculate_time(2, 1), Ok(None));
}

#[test]
fn cross_timebase_delay_goes_over_both_origins() {
    let mut g = DelayGraph::new();
    g.add_time(1, 1, 3).unwrap();
    g.add_time(1, 2, 103).unwrap();
    g.add_time(2, 1, 100).unwrap();
    g.add_time(2, 2, 250).unwrap();
    g.add_delay(1, 1, 2, 1, 40).unwrap();
    // 3 - 103 + 40 - 100 + 250
    assert_eq!(g.get_delay(1, 2, 2, 2), Ok(Some(90)));
    assert_eq!(g.get_delay(2, 2, 1, 2), Ok(Some(-90)));
}

#[test]
fn origins_appear_with_the_first_touch() {
    let mut g = DelayGraph::new();
    assert!(!g.timebase_exists(1));
    g.add_delay(1, 1, 2, 1, 5).unwrap();
    assert!(g.timebase_exists(1));
    assert!(g.timebase_exists(2));
    assert!(!g.timebase_exists(3));
    // an origin that no time links to anything gives no time
    assert_eq!(g.get_time(1, 1), Ok(None));
    assert_eq!(g.calculate_delay(1, Event::T0, 2, Event::T0), Ok(None));
    g.add_time(3, 1, 0).unwrap();
    assert!(g.timebase_exists(3));
    // a refused value touches nothing
    assert_eq!(g.add_delay(4, 1, 4, 1, 0), Err(Errors::AlreadyConstrained(())));
    assert!(!g.timebase_exists(4));
    // and a removed one leaves its nodes
    g.remove_time(3, 1).unwrap();
    assert!(g.timebase_exists(3));
    assert!(g.time_exists(3, 1));
}

#[test]
fn known_values_stay_when_values_are_added() {
    let mut g = DelayGraph::new();
    g.add_time(1, 1, 10).unwrap();
    g.add_time(1, 2, 25).unwrap();
    assert_eq!(g.get_delay(1, 1, 1, 2), Ok(Some(15)));
    g.add_delay(1, 2, 2, 1, 4).unwrap();
    g.add_time(2, 2, 100).unwrap();
    g.add_time(3, 1, -7).unwrap();
    assert_eq!(g.get_delay(1, 1, 1, 2), Ok(Some(15)));
    assert_eq!(g.get_time(1, 2), Ok(Some(25)));
    // 25 + 4 is the time of the event on the second timebase, seen from the
    // origin of the first
    assert_eq!(g.calculate_delay(1, Event::T0, 2, Event::Event(1)), Ok(Some(29)));
}

fn replay_in_order(order: &[usize]) -> DelayGraph {
    // times (timebase, event, value) and delays, as one list of additions
    let times = [(1usize, 1usize, 0i64), (2, 1, 100), (2, 2, 200), (3, 1, -40)];
    let delays = [(1usize, 1usize, 2usize, 1usize, 7i64), (1, 2, 2, 2, 0), (3, 1, 2, 2, 15)];
    let mut g = DelayGraph::new();
    for &k in order {
        if k < times.len() {
            let (t, e, v) = times[k];
            assert_eq!(g.add_time(t, e, v), Ok(()));
        } else {
            let (t1, e1, t2, e2, v) = delays[k - times.len()];
            assert_eq!(g.add_delay(t1, e1, t2, e2, v), Ok(()));
        }
    }
    g
}

#[test]
fn every_order_of_additions_gives_the_same_values() {
    let orders: [[usize; 7]; 6] = [
        [0, 1, 2, 3, 4, 5, 6],
        [6, 5, 4, 3, 2, 1, 0],
        [4, 5, 6, 0, 1, 2, 3],
        [3, 6, 1, 4, 0, 5, 2],
        [5, 0, 6, 2, 4, 3, 1],
        [2, 4, 0, 6, 3, 1, 5],
    ];
    let first = replay_in_order(&orders[0]);
    let nodes = [(1usize, 1usize), (1, 2), (2, 1), (2, 2), (3, 1), (3, 2)];
    // 0 + 7 - 100 + 200 - 0 : the time of the event without a stored time
    assert_eq!(first.get_time(1, 2), Ok(Some(107)));
    // -15 from (2, 2) back to (3, 1), then 40 back to the origin
    assert_eq!(first.calculate_delay(2, Event::Event(2), 3, Event::T0), Ok(Some(25)));
    for order in orders.iter().skip(1) {
        let other = replay_in_order(order);
        for &(t, e) in nodes.iter() {
            assert_eq!(first.lookup_time(t, e), other.lookup_time(t, e));
            assert_eq!(first.get_time(t, e), other.get_time(t, e));
            assert_eq!(first.time_exists(t, e), other.time_exists(t, e));
            for &(t2, e2) in nodes.iter() {
                assert_eq!(first.lookup_delay(t, e, t2, e2), other.lookup_delay(t, e, t2, e2));
                assert_eq!(first.get_delay(t, e, t2, e2), other.get_delay(t, e, t2, e2));
            }
        }
    }
}
