//! The timeline graph: direct times and delays, guarded against redundant
//! and contradictory values, and the values derived from them.

use vstd::prelude::*;

use crate::consistency::{
    consistent_is_never_ambiguous, empty_is_consistent, operations_keep_consistent,
    paths_are_routes_from_nodes,
};
use crate::error::Errors;
use crate::key::{event_key, origin_key, Event, NodeCode, TimebaseEventKey};
use crate::model::{
    derived_from_missing, derived_to_self, install_keeps_wf, replay_delays, replay_times,
    uninstall_keeps_wf, DelayRow, Model, TimeRow,
};
use crate::paths::{follows_links, is_simple_path, linked, path_sum, path_views};
use crate::store::{
    graph_add_edge, graph_add_node, graph_clone, graph_contains_node, graph_edge_weight, graph_edges,
    graph_neighbors, graph_new, graph_nodes, graph_remove_edge, graph_simple_paths, Storage,
};

verus! {

/// A computed value as a mathematical integer.
pub open spec fn exact(r: Result<Option<i128>, Errors>) -> Result<Option<int>, Errors> {
    match r {
        Ok(Some(v)) => Ok(Some(v as int)),
        Ok(None) => Ok(None),
        Err(e) => Err(e),
    }
}

/// Direct times and delays between events on independent timebases, in
/// whole ticks of the unit that the caller works in. A stored value is kept
/// as a pair of links, forth with the value and back with its negation;
/// derived values are exact sums along the one simple path between two
/// nodes. Values are given as `i64` and read as `i128`: the negation of a
/// value and the sum of several need not fit `i64`.
#[derive(Debug)]
pub struct DelayGraph {
    graph: Storage,
}

impl View for DelayGraph {
    type V = Model;

    closed spec fn view(&self) -> Model {
        Model { nodes: graph_nodes(self.graph), links: graph_edges(self.graph) }
    }
}

impl Clone for DelayGraph {
    fn clone(&self) -> (copy: Self)
        ensures
            copy@ == self@,
    {
        Self { graph: graph_clone(&self.graph) }
    }
}

impl DelayGraph {
    /// The graph's invariant: that of its model.
    pub open spec fn wf(&self) -> bool {
        self@.wf()
    }

    /// An empty graph: nothing is stored in it and nothing follows from it,
    /// from a node to another or to itself.
    pub fn new() -> (g: Self)
        ensures
            g@ == Model::empty(),
            g.wf(),
            g@.consistent(),
            forall|a: NodeCode, b: NodeCode| #[trigger] g@.direct(a, b) is None,
            forall|a: NodeCode, b: NodeCode| #[trigger]
                g@.derived(a, b) == Ok::<Option<int>, Errors>(None),
            forall|a: NodeCode, b: NodeCode| #[trigger]
                g@.best(a, b) == Ok::<Option<int>, Errors>(None),
    {
        proof {
            empty_is_consistent();
            assert forall|a: NodeCode, b: NodeCode|
                Model::empty().derived(a, b) == Ok::<Option<int>, Errors>(None) by {
                derived_from_missing(Model::empty(), a, b);
            }
        }
        Self { graph: graph_new() }
    }

    fn lookup(&self, a: NodeCode, b: NodeCode) -> (w: Option<i128>)
        ensures
            w == self@.direct(a, b),
    {
        graph_edge_weight(&self.graph, a, b)
    }

    fn sum_path(&self, path: &Vec<NodeCode>) -> (total: i128)
        requires
            self.wf(),
            follows_links(self@.links, path@),
        ensures
            total == path_sum(self@.links, path@),
    {
        if path.len() == 0 {
            return 0;
        }
        let mut total: i128 = 0;
        let mut i: usize = 0;
        proof {
            assert(path@.take(1).len() == 1);
        }
        while i + 1 < path.len()
            invariant
                self.wf(),
                follows_links(self@.links, path@),
                i < path.len(),
                total == path_sum(self@.links, path@.take(i + 1)),
                -(i * 0x8000_0000_0000_0000) <= total <= i * 0x8000_0000_0000_0000,
            decreases path.len() - i,
        {
            let a: NodeCode = path[i];
            let b: NodeCode = path[i + 1];
            proof {
                assert(linked(self@.links, path@, i as int));
                let next = path@.take(i + 2);
                assert(next.drop_last() =~= path@.take(i + 1));
            }
            let w: i128 = self.lookup(a, b).unwrap();
            total = total + w;
            i = i + 1;
        }
        proof {
            assert(path@.take(i + 1) =~= path@);
        }
        total
    }

    fn calculate(&self, a: NodeCode, b: NodeCode) -> (r: Result<Option<i128>, Errors>)
        requires
            self.wf(),
        ensures
            self@.consistent() ==> r is Ok,
            exact(r) == self@.derived(a, b),
    {
        proof {
            if self@.consistent() {
                consistent_is_never_ambiguous(self@, a, b);
            }
        }
        if !graph_contains_node(&self.graph, a) {
            proof {
                derived_from_missing(self@, a, b);
            }
            return Ok(None);
        }
        if a.0 == b.0 && a.1 == b.1 && a.2 == b.2 {
            proof {
                assert(a == b);
                derived_to_self(self@, a);
            }
            return Ok(Some(0));
        }
        let paths = graph_simple_paths(&self.graph, a, b);
        let ghost views = path_views(paths@);
        proof {
            assert forall|p: Seq<NodeCode>|
                views.contains(p) <==> is_simple_path(self@.nodes, self@.links, a, b, p) by {
                paths_are_routes_from_nodes(self@, a, b, p);
            }
        }
        if paths.len() == 1 {
            let path = &paths[0];
            proof {
                assert(views[0] == path@);
                assert(views.contains(path@));
                assert forall|p: Seq<NodeCode>| is_simple_path(self@.nodes, self@.links, a, b, p) implies p
                    == path@ by {
                    assert(views.contains(p));
                }
            }
            Ok(Some(self.sum_path(path)))
        } else if paths.len() == 0 {
            proof {
                assert forall|p: Seq<NodeCode>| !is_simple_path(self@.nodes, self@.links, a, b, p) by {
                    if is_simple_path(self@.nodes, self@.links, a, b, p) {
                        assert(views.contains(p));
                    }
                }
            }
            Ok(None)
        } else {
            proof {
                assert(views.contains(views[0]));
                assert(views.contains(views[1]));
                assert(views[0] != views[1]);
            }
            Err(Errors::AmbiguousPath)
        }
    }

    fn install(&mut self, a: NodeCode, b: NodeCode, w: i64)
        requires
            old(self).wf(),
            a != b,
        ensures
            final(self).wf(),
            final(self)@ == old(self)@.install(a, b, w),
    {
        let forward: i128 = w as i128;
        let backward: i128 = -forward;
        graph_add_edge(&mut self.graph, a, b, forward);
        graph_add_edge(&mut self.graph, b, a, backward);
        graph_add_node(&mut self.graph, (a.0, 0u8, 0usize));
        graph_add_node(&mut self.graph, (b.0, 0u8, 0usize));
        proof {
            let after = old(self)@.install(a, b, w);
            assert(self@.nodes =~= after.nodes);
            assert(self@.links =~= after.links);
            install_keeps_wf(old(self)@, a, b, w);
        }
    }

    fn uninstall(&mut self, a: NodeCode, b: NodeCode)
        requires
            old(self).wf(),
        ensures
            final(self).wf(),
            final(self)@ == old(self)@.uninstall(a, b),
    {
        graph_remove_edge(&mut self.graph, a, b);
        graph_remove_edge(&mut self.graph, b, a);
        proof {
            assert(self@.links =~= old(self)@.uninstall(a, b).links);
            uninstall_keeps_wf(old(self)@, a, b);
        }
    }

    fn add(&mut self, a: NodeCode, b: NodeCode, w: i64) -> (r: Result<(), Errors>)
        requires
            old(self).wf(),
        ensures
            final(self).wf(),
            old(self)@.consistent() ==> final(self)@.consistent(),
            r == old(self)@.add(a, b, w).0,
            final(self)@ == old(self)@.add(a, b, w).1,
    {
        proof {
            if self@.consistent() {
                operations_keep_consistent(self@, a, b, w);
            }
        }
        if self.lookup(a, b).is_some() {
            return Err(Errors::AlreadyExists);
        }
        if a.0 == b.0 && a.1 == b.1 && a.2 == b.2 {
            return Err(Errors::AlreadyConstrained(()));
        }
        match self.calculate(a, b) {
            Ok(Some(_)) => Err(Errors::AlreadyConstrained(())),
            Err(e) => Err(e),
            Ok(None) => {
                self.install(a, b, w);
                Ok(())
            },
        }
    }

    fn update(&mut self, a: NodeCode, b: NodeCode, w: i64) -> (r: Result<(), Errors>)
        requires
            old(self).wf(),
        ensures
            final(self).wf(),
            old(self)@.consistent() ==> final(self)@.consistent(),
            r == old(self)@.update(a, b, w).0,
            final(self)@ == old(self)@.update(a, b, w).1,
    {
        proof {
            if self@.consistent() {
                operations_keep_consistent(self@, a, b, w);
            }
        }
        match self.add(a, b, w) {
            Err(Errors::AlreadyExists) => {
                self.install(a, b, w);
                Ok(())
            },
            other => other,
        }
    }

    fn remove(&mut self, a: NodeCode, b: NodeCode) -> (r: Result<(), Errors>)
        requires
            old(self).wf(),
        ensures
            final(self).wf(),
            old(self)@.consistent() ==> final(self)@.consistent(),
            r == old(self)@.remove(a, b).0,
            final(self)@ == old(self)@.remove(a, b).1,
    {
        proof {
            if self@.consistent() {
                operations_keep_consistent(self@, a, b, 0);
            }
        }
        if self.lookup(a, b).is_none() {
            return Err(Errors::NotFound);
        }
        self.uninstall(a, b);
        Ok(())
    }

    fn get(&self, a: NodeCode, b: NodeCode) -> (r: Result<Option<i128>, Errors>)
        requires
            self.wf(),
        ensures
            self@.consistent() ==> r is Ok,
            exact(r) == self@.best(a, b),
    {
        match self.lookup(a, b) {
            Some(w) => Ok(Some(w)),
            None => self.calculate(a, b),
        }
    }

    /// Whether a time or a delay has touched this timebase, so that the graph
    /// holds its origin.
    pub fn timebase_exists(&self, timebase: usize) -> (found: bool)
        ensures
            found == self@.nodes.contains(origin_key(timebase)@),
    {
        graph_contains_node(&self.graph, TimebaseEventKey::new_t0(timebase).code())
    }

    /// Whether the graph holds the node of this event, with or without a
    /// direct time.
    pub fn time_exists(&self, timebase: usize, event: usize) -> (found: bool)
        ensures
            found == self@.nodes.contains(event_key(timebase, event)@),
    {
        graph_contains_node(&self.graph, TimebaseEventKey::new(timebase, event).code())
    }

    /// Stores a direct time without asking whether one is stored or derived:
    /// the pair of links between the timebase's origin and the event is set
    /// to `time` and its negation.
    pub fn add_time_unchecked(&mut self, timebase: usize, event: usize, time: i64)
        requires
            old(self).wf(),
        ensures
            final(self).wf(),
            final(self)@ == old(self)@.install(
                origin_key(timebase)@,
                event_key(timebase, event)@,
                time,
            ),
    {
        let key = TimebaseEventKey::new(timebase, event);
        self.install(key.t0_key().code(), key.code(), time);
    }

    /// Stores a direct time for an event, unless one is stored already
    /// (`AlreadyExists`), follows from other values (`AlreadyConstrained`) or
    /// the graph is ambiguous about it (`AmbiguousPath`); a refusal changes
    /// nothing.
    pub fn add_time(&mut self, timebase: usize, event: usize, time: i64) -> (r: Result<(), Errors>)
        requires
            old(self).wf(),
        ensures
            final(self).wf(),
            old(self)@.consistent() ==> final(self)@.consistent(),
            r == old(self)@.add(origin_key(timebase)@, event_key(timebase, event)@, time).0,
            final(self)@ == old(self)@.add(
                origin_key(timebase)@,
                event_key(timebase, event)@,
                time,
            ).1,
    {
        let key = TimebaseEventKey::new(timebase, event);
        self.add(key.t0_key().code(), key.code(), time)
    }

    /// Stores a direct time as `add_time` does, but overwrites a stored one.
    pub fn update_time(&mut self, timebase: usize, event: usize, time: i64) -> (r: Result<
        (),
        Errors,
    >)
        requires
            old(self).wf(),
        ensures
            final(self).wf(),
            old(self)@.consistent() ==> final(self)@.consistent(),
            r == old(self)@.update(origin_key(timebase)@, event_key(timebase, event)@, time).0,
            final(self)@ == old(self)@.update(
                origin_key(timebase)@,
                event_key(timebase, event)@,
                time,
            ).1,
    {
        let key = TimebaseEventKey::new(timebase, event);
        self.update(key.t0_key().code(), key.code(), time)
    }

    /// Removes the direct time of an event; `NotFound` where none is stored.
    pub fn remove_time(&mut self, timebase: usize, event: usize) -> (r: Result<(), Errors>)
        requires
            old(self).wf(),
        ensures
            final(self).wf(),
            old(self)@.consistent() ==> final(self)@.consistent(),
            r == old(self)@.remove(origin_key(timebase)@, event_key(timebase, event)@).0,
            final(self)@ == old(self)@.remove(
                origin_key(timebase)@,
                event_key(timebase, event)@,
            ).1,
    {
        let key = TimebaseEventKey::new(timebase, event);
        self.remove(key.t0_key().code(), key.code())
    }

    /// Stores a direct delay from the first event to the second, under the
    /// same guard as `add_time`. A delay from an event to itself is refused
    /// with `AlreadyConstrained`, whether or not the graph holds the event.
    pub fn add_delay(
        &mut self,
        timebase_1: usize,
        event_1: usize,
        timebase_2: usize,
        event_2: usize,
        delay: i64,
    ) -> (r: Result<(), Errors>)
        requires
            old(self).wf(),
        ensures
            final(self).wf(),
            old(self)@.consistent() ==> final(self)@.consistent(),
            r == old(self)@.add(
                event_key(timebase_1, event_1)@,
                event_key(timebase_2, event_2)@,
                delay,
            ).0,
            final(self)@ == old(self)@.add(
                event_key(timebase_1, event_1)@,
                event_key(timebase_2, event_2)@,
                delay,
            ).1,
    {
        let key_1 = TimebaseEventKey::new(timebase_1, event_1);
        let key_2 = TimebaseEventKey::new(timebase_2, event_2);
        self.add(key_1.code(), key_2.code(), delay)
    }

    /// Stores a direct delay as `add_delay` does, but overwrites a stored one.
    pub fn update_delay(
        &mut self,
        timebase_1: usize,
        event_1: usize,
        timebase_2: usize,
        event_2: usize,
        delay: i64,
    ) -> (r: Result<(), Errors>)
        requires
            old(self).wf(),
        ensures
            final(self).wf(),
            old(self)@.consistent() ==> final(self)@.consistent(),
            r == old(self)@.update(
                event_key(timebase_1, event_1)@,
                event_key(timebase_2, event_2)@,
                delay,
            ).0,
            final(self)@ == old(self)@.update(
                event_key(timebase_1, event_1)@,
                event_key(timebase_2, event_2)@,
                delay,
            ).1,
    {
        let key_1 = TimebaseEventKey::new(timebase_1, event_1);
        let key_2 = TimebaseEventKey::new(timebase_2, event_2);
        self.update(key_1.code(), key_2.code(), delay)
    }

    /// Removes the direct delay between two events; `NotFound` where none is
    /// stored.
    pub fn remove_delay(
        &mut self,
        timebase_1: usize,
        event_1: usize,
        timebase_2: usize,
        event_2: usize,
    ) -> (r: Result<(), Errors>)
        requires
            old(self).wf(),
        ensures
            final(self).wf(),
            old(self)@.consistent() ==> final(self)@.consistent(),
            r == old(self)@.remove(
                event_key(timebase_1, event_1)@,
                event_key(timebase_2, event_2)@,
            ).0,
            final(self)@ == old(self)@.remove(
                event_key(timebase_1, event_1)@,
                event_key(timebase_2, event_2)@,
            ).1,
    {
        let key_1 = TimebaseEventKey::new(timebase_1, event_1);
        let key_2 = TimebaseEventKey::new(timebase_2, event_2);
        self.remove(key_1.code(), key_2.code())
    }

    /// The stored delay from the first event to the second.
    pub fn lookup_delay(
        &self,
        timebase_1: usize,
        event_1: usize,
        timebase_2: usize,
        event_2: usize,
    ) -> (w: Option<i128>)
        ensures
            w == self@.direct(event_key(timebase_1, event_1)@, event_key(timebase_2, event_2)@),
    {
        let key_1 = TimebaseEventKey::new(timebase_1, event_1);
        let key_2 = TimebaseEventKey::new(timebase_2, event_2);
        self.lookup(key_1.code(), key_2.code())
    }

    /// The delay between two nodes that the stored values imply: the sum
    /// along the simple path between them where there is exactly one, zero
    /// from a node of the graph to itself, nothing where no path joins them
    /// or the graph does not hold the first node, and `AmbiguousPath` where
    /// several paths do.
    pub fn calculate_delay(
        &self,
        timebase_1: usize,
        event_1: Event<usize>,
        timebase_2: usize,
        event_2: Event<usize>,
    ) -> (r: Result<Option<i128>, Errors>)
        requires
            self.wf(),
        ensures
            self@.consistent() ==> r is Ok,
            exact(r) == self@.derived(
                (TimebaseEventKey { timebase: timebase_1, event: event_1 })@,
                (TimebaseEventKey { timebase: timebase_2, event: event_2 })@,
            ),
    {
        let start_key = TimebaseEventKey { timebase: timebase_1, event: event_1 };
        let finish_key = TimebaseEventKey { timebase: timebase_2, event: event_2 };
        self.calculate(start_key.code(), finish_key.code())
    }

    /// The best known delay between two events: the stored one, else the
    /// derived one.
    pub fn get_delay(
        &self,
        timebase_1: usize,
        event_1: usize,
        timebase_2: usize,
        event_2: usize,
    ) -> (r: Result<Option<i128>, Errors>)
        requires
            self.wf(),
        ensures
            self@.consistent() ==> r is Ok,
            exact(r) == self@.best(
                event_key(timebase_1, event_1)@,
                event_key(timebase_2, event_2)@,
            ),
    {
        let key_1 = TimebaseEventKey::new(timebase_1, event_1);
        let key_2 = TimebaseEventKey::new(timebase_2, event_2);
        self.get(key_1.code(), key_2.code())
    }

    /// The stored time of an event.
    pub fn lookup_time(&self, timebase: usize, event: usize) -> (w: Option<i128>)
        ensures
            w == self@.direct(origin_key(timebase)@, event_key(timebase, event)@),
    {
        let key = TimebaseEventKey::new(timebase, event);
        self.lookup(key.t0_key().code(), key.code())
    }

    /// The time of an event that the stored values imply: the derived delay
    /// from the origin of its timebase.
    pub fn calculate_time(&self, timebase: usize, event: usize) -> (r: Result<
        Option<i128>,
        Errors,
    >)
        requires
            self.wf(),
        ensures
            self@.consistent() ==> r is Ok,
            exact(r) == self@.derived(origin_key(timebase)@, event_key(timebase, event)@),
    {
        let key = TimebaseEventKey::new(timebase, event);
        self.calculate(key.t0_key().code(), key.code())
    }

    /// The best known time of an event: the stored one, else the derived one.
    pub fn get_time(&self, timebase: usize, event: usize) -> (r: Result<Option<i128>, Errors>)
        requires
            self.wf(),
        ensures
            self@.consistent() ==> r is Ok,
            exact(r) == self@.best(origin_key(timebase)@, event_key(timebase, event)@),
    {
        let key = TimebaseEventKey::new(timebase, event);
        self.get(key.t0_key().code(), key.code())
    }

    /// The number of direct values that touch an event's node.
    pub fn neighbors(&self, timebase: usize, event: usize) -> (count: usize)
        ensures
            self@.neighbors_of(event_key(timebase, event)@).finite(),
            count == self@.neighbors_of(event_key(timebase, event)@).len(),
    {
        let key = TimebaseEventKey::new(timebase, event);
        let out = graph_neighbors(&self.graph, key.code());
        proof {
            out@.unique_seq_to_set();
            assert(out@.to_set() =~= self@.neighbors_of(key@));
        }
        out.len()
    }

    /// A graph from the rows of a table of times and of a table of delays,
    /// added in the order of the rows, the times first. The first row that
    /// the guard refuses ends the replay with its error.
    pub fn from_csv(event_rows: &Vec<TimeRow>, delay_rows: &Vec<DelayRow>) -> (r: Result<
        DelayGraph,
        Errors,
    >)
        ensures
            match r {
                Ok(g) => {
                    &&& g.wf()
                    &&& g@.consistent()
                    &&& replay_times(Model::empty(), event_rows@) matches Ok(m)
                    &&& replay_delays(m, delay_rows@) == Ok::<Model, Errors>(g@)
                },
                Err(e) => match replay_times(Model::empty(), event_rows@) {
                    Ok(m) => replay_delays(m, delay_rows@) == Err::<Model, Errors>(e),
                    Err(first) => e == first,
                },
            },
    {
        let mut g = DelayGraph::new();
        let mut i: usize = 0;
        proof {
            assert(event_rows@.skip(0) =~= event_rows@);
        }
        while i < event_rows.len()
            invariant
                i <= event_rows.len(),
                g.wf(),
                g@.consistent(),
                replay_times(Model::empty(), event_rows@) == replay_times(
                    g@,
                    event_rows@.skip(i as int),
                ),
            decreases event_rows.len() - i,
        {
            let row = event_rows[i];
            proof {
                assert(event_rows@.skip(i as int).skip(1) =~= event_rows@.skip(i + 1));
            }
            match g.add_time(row.0, row.1, row.2) {
                Ok(()) => {},
                Err(e) => {
                    return Err(e);
                },
            }
            i = i + 1;
        }
        let ghost after_times = g@;
        let mut j: usize = 0;
        proof {
            assert(delay_rows@.skip(0) =~= delay_rows@);
        }
        while j < delay_rows.len()
            invariant
                j <= delay_rows.len(),
                g.wf(),
                g@.consistent(),
                replay_times(Model::empty(), event_rows@) == Ok::<Model, Errors>(after_times),
                replay_delays(after_times, delay_rows@) == replay_delays(
                    g@,
                    delay_rows@.skip(j as int),
                ),
            decreases delay_rows.len() - j,
        {
            let row = delay_rows[j];
            proof {
                assert(delay_rows@.skip(j as int).skip(1) =~= delay_rows@.skip(j + 1));
            }
            match g.add_delay(row.0, row.1, row.2, row.3, row.4) {
                Ok(()) => {},
                Err(e) => {
                    return Err(e);
                },
            }
            j = j + 1;
        }
        Ok(g)
    }
}

} // verus!
