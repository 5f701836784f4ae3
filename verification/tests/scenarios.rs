use delays::graph::DelayGraph;

fn id(name: &str) -> usize {
    match name {
        "experiment" => 1,
        "scope" => 2,
        "pdv scope" => 3,
        "current start" => 11,
        "aux out" => 12,
        "movement start" => 13,
        "t0" => 14,
        "tb1" => 21,
        "tb2" => 22,
        "e1" => 31,
        "e2" => 32,
        "timebase" => 41,
        "event 1" => 51,
        "event 2" => 52,
        _ => panic!("unknown name {}", name),
    }
}

fn add_time(g: &mut DelayGraph, timebase: &str, event: &str, time: i64) {
    g.add_time(id(timebase), id(event), time).unwrap();
}

fn add_delay(g: &mut DelayGraph, tb_1: &str, ev_1: &str, tb_2: &str, ev_2: &str, delay: i64) {
    g.add_delay(id(tb_1), id(ev_1), id(tb_2), id(ev_2), delay).unwrap();
}

fn get_delay(g: &DelayGraph, tb_1: &str, ev_1: &str, tb_2: &str, ev_2: &str) -> Option<i128> {
    g.get_delay(id(tb_1), id(ev_1), id(tb_2), id(ev_2)).unwrap()
}

#[test]
fn lib_update_time() {
    let mut event_graph = DelayGraph::new();
    // create a time
    event_graph.add_time(1, 1, 0).unwrap();
    // adding the same time should fail
    assert!(event_graph.add_time(1, 1, 10).is_err());
    // updating the time should work
    event_graph.update_time(1, 1, 20).unwrap();
    // updating a node that doesn't exist yet should also work
    event_graph.update_time(1, 2, 30).unwrap();
    assert_eq!(event_graph.get_delay(1, 1, 1, 2).unwrap().unwrap(), 10);
}

#[test]
fn lib_same_timebase_delay_integers() {
    let mut event_graph = DelayGraph::new();
    event_graph.add_time(1, 1, 500).unwrap();
    event_graph.add_time(1, 2, 1000).unwrap();
    assert_eq!(event_graph.get_delay(1, 1, 1, 2).unwrap().unwrap(), 500);
}

#[test]
fn lib_same_timebase_over_constrained_delay_integers() {
    let mut event_graph = DelayGraph::new();
    event_graph.add_time(1, 1, 500).unwrap();
    event_graph.add_time(1, 2, 1000).unwrap();
    assert!(event_graph.add_delay(1, 1, 1, 2, 500).is_err());
}

#[test]
fn lib_different_timebase_delay_integers() {
    let mut event_graph = DelayGraph::new();
    event_graph.add_time(1, 1, 0).unwrap();
    event_graph.add_time(1, 2, 100).unwrap();
    event_graph.add_time(2, 1, 100).unwrap();
    event_graph.add_time(2, 2, 200).unwrap();

    event_graph.add_delay(1, 1, 2, 1, 0).unwrap();
    assert_eq!(event_graph.get_delay(1, 2, 2, 2).unwrap().unwrap(), 0);
}

#[test]
fn lib_different_timebase_event_integers() {
    let mut event_graph = DelayGraph::new();
    event_graph.add_time(1, 1, 0).unwrap();
    event_graph.add_time(2, 1, 100).unwrap();
    event_graph.add_time(2, 2, 200).unwrap();

    event_graph.add_delay(1, 1, 2, 1, 0).unwrap();
    event_graph.add_delay(1, 2, 2, 2, 0).unwrap();
    assert_eq!(event_graph.get_delay(1, 1, 1, 2).unwrap().unwrap(), 100);
}

#[test]
fn lib_different_timebase_event_integers_add_delays_first() {
    let mut event_graph = DelayGraph::new();

    event_graph.add_delay(1, 1, 2, 1, 0).unwrap();
    event_graph.add_delay(1, 2, 2, 2, 0).unwrap();

    event_graph.add_time(1, 1, 0).unwrap();
    event_graph.add_time(2, 1, 100).unwrap();
    event_graph.add_time(2, 2, 200).unwrap();

    assert_eq!(event_graph.get_delay(1, 1, 1, 2).unwrap().unwrap(), 100);
}

#[test]
fn tests_update_time() {
    let mut event_graph = DelayGraph::new();
    event_graph.add_time(1, 1, 0).unwrap();
    assert!(event_graph.add_time(1, 1, 10).is_err());
    event_graph.update_time(1, 1, 20).unwrap();
    event_graph.update_time(1, 2, 30).unwrap();
    assert_eq!(event_graph.lookup_time(1, 1), Some(20));
    assert_eq!(event_graph.lookup_time(1, 2), Some(30));
}

#[test]
fn tests_same_timebase_delay_integers() {
    let mut event_graph = DelayGraph::new();
    event_graph.add_time(1, 1, 500).unwrap();
    event_graph.add_time(1, 2, 1000).unwrap();
    assert_eq!(event_graph.get_delay(1, 1, 1, 2).unwrap().unwrap(), 500);
}

#[test]
fn tests_same_timebase_over_constrained_delay_integers() {
    let mut event_graph = DelayGraph::new();
    event_graph.add_time(1, 1, 500).unwrap();
    event_graph.add_time(1, 2, 1000).unwrap();
    assert!(event_graph.add_delay(1, 1, 1, 2, 500).is_err());
}

#[test]
fn tests_different_timebase_delay_integers() {
    let mut event_graph = DelayGraph::new();
    event_graph.add_time(1, 1, 0).unwrap();
    event_graph.add_time(1, 2, 100).unwrap();
    event_graph.add_time(2, 1, 100).unwrap();
    event_graph.add_time(2, 2, 200).unwrap();

    event_graph.add_delay(1, 1, 2, 1, 0).unwrap();
    assert_eq!(event_graph.get_delay(1, 2, 2, 2).unwrap().unwrap(), 0);
}

#[test]
fn tests_different_timebase_event_integers() {
    let mut event_graph = DelayGraph::new();
    event_graph.add_time(1, 1, 0).unwrap();
    event_graph.add_time(2, 1, 100).unwrap();
    event_graph.add_time(2, 2, 200).unwrap();

    event_graph.add_delay(1, 1, 2, 1, 0).unwrap();
    event_graph.add_delay(1, 2, 2, 2, 0).unwrap();
    assert_eq!(event_graph.get_delay(1, 1, 1, 2).unwrap().unwrap(), 100);
}

#[test]
fn tests_different_timebase_event_integers_add_delays_first() {
    let mut event_graph = DelayGraph::new();

    event_graph.add_delay(1, 1, 2, 1, 0).unwrap();
    event_graph.add_delay(1, 2, 2, 2, 0).unwrap();

    event_graph.add_time(1, 1, 0).unwrap();
    event_graph.add_time(2, 1, 100).unwrap();
    event_graph.add_time(2, 2, 200).unwrap();

    assert_eq!(event_graph.get_delay(1, 1, 1, 2).unwrap().unwrap(), 100);
}

#[test]
fn tests_real_example() {
    let mut event_graph = DelayGraph::new();
    add_time(&mut event_graph, "experiment", "current start", 0);
    add_time(&mut event_graph, "scope", "current start", 2500);
    add_time(&mut event_graph, "scope", "aux out", 30);
    add_time(&mut event_graph, "pdv scope", "aux out", 0);
    add_time(&mut event_graph, "pdv scope", "movement start", 2700);
    // add delays
    add_delay(&mut event_graph, "experiment", "current start", "scope", "current start", 1500);
    add_delay(&mut event_graph, "scope", "aux out", "pdv scope", "aux out", 100);
    add_delay(&mut event_graph, "experiment", "movement start", "pdv scope", "movement start", 150);

    let delay =
        get_delay(&event_graph, "experiment", "current start", "experiment", "movement start")
            .unwrap();
    assert_eq!(delay, 1680);
}

#[test]
fn delay_graph_str_keys_real_example() {
    let mut event_graph = DelayGraph::new();
    add_time(&mut event_graph, "experiment", "current start", 0);
    add_time(&mut event_graph, "scope", "current start", 2500);
    add_time(&mut event_graph, "scope", "aux out", 30);
    add_time(&mut event_graph, "pdv scope", "aux out", 0);
    add_time(&mut event_graph, "pdv scope", "movement start", 2700);
    add_delay(&mut event_graph, "experiment", "current start", "scope", "current start", 1500);
    add_delay(&mut event_graph, "scope", "aux out", "pdv scope", "aux out", 100);
    add_delay(&mut event_graph, "experiment", "movement start", "pdv scope", "movement start", 150);

    let delay =
        get_delay(&event_graph, "experiment", "current start", "experiment", "movement start")
            .unwrap();
    assert_eq!(delay, 1680);

    // the same value, read in the other direction and as a time
    let back =
        get_delay(&event_graph, "experiment", "movement start", "experiment", "current start")
            .unwrap();
    assert_eq!(back, -1680);
    assert_eq!(
        event_graph.get_time(id("experiment"), id("movement start")).unwrap(),
        Some(1680)
    );
}

#[test]
fn create_event_graph() {
    let mut event_graph = DelayGraph::new();
    add_time(&mut event_graph, "experiment", "current start", 0);
    add_time(&mut event_graph, "scope", "current start", 2500);
    add_time(&mut event_graph, "scope", "aux out", 30);
    add_time(&mut event_graph, "pdv scope", "movement start", 2700);
    // add delays
    add_delay(&mut event_graph, "experiment", "current start", "scope", "current start", 1500);
    add_delay(&mut event_graph, "scope", "aux out", "pdv scope", "t0", 100);
    add_delay(&mut event_graph, "experiment", "movement start", "pdv scope", "movement start", 150);
}

#[test]
fn different_timebase_strings() {
    let mut event_graph = DelayGraph::new();
    add_time(&mut event_graph, "tb1", "e1", 0);
    add_time(&mut event_graph, "tb1", "e2", 100);
    add_time(&mut event_graph, "tb2", "e1", 100);
    add_time(&mut event_graph, "tb2", "e2", 200);

    add_delay(&mut event_graph, "tb1", "e1", "tb2", "e1", 0);
    assert_eq!(get_delay(&event_graph, "tb1", "e2", "tb2", "e2").unwrap(), 0);
}

#[test]
fn same_timebase_strings() {
    let mut event_graph = DelayGraph::new();
    add_time(&mut event_graph, "timebase", "event 1", 500);
    add_time(&mut event_graph, "timebase", "event 2", 1000);
    assert_eq!(
        get_delay(&event_graph, "timebase", "event 1", "timebase", "event 2").unwrap(),
        500
    );
}

fn same_values(left: &DelayGraph, right: &DelayGraph, nodes: &[(usize, usize)]) {
    for &(t, e) in nodes {
        assert_eq!(left.lookup_time(t, e), right.lookup_time(t, e));
        assert_eq!(left.get_time(t, e), right.get_time(t, e));
        assert_eq!(left.time_exists(t, e), right.time_exists(t, e));
        assert_eq!(left.neighbors(t, e), right.neighbors(t, e));
        for &(t2, e2) in nodes {
            assert_eq!(left.lookup_delay(t, e, t2, e2), right.lookup_delay(t, e, t2, e2));
            assert_eq!(left.get_delay(t, e, t2, e2), right.get_delay(t, e, t2, e2));
        }
    }
}

#[test]
fn delay_graph_str_keys_create_from_csv() {
    // manually create an event graph
    let mut eg = DelayGraph::new();
    add_time(&mut eg, "experiment", "current start", 0);
    add_time(&mut eg, "scope", "experiment", 1550);
    add_delay(&mut eg, "experiment", "current start", "scope", "experiment", 20);

    // create the same graph from the rows of the two tables
    let event_rows = vec![
        (id("experiment"), id("current start"), 0),
        (id("scope"), id("experiment"), 1550),
    ];
    let delay_rows =
        vec![(id("experiment"), id("current start"), id("scope"), id("experiment"), 20)];
    let from_rows = DelayGraph::from_csv(&event_rows, &delay_rows).unwrap();
    let nodes = [
        (id("experiment"), id("current start")),
        (id("scope"), id("experiment")),
        (id("scope"), id("current start")),
    ];
    same_values(&eg, &from_rows, &nodes);
    assert_eq!(from_rows.lookup_time(id("scope"), id("experiment")), Some(1550));
    assert_eq!(
        from_rows.lookup_delay(id("experiment"), id("current start"), id("scope"), id("experiment")),
        Some(20)
    );
}

#[test]
fn from_csv_stops_at_the_first_refused_row() {
    // a time twice
    let twice = vec![(1, 1, 10), (1, 2, 20), (1, 1, 30)];
    assert_eq!(DelayGraph::from_csv(&twice, &vec![]).err(), Some(delays::Errors::AlreadyExists));
    // a delay that the times imply
    let times = vec![(1, 1, 10), (1, 2, 20)];
    let implied = vec![(1, 1, 2, 1, 5), (1, 1, 1, 2, 10)];
    assert_eq!(
        DelayGraph::from_csv(&times, &implied).err(),
        Some(delays::Errors::AlreadyConstrained(()))
    );
    // the times come first, whatever the delays say
    let delays_only = vec![(1, 1, 1, 2, 10)];
    assert_eq!(
        DelayGraph::from_csv(&times, &delays_only).err(),
        Some(delays::Errors::AlreadyConstrained(()))
    );
    let empty = DelayGraph::from_csv(&vec![], &vec![]).unwrap();
    assert_eq!(empty.get_time(1, 1), Ok(None));
    let fine = DelayGraph::from_csv(&times, &vec![(1, 1, 2, 1, 5)]).unwrap();
    assert_eq!(fine.get_delay(1, 2, 2, 1), Ok(Some(-5)));
}
