use ergo_tasks::dag::{reachable_walk, toposort_nodes};
use ergo_tasks::dataflow::DataFlowEdge;
use ergo_tasks::error::Error;

fn e(from: u32, to: u32, name: &str) -> DataFlowEdge {
    DataFlowEdge {
        from,
        to,
        name: name.to_string(),
    }
}

/// The example task graph: two triggers feeding a sum, a fetch, a text
/// label and an email action.
fn example_edges() -> Vec<DataFlowEdge> {
    vec![
        e(0, 2, "value"),
        e(0, 3, "x"),
        e(1, 3, "y"),
        e(3, 4, "doc_id"),
        e(5, 6, "label"),
        e(4, 6, "code"),
    ]
}

#[test]
fn toposort_example_graph() {
    let order = toposort_nodes(7, &example_edges()).unwrap();
    assert_eq!(order, vec![0, 1, 2, 3, 4, 5, 6]);
}

#[test]
fn toposort_orders_every_edge_forward() {
    let edges = example_edges();
    let order = toposort_nodes(7, &edges).unwrap();
    let pos = |v: u32| order.iter().position(|x| *x == v).unwrap();
    for edge in &edges {
        assert!(pos(edge.from) < pos(edge.to));
    }
}

#[test]
fn toposort_is_idempotent() {
    let first = toposort_nodes(7, &example_edges()).unwrap();
    let second = toposort_nodes(7, &example_edges()).unwrap();
    assert_eq!(first, second);
}

#[test]
fn toposort_rejects_cycle() {
    let edges = vec![e(0, 1, "a"), e(1, 2, "b"), e(2, 0, "c")];
    assert_eq!(toposort_nodes(3, &edges), Err(Error::CycleDetected));
}

#[test]
fn toposort_rejects_self_loop() {
    let edges = vec![e(0, 0, "a")];
    assert_eq!(toposort_nodes(1, &edges), Err(Error::CycleDetected));
}

#[test]
fn toposort_empty_graph() {
    let order = toposort_nodes(0, &Vec::new()).unwrap();
    assert!(order.is_empty());
}

#[test]
fn walker_covers_downstream_subgraph() {
    let edges = example_edges();
    let order = toposort_nodes(7, &edges).unwrap();
    let walk = reachable_walk(7, &edges, &order, 0).unwrap();
    assert_eq!(walk, vec![0, 2, 3, 4, 6]);
}

#[test]
fn walker_from_second_trigger() {
    let edges = example_edges();
    let order = toposort_nodes(7, &edges).unwrap();
    let walk = reachable_walk(7, &edges, &order, 1).unwrap();
    assert_eq!(walk, vec![1, 3, 4, 6]);
}

#[test]
fn walker_skips_unrelated_branches() {
    let edges = example_edges();
    let order = toposort_nodes(7, &edges).unwrap();
    let walk = reachable_walk(7, &edges, &order, 5).unwrap();
    assert_eq!(walk, vec![5, 6]);
}

#[test]
fn walker_rejects_bad_start() {
    let edges = example_edges();
    let order = toposort_nodes(7, &edges).unwrap();
    assert_eq!(
        reachable_walk(7, &edges, &order, 9),
        Err(Error::StartNodeOutOfRange)
    );
}
