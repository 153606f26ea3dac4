use digraph::EdgeAdditionError;
use digraph::EdgeGetError;
use digraph::Graph;
use digraph::Node;

fn sample() -> Graph<i32> {
    let mut graph = Graph::new();
    graph.add_node(5);
    graph.add_node(1);
    graph.add_node(12);
    graph.add_node(100);
    graph.add_edge(1, 2).unwrap();
    graph.add_edge(2, 1).unwrap();
    graph.add_edge(0, 3).unwrap();
    graph
}

fn all_targets_in_range(graph: &Graph<i32>) -> bool {
    let count = graph.nodes().count();
    (0..count).all(|i| graph.get_edges_from(i).unwrap().iter().all(|&t| t < count))
}

#[test]
fn new_graph_is_empty() {
    let graph: Graph<i32> = Graph::new();
    assert_eq!(graph.nodes().count(), 0);
    assert_eq!(graph.get_node(0), None);
    assert_eq!(graph.to_string(), "");
}

#[test]
fn add_node_returns_consecutive_indices() {
    let mut graph = Graph::new();
    assert_eq!(graph.add_node('a'), 0);
    assert_eq!(graph.add_node('b'), 1);
    assert_eq!(graph.add_node('c'), 2);
    assert_eq!(graph.get_node(1), Some(&Node('b')));
    assert_eq!(graph.get_node(3), None);
}

#[test]
fn add_node_keeps_earlier_nodes_and_edges() {
    let mut graph = sample();
    assert_eq!(graph.add_node(7), 4);
    assert_eq!(graph.get_node(0), Some(&Node(5)));
    assert_eq!(graph.get_node(1), Some(&Node(1)));
    assert_eq!(graph.get_node(2), Some(&Node(12)));
    assert_eq!(graph.get_node(3), Some(&Node(100)));
    assert_eq!(graph.get_node(4), Some(&Node(7)));
    assert_eq!(graph.get_edges_from(0), Ok(vec![3]));
    assert_eq!(graph.get_edges_from(1), Ok(vec![2]));
    assert_eq!(graph.get_edges_from(2), Ok(vec![1]));
    assert_eq!(graph.get_edges_from(4), Ok(vec![]));
}

#[test]
fn targets_stay_in_range_through_operations() {
    let mut graph = sample();
    assert!(all_targets_in_range(&graph));
    graph.add_edge(3, 0).unwrap();
    graph.add_edge(3, 3).unwrap();
    assert!(all_targets_in_range(&graph));
    graph.remove_node(0);
    assert!(all_targets_in_range(&graph));
    graph.add_node(9);
    graph.add_edge(3, 2).unwrap();
    assert!(all_targets_in_range(&graph));
    graph.pop();
    assert!(all_targets_in_range(&graph));
    graph.remove_node(1);
    assert!(all_targets_in_range(&graph));
}

#[test]
fn removal_renumbers_edges() {
    let mut graph = Graph::new();
    for payload in 0..5 {
        graph.add_node(payload);
    }
    graph.add_edge(0, 4).unwrap();
    graph.add_edge(0, 2).unwrap();
    graph.add_edge(0, 1).unwrap();
    graph.add_edge(2, 0).unwrap();
    graph.add_edge(3, 2).unwrap();
    graph.add_edge(3, 3).unwrap();
    graph.add_edge(4, 3).unwrap();
    graph.add_edge(2, 4).unwrap();

    assert_eq!(graph.remove_node(2), Node(2));

    assert_eq!(graph.nodes().map(|n| n.0).collect::<Vec<_>>(), vec![0, 1, 3, 4]);
    assert_eq!(graph.get_edges_from(0), Ok(vec![3, 1]));
    assert_eq!(graph.get_edges_from(1), Ok(vec![]));
    assert_eq!(graph.get_edges_from(2), Ok(vec![2]));
    assert_eq!(graph.get_edges_from(3), Ok(vec![2]));
    assert_eq!(graph.get_edges_to(2), Ok(vec![2, 3]));
}

#[test]
fn removal_of_first_node_shifts_everything() {
    let mut graph = sample();
    assert_eq!(graph.remove_node(0), Node(5));
    assert_eq!(graph.get_node(0), Some(&Node(1)));
    assert_eq!(graph.get_edges_from(0), Ok(vec![1]));
    assert_eq!(graph.get_edges_from(1), Ok(vec![0]));
    assert_eq!(graph.get_edges_from(2), Ok(vec![]));
    assert_eq!(graph.to_string(), "1 -> 12\n12 -> 1\n");
}

#[test]
fn get_edges_is_outgoing_then_incoming() {
    let mut graph = sample();
    graph.add_edge(1, 0).unwrap();
    graph.add_edge(3, 1).unwrap();
    graph.add_edge(3, 1).unwrap();
    for i in 0..4 {
        let mut expected = graph.get_edges_from(i).unwrap();
        expected.extend(graph.get_edges_to(i).unwrap());
        assert_eq!(graph.get_edges(i), Ok(expected));
    }
    assert_eq!(graph.get_edges(1), Ok(vec![2, 0, 2, 3, 3]));
}

#[test]
fn incoming_edges_keep_duplicates_in_source_order() {
    let mut graph = sample();
    graph.add_edge(3, 1).unwrap();
    graph.add_edge(0, 1).unwrap();
    graph.add_edge(3, 1).unwrap();
    graph.add_edge(1, 1).unwrap();
    assert_eq!(graph.get_edges_to(1), Ok(vec![0, 1, 2, 3, 3]));
}

#[test]
fn self_loops_and_duplicate_edges_are_kept() {
    let mut graph = sample();
    assert_eq!(graph.add_edge(2, 2), Ok(()));
    assert_eq!(graph.add_edge(2, 1), Ok(()));
    assert_eq!(graph.get_edges_from(2), Ok(vec![1, 2, 1]));
    assert_eq!(graph.to_string(), "5 -> 100\n1 -> 12\n12 -> 1\n12 -> 12\n12 -> 1\n");
}

#[test]
fn add_edge_rejects_out_of_range_without_change() {
    let mut graph = sample();
    let before = graph.to_string();
    assert_eq!(
        graph.add_edge(4, 0),
        Err(EdgeAdditionError { from: 4, to: 0, node_count: 4 })
    );
    assert_eq!(
        graph.add_edge(0, 4),
        Err(EdgeAdditionError { from: 0, to: 4, node_count: 4 })
    );
    assert_eq!(
        graph.add_edge(usize::MAX, usize::MAX),
        Err(EdgeAdditionError { from: usize::MAX, to: usize::MAX, node_count: 4 })
    );
    assert_eq!(graph.to_string(), before);
    assert_eq!(graph.get_edges_from(0), Ok(vec![3]));
}

#[test]
fn edge_queries_reject_out_of_range() {
    let graph = sample();
    let err = Err(EdgeGetError { index: 4, node_count: 4 });
    assert_eq!(graph.get_edges_from(4), err);
    assert_eq!(graph.get_edges_to(4), err);
    assert_eq!(graph.get_edges(4), err);
    let empty: Graph<i32> = Graph::new();
    assert_eq!(
        empty.get_edges(0),
        Err(EdgeGetError { index: 0, node_count: 0 })
    );
}

#[test]
fn pop_on_empty_graph_is_none() {
    let mut graph: Graph<i32> = Graph::new();
    assert_eq!(graph.pop(), None);
    assert_eq!(graph.pop(), None);
    assert_eq!(graph.nodes().count(), 0);
}

#[test]
fn repeated_pop_drains_graph() {
    let mut graph = sample();
    assert_eq!(graph.pop(), Some(Node(100)));
    assert_eq!(graph.to_string(), "1 -> 12\n12 -> 1\n");
    assert_eq!(graph.pop(), Some(Node(12)));
    assert_eq!(graph.get_edges_from(1), Ok(vec![]));
    assert_eq!(graph.pop(), Some(Node(1)));
    assert_eq!(graph.pop(), Some(Node(5)));
    assert_eq!(graph.pop(), None);
    assert_eq!(graph.pop(), None);
    assert_eq!(graph.nodes().count(), 0);
}

#[test]
fn scenario_from_build_to_drain() {
    let mut graph = sample();
    assert_eq!(graph.get_edges_from(1), Ok(vec![2]));
    assert_eq!(graph.get_edges_to(1), Ok(vec![2]));
    assert_eq!(graph.get_edges(1), Ok(vec![2, 2]));
    assert_eq!(graph.to_string(), "5 -> 100\n1 -> 12\n12 -> 1\n");
    assert_eq!(graph.remove_node(1), Node(1));
    assert_eq!(graph.get_node(1), Some(&Node(12)));
    assert_eq!(graph.remove_node(1), Node(12));
    assert_eq!(graph.to_string(), "5 -> 100\n");
    assert_eq!(graph.pop(), Some(Node(100)));
    assert_eq!(graph.pop(), Some(Node(5)));
    assert_eq!(graph.pop(), None);
}

#[test]
fn render_with_uses_given_labels() {
    let graph = sample();
    let labels = vec![
        String::from("a"),
        String::from("b"),
        String::from("c"),
        String::from("d"),
    ];
    assert_eq!(graph.render_with(&labels), "a -> d\nb -> c\nc -> b\n");
}
