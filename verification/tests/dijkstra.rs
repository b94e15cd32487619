use graphst::DGraph;
use graphst::Graph;
use graphst::GraphError;
use graphst::UGraph;
use graphst::algorithm::Distance;
use graphst::algorithm::dijkstra;

fn fin(x: i128) -> Distance {
    Distance::Finite(x)
}

#[test]
fn dijkstra_directed_line_with_self_loop() {
    let n_nodes = 3;
    let edges = vec![(0, 1), (1, 2), (2, 2)];
    let g = DGraph::from_edges(n_nodes, edges).unwrap();
    let short_paths = dijkstra(&g, 0).unwrap();
    assert_eq!(short_paths, vec![fin(0), fin(1), fin(2)]);
}

#[test]
fn dijkstra_classic_weighted_cycle() {
    let n_nodes = 9;
    let edges = vec![
        (0, 1, 4),
        (0, 7, 8),
        (1, 2, 8),
        (1, 7, 11),
        (2, 3, 7),
        (2, 5, 4),
        (2, 8, 2),
        (3, 4, 9),
        (3, 5, 14),
        (4, 5, 10),
        (5, 6, 2),
        (6, 7, 1),
        (6, 8, 6),
        (7, 8, 8),
    ];
    let g = UGraph::from_weighted_edges(n_nodes, edges).unwrap();
    let short_paths = dijkstra(&g, 0).unwrap();
    assert_eq!(
        short_paths,
        vec![
            fin(0),
            fin(4),
            fin(12),
            fin(19),
            fin(21),
            fin(11),
            fin(9),
            fin(8),
            fin(14),
        ]
    );
}

#[test]
fn dijkstra_directed_weighted_example() {
    let n_nodes = 5;
    let edges = vec![
        (0, 1, 4),
        (0, 2, 3),
        (0, 3, 5),
        (1, 2, 2),
        (1, 3, 3),
        (2, 4, 7),
        (3, 4, 2),
        (4, 0, 7),
    ];
    let g = DGraph::from_weighted_edges(n_nodes, edges).unwrap();
    let short_paths = dijkstra(&g, 0).unwrap();
    assert_eq!(short_paths, vec![fin(0), fin(4), fin(3), fin(5), fin(7)]);
}

#[test]
fn dijkstra_empty_graph_gives_empty_vector() {
    let g = DGraph::new();
    assert_eq!(dijkstra(&g, 0).unwrap(), vec![]);
    assert_eq!(dijkstra(&g, 17).unwrap(), vec![]);
}

#[test]
fn dijkstra_invalid_source_is_rejected() {
    let g = DGraph::from_edges(2, vec![(0, 1)]).unwrap();
    assert_eq!(dijkstra(&g, 2).unwrap_err(), GraphError::InvalidIndex(2));
    assert_eq!(dijkstra(&g, 2000).unwrap_err(), GraphError::InvalidIndex(2000));
}

#[test]
fn dijkstra_unreachable_node_stays_at_infinity() {
    let g = DGraph::from_edges(3, vec![(0, 1)]).unwrap();
    let short_paths = dijkstra(&g, 0).unwrap();
    assert_eq!(short_paths, vec![fin(0), fin(1), Distance::Infinity]);
}

#[test]
fn dijkstra_length_and_source_zero() {
    let g = UGraph::from_weighted_edges(4, vec![(0, 1, 10), (1, 2, 20)]).unwrap();
    for src in 0..4 {
        let short_paths = dijkstra(&g, src).unwrap();
        assert_eq!(short_paths.len(), g.get_n_nodes());
        assert_eq!(short_paths[src], fin(0));
    }
}

#[test]
fn dijkstra_tie_breaks_run_to_completion() {
    // Two equally short routes to node 3; the result is the common length.
    let g = DGraph::from_weighted_edges(
        4,
        vec![(0, 1, 1), (0, 2, 1), (1, 3, 1), (2, 3, 1)],
    )
    .unwrap();
    let short_paths = dijkstra(&g, 0).unwrap();
    assert_eq!(short_paths, vec![fin(0), fin(1), fin(1), fin(2)]);
}

#[test]
fn dijkstra_negative_weights_are_accepted() {
    // No negative cycle detection is attempted: the rounds still run and
    // report what the relaxations produced.
    let g = DGraph::from_weighted_edges(3, vec![(0, 1, 5), (1, 2, -3)]).unwrap();
    let short_paths = dijkstra(&g, 0).unwrap();
    assert_eq!(short_paths, vec![fin(0), fin(5), fin(2)]);
}

#[test]
fn dijkstra_self_loop_on_source_leaves_zero() {
    let g = DGraph::from_weighted_edges(2, vec![(0, 0, 3), (0, 1, 4)]).unwrap();
    let short_paths = dijkstra(&g, 0).unwrap();
    assert_eq!(short_paths, vec![fin(0), fin(4)]);
}

#[test]
fn dijkstra_single_node_graph() {
    let mut g = DGraph::new();
    g.add_node();
    assert_eq!(dijkstra(&g, 0).unwrap(), vec![fin(0)]);
}
