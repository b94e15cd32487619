use graphst::Graph;
use graphst::GraphError;
use graphst::UGraph;

#[test]
fn ugraph_constructor_new() {
    let g = UGraph::new();
    assert_eq!(g.get_n_nodes(), 0);
    assert_eq!(g.get_adjacency_matrix().len(), 0);
}

#[test]
fn ugraph_from_edges_writes_both_cells() {
    let g = UGraph::from_edges(3, vec![(0, 1), (1, 2)]).unwrap();
    let mat = g.get_adjacency_matrix();
    let expected: Vec<Vec<i64>> = vec![vec![0, 1, 0], vec![1, 0, 1], vec![0, 1, 0]];
    assert_eq!(mat, &expected);
}

#[test]
fn ugraph_from_edges_invalid_node() {
    let g = UGraph::from_edges(2, vec![(0, 1), (2, 0)]);
    assert_eq!(g.unwrap_err(), GraphError::InvalidIndex(2));
}

#[test]
fn ugraph_from_edges_repeated_edge() {
    let g = UGraph::from_edges(3, vec![(0, 1), (1, 2), (0, 1)]);
    assert_eq!(g.unwrap_err(), GraphError::DuplicateEdge(0, 1));
}

#[test]
fn ugraph_from_edges_reversed_pair_is_not_a_repeat() {
    // Duplicate detection only looks at directly written cells, so the
    // reversed pair of an earlier edge passes; the later write wins.
    let g = UGraph::from_edges(2, vec![(0, 1), (1, 0)]).unwrap();
    let mat = g.get_adjacency_matrix();
    assert_eq!(mat[0][1], 1);
    assert_eq!(mat[1][0], 1);
}

#[test]
fn ugraph_from_weighted_edges_symmetric_cells() {
    let g = UGraph::from_weighted_edges(3, vec![(0, 1, 2300), (1, 2, 1200)]).unwrap();
    let mat = g.get_adjacency_matrix();
    let expected: Vec<Vec<i64>> = vec![
        vec![0, 2300, 0],
        vec![2300, 0, 1200],
        vec![0, 1200, 0],
    ];
    assert_eq!(mat, &expected);
}

#[test]
fn ugraph_from_weighted_edges_reversed_pair_overwrites() {
    let g = UGraph::from_weighted_edges(2, vec![(0, 1, 5), (1, 0, 9)]).unwrap();
    let mat = g.get_adjacency_matrix();
    assert_eq!(mat[0][1], 9);
    assert_eq!(mat[1][0], 9);
}

#[test]
fn ugraph_from_adjacency_matrix_accepts_symmetric() {
    let given: Vec<Vec<i64>> = vec![vec![0, 4, 0], vec![4, 0, 7], vec![0, 7, 2]];
    let g = UGraph::from_adjacency_matrix(given.clone()).unwrap();
    assert_eq!(g.get_adjacency_matrix(), &given);
}

#[test]
fn ugraph_from_adjacency_matrix_rejects_asymmetric() {
    let mut adj_mat = vec![vec![0; 2]; 2];
    adj_mat[0][1] = 4;
    adj_mat[1][0] = 1;
    let g = UGraph::from_adjacency_matrix(adj_mat);
    assert_eq!(g.unwrap_err(), GraphError::MalformedMatrix);
}

#[test]
fn ugraph_from_adjacency_matrix_rejects_not_squared() {
    let adj_mat = vec![vec![0, 1], vec![1, 0, 0]];
    let g = UGraph::from_adjacency_matrix(adj_mat);
    assert_eq!(g.unwrap_err(), GraphError::MalformedMatrix);
}

#[test]
fn ugraph_get_neighbors_of_check_values() {
    let g = UGraph::from_edges(4, vec![(0, 1), (1, 2), (1, 3)]).unwrap();
    assert_eq!(g.get_neighbors_of(0).unwrap(), vec![1]);
    assert_eq!(g.get_neighbors_of(1).unwrap(), vec![0, 2, 3]);
    assert_eq!(g.get_neighbors_of(2).unwrap(), vec![1]);
    assert_eq!(g.get_neighbors_of(3).unwrap(), vec![1]);
}

#[test]
fn ugraph_get_neighbors_of_invalid_node() {
    let g = UGraph::from_edges(2, vec![(0, 1)]).unwrap();
    assert_eq!(g.get_neighbors_of(2).unwrap_err(), GraphError::InvalidIndex(2));
}

#[test]
fn ugraph_get_edge_reads_both_directions() {
    let g = UGraph::from_weighted_edges(3, vec![(0, 2, 800)]).unwrap();
    assert_eq!(g.get_edge(0, 2).unwrap(), Some(800));
    assert_eq!(g.get_edge(2, 0).unwrap(), Some(800));
    assert_eq!(g.get_edge(0, 1).unwrap(), None);
}

#[test]
fn ugraph_add_edge_symmetric_after_every_mutation() {
    let mut g = UGraph::from_edges(3, vec![(0, 1)]).unwrap();
    g.add_edge(1, 2).unwrap();
    g.add_weighted_edge(0, 2, 450).unwrap();
    g.add_node();
    g.add_weighted_edge(3, 1, -20).unwrap();
    let mat = g.get_adjacency_matrix();
    let n = mat.len();
    assert_eq!(n, 4);
    for i in 0..n {
        for j in 0..n {
            assert_eq!(mat[i][j], mat[j][i]);
        }
    }
    assert_eq!(mat[1][2], 1);
    assert_eq!(mat[0][2], 450);
    assert_eq!(mat[1][3], -20);
}

#[test]
fn ugraph_add_edge_invalid_node() {
    let mut g = UGraph::from_edges(2, vec![(0, 1)]).unwrap();
    assert_eq!(g.add_edge(2, 0).unwrap_err(), GraphError::InvalidIndex(2));
    assert_eq!(g.add_weighted_edge(0, 5, 3).unwrap_err(), GraphError::InvalidIndex(5));
}

#[test]
fn ugraph_add_connection_check_status() {
    let mut g = UGraph::from_adjacency_matrix(vec![vec![0; 3]; 3]).unwrap();
    g.add_connection(0, 1).unwrap();
    g.add_weighted_connection(1, 2, 7500).unwrap();
    let mat = g.get_adjacency_matrix();
    assert_eq!(mat[0][1], 1);
    assert_eq!(mat[1][0], 1);
    assert_eq!(mat[1][2], 7500);
    assert_eq!(mat[2][1], 7500);
}

#[test]
fn ugraph_add_connection_invalid_node() {
    let mut g = UGraph::new();
    assert_eq!(g.add_connection(0, 0).unwrap_err(), GraphError::InvalidIndex(0));
    assert_eq!(g.add_weighted_connection(0, 1, 2).unwrap_err(), GraphError::InvalidIndex(0));
}

#[test]
fn ugraph_from_edges_two_symmetric_unit_cells_per_edge() {
    let edges = vec![(0, 3), (1, 1), (2, 3)];
    let g = UGraph::from_edges(4, edges.clone()).unwrap();
    let mat = g.get_adjacency_matrix();
    for i in 0..4 {
        for j in 0..4 {
            let expected = if edges.contains(&(i, j)) || edges.contains(&(j, i)) { 1 } else { 0 };
            assert_eq!(mat[i][j], expected);
        }
    }
}

#[test]
fn ugraph_add_node_preserves_previous_edges() {
    let mut g = UGraph::from_weighted_edges(2, vec![(0, 1, 42)]).unwrap();
    g.add_node();
    assert_eq!(g.get_n_nodes(), 3);
    let mat = g.get_adjacency_matrix();
    assert_eq!(mat[0][1], 42);
    assert_eq!(mat[1][0], 42);
    assert_eq!(mat[0][2], 0);
    assert_eq!(mat[2][0], 0);
    assert_eq!(mat[2][2], 0);
}
