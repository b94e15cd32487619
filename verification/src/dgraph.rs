//! Directed graphs stored as a dense adjacency matrix.

use vstd::pervasive::VecAdditionalExecFns;
use vstd::prelude::*;

use crate::graph::Graph;
use crate::graph::GraphError;
use crate::graph::grown;
use crate::graph::is_square;
use crate::graph::spec_predecessors;
use crate::graph::spec_successors;
use crate::graph::make_zero_matrix;
use crate::graph::zero_matrix;

verus! {

broadcast use crate::graph::lemma_vec_i64_deep_view;

/// The `DGraph` struct provides the functionalities to create and manipulate
/// directed graphs. It can use weighted edges or default edges (with weight
/// `1`). The weights of the edges are of type `i64`, a weight of `0` meaning
/// that there is no edge, and the nodes are referenced by `usize` values from
/// `0` to `n_nodes - 1`.
#[derive(Debug)]
pub struct DGraph {
    n_nodes: usize,
    adj_mat: Vec<Vec<i64>>,
}

/// `m` with the single cell `[src][dest]` set to `w`: the effect of setting
/// one directed edge.
pub open spec fn directed_edge_set(m: Seq<Seq<i64>>, src: int, dest: int, w: i64) -> Seq<
    Seq<i64>,
> {
    m.update(src, m[src].update(dest, w))
}

/// The matrix built by adding the weighted `edges` to `m` one at a time, in
/// order, or the first error met: an edge with a node index out of range
/// fails with `InvalidIndex`, and an edge whose target cell was already set
/// to a non-zero weight fails with `DuplicateEdge` (so a duplicate that wrote
/// a weight of `0` goes undetected, as `0` is indistinguishable from "no
/// edge").
pub open spec fn spec_add_edges(m: Seq<Seq<i64>>, edges: Seq<(usize, usize, i64)>) -> Result<
    Seq<Seq<i64>>,
    GraphError,
>
    decreases edges.len(),
{
    if edges.len() == 0 {
        Ok(m)
    } else {
        let e = edges[0];
        if e.0 >= m.len() {
            Err(GraphError::InvalidIndex(e.0))
        } else if e.1 >= m.len() {
            Err(GraphError::InvalidIndex(e.1))
        } else if m[e.0 as int][e.1 as int] != 0 {
            Err(GraphError::DuplicateEdge(e.0, e.1))
        } else {
            spec_add_edges(directed_edge_set(m, e.0 as int, e.1 as int, e.2), edges.drop_first())
        }
    }
}

/// The `(src, dest)` pairs of an unweighted edge list, each given the default
/// weight `1`.
pub open spec fn with_unit_weights(edges: Seq<(usize, usize)>) -> Seq<(usize, usize, i64)> {
    edges.map_values(|e: (usize, usize)| (e.0, e.1, 1i64))
}

/// Whether some edge in the list leaves `i` for `j`.
pub open spec fn edge_hits(edges: Seq<(usize, usize, i64)>, i: int, j: int) -> bool {
    exists|k: int| 0 <= k < edges.len() && (#[trigger] edges[k]).0 == i && edges[k].1 == j
}

/// Adding an all-unit-weight edge list to a square matrix sets exactly the
/// listed cells to `1` and leaves every other cell as it was.
proof fn lemma_add_unit_edges_cells(m0: Seq<Seq<i64>>, edges: Seq<(usize, usize, i64)>)
    requires
        is_square(m0),
        spec_add_edges(m0, edges) is Ok,
        forall|k: int| 0 <= k < edges.len() ==> (#[trigger] edges[k]).2 == 1i64,
    ensures
        spec_add_edges(m0, edges)->Ok_0.len() == m0.len(),
        is_square(spec_add_edges(m0, edges)->Ok_0),
        forall|i: int, j: int|
            0 <= i < m0.len() && 0 <= j < m0.len() ==> #[trigger] spec_add_edges(
                m0,
                edges,
            )->Ok_0[i][j] == (if edge_hits(edges, i, j) {
                1i64
            } else {
                m0[i][j]
            }),
    decreases edges.len(),
{
    let res = spec_add_edges(m0, edges)->Ok_0;
    if edges.len() == 0 {
    } else {
        let e = edges[0];
        let m1 = directed_edge_set(m0, e.0 as int, e.1 as int, e.2);
        let rest = edges.drop_first();
        assert(m0[e.0 as int].len() == m0.len());
        assert(is_square(m1)) by {
            assert forall|x: int| 0 <= x < m1.len() implies (#[trigger] m1[x]).len() == m1.len()
            by {
                assert(m0[x].len() == m0.len());
            }
        }
        assert forall|k: int| 0 <= k < rest.len() implies (#[trigger] rest[k]).2 == 1i64 by {
            assert(rest[k] == edges[k + 1]);
        }
        lemma_add_unit_edges_cells(m1, rest);
        assert forall|i: int, j: int| 0 <= i < m0.len() && 0 <= j < m0.len() implies #[trigger] res[i][j]
            == (if edge_hits(edges, i, j) {
            1i64
        } else {
            m0[i][j]
        }) by {
            if edge_hits(rest, i, j) {
                let k = choose|k: int|
                    0 <= k < rest.len() && (#[trigger] rest[k]).0 == i && rest[k].1 == j;
                assert(rest[k] == edges[k + 1]);
                assert(edge_hits(edges, i, j));
            } else if i == e.0 && j == e.1 {
                assert((#[trigger] edges[0]).2 == 1i64);
                assert(edge_hits(edges, i, j));
                assert(m1[i][j] == 1i64);
            } else {
                assert(m1[i][j] == m0[i][j]);
                if edge_hits(edges, i, j) {
                    let k = choose|k: int|
                        0 <= k < edges.len() && (#[trigger] edges[k]).0 == i && edges[k].1 == j;
                    assert(k > 0);
                    assert(rest[k - 1] == edges[k]);
                    assert(edge_hits(rest, i, j));
                }
            }
        }
    }
}

/// Building a directed graph from a `(src, dest)` edge list sets exactly one
/// cell per edge: weight `1` where the list holds the pair, `0` everywhere
/// else.
pub proof fn lemma_from_edges_cells(n: nat, edges: Seq<(usize, usize)>)
    requires
        n <= usize::MAX as nat + 1,
        spec_add_edges(zero_matrix(n), with_unit_weights(edges)) is Ok,
    ensures
        spec_add_edges(zero_matrix(n), with_unit_weights(edges))->Ok_0.len() == n,
        forall|i: int, j: int|
            0 <= i < n && 0 <= j < n ==> #[trigger] spec_add_edges(
                zero_matrix(n),
                with_unit_weights(edges),
            )->Ok_0[i][j] == (if edges.contains((i as usize, j as usize)) {
                1i64
            } else {
                0i64
            }),
{
    let tw = with_unit_weights(edges);
    assert forall|k: int| 0 <= k < tw.len() implies (#[trigger] tw[k]).2 == 1i64 by {
        assert(tw[k] == (edges[k].0, edges[k].1, 1i64));
    }
    lemma_add_unit_edges_cells(zero_matrix(n), tw);
    assert forall|i: int, j: int| 0 <= i < n && 0 <= j < n implies (edge_hits(tw, i, j)
        <==> edges.contains((i as usize, j as usize))) by {
        if edge_hits(tw, i, j) {
            let k = choose|k: int| 0 <= k < tw.len() && (#[trigger] tw[k]).0 == i && tw[k].1 == j;
            assert(tw[k] == (edges[k].0, edges[k].1, 1i64));
            assert(edges[k] == (i as usize, j as usize));
            assert(edges.contains((i as usize, j as usize)));
        }
        if edges.contains((i as usize, j as usize)) {
            let k = choose|k: int| 0 <= k < edges.len() && edges[k] == (i as usize, j as usize);
            assert(tw[k] == (edges[k].0, edges[k].1, 1i64));
            assert(i as usize as int == i && j as usize as int == j);
            assert(edge_hits(tw, i, j));
        }
    }
}

impl DGraph {
    /// Creates an empty `DGraph`.
    pub fn new() -> (g: DGraph)
        ensures
            g.wf(),
            g.model() == Seq::<Seq<i64>>::empty(),
    {
        let g = DGraph { n_nodes: 0, adj_mat: Vec::new() };
        proof {
            assert(g.model() =~= Seq::<Seq<i64>>::empty());
        }
        g
    }

    /// Creates a `DGraph` from the definition of the graph edges and the
    /// number of nodes. Each edge is a `(src, dest)` pair and sets the weight
    /// `1`; an edge with an invalid node value fails with `InvalidIndex`, and
    /// a repeated `(src, dest)` pair fails with `DuplicateEdge`, in each case
    /// at the first edge in the list at fault.
    pub fn from_edges(n_nodes: usize, edges: Vec<(usize, usize)>) -> (r: Result<
        DGraph,
        GraphError,
    >)
        ensures
            (match spec_add_edges(zero_matrix(n_nodes as nat), with_unit_weights(edges@)) {
                Ok(m) => r matches Ok(g) && g.wf() && g.model() == m && g.model().len()
                    == n_nodes,
                Err(e) => r == Err::<DGraph, GraphError>(e),
            }),
    {
        let mut weighted: Vec<(usize, usize, i64)> = Vec::new();
        let mut k: usize = 0;
        while k < edges.len()
            invariant
                k <= edges@.len(),
                weighted@.len() == k,
                forall|i: int|
                    0 <= i < k ==> #[trigger] weighted@[i] == (edges@[i].0, edges@[i].1, 1i64),
            decreases edges@.len() - k,
        {
            let e = edges[k];
            weighted.push((e.0, e.1, 1i64));
            k = k + 1;
        }
        proof {
            assert(weighted@ =~= with_unit_weights(edges@));
        }
        DGraph::from_weighted_edges(n_nodes, weighted)
    }

    /// Creates a `DGraph` from the definition of the weighted graph edges and
    /// the number of nodes. Each edge is a `(src, dest, weight)` triple; an
    /// edge with an invalid node value fails with `InvalidIndex`, and a
    /// repeated `(src, dest)` pair fails with `DuplicateEdge`, in each case
    /// at the first edge in the list at fault.
    pub fn from_weighted_edges(n_nodes: usize, edges: Vec<(usize, usize, i64)>) -> (r: Result<
        DGraph,
        GraphError,
    >)
        ensures
            (match spec_add_edges(zero_matrix(n_nodes as nat), edges@) {
                Ok(m) => r matches Ok(g) && g.wf() && g.model() == m && g.model().len()
                    == n_nodes,
                Err(e) => r == Err::<DGraph, GraphError>(e),
            }),
    {
        let mut adj_mat = make_zero_matrix(n_nodes);
        proof {
            assert(edges@.skip(0) =~= edges@);
        }
        let mut k: usize = 0;
        while k < edges.len()
            invariant
                k <= edges@.len(),
                adj_mat@.len() == n_nodes,
                adj_mat.deep_view().len() == n_nodes,
                is_square(adj_mat.deep_view()),
                spec_add_edges(zero_matrix(n_nodes as nat), edges@) == spec_add_edges(
                    adj_mat.deep_view(),
                    edges@.skip(k as int),
                ),
            decreases edges@.len() - k,
        {
            proof {
                assert(edges@.skip(k as int)[0] == edges@[k as int]);
                assert(edges@.skip(k as int).drop_first() =~= edges@.skip(k as int + 1));
            }
            let e = edges[k];
            if e.0 >= n_nodes {
                return Err(GraphError::InvalidIndex(e.0));
            }
            if e.1 >= n_nodes {
                return Err(GraphError::InvalidIndex(e.1));
            }
            proof {
                assert(adj_mat.deep_view()[e.0 as int].len() == n_nodes);
            }
            if adj_mat[e.0][e.1] != 0 {
                return Err(GraphError::DuplicateEdge(e.0, e.1));
            }
            let ghost mprev = adj_mat.deep_view();
            let row: &mut Vec<i64> = &mut adj_mat[e.0];
            row.set(e.1, e.2);
            proof {
                assert(adj_mat.deep_view() =~~= directed_edge_set(
                    mprev,
                    e.0 as int,
                    e.1 as int,
                    e.2,
                ));
            }
            k = k + 1;
        }
        proof {
            assert(edges@.skip(edges@.len() as int).len() == 0);
        }
        Ok(DGraph { n_nodes, adj_mat })
    }

    /// Creates a `DGraph` from an adjacency matrix. The `i64` values
    /// represent the weights of the edges. A value of `0` means that there is
    /// no edge. Fails with `MalformedMatrix` if the matrix is not square; the
    /// matrix is otherwise taken as it stands.
    pub fn from_adjacency_matrix(adj_mat: Vec<Vec<i64>>) -> (r: Result<DGraph, GraphError>)
        ensures
            (if is_square(adj_mat.deep_view()) {
                r matches Ok(g) && g.wf() && g.model() == adj_mat.deep_view()
            } else {
                r == Err::<DGraph, GraphError>(GraphError::MalformedMatrix)
            }),
    {
        let n_nodes = adj_mat.len();
        let mut i: usize = 0;
        while i < n_nodes
            invariant
                n_nodes == adj_mat@.len(),
                i <= n_nodes,
                forall|k: int| 0 <= k < i ==> (#[trigger] adj_mat.deep_view()[k]).len() == n_nodes,
            decreases n_nodes - i,
        {
            if adj_mat[i].len() != n_nodes {
                proof {
                    assert(adj_mat.deep_view()[i as int].len() == adj_mat@[i as int]@.len());
                }
                return Err(GraphError::MalformedMatrix);
            }
            i = i + 1;
        }
        Ok(DGraph { n_nodes, adj_mat })
    }

    /// Returns a vector with the nodes that are successors of the node passed
    /// as a parameter, in ascending order. Fails with `InvalidIndex` if the
    /// node is not valid.
    pub fn get_successors_of(&self, node: usize) -> (r: Result<Vec<usize>, GraphError>)
        requires
            self.wf(),
        ensures
            (if node as int >= self.model().len() {
                r == Err::<Vec<usize>, GraphError>(GraphError::InvalidIndex(node))
            } else {
                r matches Ok(v) && v@ == spec_successors(
                    self.model(),
                    node as int,
                    self.model().len() as int,
                )
            }),
    {
        if node >= self.n_nodes {
            return Err(GraphError::InvalidIndex(node));
        }
        proof {
            assert(self.model()[node as int].len() == self.model().len());
        }
        let mut v: Vec<usize> = Vec::new();
        let mut j: usize = 0;
        while j < self.n_nodes
            invariant
                self.wf(),
                node < self.n_nodes,
                self.n_nodes == self.model().len(),
                self.model()[node as int].len() == self.model().len(),
                j <= self.n_nodes,
                v@ == spec_successors(self.model(), node as int, j as int),
            decreases self.n_nodes - j,
        {
            if self.adj_mat[node][j] != 0 {
                v.push(j);
            }
            j = j + 1;
        }
        Ok(v)
    }

    /// Returns a vector with the nodes that are predecessors of the node
    /// passed as a parameter, in ascending order. Fails with `InvalidIndex`
    /// if the node is not valid.
    pub fn get_predecessors_of(&self, node: usize) -> (r: Result<Vec<usize>, GraphError>)
        requires
            self.wf(),
        ensures
            (if node as int >= self.model().len() {
                r == Err::<Vec<usize>, GraphError>(GraphError::InvalidIndex(node))
            } else {
                r matches Ok(v) && v@ == spec_predecessors(
                    self.model(),
                    node as int,
                    self.model().len() as int,
                )
            }),
    {
        if node >= self.n_nodes {
            return Err(GraphError::InvalidIndex(node));
        }
        let mut v: Vec<usize> = Vec::new();
        let mut j: usize = 0;
        while j < self.n_nodes
            invariant
                self.wf(),
                node < self.n_nodes,
                self.n_nodes == self.model().len(),
                j <= self.n_nodes,
                v@ == spec_predecessors(self.model(), node as int, j as int),
            decreases self.n_nodes - j,
        {
            proof {
                assert(self.model()[j as int].len() == self.model().len());
            }
            if self.adj_mat[j][node] != 0 {
                v.push(j);
            }
            j = j + 1;
        }
        Ok(v)
    }
}

impl Graph for DGraph {
    /// A `DGraph` is well formed when its stored node count is the height of
    /// its adjacency matrix and the matrix is square.
    closed spec fn wf(&self) -> bool {
        self.n_nodes == self.adj_mat@.len() && is_square(self.adj_mat.deep_view())
    }

    /// The adjacency matrix, row by row.
    closed spec fn model(&self) -> Seq<Seq<i64>> {
        self.adj_mat.deep_view()
    }

    /// Setting a directed edge writes the one cell `[src][dest]`.
    open spec fn edge_set(m: Seq<Seq<i64>>, src: int, dest: int, w: i64) -> Seq<Seq<i64>> {
        directed_edge_set(m, src, dest, w)
    }

    proof fn lemma_wf_square(&self) {
    }

    /// Returns the number of nodes in the graph.
    fn get_n_nodes(&self) -> (n: usize) {
        self.n_nodes
    }

    /// Returns a vector with the nodes (`usize` references) of the graph.
    fn get_nodes(&self) -> (nodes: Vec<usize>) {
        let mut nodes: Vec<usize> = Vec::new();
        let mut i: usize = 0;
        while i < self.n_nodes
            invariant
                i <= self.n_nodes,
                nodes@.len() == i,
                forall|k: int| 0 <= k < i ==> nodes@[k] == k,
            decreases self.n_nodes - i,
        {
            nodes.push(i);
            i = i + 1;
        }
        nodes
    }

    /// Returns a reference to the bidimensional vector of `i64` with the
    /// adjacency matrix of the graph. The `i64` values are the weights of the
    /// edges, and a value of `0` means that there is no edge between those
    /// nodes.
    fn get_adjacency_matrix(&self) -> (mat: &Vec<Vec<i64>>) {
        &self.adj_mat
    }

    /// Gets the weight of the edge from the node `src` to `dest`. If the
    /// graph is not weighted the value will be `1`. If the edge doesn't exist
    /// the returned value will be `Ok(None)`.
    fn get_edge(&self, src: usize, dest: usize) -> (r: Result<Option<i64>, GraphError>) {
        if src >= self.n_nodes {
            Err(GraphError::InvalidIndex(src))
        } else if dest >= self.n_nodes {
            Err(GraphError::InvalidIndex(dest))
        } else {
            let w = self.adj_mat[src][dest];
            if w != 0 {
                Ok(Some(w))
            } else {
                Ok(None)
            }
        }
    }

    /// Adds a node to the graph without any edge.
    fn add_node(&mut self) {
        let ghost m0 = self.adj_mat.deep_view();
        let mut i: usize = 0;
        while i < self.n_nodes
            invariant
                self.n_nodes == self.adj_mat@.len(),
                self.n_nodes == m0.len(),
                self.n_nodes < usize::MAX,
                i <= self.n_nodes,
                forall|k: int|
                    0 <= k < i ==> #[trigger] self.adj_mat@[k]@ == m0[k].push(0i64),
                forall|k: int| i <= k < self.n_nodes ==> #[trigger] self.adj_mat@[k]@ == m0[k],
            decreases self.n_nodes - i,
        {
            let row: &mut Vec<i64> = &mut self.adj_mat[i];
            row.push(0i64);
            i = i + 1;
        }
        self.n_nodes = self.n_nodes + 1;
        let mut new_row: Vec<i64> = Vec::new();
        let mut j: usize = 0;
        while j < self.n_nodes
            invariant
                self.n_nodes == self.adj_mat@.len() + 1,
                self.n_nodes == m0.len() + 1,
                j <= self.n_nodes,
                new_row@.len() == j,
                forall|k: int| 0 <= k < j ==> new_row@[k] == 0i64,
                forall|k: int|
                    0 <= k < m0.len() ==> #[trigger] self.adj_mat@[k]@ == m0[k].push(0i64),
            decreases self.n_nodes - j,
        {
            new_row.push(0i64);
            j = j + 1;
        }
        self.adj_mat.push(new_row);
        proof {
            assert(self.model() =~~= grown(m0));
        }
    }

    /// Sets a directed edge from the node `src` to the node `dest`. The
    /// weight of the edge is set to `1`.
    fn add_edge(&mut self, src: usize, dest: usize) -> (r: Result<(), GraphError>) {
        self.add_weighted_edge(src, dest, 1i64)
    }

    /// Sets a directed edge from the node `src` to the node `dest`. The
    /// weight of the edge is set to the value of the parameter `weight`.
    fn add_weighted_edge(&mut self, src: usize, dest: usize, weight: i64) -> (r: Result<
        (),
        GraphError,
    >) {
        if src >= self.n_nodes {
            Err(GraphError::InvalidIndex(src))
        } else if dest >= self.n_nodes {
            Err(GraphError::InvalidIndex(dest))
        } else {
            let ghost m0 = self.adj_mat.deep_view();
            proof {
                assert(m0[src as int].len() == m0.len());
            }
            let row: &mut Vec<i64> = &mut self.adj_mat[src];
            row.set(dest, weight);
            proof {
                assert(self.model() =~~= directed_edge_set(m0, src as int, dest as int, weight));
            }
            Ok(())
        }
    }
}

} // verus!
