//! Undirected graphs stored as a dense symmetric adjacency matrix.

use vstd::pervasive::VecAdditionalExecFns;
use vstd::prelude::*;

use crate::dgraph::directed_edge_set;
use crate::dgraph::edge_hits;
use crate::dgraph::with_unit_weights;
use crate::graph::Graph;
use crate::graph::GraphError;
use crate::graph::grown;
use crate::graph::is_square;
use crate::graph::is_symmetric;
use crate::graph::spec_successors;
use crate::graph::make_zero_matrix;
use crate::graph::zero_matrix;

verus! {

broadcast use crate::graph::lemma_vec_i64_deep_view;

/// The `UGraph` struct provides the functionalities to create and manipulate
/// undirected graphs. It can use weighted edges or default edges (with weight
/// `1`). The weights of the edges are of type `i64`, a weight of `0` meaning
/// that there is no edge, and the nodes are referenced by `usize` values from
/// `0` to `n_nodes - 1`. The adjacency matrix is kept symmetric: every
/// mutation writes both mirror cells.
#[derive(Debug)]
pub struct UGraph {
    n_nodes: usize,
    adj_mat: Vec<Vec<i64>>,
}

/// `m` with the two mirror cells `[node1][node2]` and `[node2][node1]` set to
/// `w`: the effect of setting one undirected connection.
pub open spec fn undirected_edge_set(m: Seq<Seq<i64>>, node1: int, node2: int, w: i64) -> Seq<
    Seq<i64>,
> {
    directed_edge_set(directed_edge_set(m, node1, node2, w), node2, node1, w)
}

/// Setting an undirected connection between valid nodes keeps the matrix
/// square and symmetric.
pub proof fn lemma_undirected_edge_set_symmetric(m: Seq<Seq<i64>>, node1: int, node2: int, w: i64)
    requires
        is_square(m),
        is_symmetric(m),
        0 <= node1 < m.len(),
        0 <= node2 < m.len(),
    ensures
        undirected_edge_set(m, node1, node2, w).len() == m.len(),
        is_square(undirected_edge_set(m, node1, node2, w)),
        is_symmetric(undirected_edge_set(m, node1, node2, w)),
{
    let r = undirected_edge_set(m, node1, node2, w);
    assert forall|i: int| 0 <= i < r.len() implies (#[trigger] r[i]).len() == r.len() by {
        assert(m[i].len() == m.len());
    }
    assert forall|i: int, j: int|
        0 <= i < r.len() && 0 <= j < r.len() implies #[trigger] r[i][j] == r[j][i] by {
        assert(m[i].len() == m.len());
        assert(m[j].len() == m.len());
        assert(m[node1].len() == m.len());
        assert(m[node2].len() == m.len());
    }
}

/// A matrix with one more empty node keeps its symmetry.
pub proof fn lemma_grown_symmetric(m: Seq<Seq<i64>>)
    requires
        is_square(m),
        is_symmetric(m),
    ensures
        is_symmetric(grown(m)),
{
    let r = grown(m);
    assert forall|i: int, j: int|
        0 <= i < r.len() && 0 <= j < r.len() implies #[trigger] r[i][j] == r[j][i] by {
        if i < m.len() {
            assert(m[i].len() == m.len());
        }
        if j < m.len() {
            assert(m[j].len() == m.len());
        }
    }
}

/// The symmetric matrix built by adding the weighted `edges` to `sym` one at
/// a time, in order, or the first error met. Each edge writes its weight into
/// both mirror cells of `sym`. Repetition is judged against `shadow`, which
/// records only the directly written `(node1, node2)` cells: an edge whose
/// `shadow` cell already holds a non-zero weight fails with `DuplicateEdge`,
/// so listing the reversed pair `(node2, node1)` of an earlier edge is not
/// caught as a repeat, and a duplicate that wrote a weight of `0` goes
/// undetected.
pub open spec fn spec_add_connections(
    sym: Seq<Seq<i64>>,
    shadow: Seq<Seq<i64>>,
    edges: Seq<(usize, usize, i64)>,
) -> Result<Seq<Seq<i64>>, GraphError>
    decreases edges.len(),
{
    if edges.len() == 0 {
        Ok(sym)
    } else {
        let e = edges[0];
        if e.0 >= sym.len() {
            Err(GraphError::InvalidIndex(e.0))
        } else if e.1 >= sym.len() {
            Err(GraphError::InvalidIndex(e.1))
        } else if shadow[e.0 as int][e.1 as int] != 0 {
            Err(GraphError::DuplicateEdge(e.0, e.1))
        } else {
            spec_add_connections(
                undirected_edge_set(sym, e.0 as int, e.1 as int, e.2),
                directed_edge_set(shadow, e.0 as int, e.1 as int, e.2),
                edges.drop_first(),
            )
        }
    }
}

/// Adding an all-unit-weight edge list to a square symmetric matrix sets
/// exactly the listed cells and their mirrors to `1` and leaves every other
/// cell as it was.
proof fn lemma_add_unit_connections_cells(
    sym: Seq<Seq<i64>>,
    shadow: Seq<Seq<i64>>,
    edges: Seq<(usize, usize, i64)>,
)
    requires
        is_square(sym),
        is_symmetric(sym),
        shadow.len() == sym.len(),
        spec_add_connections(sym, shadow, edges) is Ok,
        forall|k: int| 0 <= k < edges.len() ==> (#[trigger] edges[k]).2 == 1i64,
    ensures
        spec_add_connections(sym, shadow, edges)->Ok_0.len() == sym.len(),
        forall|i: int, j: int|
            0 <= i < sym.len() && 0 <= j < sym.len() ==> #[trigger] spec_add_connections(
                sym,
                shadow,
                edges,
            )->Ok_0[i][j] == (if edge_hits(edges, i, j) || edge_hits(edges, j, i) {
                1i64
            } else {
                sym[i][j]
            }),
    decreases edges.len(),
{
    let res = spec_add_connections(sym, shadow, edges)->Ok_0;
    if edges.len() == 0 {
    } else {
        let e = edges[0];
        let sym1 = undirected_edge_set(sym, e.0 as int, e.1 as int, e.2);
        let shadow1 = directed_edge_set(shadow, e.0 as int, e.1 as int, e.2);
        let rest = edges.drop_first();
        lemma_undirected_edge_set_symmetric(sym, e.0 as int, e.1 as int, e.2);
        assert forall|k: int| 0 <= k < rest.len() implies (#[trigger] rest[k]).2 == 1i64 by {
            assert(rest[k] == edges[k + 1]);
        }
        lemma_add_unit_connections_cells(sym1, shadow1, rest);
        assert(sym[e.0 as int].len() == sym.len());
        assert(sym[e.1 as int].len() == sym.len());
        assert forall|i: int, j: int| 0 <= i < sym.len() && 0 <= j < sym.len() implies #[trigger] res[i][j]
            == (if edge_hits(edges, i, j) || edge_hits(edges, j, i) {
            1i64
        } else {
            sym[i][j]
        }) by {
            assert(sym[i].len() == sym.len());
            assert(sym[j].len() == sym.len());
            if edge_hits(rest, i, j) {
                let k = choose|k: int|
                    0 <= k < rest.len() && (#[trigger] rest[k]).0 == i && rest[k].1 == j;
                assert(rest[k] == edges[k + 1]);
                assert(edge_hits(edges, i, j));
            } else if edge_hits(rest, j, i) {
                let k = choose|k: int|
                    0 <= k < rest.len() && (#[trigger] rest[k]).0 == j && rest[k].1 == i;
                assert(rest[k] == edges[k + 1]);
                assert(edge_hits(edges, j, i));
            } else if i == e.0 && j == e.1 {
                assert((#[trigger] edges[0]).2 == 1i64);
                assert(edge_hits(edges, i, j));
                assert(sym1[i][j] == 1i64);
            } else if i == e.1 && j == e.0 {
                assert((#[trigger] edges[0]).2 == 1i64);
                assert(edge_hits(edges, j, i));
                assert(sym1[i][j] == 1i64);
            } else {
                assert(sym1[i][j] == sym[i][j]);
                if edge_hits(edges, i, j) {
                    let k = choose|k: int|
                        0 <= k < edges.len() && (#[trigger] edges[k]).0 == i && edges[k].1 == j;
                    assert(k > 0);
                    assert(rest[k - 1] == edges[k]);
                    assert(edge_hits(rest, i, j));
                }
                if edge_hits(edges, j, i) {
                    let k = choose|k: int|
                        0 <= k < edges.len() && (#[trigger] edges[k]).0 == j && edges[k].1 == i;
                    assert(k > 0);
                    assert(rest[k - 1] == edges[k]);
                    assert(edge_hits(rest, j, i));
                }
            }
        }
    }
}

/// Building an undirected graph from a `(node1, node2)` edge list sets
/// exactly two symmetric cells per edge: weight `1` where the list holds the
/// pair or its reverse, `0` everywhere else.
pub proof fn lemma_from_edges_cells(n: nat, edges: Seq<(usize, usize)>)
    requires
        n <= usize::MAX as nat + 1,
        spec_add_connections(zero_matrix(n), zero_matrix(n), with_unit_weights(edges)) is Ok,
    ensures
        spec_add_connections(zero_matrix(n), zero_matrix(n), with_unit_weights(edges))->Ok_0.len()
            == n,
        forall|i: int, j: int|
            0 <= i < n && 0 <= j < n ==> #[trigger] spec_add_connections(
                zero_matrix(n),
                zero_matrix(n),
                with_unit_weights(edges),
            )->Ok_0[i][j] == (if edges.contains((i as usize, j as usize)) || edges.contains(
                (j as usize, i as usize),
            ) {
                1i64
            } else {
                0i64
            }),
{
    let tw = with_unit_weights(edges);
    assert forall|k: int| 0 <= k < tw.len() implies (#[trigger] tw[k]).2 == 1i64 by {
        assert(tw[k] == (edges[k].0, edges[k].1, 1i64));
    }
    lemma_add_unit_connections_cells(zero_matrix(n), zero_matrix(n), tw);
    assert forall|i: int, j: int| 0 <= i < n && 0 <= j < n implies (edge_hits(tw, i, j)
        <==> edges.contains((i as usize, j as usize))) by {
        if edge_hits(tw, i, j) {
            let k = choose|k: int| 0 <= k < tw.len() && (#[trigger] tw[k]).0 == i && tw[k].1 == j;
            assert(tw[k] == (edges[k].0, edges[k].1, 1i64));
            assert(edges[k] == (i as usize, j as usize));
            assert(edges.contains((i as usize, j as usize)));
        }
        if edges.contains((i as usize, j as usize)) {
            let k = choose|k: int| 0 <= k < edges.len() && edges[k] == (i as usize, j as usize);
            assert(tw[k] == (edges[k].0, edges[k].1, 1i64));
            assert(i as usize as int == i && j as usize as int == j);
            assert(edge_hits(tw, i, j));
        }
    }
}

impl UGraph {
    /// The adjacency matrix of a well-formed undirected graph is symmetric:
    /// construction establishes it and every mutation maintains it, writing
    /// both mirror cells.
    pub proof fn lemma_wf_symmetric(&self)
        requires
            self.wf(),
        ensures
            is_symmetric(self.model()),
    {
    }

    /// Creates an empty `UGraph`.
    pub fn new() -> (g: UGraph)
        ensures
            g.wf(),
            g.model() == Seq::<Seq<i64>>::empty(),
    {
        let g = UGraph { n_nodes: 0, adj_mat: Vec::new() };
        proof {
            assert(g.model() =~= Seq::<Seq<i64>>::empty());
        }
        g
    }

    /// Creates a `UGraph` from the definition of the graph edges and the
    /// number of nodes. Each edge is a `(node1, node2)` pair and sets the
    /// weight `1` in both directions; an edge with an invalid node value
    /// fails with `InvalidIndex`, and a repeated `(node1, node2)` pair fails
    /// with `DuplicateEdge`, in each case at the first edge in the list at
    /// fault.
    pub fn from_edges(n_nodes: usize, edges: Vec<(usize, usize)>) -> (r: Result<
        UGraph,
        GraphError,
    >)
        ensures
            (match spec_add_connections(
                zero_matrix(n_nodes as nat),
                zero_matrix(n_nodes as nat),
                with_unit_weights(edges@),
            ) {
                Ok(m) => r matches Ok(g) && g.wf() && g.model() == m && g.model().len()
                    == n_nodes,
                Err(e) => r == Err::<UGraph, GraphError>(e),
            }),
    {
        let mut weighted: Vec<(usize, usize, i64)> = Vec::new();
        let mut k: usize = 0;
        while k < edges.len()
            invariant
                k <= edges@.len(),
                weighted@.len() == k,
                forall|i: int|
                    0 <= i < k ==> #[trigger] weighted@[i] == (edges@[i].0, edges@[i].1, 1i64),
            decreases edges@.len() - k,
        {
            let e = edges[k];
            weighted.push((e.0, e.1, 1i64));
            k = k + 1;
        }
        proof {
            assert(weighted@ =~= with_unit_weights(edges@));
        }
        UGraph::from_weighted_edges(n_nodes, weighted)
    }

    /// Creates a `UGraph` from the definition of the weighted graph edges and
    /// the number of nodes. Each edge is a `(node1, node2, weight)` triple
    /// and writes its weight in both directions; an edge with an invalid node
    /// value fails with `InvalidIndex`, and a repeated `(node1, node2)` pair
    /// fails with `DuplicateEdge`, in each case at the first edge in the list
    /// at fault.
    pub fn from_weighted_edges(n_nodes: usize, edges: Vec<(usize, usize, i64)>) -> (r: Result<
        UGraph,
        GraphError,
    >)
        ensures
            (match spec_add_connections(
                zero_matrix(n_nodes as nat),
                zero_matrix(n_nodes as nat),
                edges@,
            ) {
                Ok(m) => r matches Ok(g) && g.wf() && g.model() == m && g.model().len()
                    == n_nodes,
                Err(e) => r == Err::<UGraph, GraphError>(e),
            }),
    {
        let mut sym = make_zero_matrix(n_nodes);
        let mut shadow = make_zero_matrix(n_nodes);
        proof {
            assert(edges@.skip(0) =~= edges@);
        }
        let mut k: usize = 0;
        while k < edges.len()
            invariant
                k <= edges@.len(),
                sym@.len() == n_nodes,
                sym.deep_view().len() == n_nodes,
                shadow@.len() == n_nodes,
                shadow.deep_view().len() == n_nodes,
                is_square(sym.deep_view()),
                is_symmetric(sym.deep_view()),
                is_square(shadow.deep_view()),
                spec_add_connections(
                    zero_matrix(n_nodes as nat),
                    zero_matrix(n_nodes as nat),
                    edges@,
                ) == spec_add_connections(
                    sym.deep_view(),
                    shadow.deep_view(),
                    edges@.skip(k as int),
                ),
            decreases edges@.len() - k,
        {
            proof {
                assert(edges@.skip(k as int)[0] == edges@[k as int]);
                assert(edges@.skip(k as int).drop_first() =~= edges@.skip(k as int + 1));
            }
            let e = edges[k];
            if e.0 >= n_nodes {
                return Err(GraphError::InvalidIndex(e.0));
            }
            if e.1 >= n_nodes {
                return Err(GraphError::InvalidIndex(e.1));
            }
            proof {
                assert(shadow.deep_view()[e.0 as int].len() == n_nodes);
                assert(sym.deep_view()[e.0 as int].len() == n_nodes);
                assert(sym.deep_view()[e.1 as int].len() == n_nodes);
            }
            if shadow[e.0][e.1] != 0 {
                return Err(GraphError::DuplicateEdge(e.0, e.1));
            }
            let ghost sym_prev = sym.deep_view();
            let ghost shadow_prev = shadow.deep_view();
            let row: &mut Vec<i64> = &mut sym[e.0];
            row.set(e.1, e.2);
            let mirror: &mut Vec<i64> = &mut sym[e.1];
            mirror.set(e.0, e.2);
            let shadow_row: &mut Vec<i64> = &mut shadow[e.0];
            shadow_row.set(e.1, e.2);
            proof {
                assert(sym.deep_view() =~~= undirected_edge_set(
                    sym_prev,
                    e.0 as int,
                    e.1 as int,
                    e.2,
                ));
                assert(shadow.deep_view() =~~= directed_edge_set(
                    shadow_prev,
                    e.0 as int,
                    e.1 as int,
                    e.2,
                ));
                lemma_undirected_edge_set_symmetric(sym_prev, e.0 as int, e.1 as int, e.2);
            }
            k = k + 1;
        }
        proof {
            assert(edges@.skip(edges@.len() as int).len() == 0);
        }
        Ok(UGraph { n_nodes, adj_mat: sym })
    }

    /// Creates a `UGraph` from an adjacency matrix. The `i64` values
    /// represent the weights of the edges. A value of `0` means that there is
    /// no edge. Fails with `MalformedMatrix` if the matrix is not square, or
    /// if any cell differs from its mirror cell; the matrix is otherwise
    /// taken as it stands.
    pub fn from_adjacency_matrix(adj_mat: Vec<Vec<i64>>) -> (r: Result<UGraph, GraphError>)
        ensures
            (if is_square(adj_mat.deep_view()) && is_symmetric(adj_mat.deep_view()) {
                r matches Ok(g) && g.wf() && g.model() == adj_mat.deep_view()
            } else {
                r == Err::<UGraph, GraphError>(GraphError::MalformedMatrix)
            }),
    {
        let n_nodes = adj_mat.len();
        let mut i: usize = 0;
        while i < n_nodes
            invariant
                n_nodes == adj_mat@.len(),
                i <= n_nodes,
                forall|k: int| 0 <= k < i ==> (#[trigger] adj_mat.deep_view()[k]).len() == n_nodes,
            decreases n_nodes - i,
        {
            if adj_mat[i].len() != n_nodes {
                proof {
                    assert(adj_mat.deep_view()[i as int].len() == adj_mat@[i as int]@.len());
                }
                return Err(GraphError::MalformedMatrix);
            }
            i = i + 1;
        }
        let mut a: usize = 0;
        while a < n_nodes
            invariant
                n_nodes == adj_mat@.len(),
                is_square(adj_mat.deep_view()),
                a <= n_nodes,
                forall|x: int, y: int|
                    0 <= x < a && 0 <= y < n_nodes ==> #[trigger] adj_mat.deep_view()[x][y]
                        == adj_mat.deep_view()[y][x],
            decreases n_nodes - a,
        {
            let mut b: usize = 0;
            while b < n_nodes
                invariant
                    n_nodes == adj_mat@.len(),
                    is_square(adj_mat.deep_view()),
                    a < n_nodes,
                    b <= n_nodes,
                    forall|x: int, y: int|
                        0 <= x < a && 0 <= y < n_nodes ==> #[trigger] adj_mat.deep_view()[x][y]
                            == adj_mat.deep_view()[y][x],
                    forall|y: int|
                        0 <= y < b ==> #[trigger] adj_mat.deep_view()[a as int][y]
                            == adj_mat.deep_view()[y][a as int],
                decreases n_nodes - b,
            {
                proof {
                    assert(adj_mat.deep_view()[a as int].len() == n_nodes);
                    assert(adj_mat.deep_view()[b as int].len() == n_nodes);
                }
                if adj_mat[a][b] != adj_mat[b][a] {
                    return Err(GraphError::MalformedMatrix);
                }
                b = b + 1;
            }
            a = a + 1;
        }
        Ok(UGraph { n_nodes, adj_mat })
    }

    /// Returns a vector with the nodes that share an edge with the node
    /// passed as a parameter, in ascending order. Under the symmetry of the
    /// matrix, reading the row of `node` and reading its column are
    /// equivalent. Fails with `InvalidIndex` if the node is not valid.
    pub fn get_neighbors_of(&self, node: usize) -> (r: Result<Vec<usize>, GraphError>)
        requires
            self.wf(),
        ensures
            (if node as int >= self.model().len() {
                r == Err::<Vec<usize>, GraphError>(GraphError::InvalidIndex(node))
            } else {
                r matches Ok(v) && v@ == spec_successors(
                    self.model(),
                    node as int,
                    self.model().len() as int,
                )
            }),
    {
        if node >= self.n_nodes {
            return Err(GraphError::InvalidIndex(node));
        }
        proof {
            assert(self.model()[node as int].len() == self.model().len());
        }
        let mut v: Vec<usize> = Vec::new();
        let mut j: usize = 0;
        while j < self.n_nodes
            invariant
                self.wf(),
                node < self.n_nodes,
                self.n_nodes == self.model().len(),
                self.model()[node as int].len() == self.model().len(),
                j <= self.n_nodes,
                v@ == spec_successors(self.model(), node as int, j as int),
            decreases self.n_nodes - j,
        {
            if self.adj_mat[node][j] != 0 {
                v.push(j);
            }
            j = j + 1;
        }
        Ok(v)
    }

    /// Sets an undirected connection between `node1` and `node2` with weight
    /// `1`, writing both mirror cells. Fails, mutating nothing, if either
    /// node is not valid.
    pub fn add_connection(&mut self, node1: usize, node2: usize) -> (r: Result<(), GraphError>)
        requires
            old(self).wf(),
        ensures
            final(self).wf(),
            r == (if node1 as int >= old(self).model().len() {
                Err::<(), GraphError>(GraphError::InvalidIndex(node1))
            } else if node2 as int >= old(self).model().len() {
                Err::<(), GraphError>(GraphError::InvalidIndex(node2))
            } else {
                Ok::<(), GraphError>(())
            }),
            r is Err ==> final(self).model() == old(self).model(),
            r is Ok ==> final(self).model() == undirected_edge_set(
                old(self).model(),
                node1 as int,
                node2 as int,
                1i64,
            ),
    {
        self.add_edge(node1, node2)
    }

    /// Sets an undirected connection between `node1` and `node2` with the
    /// weight given, writing both mirror cells. Fails, mutating nothing, if
    /// either node is not valid.
    pub fn add_weighted_connection(&mut self, node1: usize, node2: usize, weight: i64) -> (r:
        Result<(), GraphError>)
        requires
            old(self).wf(),
        ensures
            final(self).wf(),
            r == (if node1 as int >= old(self).model().len() {
                Err::<(), GraphError>(GraphError::InvalidIndex(node1))
            } else if node2 as int >= old(self).model().len() {
                Err::<(), GraphError>(GraphError::InvalidIndex(node2))
            } else {
                Ok::<(), GraphError>(())
            }),
            r is Err ==> final(self).model() == old(self).model(),
            r is Ok ==> final(self).model() == undirected_edge_set(
                old(self).model(),
                node1 as int,
                node2 as int,
                weight,
            ),
    {
        self.add_weighted_edge(node1, node2, weight)
    }
}

impl Graph for UGraph {
    /// A `UGraph` is well formed when its stored node count is the height of
    /// its adjacency matrix and the matrix is square and symmetric.
    closed spec fn wf(&self) -> bool {
        self.n_nodes == self.adj_mat@.len() && is_square(self.adj_mat.deep_view())
            && is_symmetric(self.adj_mat.deep_view())
    }

    /// The adjacency matrix, row by row.
    closed spec fn model(&self) -> Seq<Seq<i64>> {
        self.adj_mat.deep_view()
    }

    /// Setting an undirected edge writes the two mirror cells.
    open spec fn edge_set(m: Seq<Seq<i64>>, src: int, dest: int, w: i64) -> Seq<Seq<i64>> {
        undirected_edge_set(m, src, dest, w)
    }

    proof fn lemma_wf_square(&self) {
    }

    /// Returns the number of nodes in the graph.
    fn get_n_nodes(&self) -> (n: usize) {
        self.n_nodes
    }

    /// Returns a vector with the nodes (`usize` references) of the graph.
    fn get_nodes(&self) -> (nodes: Vec<usize>) {
        let mut nodes: Vec<usize> = Vec::new();
        let mut i: usize = 0;
        while i < self.n_nodes
            invariant
                i <= self.n_nodes,
                nodes@.len() == i,
                forall|k: int| 0 <= k < i ==> nodes@[k] == k,
            decreases self.n_nodes - i,
        {
            nodes.push(i);
            i = i + 1;
        }
        nodes
    }

    /// Returns a reference to the bidimensional vector of `i64` with the
    /// adjacency matrix of the graph. The `i64` values are the weights of the
    /// edges, and a value of `0` means that there is no edge between those
    /// nodes.
    fn get_adjacency_matrix(&self) -> (mat: &Vec<Vec<i64>>) {
        &self.adj_mat
    }

    /// Gets the weight of the edge between the nodes `src` and `dest`. If
    /// the graph is not weighted the value will be `1`. If the edge doesn't
    /// exist the returned value will be `Ok(None)`.
    fn get_edge(&self, src: usize, dest: usize) -> (r: Result<Option<i64>, GraphError>) {
        if src >= self.n_nodes {
            Err(GraphError::InvalidIndex(src))
        } else if dest >= self.n_nodes {
            Err(GraphError::InvalidIndex(dest))
        } else {
            let w = self.adj_mat[src][dest];
            if w != 0 {
                Ok(Some(w))
            } else {
                Ok(None)
            }
        }
    }

    /// Adds a node to the graph without any edge.
    fn add_node(&mut self) {
        let ghost m0 = self.adj_mat.deep_view();
        let mut i: usize = 0;
        while i < self.n_nodes
            invariant
                self.n_nodes == self.adj_mat@.len(),
                self.n_nodes == m0.len(),
                self.n_nodes < usize::MAX,
                i <= self.n_nodes,
                forall|k: int|
                    0 <= k < i ==> #[trigger] self.adj_mat@[k]@ == m0[k].push(0i64),
                forall|k: int| i <= k < self.n_nodes ==> #[trigger] self.adj_mat@[k]@ == m0[k],
            decreases self.n_nodes - i,
        {
            let row: &mut Vec<i64> = &mut self.adj_mat[i];
            row.push(0i64);
            i = i + 1;
        }
        self.n_nodes = self.n_nodes + 1;
        let mut new_row: Vec<i64> = Vec::new();
        let mut j: usize = 0;
        while j < self.n_nodes
            invariant
                self.n_nodes == self.adj_mat@.len() + 1,
                self.n_nodes == m0.len() + 1,
                j <= self.n_nodes,
                new_row@.len() == j,
                forall|k: int| 0 <= k < j ==> new_row@[k] == 0i64,
                forall|k: int|
                    0 <= k < m0.len() ==> #[trigger] self.adj_mat@[k]@ == m0[k].push(0i64),
            decreases self.n_nodes - j,
        {
            new_row.push(0i64);
            j = j + 1;
        }
        self.adj_mat.push(new_row);
        proof {
            assert(self.model() =~~= grown(m0));
            lemma_grown_symmetric(m0);
        }
    }

    /// Sets an undirected edge between the nodes `src` and `dest`. The
    /// weight of the edge is set to `1` in both directions.
    fn add_edge(&mut self, src: usize, dest: usize) -> (r: Result<(), GraphError>) {
        self.add_weighted_edge(src, dest, 1i64)
    }

    /// Sets an undirected edge between the nodes `src` and `dest`. The
    /// weight of the edge is set to the value of the parameter `weight` in
    /// both directions.
    fn add_weighted_edge(&mut self, src: usize, dest: usize, weight: i64) -> (r: Result<
        (),
        GraphError,
    >) {
        if src >= self.n_nodes {
            Err(GraphError::InvalidIndex(src))
        } else if dest >= self.n_nodes {
            Err(GraphError::InvalidIndex(dest))
        } else {
            let ghost m0 = self.adj_mat.deep_view();
            proof {
                assert(m0[src as int].len() == m0.len());
                assert(m0[dest as int].len() == m0.len());
            }
            let row: &mut Vec<i64> = &mut self.adj_mat[src];
            row.set(dest, weight);
            let mirror: &mut Vec<i64> = &mut self.adj_mat[dest];
            mirror.set(src, weight);
            proof {
                assert(self.model() =~~= undirected_edge_set(
                    m0,
                    src as int,
                    dest as int,
                    weight,
                ));
                lemma_undirected_edge_set_symmetric(m0, src as int, dest as int, weight);
            }
            Ok(())
        }
    }
}

} // verus!
