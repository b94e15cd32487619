//! The common surface of the graph types: the `Graph` trait, the error type,
//! and the spec-level vocabulary for adjacency matrices.

use vstd::prelude::*;

verus! {

/// The error produced when a graph operation is given invalid input.
///
/// Every failing operation reports the argument and the rule that was
/// violated, and leaves the graph unchanged.
#[derive(Clone, Copy, Debug, PartialEq, Eq, Structural)]
pub enum GraphError {
    /// A node index that is not below the number of nodes of the graph.
    InvalidIndex(usize),
    /// An adjacency matrix that is not square, or, for an undirected graph,
    /// not symmetric.
    MalformedMatrix,
    /// The same `(src, dest)` pair appeared twice in an edge list.
    DuplicateEdge(usize, usize),
}

/// For a vector of `i64` the deep view is the view itself, element by
/// element; stating it once lets matrix specifications move freely between
/// the two.
pub broadcast proof fn lemma_vec_i64_deep_view(v: Vec<i64>)
    ensures
        #[trigger] v.deep_view() == v@,
{
    assert(v.deep_view() =~= v@);
}

/// A matrix is square when every row is exactly as long as the matrix is high.
pub open spec fn is_square(m: Seq<Seq<i64>>) -> bool {
    forall|i: int| 0 <= i < m.len() ==> (#[trigger] m[i]).len() == m.len()
}

/// A square matrix is symmetric when every cell equals its mirror cell.
pub open spec fn is_symmetric(m: Seq<Seq<i64>>) -> bool {
    forall|i: int, j: int|
        0 <= i < m.len() && 0 <= j < m.len() ==> #[trigger] m[i][j] == m[j][i]
}

/// The edge from `src` to `dest` in `m`: a weight of `0` means that there is
/// no edge, any other value is the weight of the edge.
pub open spec fn spec_edge(m: Seq<Seq<i64>>, src: int, dest: int) -> Option<i64> {
    if m[src][dest] == 0 {
        None
    } else {
        Some(m[src][dest])
    }
}

/// A row of `n` cells, all `0`.
pub open spec fn zero_row(n: nat) -> Seq<i64> {
    Seq::new(n, |j: int| 0i64)
}

/// The `n` by `n` matrix of all `0` cells: the graph with `n` nodes and no edge.
pub open spec fn zero_matrix(n: nat) -> Seq<Seq<i64>> {
    Seq::new(n, |i: int| zero_row(n))
}

/// `m` after one node was appended: every old row gains one `0` cell, and one
/// new all-`0` row appears at the end.
pub open spec fn grown(m: Seq<Seq<i64>>) -> Seq<Seq<i64>> {
    Seq::new(
        m.len() + 1,
        |i: int| if i < m.len() {
            m[i].push(0i64)
        } else {
            zero_row(m.len() + 1)
        },
    )
}

/// `m` after `k` nodes were appended one at a time.
pub open spec fn grown_times(m: Seq<Seq<i64>>, k: nat) -> Seq<Seq<i64>>
    decreases k,
{
    if k == 0 {
        m
    } else {
        grown(grown_times(m, (k - 1) as nat))
    }
}

/// Appending nodes never disturbs what is already there: after `k` appends the
/// node count has grown by exactly `k`, the matrix is still square, and every
/// previously set edge is preserved unchanged.
pub proof fn lemma_grown_times_preserves_edges(m: Seq<Seq<i64>>, k: nat)
    requires
        is_square(m),
    ensures
        grown_times(m, k).len() == m.len() + k,
        is_square(grown_times(m, k)),
        forall|i: int, j: int|
            0 <= i < m.len() && 0 <= j < m.len() ==> #[trigger] grown_times(m, k)[i][j] == m[i][j],
    decreases k,
{
    if k > 0 {
        lemma_grown_times_preserves_edges(m, (k - 1) as nat);
    }
}

/// The nodes `0 <= j < upto` with a non-zero edge from `node`, in ascending
/// order.
pub open spec fn spec_successors(m: Seq<Seq<i64>>, node: int, upto: int) -> Seq<usize>
    decreases upto,
{
    if upto <= 0 {
        Seq::empty()
    } else if m[node][upto - 1] != 0 {
        spec_successors(m, node, upto - 1).push((upto - 1) as usize)
    } else {
        spec_successors(m, node, upto - 1)
    }
}

/// The nodes `0 <= j < upto` with a non-zero edge into `node`, in ascending
/// order.
pub open spec fn spec_predecessors(m: Seq<Seq<i64>>, node: int, upto: int) -> Seq<usize>
    decreases upto,
{
    if upto <= 0 {
        Seq::empty()
    } else if m[upto - 1][node] != 0 {
        spec_predecessors(m, node, upto - 1).push((upto - 1) as usize)
    } else {
        spec_predecessors(m, node, upto - 1)
    }
}

/// Builds the `n` by `n` matrix of all `0` cells.
pub(crate) fn make_zero_matrix(n: usize) -> (m: Vec<Vec<i64>>)
    ensures
        m.deep_view() == zero_matrix(n as nat),
        m@.len() == n,
{
    let mut m: Vec<Vec<i64>> = Vec::new();
    let mut i: usize = 0;
    while i < n
        invariant
            i <= n,
            m@.len() == i,
            forall|k: int| 0 <= k < i ==> (#[trigger] m@[k])@ == zero_row(n as nat),
        decreases n - i,
    {
        let mut row: Vec<i64> = Vec::new();
        let mut j: usize = 0;
        while j < n
            invariant
                j <= n,
                row@.len() == j,
                forall|k: int| 0 <= k < j ==> row@[k] == 0i64,
            decreases n - j,
        {
            row.push(0i64);
            j = j + 1;
        }
        proof {
            assert(row@ =~= zero_row(n as nat));
        }
        m.push(row);
        i = i + 1;
    }
    proof {
        assert(m.deep_view() =~~= zero_matrix(n as nat));
    }
    m
}

/// The `Graph` trait provides the basic common functions that every graph
/// struct implements.
///
/// A graph is modelled by a square adjacency matrix of `i64` weights, exposed
/// to specifications through `model()`; `wf()` is the representation
/// invariant that every constructor establishes and every method preserves.
/// `edge_set` names, per implementer, the matrix produced by setting one
/// edge: a directed graph writes one cell, an undirected graph writes the
/// two mirror cells.
pub trait Graph: Sized {
    /// The representation invariant of the graph.
    spec fn wf(&self) -> bool;

    /// The adjacency matrix the graph stands for.
    spec fn model(&self) -> Seq<Seq<i64>>;

    /// The model after the edge from `src` to `dest` is set to `w`.
    spec fn edge_set(m: Seq<Seq<i64>>, src: int, dest: int, w: i64) -> Seq<Seq<i64>>;

    /// The model of a well-formed graph is always square.
    proof fn lemma_wf_square(&self)
        requires
            self.wf(),
        ensures
            is_square(self.model()),
    ;

    /// Returns the number of nodes in the graph.
    fn get_n_nodes(&self) -> (n: usize)
        requires
            self.wf(),
        ensures
            n == self.model().len(),
    ;

    /// Returns a vector with the nodes (`usize` references) of the graph:
    /// `0` up to the number of nodes, in ascending order.
    fn get_nodes(&self) -> (nodes: Vec<usize>)
        requires
            self.wf(),
        ensures
            nodes@.len() == self.model().len(),
            forall|i: int| 0 <= i < nodes@.len() ==> nodes@[i] == i,
    ;

    /// Returns a reference to the adjacency matrix of the graph. The values
    /// are the weights of the edges, and a value of `0` means that there is
    /// no edge between those nodes.
    fn get_adjacency_matrix(&self) -> (mat: &Vec<Vec<i64>>)
        requires
            self.wf(),
        ensures
            mat.deep_view() == self.model(),
    ;

    /// Gets the weight of the edge from the node `src` to `dest`. If the
    /// graph is not weighted the value will be `1`. If the edge doesn't exist
    /// the returned value will be `Ok(None)`; if `src` or `dest` is not a
    /// valid node, the offending index is reported and nothing else happens.
    fn get_edge(&self, src: usize, dest: usize) -> (r: Result<Option<i64>, GraphError>)
        requires
            self.wf(),
        ensures
            r == (if src as int >= self.model().len() {
                Err::<Option<i64>, GraphError>(GraphError::InvalidIndex(src))
            } else if dest as int >= self.model().len() {
                Err::<Option<i64>, GraphError>(GraphError::InvalidIndex(dest))
            } else {
                Ok::<Option<i64>, GraphError>(spec_edge(self.model(), src as int, dest as int))
            }),
    ;

    /// Adds a node to the graph without any edge. The node count must still
    /// fit in a `usize` after the call.
    fn add_node(&mut self)
        requires
            old(self).wf(),
            old(self).model().len() < usize::MAX,
        ensures
            final(self).wf(),
            final(self).model() == grown(old(self).model()),
    ;

    /// Sets the edge from the node `src` to the node `dest` with weight `1`.
    /// Fails, mutating nothing, if `src` or `dest` is not a valid node.
    fn add_edge(&mut self, src: usize, dest: usize) -> (r: Result<(), GraphError>)
        requires
            old(self).wf(),
        ensures
            final(self).wf(),
            r == (if src as int >= old(self).model().len() {
                Err::<(), GraphError>(GraphError::InvalidIndex(src))
            } else if dest as int >= old(self).model().len() {
                Err::<(), GraphError>(GraphError::InvalidIndex(dest))
            } else {
                Ok::<(), GraphError>(())
            }),
            r is Err ==> final(self).model() == old(self).model(),
            r is Ok ==> final(self).model() == Self::edge_set(
                old(self).model(),
                src as int,
                dest as int,
                1i64,
            ),
    ;

    /// Sets the edge from the node `src` to the node `dest` with the weight
    /// given. Fails, mutating nothing, if `src` or `dest` is not a valid node.
    fn add_weighted_edge(&mut self, src: usize, dest: usize, weight: i64) -> (r: Result<
        (),
        GraphError,
    >)
        requires
            old(self).wf(),
        ensures
            final(self).wf(),
            r == (if src as int >= old(self).model().len() {
                Err::<(), GraphError>(GraphError::InvalidIndex(src))
            } else if dest as int >= old(self).model().len() {
                Err::<(), GraphError>(GraphError::InvalidIndex(dest))
            } else {
                Ok::<(), GraphError>(())
            }),
            r is Err ==> final(self).model() == old(self).model(),
            r is Ok ==> final(self).model() == Self::edge_set(
                old(self).model(),
                src as int,
                dest as int,
                weight,
            ),
    ;
}

} // verus!
