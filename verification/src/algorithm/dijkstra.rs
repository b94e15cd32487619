//! Single-source shortest paths over any `Graph`, without a priority queue.

use vstd::pervasive::VecAdditionalExecFns;
use vstd::prelude::*;

use crate::graph::Graph;
use crate::graph::GraphError;
use crate::graph::spec_edge;

verus! {

/// A tentative or final distance from the source: either a finite sum of
/// edge weights, or infinity for a node that no relaxation has reached.
///
/// Edge weights are `i64`; a distance adds fewer weights than there are
/// nodes, so every finite distance fits in an `i128` and the sums below never
/// overflow.
#[derive(Clone, Copy, Debug, PartialEq, Eq, Structural)]
pub enum Distance {
    Finite(i128),
    Infinity,
}

impl View for Distance {
    type V = Option<int>;

    /// A finite distance is its value; infinity is `None`.
    open spec fn view(&self) -> Option<int> {
        match *self {
            Distance::Finite(x) => Some(x as int),
            Distance::Infinity => None,
        }
    }
}

/// The distances of a vector of `Distance` values, as mathematical integers.
pub open spec fn dist_views(s: Seq<Distance>) -> Seq<Option<int>> {
    s.map_values(|d: Distance| d@)
}

/// The strict order on tentative distances: any finite distance is below
/// infinity, and infinity is below nothing.
pub open spec fn dist_lt(a: Option<int>, b: Option<int>) -> bool {
    match (a, b) {
        (Some(x), Some(y)) => x < y,
        (Some(x), None) => true,
        (None, _) => false,
    }
}

/// One bound on the magnitude of an `i64` edge weight.
pub open spec fn weight_mag() -> int {
    0x8000_0000_0000_0000
}

/// A tentative distance reached within `k` rounds of relaxation: finite
/// values are sums of at most `k` edge weights.
pub open spec fn within_rounds(d: Option<int>, k: int) -> bool {
    match d {
        Some(x) => -(k * weight_mag()) <= x <= k * weight_mag(),
        None => true,
    }
}

/// The rest of the scan for the closest unvisited node, from position `idx`
/// with `best` the index found so far (`dist.len()` while none was found):
/// the scan keeps the first strict minimum, so ties break to the lowest
/// index, and when every unvisited node is at infinity the first unvisited
/// node is kept.
pub open spec fn spec_select_from(
    dist: Seq<Option<int>>,
    visited: Seq<bool>,
    idx: int,
    best: int,
) -> int
    decreases dist.len() - idx,
{
    if idx < 0 || idx >= dist.len() {
        best
    } else {
        let better = !visited[idx] && (best == dist.len() || dist_lt(dist[idx], dist[best]));
        spec_select_from(dist, visited, idx + 1, if better { idx } else { best })
    }
}

/// The node the algorithm visits next: the unvisited node with the least
/// tentative distance, ties broken by lowest index; `dist.len()` if every
/// node is visited.
pub open spec fn spec_select(dist: Seq<Option<int>>, visited: Seq<bool>) -> int {
    spec_select_from(dist, visited, 0, dist.len() as int)
}

/// The tentative distance of `j` after the edges leaving `c` are relaxed:
/// `j` is updated exactly when it is unvisited, an edge `c -> j` exists, `c`
/// is at a finite distance, and the path through `c` improves on the current
/// tentative distance of `j`.
pub open spec fn spec_relax_cell(
    m: Seq<Seq<i64>>,
    dist: Seq<Option<int>>,
    visited: Seq<bool>,
    c: int,
    j: int,
) -> Option<int> {
    match dist[c] {
        None => dist[j],
        Some(dc) => {
            let w = m[c][j];
            if !visited[j] && w != 0 && dist_lt(Some(dc + w), dist[j]) {
                Some(dc + w)
            } else {
                dist[j]
            }
        },
    }
}

/// All tentative distances after the edges leaving `c` are relaxed.
pub open spec fn spec_relaxed(
    m: Seq<Seq<i64>>,
    dist: Seq<Option<int>>,
    visited: Seq<bool>,
    c: int,
) -> Seq<Option<int>> {
    Seq::new(dist.len(), |j: int| spec_relax_cell(m, dist, visited, c, j))
}

/// One round of the algorithm: visit the closest unvisited node and relax
/// the edges that leave it.
pub open spec fn spec_step(m: Seq<Seq<i64>>, dist: Seq<Option<int>>, visited: Seq<bool>) -> (
    Seq<Option<int>>,
    Seq<bool>,
) {
    let c = spec_select(dist, visited);
    if 0 <= c < dist.len() {
        let visited2 = visited.update(c, true);
        (spec_relaxed(m, dist, visited2, c), visited2)
    } else {
        (dist, visited)
    }
}

/// The tentative distances before the first round: `0` for the source,
/// infinity everywhere else.
pub open spec fn spec_init_dist(n: nat, src: int) -> Seq<Option<int>> {
    Seq::new(n, |i: int| if i == src { Some(0int) } else { None::<int> })
}

/// The state of the algorithm on matrix `m` from source `src` after `k`
/// rounds: the tentative distances, and which nodes are visited.
pub open spec fn spec_steps(m: Seq<Seq<i64>>, src: int, k: nat) -> (Seq<Option<int>>, Seq<bool>)
    decreases k,
{
    if k == 0 {
        (spec_init_dist(m.len(), src), Seq::new(m.len(), |i: int| false))
    } else {
        let prev = spec_steps(m, src, (k - 1) as nat);
        spec_step(m, prev.0, prev.1)
    }
}

/// What `dijkstra` computes on matrix `m` from source `src`: the tentative
/// distances after as many rounds as there are nodes, each then final.
pub open spec fn spec_dijkstra(m: Seq<Seq<i64>>, src: int) -> Seq<Option<int>> {
    spec_steps(m, src, m.len()).0
}

/// How many entries of `s` are `true`.
pub open spec fn count_trues(s: Seq<bool>) -> nat
    decreases s.len(),
{
    if s.len() == 0 {
        0
    } else {
        count_trues(s.drop_last()) + if s.last() {
            1nat
        } else {
            0nat
        }
    }
}

/// Marking a `false` entry `true` raises the count by one.
proof fn lemma_count_trues_update(s: Seq<bool>, c: int)
    requires
        0 <= c < s.len(),
        !s[c],
    ensures
        count_trues(s.update(c, true)) == count_trues(s) + 1,
    decreases s.len(),
{
    let t = s.update(c, true);
    if c == s.len() - 1 {
        assert(t.drop_last() =~= s.drop_last());
    } else {
        assert(t.drop_last() =~= s.drop_last().update(c, true));
        lemma_count_trues_update(s.drop_last(), c);
    }
}

/// While fewer entries are `true` than there are entries, some entry is
/// `false`.
proof fn lemma_count_trues_not_full(s: Seq<bool>)
    requires
        count_trues(s) < s.len(),
    ensures
        exists|j: int| 0 <= j < s.len() && !s[j],
    decreases s.len(),
{
    if !s.last() {
        assert(!s[s.len() - 1]);
    } else {
        lemma_count_trues_not_full(s.drop_last());
        let j = choose|j: int| 0 <= j < s.drop_last().len() && !s.drop_last()[j];
        assert(!s[j]);
    }
}

/// Compares two tentative distances.
fn distance_lt(a: Distance, b: Distance) -> (r: bool)
    ensures
        r == dist_lt(a@, b@),
{
    match (a, b) {
        (Distance::Finite(x), Distance::Finite(y)) => x < y,
        (Distance::Finite(_), Distance::Infinity) => true,
        (Distance::Infinity, _) => false,
    }
}

/// Scans the nodes in ascending order for the unvisited node with the least
/// tentative distance, keeping the first strict minimum found; while no
/// unvisited node was met the next unvisited node is kept whatever its
/// distance. Returns the number of nodes when every node is visited.
fn min_distance_node<G>(g: &G, dist: &Vec<Distance>, visited: &Vec<bool>) -> (c: usize) where
    G: Graph,
    requires
        g.wf(),
        dist@.len() == g.model().len(),
        visited@.len() == g.model().len(),
    ensures
        c as int == spec_select(dist_views(dist@), visited@),
        (exists|j: int| 0 <= j < visited@.len() && !visited@[j]) ==> c < g.model().len()
            && !visited@[c as int],
{
    let n = g.get_n_nodes();
    let mut min_idx: usize = n;
    let mut node: usize = 0;
    while node < n
        invariant
            n == dist@.len(),
            n == visited@.len(),
            node <= n,
            min_idx <= n,
            min_idx < n ==> !visited@[min_idx as int],
            min_idx == n ==> forall|j: int| 0 <= j < node ==> visited@[j],
            spec_select_from(dist_views(dist@), visited@, node as int, min_idx as int)
                == spec_select(dist_views(dist@), visited@),
        decreases n - node,
    {
        if !visited[node] && (min_idx == n || distance_lt(dist[node], dist[min_idx])) {
            min_idx = node;
        }
        node = node + 1;
    }
    min_idx
}

/// Given a graph (that implements `Graph`) and a source node, returns the
/// shortest path to each node from the source provided, as one `Distance`
/// per node: entry `i` holds the least total weight of a path from `src` to
/// node `i`, or `Infinity` if no path reaches it.
///
/// The graph is read through the `Graph` trait only. An invalid source is
/// rejected before anything runs, except on the empty graph, whose distance
/// vector is empty whatever the source. With negative edge weights the
/// rounds below still run to completion, but their result is not a shortest
/// path in general; no negative cycle detection is attempted.
pub fn dijkstra<G>(g: &G, src: usize) -> (r: Result<Vec<Distance>, GraphError>) where G: Graph
    requires
        g.wf(),
    ensures
        (if g.model().len() == 0 || (src as int) < g.model().len() {
            r matches Ok(d) && d@.len() == g.model().len() && dist_views(d@) == spec_dijkstra(
                g.model(),
                src as int,
            )
        } else {
            r == Err::<Vec<Distance>, GraphError>(GraphError::InvalidIndex(src))
        }),
{
    let ghost m = g.model();
    let n = g.get_n_nodes();
    if n == 0 {
        let empty: Vec<Distance> = Vec::new();
        proof {
            assert(dist_views(empty@) =~= spec_dijkstra(m, src as int));
        }
        return Ok(empty);
    }
    if src >= n {
        return Err(GraphError::InvalidIndex(src));
    }
    // dist: For keeping track of the current closest distance to
    //       each node during the algorithm iterations
    let mut dist: Vec<Distance> = Vec::new();
    let mut k: usize = 0;
    while k < n
        invariant
            k <= n,
            dist@.len() == k,
            forall|v: int| 0 <= v < k ==> dist@[v] == Distance::Infinity,
        decreases n - k,
    {
        dist.push(Distance::Infinity);
        k = k + 1;
    }
    dist.set(src, Distance::Finite(0));
    // visited: To know which nodes we have visited and we already have a
    //          minimum path
    let mut visited: Vec<bool> = Vec::new();
    let mut k2: usize = 0;
    while k2 < n
        invariant
            k2 <= n,
            visited@.len() == k2,
            forall|v: int| 0 <= v < k2 ==> !visited@[v],
        decreases n - k2,
    {
        visited.push(false);
        k2 = k2 + 1;
    }
    proof {
        assert(dist_views(dist@) =~= spec_init_dist(n as nat, src as int));
        assert(visited@ =~= Seq::new(n as nat, |i: int| false));
        assert(count_trues(visited@) == 0) by {
            lemma_count_trues_all_false(visited@);
        }
    }
    let mut i: usize = 0;
    while i < n
        invariant
            g.wf(),
            n == g.model().len(),
            m == g.model(),
            src < n,
            i <= n,
            dist@.len() == n,
            visited@.len() == n,
            dist_views(dist@) == spec_steps(m, src as int, i as nat).0,
            visited@ == spec_steps(m, src as int, i as nat).1,
            count_trues(visited@) == i,
            forall|v: int|
                0 <= v < n ==> #[trigger] within_rounds(dist_views(dist@)[v], i as int),
        decreases n - i,
    {
        proof {
            lemma_count_trues_not_full(visited@);
        }
        // Select the closest not visited node
        let current = min_distance_node(g, &dist, &visited);
        let ghost pre_dist = dist_views(dist@);
        let ghost pre_visited = visited@;
        proof {
            lemma_count_trues_update(visited@, current as int);
        }
        visited.set(current, true);
        let ghost vis2 = visited@;
        proof {
            assert(vis2 =~= pre_visited.update(current as int, true));
        }
        let mut nd: usize = 0;
        while nd < n
            invariant
                g.wf(),
                n == g.model().len(),
                m == g.model(),
                i < n,
                current < n,
                nd <= n,
                dist@.len() == n,
                visited@.len() == n,
                visited@ == vis2,
                vis2[current as int],
                pre_dist.len() == n,
                forall|v: int| 0 <= v < n ==> #[trigger] within_rounds(pre_dist[v], i as int),
                forall|j: int|
                    0 <= j < nd ==> #[trigger] dist_views(dist@)[j] == spec_relax_cell(
                        m,
                        pre_dist,
                        vis2,
                        current as int,
                        j,
                    ),
                forall|j: int| nd <= j < n ==> #[trigger] dist_views(dist@)[j] == pre_dist[j],
                forall|j: int|
                    0 <= j < nd ==> #[trigger] within_rounds(
                        dist_views(dist@)[j],
                        i as int + 1,
                    ),
            decreases n - nd,
        {
            let ghost dist_at_top = dist@;
            proof {
                // The cell of `current` is never relaxed: it was just visited.
                if current < nd {
                    assert(dist_views(dist@)[current as int] == spec_relax_cell(
                        m,
                        pre_dist,
                        vis2,
                        current as int,
                        current as int,
                    ));
                }
                assert(dist_views(dist@)[current as int] == pre_dist[current as int]);
            }
            let ew = g.get_edge(current, nd);
            proof {
                assert(ew == Ok::<Option<i64>, GraphError>(
                    spec_edge(m, current as int, nd as int),
                ));
            }
            let wopt = match ew {
                Ok(w) => w,
                Err(_) => None,
            };
            match wopt {
                None => {},
                Some(w) => {
                    if !visited[nd] {
                        match dist[current] {
                            Distance::Infinity => {},
                            Distance::Finite(dc) => {
                                proof {
                                    assert(within_rounds(pre_dist[current as int], i as int));
                                    assert((i as int) * weight_mag() <= (n as int - 1)
                                        * weight_mag());
                                    assert((n as int) * weight_mag() <= (usize::MAX as int)
                                        * weight_mag());
                                    assert((usize::MAX as int) * weight_mag()
                                        <= i128::MAX as int);
                                }
                                let cand = dc + (w as i128);
                                proof {
                                    assert(pre_dist[current as int] == Some(dc as int));
                                    assert(dist_views(dist@)[nd as int] == pre_dist[nd as int]);
                                }
                                let better = match dist[nd] {
                                    Distance::Infinity => true,
                                    Distance::Finite(dn) => cand < dn,
                                };
                                if better {
                                    dist.set(nd, Distance::Finite(cand));
                                }
                            },
                        }
                    }
                },
            }
            proof {
                assert(dist_views(dist@)[nd as int] == spec_relax_cell(
                    m,
                    pre_dist,
                    vis2,
                    current as int,
                    nd as int,
                ));
                assert forall|j: int| 0 <= j < n && j != nd as int implies #[trigger] dist_views(
                    dist@,
                )[j] == dist_views(dist_at_top)[j] by {
                    assert(dist@[j] == dist_at_top[j]);
                }
                assert forall|j: int| 0 <= j < nd + 1 implies #[trigger] dist_views(dist@)[j]
                    == spec_relax_cell(m, pre_dist, vis2, current as int, j) by {
                    if j < nd {
                        assert(dist_views(dist_at_top)[j] == spec_relax_cell(
                            m,
                            pre_dist,
                            vis2,
                            current as int,
                            j,
                        ));
                    }
                }
                assert forall|j: int| nd + 1 <= j < n implies #[trigger] dist_views(dist@)[j]
                    == pre_dist[j] by {
                    assert(dist_views(dist_at_top)[j] == pre_dist[j]);
                }
                assert forall|j: int| 0 <= j < nd + 1 implies #[trigger] within_rounds(
                    dist_views(dist@)[j],
                    i as int + 1,
                ) by {
                    if j < nd {
                        assert(within_rounds(dist_views(dist_at_top)[j], i as int + 1));
                    } else {
                        assert(within_rounds(pre_dist[current as int], i as int));
                        assert(within_rounds(pre_dist[j], i as int));
                        assert((i as int) * weight_mag() + weight_mag() == (i as int + 1)
                            * weight_mag());
                    }
                }
            }
            nd = nd + 1;
        }
        proof {
            assert(dist_views(dist@) =~= spec_relaxed(m, pre_dist, vis2, current as int));
            assert(spec_steps(m, src as int, (i + 1) as nat).0 == dist_views(dist@));
            assert(spec_steps(m, src as int, (i + 1) as nat).1 == vis2);
        }
        i = i + 1;
    }
    Ok(dist)
}

/// Whether a tentative distance is not a negative number.
pub open spec fn nonneg_opt(d: Option<int>) -> bool {
    match d {
        Some(x) => x >= 0,
        None => true,
    }
}

/// The scan for the next node stays within the node range, counting its
/// "nothing found" value.
proof fn lemma_select_from_range(dist: Seq<Option<int>>, visited: Seq<bool>, idx: int, best: int)
    requires
        0 <= best <= dist.len(),
        0 <= idx,
    ensures
        0 <= spec_select_from(dist, visited, idx, best) <= dist.len(),
    decreases dist.len() - idx,
{
    if idx < dist.len() {
        let better = !visited[idx] && (best == dist.len() || dist_lt(dist[idx], dist[best]));
        lemma_select_from_range(dist, visited, idx + 1, if better { idx } else { best });
    }
}

/// The state of the algorithm after each round keeps one tentative distance
/// per node.
proof fn lemma_steps_len(m: Seq<Seq<i64>>, src: int, k: nat)
    ensures
        spec_steps(m, src, k).0.len() == m.len(),
        spec_steps(m, src, k).1.len() == m.len(),
    decreases k,
{
    if k > 0 {
        lemma_steps_len(m, src, (k - 1) as nat);
    }
}

/// The distance vector of `dijkstra` has exactly one entry per node of the
/// graph, whatever the source and the weights.
pub proof fn lemma_dijkstra_len(m: Seq<Seq<i64>>, src: int)
    ensures
        spec_dijkstra(m, src).len() == m.len(),
{
    lemma_steps_len(m, src, m.len());
}

/// On a matrix without negative weights, every round keeps the source at
/// distance `0` and every tentative distance non-negative.
proof fn lemma_steps_nonneg(m: Seq<Seq<i64>>, src: int, k: nat)
    requires
        0 <= src < m.len(),
        forall|i: int, j: int| 0 <= i < m.len() && 0 <= j < m.len() ==> #[trigger] m[i][j] >= 0,
    ensures
        spec_steps(m, src, k).0[src] == Some(0int),
        forall|v: int| 0 <= v < m.len() ==> nonneg_opt(#[trigger] spec_steps(m, src, k).0[v]),
    decreases k,
{
    lemma_steps_len(m, src, k);
    if k == 0 {
    } else {
        lemma_steps_nonneg(m, src, (k - 1) as nat);
        lemma_steps_len(m, src, (k - 1) as nat);
        let prev = spec_steps(m, src, (k - 1) as nat);
        lemma_select_from_range(prev.0, prev.1, 0, prev.0.len() as int);
        let c = spec_select(prev.0, prev.1);
        if 0 <= c < prev.0.len() {
            let vis2 = prev.1.update(c, true);
            let newd = spec_relaxed(m, prev.0, vis2, c);
            assert forall|v: int| 0 <= v < m.len() implies nonneg_opt(#[trigger] newd[v]) by {
                assert(nonneg_opt(prev.0[c]));
                assert(nonneg_opt(prev.0[v]));
                assert(m[c][v] >= 0);
            }
            assert(newd[src] == Some(0int)) by {
                assert(nonneg_opt(prev.0[c]));
                assert(m[c][src] >= 0);
                assert(prev.0[src] == Some(0int));
            }
        }
    }
}

/// On a graph with no negative edge weight, `dijkstra` reports the source
/// at distance exactly `0`: it starts there and no relaxation can improve
/// on it.
pub proof fn lemma_dijkstra_source_zero(m: Seq<Seq<i64>>, src: int)
    requires
        0 <= src < m.len(),
        forall|i: int, j: int| 0 <= i < m.len() && 0 <= j < m.len() ==> #[trigger] m[i][j] >= 0,
    ensures
        spec_dijkstra(m, src)[src] == Some(0int),
{
    lemma_steps_nonneg(m, src, m.len());
}

/// An all-`false` vector has no `true` entry.
proof fn lemma_count_trues_all_false(s: Seq<bool>)
    requires
        forall|j: int| 0 <= j < s.len() ==> !s[j],
    ensures
        count_trues(s) == 0,
    decreases s.len(),
{
    if s.len() > 0 {
        lemma_count_trues_all_false(s.drop_last());
    }
}

} // verus!
