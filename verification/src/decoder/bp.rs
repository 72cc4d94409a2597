//! Structure of the belief-propagation decoder.
//!
//! The iterative message-passing arithmetic works on floating-point
//! messages and lives with the decoder's driver; what stands here is the
//! exact part: the decoder's configuration enumerations and the Tanner
//! graph of a parity-check matrix, the edge store that message passing
//! runs over.  An edge is one nonzero entry `(check, bit)` of the matrix;
//! the store lists the edges of every check row and of every variable
//! column so that forward and reverse sweeps become index arithmetic.

use vstd::prelude::*;
use crate::math::gf2::{byte_bits, in_range, row_parity};
use crate::math::sparse_matrix::BinarySparseMatrix;

verus! {

/// The all-zero hard decision satisfies every check: its candidate
/// syndrome is the zero syndrome, so a decoder handed the zero syndrome
/// converges on the zero pattern as soon as it tests it.
pub proof fn lemma_zero_decision_zero_syndrome(h: BinarySparseMatrix, d: Seq<u8>)
    requires
        h.wf(),
        d.len() == h.n_cols,
        forall|i: int| 0 <= i < d.len() ==> d[i] == 0,
    ensures
        forall|i: int|
            0 <= i < h.spec_rows() ==> !(#[trigger] row_parity(h.rows_view()[i], byte_bits(d))),
{
    assert forall|i: int| 0 <= i < h.spec_rows() implies !(#[trigger] row_parity(
        h.rows_view()[i],
        byte_bits(d),
    )) by {
        assert(in_range(h.rows_view()[i], h.n_cols as nat));
        crate::math::gf2::lemma_count_in_all_false(h.rows_view()[i], byte_bits(d));
    }
}

/// The check-node update rule.
#[derive(Debug, Clone, Copy, PartialEq, Eq, Structural)]
pub enum BpMethod {
    ProductSum,
    MinimumSum,
}

/// The message-passing schedule.
#[derive(Debug, Clone, Copy, PartialEq, Eq, Structural)]
pub enum BpSchedule {
    Serial,
    Parallel,
    SerialRelative,
}

/// The Tanner graph of a parity-check matrix, as a flat edge list with
/// per-row and per-column edge indices.
#[derive(Debug, Clone)]
pub struct TannerGraph {
    pub check_count: usize,
    pub bit_count: usize,
    pub edge_checks: Vec<usize>,
    pub edge_bits: Vec<usize>,
    pub row_edges: Vec<Vec<usize>>,
    pub col_edges: Vec<Vec<usize>>,
}

/// Finds the position of `x` in `v`.
fn index_of_val(v: &Vec<usize>, x: usize) -> (r: usize)
    requires
        v@.contains(x),
    ensures
        r < v@.len(),
        v@[r as int] == x,
{
    let mut k: usize = 0;
    while k < v.len()
        invariant
            k <= v.len(),
            v@.contains(x),
            forall|t: int| 0 <= t < k ==> v@[t] != x,
        decreases v.len() - k,
    {
        if v[k] == x {
            return k;
        }
        k += 1;
    }
    proof {
        let t = choose|t: int| 0 <= t < v@.len() && v@[t] == x;
        assert(false);
    }
    0
}

impl TannerGraph {
    /// The edge lists describe the matrix `h`: row `i`'s edges run over
    /// the columns of `row_adj[i]` in order, column `j`'s edges over the
    /// rows of `col_adj[j]` in order, and each edge records its check and
    /// bit.
    pub open spec fn describes(self, h: BinarySparseMatrix) -> bool {
        &&& self.check_count == h.n_rows
        &&& self.bit_count == h.n_cols
        &&& self.edge_checks@.len() == self.edge_bits@.len()
        &&& self.row_edges@.len() == h.n_rows
        &&& self.col_edges@.len() == h.n_cols
        &&& forall|i: int|
            0 <= i < h.spec_rows() ==> (#[trigger] self.row_edges@[i])@.len()
                == h.rows_view()[i].len()
        &&& forall|i: int, t: int|
            0 <= i < h.spec_rows() && 0 <= t < self.row_edges@[i]@.len() ==> {
                let e = #[trigger] self.row_edges@[i]@[t];
                &&& e < self.edge_checks@.len()
                &&& self.edge_checks@[e as int] == i
                &&& self.edge_bits@[e as int] == h.rows_view()[i][t]
            }
        &&& forall|j: int|
            0 <= j < h.spec_cols() ==> (#[trigger] self.col_edges@[j])@.len()
                == h.cols_view()[j].len()
        &&& forall|j: int, t: int|
            0 <= j < h.spec_cols() && 0 <= t < self.col_edges@[j]@.len() ==> {
                let e = #[trigger] self.col_edges@[j]@[t];
                &&& e < self.edge_checks@.len()
                &&& self.edge_bits@[e as int] == j
                &&& self.edge_checks@[e as int] == h.cols_view()[j][t]
            }
    }

    /// Builds the edge store of a parity-check matrix: one edge per
    /// nonzero entry, numbered row by row.
    pub fn from_matrix(h: &BinarySparseMatrix) -> (r: Self)
        requires
            h.wf(),
        ensures
            r.describes(*h),
    {
        let ghost rv = h.rows_view();
        let ghost cv = h.cols_view();
        let mut edge_checks: Vec<usize> = Vec::new();
        let mut edge_bits: Vec<usize> = Vec::new();
        let mut row_edges: Vec<Vec<usize>> = Vec::new();
        let mut i: usize = 0;
        while i < h.n_rows
            invariant
                i <= h.n_rows,
                h.wf(),
                rv == h.rows_view(),
                edge_checks@.len() == edge_bits@.len(),
                row_edges@.len() == i,
                forall|a: int|
                    0 <= a < i ==> (#[trigger] row_edges@[a])@.len() == rv[a].len(),
                forall|a: int, t: int|
                    0 <= a < i && 0 <= t < row_edges@[a]@.len() ==> {
                        let e = #[trigger] row_edges@[a]@[t];
                        &&& e < edge_checks@.len()
                        &&& edge_checks@[e as int] == a
                        &&& edge_bits@[e as int] == rv[a][t]
                    },
            decreases h.n_rows - i,
        {
            let row_len = h.row_adj[i].len();
            let mut cur: Vec<usize> = Vec::new();
            let mut t: usize = 0;
            while t < row_len
                invariant
                    t <= row_len,
                    i < h.n_rows,
                    h.wf(),
                    rv == h.rows_view(),
                    row_len == rv[i as int].len(),
                    edge_checks@.len() == edge_bits@.len(),
                    row_edges@.len() == i,
                    cur@.len() == t,
                    forall|a: int|
                        0 <= a < i ==> (#[trigger] row_edges@[a])@.len() == rv[a].len(),
                    forall|a: int, s: int|
                        0 <= a < i && 0 <= s < row_edges@[a]@.len() ==> {
                            let e = #[trigger] row_edges@[a]@[s];
                            &&& e < edge_checks@.len()
                            &&& edge_checks@[e as int] == a
                            &&& edge_bits@[e as int] == rv[a][s]
                        },
                    forall|s: int|
                        0 <= s < t ==> {
                            let e = #[trigger] cur@[s];
                            &&& e < edge_checks@.len()
                            &&& edge_checks@[e as int] == i
                            &&& edge_bits@[e as int] == rv[i as int][s]
                        },
                decreases row_len - t,
            {
                let e = edge_checks.len();
                edge_checks.push(i);
                edge_bits.push(h.row_adj[i][t]);
                cur.push(e);
                t += 1;
            }
            row_edges.push(cur);
            proof {
                assert forall|a: int| 0 <= a < i + 1 implies (#[trigger] row_edges@[a])@.len()
                    == rv[a].len() by {}
            }
            i += 1;
        }
        // Column lists: the edge of `(p, j)` is looked up through row `p`.
        let mut col_edges: Vec<Vec<usize>> = Vec::new();
        let mut j: usize = 0;
        while j < h.n_cols
            invariant
                j <= h.n_cols,
                h.wf(),
                rv == h.rows_view(),
                cv == h.cols_view(),
                edge_checks@.len() == edge_bits@.len(),
                row_edges@.len() == h.n_rows,
                forall|a: int|
                    0 <= a < h.spec_rows() ==> (#[trigger] row_edges@[a])@.len() == rv[a].len(),
                forall|a: int, t: int|
                    0 <= a < h.spec_rows() && 0 <= t < row_edges@[a]@.len() ==> {
                        let e = #[trigger] row_edges@[a]@[t];
                        &&& e < edge_checks@.len()
                        &&& edge_checks@[e as int] == a
                        &&& edge_bits@[e as int] == rv[a][t]
                    },
                col_edges@.len() == j,
                forall|b: int|
                    0 <= b < j ==> (#[trigger] col_edges@[b])@.len() == cv[b].len(),
                forall|b: int, t: int|
                    0 <= b < j && 0 <= t < col_edges@[b]@.len() ==> {
                        let e = #[trigger] col_edges@[b]@[t];
                        &&& e < edge_checks@.len()
                        &&& edge_bits@[e as int] == b
                        &&& edge_checks@[e as int] == cv[b][t]
                    },
            decreases h.n_cols - j,
        {
            let col_len = h.col_adj[j].len();
            let mut cur: Vec<usize> = Vec::new();
            let mut t: usize = 0;
            while t < col_len
                invariant
                    t <= col_len,
                    j < h.n_cols,
                    h.wf(),
                    rv == h.rows_view(),
                    cv == h.cols_view(),
                    col_len == cv[j as int].len(),
                    edge_checks@.len() == edge_bits@.len(),
                    row_edges@.len() == h.n_rows,
                    forall|a: int|
                        0 <= a < h.spec_rows() ==> (#[trigger] row_edges@[a])@.len() == rv[a].len(),
                    forall|a: int, s: int|
                        0 <= a < h.spec_rows() && 0 <= s < row_edges@[a]@.len() ==> {
                            let e = #[trigger] row_edges@[a]@[s];
                            &&& e < edge_checks@.len()
                            &&& edge_checks@[e as int] == a
                            &&& edge_bits@[e as int] == rv[a][s]
                        },
                    cur@.len() == t,
                    forall|s: int|
                        0 <= s < t ==> {
                            let e = #[trigger] cur@[s];
                            &&& e < edge_checks@.len()
                            &&& edge_bits@[e as int] == j
                            &&& edge_checks@[e as int] == cv[j as int][s]
                        },
                decreases col_len - t,
            {
                let p = h.col_adj[j][t];
                proof {
                    assert(cv[j as int] == h.col_adj@[j as int]@);
                    assert(cv[j as int].contains(cv[j as int][t as int]));
                    assert(p < h.n_rows);
                    let pi = p as int;
                    assert(cv[j as int].contains(pi as usize));
                    assert(rv[pi].contains(j as usize));
                    assert(rv[p as int] == h.row_adj@[p as int]@);
                }
                let idx = index_of_val(&h.row_adj[p], j);
                let e = row_edges[p][idx];
                cur.push(e);
                t += 1;
            }
            col_edges.push(cur);
            proof {
                assert forall|b: int| 0 <= b < j + 1 implies (#[trigger] col_edges@[b])@.len()
                    == cv[b].len() by {}
            }
            j += 1;
        }
        TannerGraph {
            check_count: h.rows(),
            bit_count: h.cols(),
            edge_checks,
            edge_bits,
            row_edges,
            col_edges,
        }
    }

    /// The number of edges: one per nonzero matrix entry.
    pub fn num_edges(&self) -> (r: usize)
        ensures
            r == self.edge_checks@.len(),
    {
        self.edge_checks.len()
    }
}

} // verus!
