//! Adjacency-list binary matrices over GF(2).
//!
//! A `BinarySparseMatrix` keeps, for every row, the sorted list of columns
//! holding a `1`, and, for every column, the sorted list of rows holding a
//! `1`.  The two lists describe the same set of entries; that mutual
//! consistency is the well-formedness invariant every constructor
//! establishes and every operation preserves.

use vstd::prelude::*;
use vstd::pervasive::VecAdditionalExecFns;
use crate::bits::{bit_seq, BitVector};
use crate::errors::QldpcError;
use crate::math::gf2::{byte_bits, count_common, count_in, in_range, row_parity, strictly_sorted};

verus! {

/// A binary matrix over GF(2), stored as mutually consistent row and column
/// adjacency lists.
#[derive(Debug, Clone, PartialEq)]
pub struct BinarySparseMatrix {
    pub n_rows: usize,
    pub n_cols: usize,
    pub row_adj: Vec<Vec<usize>>,
    pub col_adj: Vec<Vec<usize>>,
}

/// An adjacency structure as a sequence of index sequences.
pub open spec fn adj_view(adj: Seq<Vec<usize>>) -> Seq<Seq<usize>> {
    adj.map_values(|r: Vec<usize>| r@)
}

/// Every list of `adj` has entries below `bound`.
pub open spec fn adj_in_range(adj: Seq<Seq<usize>>, bound: nat) -> bool {
    forall|i: int| 0 <= i < adj.len() ==> in_range(#[trigger] adj[i], bound)
}

/// Every list of `adj` is strictly increasing.
pub open spec fn adj_sorted(adj: Seq<Seq<usize>>) -> bool {
    forall|i: int| 0 <= i < adj.len() ==> strictly_sorted(#[trigger] adj[i])
}

/// Every list of `adj` is strictly increasing with entries below `bound`.
pub open spec fn adj_lists_ok(adj: Seq<Seq<usize>>, bound: nat) -> bool {
    adj_in_range(adj, bound) && adj_sorted(adj)
}

/// The two adjacency structures list the same entries: `j ∈ rows[i]` iff
/// `i ∈ cols[j]`.
pub open spec fn adj_consistent(rows: Seq<Seq<usize>>, cols: Seq<Seq<usize>>) -> bool {
    forall|i: int, j: int|
        0 <= i < rows.len() && 0 <= j < cols.len() ==> (#[trigger] rows[i].contains(j as usize)
            <==> #[trigger] cols[j].contains(i as usize))
}

impl BinarySparseMatrix {
    /// The row adjacency as a sequence of sorted column-index sequences.
    pub open spec fn rows_view(self) -> Seq<Seq<usize>> {
        adj_view(self.row_adj@)
    }

    /// The column adjacency as a sequence of sorted row-index sequences.
    pub open spec fn cols_view(self) -> Seq<Seq<usize>> {
        adj_view(self.col_adj@)
    }

    pub open spec fn spec_rows(self) -> nat {
        self.n_rows as nat
    }

    pub open spec fn spec_cols(self) -> nat {
        self.n_cols as nat
    }

    /// Whether entry `(i, j)` of the matrix is `1`.
    pub open spec fn entry(self, i: int, j: int) -> bool {
        self.rows_view()[i].contains(j as usize)
    }

    /// The well-formedness invariant: adjacency lists of the right number,
    /// sorted, in range, and mutually consistent.
    pub open spec fn wf(self) -> bool {
        &&& self.row_adj.len() == self.n_rows
        &&& self.col_adj.len() == self.n_cols
        &&& adj_lists_ok(self.rows_view(), self.n_cols as nat)
        &&& adj_lists_ok(self.cols_view(), self.n_rows as nat)
        &&& adj_consistent(self.rows_view(), self.cols_view())
    }
}

/// Sparse adjacency consistency: in a well-formed matrix, column `j` occurs
/// in row `i`'s list exactly when row `i` occurs in column `j`'s list.
pub proof fn lemma_adjacency_consistency(m: BinarySparseMatrix, i: int, j: int)
    requires
        m.wf(),
        0 <= i < m.spec_rows(),
        0 <= j < m.spec_cols(),
    ensures
        m.rows_view()[i].contains(j as usize) <==> m.cols_view()[j].contains(i as usize),
{
}

/// Whether `x` occurs in `v`.
fn contains_val(v: &Vec<usize>, x: usize) -> (r: bool)
    ensures
        r == v@.contains(x),
{
    let mut k: usize = 0;
    while k < v.len()
        invariant
            k <= v.len(),
            forall|t: int| 0 <= t < k ==> v@[t] != x,
        decreases v.len() - k,
    {
        if v[k] == x {
            return true;
        }
        k += 1;
    }
    false
}

/// Whether every entry of `v` lies below `bound`.
fn check_list_range(v: &Vec<usize>, bound: usize) -> (r: bool)
    ensures
        r == in_range(v@, bound as nat),
{
    let mut k: usize = 0;
    while k < v.len()
        invariant
            k <= v.len(),
            forall|t: int| 0 <= t < k ==> (#[trigger] v@[t]) < bound,
        decreases v.len() - k,
    {
        if v[k] >= bound {
            return false;
        }
        k += 1;
    }
    true
}

/// Whether `v` is strictly increasing.
fn check_list_sorted(v: &Vec<usize>) -> (r: bool)
    ensures
        r == strictly_sorted(v@),
{
    let mut k: usize = 0;
    while k < v.len()
        invariant
            k <= v.len(),
            forall|p: int, q: int| 0 <= p < q < k ==> v@[p] < v@[q],
        decreases v.len() - k,
    {
        if k > 0 && v[k - 1] >= v[k] {
            return false;
        }
        k += 1;
    }
    true
}

/// Whether every list of `adj` has entries below `bound`.
fn check_adj_range(adj: &Vec<Vec<usize>>, bound: usize) -> (r: bool)
    ensures
        r == adj_in_range(adj_view(adj@), bound as nat),
{
    let mut i: usize = 0;
    while i < adj.len()
        invariant
            i <= adj.len(),
            forall|t: int| 0 <= t < i ==> in_range(#[trigger] adj_view(adj@)[t], bound as nat),
        decreases adj.len() - i,
    {
        if !check_list_range(&adj[i], bound) {
            assert(adj_view(adj@)[i as int] == adj@[i as int]@);
            return false;
        }
        i += 1;
    }
    true
}

/// Whether every list of `adj` is strictly increasing.
fn check_adj_sorted(adj: &Vec<Vec<usize>>) -> (r: bool)
    ensures
        r == adj_sorted(adj_view(adj@)),
{
    let mut i: usize = 0;
    while i < adj.len()
        invariant
            i <= adj.len(),
            forall|t: int| 0 <= t < i ==> strictly_sorted(#[trigger] adj_view(adj@)[t]),
        decreases adj.len() - i,
    {
        if !check_list_sorted(&adj[i]) {
            assert(adj_view(adj@)[i as int] == adj@[i as int]@);
            return false;
        }
        i += 1;
    }
    true
}

/// Whether, for every `i` and every `j` listed in `rows[i]`, `i` is listed
/// in `cols[j]`.
fn check_adj_included(rows: &Vec<Vec<usize>>, cols: &Vec<Vec<usize>>) -> (r: bool)
    requires
        adj_lists_ok(adj_view(rows@), cols@.len() as nat),
    ensures
        r == forall|i: int, t: int|
            0 <= i < rows@.len() && 0 <= t < adj_view(rows@)[i].len()
                ==> (#[trigger] adj_view(cols@)[adj_view(rows@)[i][t] as int]).contains(i as usize),
{
    let mut i: usize = 0;
    while i < rows.len()
        invariant
            i <= rows.len(),
            adj_lists_ok(adj_view(rows@), cols@.len() as nat),
            forall|p: int, t: int|
                0 <= p < i && 0 <= t < adj_view(rows@)[p].len()
                    ==> (#[trigger] adj_view(cols@)[adj_view(rows@)[p][t] as int]).contains(
                    p as usize,
                ),
        decreases rows.len() - i,
    {
        let row = &rows[i];
        let mut t: usize = 0;
        while t < row.len()
            invariant
                i < rows.len(),
                t <= row.len(),
                row == &rows[i as int],
                adj_lists_ok(adj_view(rows@), cols@.len() as nat),
                forall|s: int|
                    0 <= s < t ==> (#[trigger] adj_view(cols@)[adj_view(rows@)[i as int][s] as int]).contains(
                        i as usize,
                    ),
            decreases row.len() - t,
        {
            let j = row[t];
            assert(j == adj_view(rows@)[i as int][t as int]);
            assert(j < cols@.len());
            if !contains_val(&cols[j], i) {
                assert(!adj_view(cols@)[j as int].contains(i as usize));
                return false;
            }
            assert(adj_view(cols@)[j as int].contains(i as usize));
            t += 1;
        }
        i += 1;
    }
    true
}

/// A copy of `v` with the same entries.
fn clone_row(v: &Vec<usize>) -> (r: Vec<usize>)
    ensures
        r@ == v@,
{
    let mut out: Vec<usize> = Vec::new();
    let mut k: usize = 0;
    while k < v.len()
        invariant
            k <= v.len(),
            out@ == v@.take(k as int),
        decreases v.len() - k,
    {
        out.push(v[k]);
        k += 1;
    }
    proof {
        assert(out@ =~= v@);
    }
    out
}

/// A copy of `adj` with the same lists.
fn clone_adj(adj: &Vec<Vec<usize>>) -> (r: Vec<Vec<usize>>)
    ensures
        adj_view(r@) == adj_view(adj@),
        r@.len() == adj@.len(),
{
    let mut out: Vec<Vec<usize>> = Vec::new();
    let mut i: usize = 0;
    while i < adj.len()
        invariant
            i <= adj.len(),
            out@.len() == i,
            forall|t: int| 0 <= t < i ==> adj_view(out@)[t] == adj_view(adj@)[t],
        decreases adj.len() - i,
    {
        out.push(clone_row(&adj[i]));
        i += 1;
    }
    proof {
        assert(adj_view(out@) =~= adj_view(adj@));
    }
    out
}

/// The two-sided consistency condition checked in executable code.
spec fn included(rows: Seq<Seq<usize>>, cols: Seq<Seq<usize>>) -> bool {
    forall|i: int, t: int|
        0 <= i < rows.len() && 0 <= t < rows[i].len() ==> (#[trigger] cols[rows[i][t] as int]).contains(
            i as usize,
        )
}

/// Inclusion of the listed entries in both directions is exactly mutual
/// consistency.
proof fn lemma_included_consistent(rows: Seq<Seq<usize>>, cols: Seq<Seq<usize>>)
    requires
        rows.len() <= usize::MAX,
        cols.len() <= usize::MAX,
        adj_in_range(rows, cols.len() as nat),
        adj_in_range(cols, rows.len() as nat),
    ensures
        adj_consistent(rows, cols) <==> (included(rows, cols) && included(cols, rows)),
{
    if included(rows, cols) && included(cols, rows) {
        assert forall|i: int, j: int|
            0 <= i < rows.len() && 0 <= j < cols.len() implies (#[trigger] rows[i].contains(
            j as usize,
        ) <==> #[trigger] cols[j].contains(i as usize)) by {
            if rows[i].contains(j as usize) {
                let t = choose|t: int| 0 <= t < rows[i].len() && rows[i][t] == j as usize;
                assert(cols[rows[i][t] as int].contains(i as usize));
                assert(rows[i][t] as int == j);
            }
            if cols[j].contains(i as usize) {
                let t = choose|t: int| 0 <= t < cols[j].len() && cols[j][t] == i as usize;
                assert(rows[cols[j][t] as int].contains(j as usize));
                assert(cols[j][t] as int == i);
            }
        }
    }
    if adj_consistent(rows, cols) {
        assert forall|i: int, t: int|
            0 <= i < rows.len() && 0 <= t < rows[i].len() implies (#[trigger] cols[rows[i][t] as int]).contains(
            i as usize,
        ) by {
            let j = rows[i][t] as int;
            assert(rows[i][t] < cols.len());
            assert(rows[i].contains(rows[i][t]));
            assert(rows[i].contains(j as usize));
            assert(rows[i].contains(j as usize) <==> cols[j].contains(i as usize));
        }
        assert forall|j: int, t: int|
            0 <= j < cols.len() && 0 <= t < cols[j].len() implies (#[trigger] rows[cols[j][t] as int]).contains(
            j as usize,
        ) by {
            let i = cols[j][t] as int;
            assert(cols[j][t] < rows.len());
            assert(cols[j].contains(cols[j][t]));
            assert(cols[j].contains(i as usize));
            assert(rows[i].contains(j as usize) <==> cols[j].contains(i as usize));
        }
    }
}

impl BinarySparseMatrix {
    /// Builds a matrix from both adjacency representations, validating that
    /// they are sorted, in range, and mutually consistent.
    pub fn new(
        n_rows: usize,
        n_cols: usize,
        row_adj: Vec<Vec<usize>>,
        col_adj: Vec<Vec<usize>>,
    ) -> (r: Result<Self, QldpcError>)
    ensures
        ({
            let rv = adj_view(row_adj@);
            let cv = adj_view(col_adj@);
            let shape = rv.len() == n_rows && cv.len() == n_cols;
            let range = adj_in_range(rv, n_cols as nat) && adj_in_range(cv, n_rows as nat);
            let lists = adj_sorted(rv) && adj_sorted(cv);
            let cons = adj_consistent(rv, cv);
            match r {
                Ok(m) => {
                    &&& shape && range && lists && cons
                    &&& m.n_rows == n_rows
                    &&& m.n_cols == n_cols
                    &&& m.rows_view() == rv
                    &&& m.cols_view() == cv
                    &&& m.wf()
                },
                Err(e) => {
                    &&& (e == QldpcError::ShapeMismatch <==> !shape)
                    &&& (e == QldpcError::IndexOutOfRange <==> shape && !range)
                    &&& (e == QldpcError::InconsistentAdjacency <==> shape && range && !(lists
                        && cons))
                    &&& !(shape && range && lists && cons)
                },
            }
        }),
    {
        if row_adj.len() != n_rows || col_adj.len() != n_cols {
            return Err(QldpcError::ShapeMismatch);
        }
        if !check_adj_range(&row_adj, n_cols) || !check_adj_range(&col_adj, n_rows) {
            return Err(QldpcError::IndexOutOfRange);
        }
        if !check_adj_sorted(&row_adj) || !check_adj_sorted(&col_adj) {
            return Err(QldpcError::InconsistentAdjacency);
        }
        let ok_fwd = check_adj_included(&row_adj, &col_adj);
        let ok_bwd = check_adj_included(&col_adj, &row_adj);
        proof {
            lemma_included_consistent(adj_view(row_adj@), adj_view(col_adj@));
        }
        if !ok_fwd || !ok_bwd {
            return Err(QldpcError::InconsistentAdjacency);
        }
        Ok(BinarySparseMatrix { n_rows, n_cols, row_adj, col_adj })
    }

    /// Builds a matrix from its row adjacency alone, deriving the column
    /// adjacency.
    pub fn from_row_adj(n_rows: usize, n_cols: usize, row_adj: Vec<Vec<usize>>) -> (r: Result<
        Self,
        QldpcError,
    >)
        ensures
            ({
                let rv = adj_view(row_adj@);
                let shape = rv.len() == n_rows;
                let range = adj_in_range(rv, n_cols as nat);
                let sorted = adj_sorted(rv);
                match r {
                    Ok(m) => {
                        &&& shape && range && sorted
                        &&& m.n_rows == n_rows
                        &&& m.n_cols == n_cols
                        &&& m.rows_view() == rv
                        &&& m.wf()
                    },
                    Err(e) => {
                        &&& (e == QldpcError::ShapeMismatch <==> !shape)
                        &&& (e == QldpcError::IndexOutOfRange <==> shape && !range)
                        &&& (e == QldpcError::InconsistentAdjacency <==> shape && range && !sorted)
                        &&& !(shape && range && sorted)
                    },
                }
            }),
    {
        if row_adj.len() != n_rows {
            return Err(QldpcError::ShapeMismatch);
        }
        if !check_adj_range(&row_adj, n_cols) {
            return Err(QldpcError::IndexOutOfRange);
        }
        if !check_adj_sorted(&row_adj) {
            return Err(QldpcError::InconsistentAdjacency);
        }
        let mut col_adj: Vec<Vec<usize>> = Vec::new();
        let mut j: usize = 0;
        while j < n_cols
            invariant
                j <= n_cols,
                col_adj@.len() == j,
                forall|t: int| 0 <= t < j ==> (#[trigger] adj_view(col_adj@)[t]).len() == 0,
            decreases n_cols - j,
        {
            let empty: Vec<usize> = Vec::new();
            let ghost prev = col_adj@;
            col_adj.push(empty);
            proof {
                assert forall|t: int| 0 <= t < j + 1 implies (#[trigger] adj_view(col_adj@)[t]).len()
                    == 0 by {
                    if t < j {
                        assert(adj_view(prev)[t].len() == 0);
                        assert(col_adj@[t] == prev[t]);
                    } else {
                        assert(col_adj@[t] == empty);
                    }
                    assert(adj_view(col_adj@)[t] == col_adj@[t]@);
                }
            }
            j += 1;
        }
        let ghost rv = adj_view(row_adj@);
        let mut i: usize = 0;
        while i < n_rows
            invariant
                i <= n_rows,
                row_adj@.len() == n_rows,
                rv == adj_view(row_adj@),
                adj_in_range(rv, n_cols as nat),
                adj_sorted(rv),
                col_adj@.len() == n_cols,
                forall|c: int|
                    0 <= c < n_cols ==> strictly_sorted(#[trigger] adj_view(col_adj@)[c])
                        && in_range(adj_view(col_adj@)[c], i as nat),
                forall|c: int, p: int|
                    0 <= c < n_cols && 0 <= p < n_rows ==> ((#[trigger] adj_view(col_adj@)[c].contains(
                        p as usize,
                    )) <==> (p < i && rv[p].contains(c as usize))),
            decreases n_rows - i,
        {
            let row_len = row_adj[i].len();
            let mut t: usize = 0;
            while t < row_len
                invariant
                    i < n_rows,
                    t <= row_len,
                    row_adj@.len() == n_rows,
                    rv == adj_view(row_adj@),
                    row_len == rv[i as int].len(),
                    adj_in_range(rv, n_cols as nat),
                    adj_sorted(rv),
                    col_adj@.len() == n_cols,
                    forall|c: int|
                        0 <= c < n_cols ==> strictly_sorted(#[trigger] adj_view(col_adj@)[c])
                            && in_range(adj_view(col_adj@)[c], (i + 1) as nat),
                    forall|c: int, p: int|
                        0 <= c < n_cols && 0 <= p < n_rows ==> ((
                        #[trigger] adj_view(col_adj@)[c].contains(p as usize)) <==> ((p < i
                            && rv[p].contains(c as usize)) || (p == i && rv[i as int].take(
                            t as int,
                        ).contains(c as usize)))),
                decreases row_len - t,
            {
                let c = row_adj[i][t];
                assert(c == rv[i as int][t as int]);
                assert(c < n_cols);
                let ghost s0 = col_adj@;
                let ghost old_cv = adj_view(col_adj@);
                let ghost old_list = old_cv[c as int];
                proof {
                    // Row `i` is strictly sorted, so `c` was not pushed for
                    // an earlier position of this row.
                    if rv[i as int].take(t as int).contains(c) {
                        let s = choose|s: int|
                            0 <= s < t && rv[i as int].take(t as int)[s] == c;
                        assert(rv[i as int][s] == c);
                        assert(rv[i as int][s] < rv[i as int][t as int]);
                        assert(false);
                    }
                    assert(!old_list.contains(i as usize));
                }
                let mut tmp: Vec<usize> = Vec::new();
                col_adj.set_and_swap(c, &mut tmp);
                tmp.push(i);
                col_adj.set_and_swap(c, &mut tmp);
                proof {
                    let cv = adj_view(col_adj@);
                    assert(cv[c as int] =~= old_list.push(i));
                    assert forall|x: int| 0 <= x < n_cols && x != c implies cv[x] == old_cv[x] by {
                        assert(col_adj@[x] == s0[x]);
                    }
                    // Sortedness and range of the updated list.
                    assert forall|p: int, q: int|
                        0 <= p < q < cv[c as int].len() implies cv[c as int][p] < cv[c as int][q] by {
                        if q == old_list.len() as int {
                            assert(old_list.contains(old_list[p]));
                            assert(old_list[p] < i + 1);
                            assert(old_list[p] != i);
                        }
                    }
                    assert(in_range(cv[c as int], (i + 1) as nat));
                    // Membership of the updated structure.
                    assert(rv[i as int].take(t as int + 1) =~= rv[i as int].take(t as int).push(c));
                    assert forall|x: int, p: int|
                        0 <= x < n_cols && 0 <= p < n_rows implies ((#[trigger] cv[x].contains(
                        p as usize,
                    )) <==> ((p < i && rv[p].contains(x as usize)) || (p == i && rv[i as int].take(
                        t as int + 1,
                    ).contains(x as usize)))) by {
                        if x == c {
                            assert(cv[x] == old_list.push(i));
                            if cv[x].contains(p as usize) {
                                let s = choose|s: int|
                                    0 <= s < cv[x].len() && cv[x][s] == p as usize;
                                if s < old_list.len() {
                                    assert(old_list[s] == p as usize);
                                    assert(old_list.contains(p as usize));
                                } else {
                                    assert(p == i);
                                }
                            }
                            if p < i && rv[p].contains(x as usize) {
                                assert(old_list.contains(p as usize));
                                let s = choose|s: int|
                                    0 <= s < old_list.len() && old_list[s] == p as usize;
                                assert(cv[x][s] == p as usize);
                                assert(cv[x].contains(p as usize));
                            }
                            assert(rv[i as int].take(t as int).len() == t);
                            assert(rv[i as int].take(t as int + 1)[t as int] == c);
                            assert(rv[i as int].take(t as int + 1).contains(c));
                            if p == i {
                                assert(cv[x][old_list.len() as int] == i as usize);
                                assert(cv[x].contains(i as usize));
                            }
                        } else {
                            assert(cv[x] == old_cv[x]);
                            if rv[i as int].take(t as int + 1).contains(x as usize) {
                                let s = choose|s: int|
                                    0 <= s < t + 1 && (#[trigger] rv[i as int].take(t as int + 1)[s])
                                        == x as usize;
                                assert(s < t || rv[i as int][t as int] == x as usize);
                                if s < t {
                                    assert(rv[i as int].take(t as int)[s] == x as usize);
                                    assert(rv[i as int].take(t as int).contains(x as usize));
                                }
                            }
                            if rv[i as int].take(t as int).contains(x as usize) {
                                let s = choose|s: int|
                                    0 <= s < t && rv[i as int].take(t as int)[s] == x as usize;
                                assert(rv[i as int].take(t as int + 1)[s] == x as usize);
                                assert(rv[i as int].take(t as int + 1).contains(x as usize));
                            }
                        }
                    }
                }
                t += 1;
            }
            proof {
                assert(rv[i as int].take(row_len as int) =~= rv[i as int]);
                assert forall|c: int, p: int|
                    0 <= c < n_cols && 0 <= p < n_rows implies ((
                #[trigger] adj_view(col_adj@)[c].contains(p as usize)) <==> (p < i + 1
                    && rv[p].contains(c as usize))) by {}
            }
            i += 1;
        }
        let m = BinarySparseMatrix { n_rows, n_cols, row_adj, col_adj };
        proof {
            assert forall|c: int, p: int|
                0 <= p < m.rows_view().len() && 0 <= c < m.cols_view().len() implies ((
            #[trigger] m.rows_view()[p].contains(c as usize)) <==> (#[trigger] m.cols_view()[c].contains(
                p as usize,
            ))) by {}
        }
        Ok(m)
    }

    /// Builds a matrix from its column adjacency alone, deriving the row
    /// adjacency.
    pub fn from_col_adj(n_rows: usize, n_cols: usize, col_adj: Vec<Vec<usize>>) -> (r: Result<
        Self,
        QldpcError,
    >)
        ensures
            ({
                let cv = adj_view(col_adj@);
                let shape = cv.len() == n_cols;
                let range = adj_in_range(cv, n_rows as nat);
                let sorted = adj_sorted(cv);
                match r {
                    Ok(m) => {
                        &&& shape && range && sorted
                        &&& m.n_rows == n_rows
                        &&& m.n_cols == n_cols
                        &&& m.cols_view() == cv
                        &&& m.wf()
                    },
                    Err(e) => {
                        &&& (e == QldpcError::ShapeMismatch <==> !shape)
                        &&& (e == QldpcError::IndexOutOfRange <==> shape && !range)
                        &&& (e == QldpcError::InconsistentAdjacency <==> shape && range && !sorted)
                        &&& !(shape && range && sorted)
                    },
                }
            }),
    {
        match Self::from_row_adj(n_cols, n_rows, col_adj) {
            Ok(m) => Ok(m.transpose()),
            Err(e) => Err(e),
        }
    }

    /// The all-zero matrix of the given shape.
    pub fn zeros(n_rows: usize, n_cols: usize) -> (r: Self)
        ensures
            r.wf(),
            r.n_rows == n_rows,
            r.n_cols == n_cols,
            forall|i: int| 0 <= i < n_rows ==> r.rows_view()[i].len() == 0,
            forall|j: int| 0 <= j < n_cols ==> r.cols_view()[j].len() == 0,
    {
        let mut row_adj: Vec<Vec<usize>> = Vec::new();
        let mut i: usize = 0;
        while i < n_rows
            invariant
                i <= n_rows,
                row_adj@.len() == i,
                forall|t: int| 0 <= t < i ==> (#[trigger] adj_view(row_adj@)[t]).len() == 0,
            decreases n_rows - i,
        {
            let empty: Vec<usize> = Vec::new();
            let ghost prev = row_adj@;
            row_adj.push(empty);
            proof {
                assert forall|t: int| 0 <= t < i + 1 implies (#[trigger] adj_view(row_adj@)[t]).len()
                    == 0 by {
                    if t < i {
                        assert(adj_view(prev)[t].len() == 0);
                        assert(row_adj@[t] == prev[t]);
                    } else {
                        assert(row_adj@[t] == empty);
                    }
                    assert(adj_view(row_adj@)[t] == row_adj@[t]@);
                }
            }
            i += 1;
        }
        let mut col_adj: Vec<Vec<usize>> = Vec::new();
        let mut j: usize = 0;
        while j < n_cols
            invariant
                j <= n_cols,
                col_adj@.len() == j,
                forall|t: int| 0 <= t < j ==> (#[trigger] adj_view(col_adj@)[t]).len() == 0,
            decreases n_cols - j,
        {
            let empty: Vec<usize> = Vec::new();
            let ghost prev = col_adj@;
            col_adj.push(empty);
            proof {
                assert forall|t: int| 0 <= t < j + 1 implies (#[trigger] adj_view(col_adj@)[t]).len()
                    == 0 by {
                    if t < j {
                        assert(adj_view(prev)[t].len() == 0);
                        assert(col_adj@[t] == prev[t]);
                    } else {
                        assert(col_adj@[t] == empty);
                    }
                    assert(adj_view(col_adj@)[t] == col_adj@[t]@);
                }
            }
            j += 1;
        }
        BinarySparseMatrix { n_rows, n_cols, row_adj, col_adj }
    }

    /// The number of rows.
    pub fn rows(&self) -> (r: usize)
        ensures
            r == self.n_rows,
    {
        self.n_rows
    }

    /// The number of columns.
    pub fn cols(&self) -> (r: usize)
        ensures
            r == self.n_cols,
    {
        self.n_cols
    }

    /// The shape as `(rows, cols)`.
    pub fn shape(&self) -> (r: (usize, usize))
        ensures
            r.0 == self.n_rows,
            r.1 == self.n_cols,
    {
        (self.n_rows, self.n_cols)
    }

    /// The matrix with rows and columns exchanged, obtained by swapping the
    /// two adjacency representations.
    pub fn transpose(&self) -> (r: Self)
        ensures
            transpose_of(r, *self),
            self.wf() ==> r.wf(),
    {
        let r = BinarySparseMatrix {
            n_rows: self.n_cols,
            n_cols: self.n_rows,
            row_adj: clone_adj(&self.col_adj),
            col_adj: clone_adj(&self.row_adj),
        };
        proof {
            if self.wf() {
                assert forall|i: int, j: int|
                    0 <= i < r.rows_view().len() && 0 <= j < r.cols_view().len() implies (
                #[trigger] r.rows_view()[i].contains(j as usize) <==> #[trigger] r.cols_view()[j].contains(
                    i as usize,
                )) by {
                    assert(self.rows_view()[j].contains(i as usize) <==> self.cols_view()[i].contains(
                        j as usize,
                    ));
                }
            }
        }
        r
    }
}

/// The parity of the bits of `v` listed in `row`.
fn row_parity_exec(row: &Vec<usize>, v: &BitVector) -> (r: bool)
    requires
        in_range(row@, bit_seq(*v).len()),
    ensures
        r == row_parity(row@, bit_seq(*v)),
{
    let mut parity = false;
    let mut t: usize = 0;
    while t < row.len()
        invariant
            t <= row.len(),
            in_range(row@, bit_seq(*v).len()),
            parity == (count_in(row@.take(t as int), bit_seq(*v)) % 2 == 1),
        decreases row.len() - t,
    {
        proof {
            assert(row@.take(t as int + 1).drop_last() =~= row@.take(t as int));
            assert(row@.take(t as int + 1).last() == row@[t as int]);
        }
        if v.get(row[t]) {
            parity = !parity;
        }
        t += 1;
    }
    proof {
        assert(row@.take(row@.len() as int) =~= row@);
    }
    parity
}

/// The parity of the nonzero bytes of `v` listed in `row`.
fn row_parity_bytes_exec(row: &Vec<usize>, v: &Vec<u8>) -> (r: bool)
    requires
        in_range(row@, v@.len()),
    ensures
        r == row_parity(row@, byte_bits(v@)),
{
    let mut parity = false;
    let mut t: usize = 0;
    while t < row.len()
        invariant
            t <= row.len(),
            in_range(row@, v@.len()),
            parity == (count_in(row@.take(t as int), byte_bits(v@)) % 2 == 1),
        decreases row.len() - t,
    {
        proof {
            assert(row@.take(t as int + 1).drop_last() =~= row@.take(t as int));
            assert(row@.take(t as int + 1).last() == row@[t as int]);
        }
        if v[row[t]] != 0 {
            proof {
                assert(byte_bits(v@)[row@[t as int] as int]);
            }
            parity = !parity;
        }
        t += 1;
    }
    proof {
        assert(row@.take(row@.len() as int) =~= row@);
    }
    parity
}

/// The parity of `|row ∩ col|`.
fn common_parity_exec(row: &Vec<usize>, col: &Vec<usize>) -> (r: bool)
    ensures
        r == (count_common(row@, col@) % 2 == 1),
{
    let mut parity = false;
    let mut t: usize = 0;
    while t < row.len()
        invariant
            t <= row.len(),
            parity == (count_common(row@.take(t as int), col@) % 2 == 1),
        decreases row.len() - t,
    {
        proof {
            assert(row@.take(t as int + 1).drop_last() =~= row@.take(t as int));
            assert(row@.take(t as int + 1).last() == row@[t as int]);
        }
        if contains_val(col, row[t]) {
            parity = !parity;
        }
        t += 1;
    }
    proof {
        assert(row@.take(row@.len() as int) =~= row@);
    }
    parity
}

impl BinarySparseMatrix {
    /// The matrix-vector product over GF(2).
    ///
    /// Entry `i` of the result is the parity of `|{j ∈ row_adj[i] : v[j]}|`.
    pub fn mul_vec(&self, rhs: &BitVector) -> (r: BitVector)
        requires
            self.wf(),
            bit_seq(*rhs).len() == self.n_cols,
        ensures
            bit_seq(r).len() == self.n_rows,
            forall|i: int|
                0 <= i < self.n_rows ==> bit_seq(r)[i] == row_parity(
                    self.rows_view()[i],
                    bit_seq(*rhs),
                ),
    {
        let mut result = BitVector::repeat(false, self.n_rows);
        let mut i: usize = 0;
        while i < self.n_rows
            invariant
                i <= self.n_rows,
                self.wf(),
                bit_seq(*rhs).len() == self.n_cols,
                bit_seq(result).len() == self.n_rows,
                forall|t: int|
                    0 <= t < i ==> bit_seq(result)[t] == row_parity(
                        self.rows_view()[t],
                        bit_seq(*rhs),
                    ),
            decreases self.n_rows - i,
        {
            proof {
                assert(self.rows_view()[i as int] == self.row_adj@[i as int]@);
                assert(in_range(self.rows_view()[i as int], self.n_cols as nat));
            }
            let parity = row_parity_exec(&self.row_adj[i], rhs);
            result.set(i, parity);
            i += 1;
        }
        result
    }

    /// The matrix-vector product over GF(2), on byte vectors of `0`/`1`.
    ///
    /// Entry `i` of the result is `1` exactly when the parity of
    /// `|{j ∈ row_adj[i] : v[j] ≠ 0}|` is odd.
    pub fn mul_bytes(&self, rhs: &Vec<u8>) -> (r: Vec<u8>)
        requires
            self.wf(),
            rhs@.len() == self.n_cols,
        ensures
            r@.len() == self.n_rows,
            forall|i: int|
                0 <= i < self.n_rows ==> r@[i] == (if row_parity(self.rows_view()[i], byte_bits(rhs@)) {
                    1u8
                } else {
                    0u8
                }),
    {
        let mut result: Vec<u8> = Vec::new();
        let mut i: usize = 0;
        while i < self.n_rows
            invariant
                i <= self.n_rows,
                self.wf(),
                rhs@.len() == self.n_cols,
                result@.len() == i,
                forall|t: int|
                    0 <= t < i ==> result@[t] == (if row_parity(self.rows_view()[t], byte_bits(rhs@)) {
                        1u8
                    } else {
                        0u8
                    }),
            decreases self.n_rows - i,
        {
            proof {
                assert(self.rows_view()[i as int] == self.row_adj@[i as int]@);
                assert(in_range(self.rows_view()[i as int], self.n_cols as nat));
            }
            let parity = row_parity_bytes_exec(&self.row_adj[i], rhs);
            result.push(if parity { 1u8 } else { 0u8 });
            i += 1;
        }
        result
    }

    /// The matrix-matrix product over GF(2).
    ///
    /// Entry `(i, k)` of the result is the parity of
    /// `|row_adj[i] ∩ rhs.col_adj[k]|`.
    pub fn mul_mat(&self, rhs: &BinarySparseMatrix) -> (r: Self)
        requires
            self.wf(),
            rhs.wf(),
            self.n_cols == rhs.n_rows,
        ensures
            r.wf(),
            r.n_rows == self.n_rows,
            r.n_cols == rhs.n_cols,
            forall|i: int, k: int|
                0 <= i < self.n_rows && 0 <= k < rhs.n_cols ==> ((#[trigger] r.rows_view()[i].contains(
                    k as usize,
                )) <==> count_common(self.rows_view()[i], rhs.cols_view()[k]) % 2 == 1),
    {
        let mut result_rows: Vec<Vec<usize>> = Vec::new();
        let mut i: usize = 0;
        while i < self.n_rows
            invariant
                i <= self.n_rows,
                self.wf(),
                rhs.wf(),
                result_rows@.len() == i,
                forall|t: int|
                    0 <= t < i ==> strictly_sorted(#[trigger] adj_view(result_rows@)[t]) && in_range(
                        adj_view(result_rows@)[t],
                        rhs.n_cols as nat,
                    ),
                forall|t: int, k: int|
                    0 <= t < i && 0 <= k < rhs.n_cols ==> ((#[trigger] adj_view(
                        result_rows@,
                    )[t].contains(k as usize)) <==> count_common(
                        self.rows_view()[t],
                        rhs.cols_view()[k],
                    ) % 2 == 1),
            decreases self.n_rows - i,
        {
            let mut new_row: Vec<usize> = Vec::new();
            let mut k: usize = 0;
            while k < rhs.n_cols
                invariant
                    i < self.n_rows,
                    k <= rhs.n_cols,
                    self.wf(),
                    rhs.wf(),
                    forall|p: int, q: int|
                        0 <= p < q < new_row@.len() ==> new_row@[p] < new_row@[q],
                    forall|t: int|
                        0 <= t < new_row@.len() ==> (#[trigger] new_row@[t]) < k,
                    forall|c: int|
                        0 <= c < k ==> ((#[trigger] new_row@.contains(c as usize)) <==> count_common(
                            self.rows_view()[i as int],
                            rhs.cols_view()[c],
                        ) % 2 == 1),
                decreases rhs.n_cols - k,
            {
                proof {
                    assert(self.rows_view()[i as int] == self.row_adj@[i as int]@);
                    assert(rhs.cols_view()[k as int] == rhs.col_adj@[k as int]@);
                }
                let ghost prev = new_row@;
                let parity = common_parity_exec(&self.row_adj[i], &rhs.col_adj[k]);
                if parity {
                    new_row.push(k);
                }
                proof {
                    assert forall|c: int|
                        0 <= c < k + 1 implies ((#[trigger] new_row@.contains(c as usize))
                        <==> count_common(self.rows_view()[i as int], rhs.cols_view()[c]) % 2
                        == 1) by {
                        if parity {
                            assert(new_row@ == prev.push(k));
                            assert(new_row@[prev.len() as int] == k);
                            if c < k {
                                if new_row@.contains(c as usize) {
                                    let s = choose|s: int|
                                        0 <= s < new_row@.len() && new_row@[s] == c as usize;
                                    assert(s < prev.len());
                                    assert(prev.contains(c as usize));
                                }
                                if prev.contains(c as usize) {
                                    let s = choose|s: int|
                                        0 <= s < prev.len() && prev[s] == c as usize;
                                    assert(new_row@[s] == c as usize);
                                    assert(new_row@.contains(c as usize));
                                }
                            } else {
                                assert(new_row@.contains(k));
                            }
                        } else {
                            if c == k && new_row@.contains(c as usize) {
                                assert(false);
                            }
                        }
                    }
                }
                k += 1;
            }
            let ghost prev_rows = result_rows@;
            result_rows.push(new_row);
            proof {
                assert forall|t: int|
                    0 <= t < i + 1 implies strictly_sorted(#[trigger] adj_view(result_rows@)[t])
                    && in_range(adj_view(result_rows@)[t], rhs.n_cols as nat) by {
                    if t < i {
                        assert(adj_view(prev_rows)[t] == prev_rows[t]@);
                        assert(result_rows@[t] == prev_rows[t]);
                    } else {
                        assert(result_rows@[t] == new_row);
                    }
                    assert(adj_view(result_rows@)[t] == result_rows@[t]@);
                }
                assert forall|t: int, k2: int|
                    0 <= t < i + 1 && 0 <= k2 < rhs.n_cols implies ((#[trigger] adj_view(
                    result_rows@,
                )[t].contains(k2 as usize)) <==> count_common(
                    self.rows_view()[t],
                    rhs.cols_view()[k2],
                ) % 2 == 1) by {
                    if t < i {
                        assert(adj_view(prev_rows)[t].contains(k2 as usize) <==> count_common(
                            self.rows_view()[t],
                            rhs.cols_view()[k2],
                        ) % 2 == 1);
                        assert(adj_view(prev_rows)[t] == prev_rows[t]@);
                        assert(result_rows@[t] == prev_rows[t]);
                    } else {
                        assert(result_rows@[t] == new_row);
                    }
                    assert(adj_view(result_rows@)[t] == result_rows@[t]@);
                }
            }
            i += 1;
        }
        let ghost rv = adj_view(result_rows@);
        match Self::from_row_adj(self.n_rows, rhs.n_cols, result_rows) {
            Ok(m) => m,
            Err(_) => {
                proof {
                    assert(rv.len() == self.n_rows);
                    assert(adj_in_range(rv, rhs.n_cols as nat));
                    assert(adj_sorted(rv));
                    assert(false);
                }
                vstd::pervasive::unreached()
            },
        }
    }
}

/// The merge of two index lists that keeps the entries present in exactly
/// one of the two: their symmetric difference, in merge order.
pub open spec fn merge_xor(a: Seq<usize>, b: Seq<usize>) -> Seq<usize>
    decreases a.len() + b.len(),
{
    if a.len() == 0 {
        b
    } else if b.len() == 0 {
        a
    } else if a[0] == b[0] {
        merge_xor(a.skip(1), b.skip(1))
    } else if a[0] < b[0] {
        seq![a[0]] + merge_xor(a.skip(1), b)
    } else {
        seq![b[0]] + merge_xor(a, b.skip(1))
    }
}

/// The symmetric difference of two sorted index lists, merged in order:
/// the entries present in exactly one of the two inputs.
fn xor_neighbors(a: &Vec<usize>, b: &Vec<usize>) -> (r: Vec<usize>)
    ensures
        r@ == merge_xor(a@, b@),
{
    let mut result: Vec<usize> = Vec::new();
    let mut i: usize = 0;
    let mut j: usize = 0;
    proof {
        assert(a@.skip(0) =~= a@);
        assert(b@.skip(0) =~= b@);
        assert(result@ + merge_xor(a@, b@) =~= merge_xor(a@, b@));
    }
    while i < a.len() && j < b.len()
        invariant
            i <= a.len(),
            j <= b.len(),
            merge_xor(a@, b@) == result@ + merge_xor(a@.skip(i as int), b@.skip(j as int)),
        decreases a.len() - i + b.len() - j,
    {
        proof {
            let ra = a@.skip(i as int);
            let rb = b@.skip(j as int);
            assert(ra[0] == a@[i as int]);
            assert(rb[0] == b@[j as int]);
            assert(ra.skip(1) =~= a@.skip(i as int + 1));
            assert(rb.skip(1) =~= b@.skip(j as int + 1));
        }
        if a[i] == b[j] {
            i += 1;
            j += 1;
        } else if a[i] < b[j] {
            proof {
                assert(result@ + (seq![a@[i as int]] + merge_xor(
                    a@.skip(i as int + 1),
                    b@.skip(j as int),
                )) =~= result@.push(a@[i as int]) + merge_xor(
                    a@.skip(i as int + 1),
                    b@.skip(j as int),
                ));
            }
            result.push(a[i]);
            i += 1;
        } else {
            proof {
                assert(result@ + (seq![b@[j as int]] + merge_xor(
                    a@.skip(i as int),
                    b@.skip(j as int + 1),
                )) =~= result@.push(b@[j as int]) + merge_xor(
                    a@.skip(i as int),
                    b@.skip(j as int + 1),
                ));
            }
            result.push(b[j]);
            j += 1;
        }
    }
    while i < a.len()
        invariant
            i <= a.len(),
            j == b.len() || i == a.len(),
            j <= b.len(),
            merge_xor(a@, b@) == result@ + merge_xor(a@.skip(i as int), b@.skip(j as int)),
        decreases a.len() - i,
    {
        proof {
            let ra = a@.skip(i as int);
            assert(b@.skip(j as int) =~= Seq::<usize>::empty());
            assert(merge_xor(ra, b@.skip(j as int)) == ra);
            assert(a@.skip(i as int + 1) =~= ra.skip(1));
            assert(ra =~= seq![ra[0]] + ra.skip(1));
            assert(result@ + ra =~= result@.push(a@[i as int]) + a@.skip(i as int + 1));
            assert(merge_xor(a@.skip(i as int + 1), b@.skip(j as int)) == a@.skip(i as int + 1));
        }
        result.push(a[i]);
        i += 1;
    }
    while j < b.len()
        invariant
            i == a.len(),
            j <= b.len(),
            merge_xor(a@, b@) == result@ + merge_xor(a@.skip(i as int), b@.skip(j as int)),
        decreases b.len() - j,
    {
        proof {
            let rb = b@.skip(j as int);
            assert(a@.skip(i as int) =~= Seq::<usize>::empty());
            assert(merge_xor(a@.skip(i as int), rb) == rb);
            assert(b@.skip(j as int + 1) =~= rb.skip(1));
            assert(rb =~= seq![rb[0]] + rb.skip(1));
            assert(result@ + rb =~= result@.push(b@[j as int]) + b@.skip(j as int + 1));
            assert(merge_xor(a@.skip(i as int), b@.skip(j as int + 1)) == b@.skip(j as int + 1));
        }
        result.push(b[j]);
        j += 1;
    }
    proof {
        assert(a@.skip(a@.len() as int) =~= Seq::<usize>::empty());
        assert(b@.skip(b@.len() as int) =~= Seq::<usize>::empty());
        assert(merge_xor(a@.skip(i as int), b@.skip(j as int)) =~= Seq::<usize>::empty());
        assert(result@ + Seq::<usize>::empty() =~= result@);
    }
    result
}

/// The first row at or after `r` whose list holds `col`, or the row count
/// if no such row exists.
pub open spec fn sparse_find_pivot(m: Seq<Seq<usize>>, col: usize, r: int) -> int
    decreases m.len() - r,
{
    if r < 0 || r >= m.len() {
        m.len() as int
    } else if m[r].contains(col) {
        r
    } else {
        sparse_find_pivot(m, col, r + 1)
    }
}

/// The adjacency structure with rows `a` and `b` exchanged.
pub open spec fn sparse_swap(m: Seq<Seq<usize>>, a: int, b: int) -> Seq<Seq<usize>> {
    m.update(a, m[b]).update(b, m[a])
}

/// One clearing pass: row `rank` is merged by symmetric difference into
/// every other row that holds `col`.
pub open spec fn sparse_clear(m: Seq<Seq<usize>>, col: usize, rank: int) -> Seq<Seq<usize>> {
    Seq::new(
        m.len(),
        |r: int|
            if r != rank && m[r].contains(col) {
                merge_xor(m[r], m[rank])
            } else {
                m[r]
            },
    )
}

/// The column-major Gaussian elimination over adjacency lists, starting at
/// column `col` with `rank` rows already reduced.
pub open spec fn sparse_elim_from(m: Seq<Seq<usize>>, cols: int, col: int, rank: int) -> int
    decreases cols - col,
{
    if col < 0 || col >= cols {
        rank
    } else {
        let p = sparse_find_pivot(m, col as usize, rank);
        if p == m.len() {
            sparse_elim_from(m, cols, col + 1, rank)
        } else {
            sparse_elim_from(
                sparse_clear(sparse_swap(m, rank, p), col as usize, rank),
                cols,
                col + 1,
                rank + 1,
            )
        }
    }
}

/// The rank over GF(2) that column-major Gaussian elimination computes on
/// an adjacency structure of `cols` columns.
pub open spec fn sparse_elim_rank(m: Seq<Seq<usize>>, cols: int) -> int {
    sparse_elim_from(m, cols, 0, 0)
}

/// If no row in `[from, pivot)` holds `col` and row `pivot` does, the
/// pivot search returns `pivot`.
proof fn lemma_sparse_pivot_hit(m: Seq<Seq<usize>>, col: usize, from: int, pivot: int)
    requires
        0 <= from <= pivot < m.len(),
        forall|t: int| from <= t < pivot ==> !m[t].contains(col),
        m[pivot].contains(col),
    ensures
        sparse_find_pivot(m, col, from) == pivot,
    decreases pivot - from,
{
    if from < pivot {
        lemma_sparse_pivot_hit(m, col, from + 1, pivot);
    }
}

/// If no row at or after `from` holds `col`, the pivot search fails.
proof fn lemma_sparse_pivot_miss(m: Seq<Seq<usize>>, col: usize, from: int)
    requires
        0 <= from,
        forall|t: int| from <= t < m.len() ==> !m[t].contains(col),
    ensures
        sparse_find_pivot(m, col, from) == m.len(),
    decreases m.len() - from,
{
    if from < m.len() {
        lemma_sparse_pivot_miss(m, col, from + 1);
    }
}

impl BinarySparseMatrix {
    /// The rank over GF(2), computed by Gaussian elimination directly on the
    /// row adjacency lists.
    ///
    /// The sweep is column major: for each column, a pivot row is looked for
    /// in the unprocessed range, swapped into place, and combined by XOR
    /// into every other row that holds the column.  The result is the value
    /// that elimination computes, and never exceeds either dimension.
    pub fn rank(&self) -> (r: usize)
        ensures
            r <= self.row_adj@.len(),
            r <= self.n_cols,
            self.wf() ==> r <= self.n_rows,
            r == sparse_elim_rank(self.rows_view(), self.n_cols as int),
    {
        let mut matrix = clone_adj(&self.row_adj);
        let n_rows = matrix.len();
        proof {
            assert(adj_view(matrix@) == self.rows_view());
        }
        let ghost orig = self.rows_view();
        let mut rank: usize = 0;
        let mut col: usize = 0;
        while col < self.n_cols
            invariant
                col <= self.n_cols,
                rank <= col,
                rank <= n_rows,
                matrix@.len() == n_rows,
                orig == self.rows_view(),
                sparse_elim_rank(orig, self.n_cols as int) == sparse_elim_from(
                    adj_view(matrix@),
                    self.n_cols as int,
                    col as int,
                    rank as int,
                ),
            decreases self.n_cols - col,
        {
            let ghost before = adj_view(matrix@);
            // Look for a pivot: an unprocessed row that holds `col`.
            let mut pivot: usize = rank;
            let mut found = false;
            while pivot < n_rows && !found
                invariant
                    rank <= pivot,
                    pivot <= n_rows,
                    matrix@.len() == n_rows,
                    before == adj_view(matrix@),
                    forall|s: int| rank <= s < pivot ==> !(#[trigger] before[s]).contains(col),
                    found ==> pivot < n_rows && before[pivot as int].contains(col),
                decreases n_rows - pivot + (if found { 0int } else { 1int }),
            {
                proof {
                    assert(before[pivot as int] == matrix@[pivot as int]@);
                }
                if contains_val(&matrix[pivot], col) {
                    found = true;
                } else {
                    pivot += 1;
                }
            }
            if found {
                proof {
                    lemma_sparse_pivot_hit(before, col, rank as int, pivot as int);
                }
                // Swap the pivot row into position `rank`.
                if pivot != rank {
                    let mut tmp: Vec<usize> = Vec::new();
                    matrix.set_and_swap(rank, &mut tmp);
                    matrix.set_and_swap(pivot, &mut tmp);
                    matrix.set_and_swap(rank, &mut tmp);
                }
                proof {
                    assert(adj_view(matrix@) =~= sparse_swap(before, rank as int, pivot as int));
                }
                let ghost swapped = adj_view(matrix@);
                // Clear `col` from every other row that holds it.
                let rank_row = clone_row(&matrix[rank]);
                proof {
                    assert(rank_row@ == swapped[rank as int]);
                }
                let mut row: usize = 0;
                while row < n_rows
                    invariant
                        row <= n_rows,
                        rank < n_rows,
                        matrix@.len() == n_rows,
                        swapped.len() == n_rows,
                        rank_row@ == swapped[rank as int],
                        forall|s: int|
                            0 <= s < row ==> adj_view(matrix@)[s] == sparse_clear(
                                swapped,
                                col,
                                rank as int,
                            )[s],
                        forall|s: int| row <= s < n_rows ==> adj_view(matrix@)[s] == swapped[s],
                    decreases n_rows - row,
                {
                    proof {
                        assert(adj_view(matrix@)[row as int] == matrix@[row as int]@);
                    }
                    if row != rank && contains_val(&matrix[row], col) {
                        let ghost b1 = matrix@;
                        let combined = xor_neighbors(&matrix[row], &rank_row);
                        matrix.set(row, combined);
                        proof {
                            assert forall|s: int| 0 <= s < row + 1 implies adj_view(matrix@)[s]
                                == sparse_clear(swapped, col, rank as int)[s] by {
                                if s < row {
                                    assert(matrix@[s] == b1[s]);
                                    assert(adj_view(b1)[s] == sparse_clear(
                                        swapped,
                                        col,
                                        rank as int,
                                    )[s]);
                                } else {
                                    assert(matrix@[s]@ == merge_xor(
                                        swapped[s],
                                        swapped[rank as int],
                                    ));
                                }
                            }
                            assert forall|s: int| row + 1 <= s < n_rows implies adj_view(
                                matrix@,
                            )[s] == swapped[s] by {
                                assert(matrix@[s] == b1[s]);
                                assert(adj_view(b1)[s] == swapped[s]);
                            }
                        }
                    } else {
                        proof {
                            if row == rank {
                                assert(sparse_clear(swapped, col, rank as int)[row as int]
                                    == swapped[row as int]);
                            } else {
                                assert(!swapped[row as int].contains(col));
                                assert(sparse_clear(swapped, col, rank as int)[row as int]
                                    == swapped[row as int]);
                            }
                        }
                    }
                    row += 1;
                }
                proof {
                    assert(adj_view(matrix@) =~= sparse_clear(swapped, col, rank as int));
                    assert(sparse_elim_from(before, self.n_cols as int, col as int, rank as int)
                        == sparse_elim_from(
                        adj_view(matrix@),
                        self.n_cols as int,
                        col as int + 1,
                        rank as int + 1,
                    ));
                }
                rank += 1;
            } else {
                proof {
                    lemma_sparse_pivot_miss(before, col, rank as int);
                    assert(sparse_elim_from(before, self.n_cols as int, col as int, rank as int)
                        == sparse_elim_from(before, self.n_cols as int, col as int + 1, rank as int));
                }
            }
            col += 1;
        }
        proof {
            assert(sparse_elim_from(
                adj_view(matrix@),
                self.n_cols as int,
                self.n_cols as int,
                rank as int,
            ) == rank);
        }
        rank
    }

    /// Whether the rows are linearly independent over GF(2): whether the
    /// elimination finds a pivot for every row.
    pub fn is_linearly_independent(&self) -> (r: bool)
        ensures
            r == (sparse_elim_rank(self.rows_view(), self.n_cols as int) == self.n_rows),
    {
        self.rank() == self.n_rows
    }
}

/// `t` holds the transpose of `m`: the shapes are exchanged and the row
/// lists of one are the column lists of the other.
pub open spec fn transpose_of(t: BinarySparseMatrix, m: BinarySparseMatrix) -> bool {
    &&& t.n_rows == m.n_cols
    &&& t.n_cols == m.n_rows
    &&& t.rows_view() == m.cols_view()
    &&& t.cols_view() == m.rows_view()
}

/// Transpose involution: transposing twice gives back the original matrix,
/// shape and adjacency alike.
pub proof fn lemma_transpose_involution(
    m: BinarySparseMatrix,
    t: BinarySparseMatrix,
    u: BinarySparseMatrix,
)
    requires
        transpose_of(t, m),
        transpose_of(u, t),
    ensures
        u.n_rows == m.n_rows,
        u.n_cols == m.n_cols,
        u.rows_view() == m.rows_view(),
        u.cols_view() == m.cols_view(),
{
}

} // verus!
