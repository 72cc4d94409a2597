//! Dense GF(2) linear algebra on bit vectors.
//!
//! A bit matrix is a vector of equal-length [`BitVector`] rows.  The
//! functions here compute inner products, the rank by Gaussian elimination,
//! and linear independence; the stabilizer-group validation builds on them.

use vstd::prelude::*;
use vstd::pervasive::VecAdditionalExecFns;
use crate::bits::{and_bits, bit_seq, count_true, BitVector};
use crate::errors::QldpcError;
use crate::math::gf2::inner_parity;

verus! {

/// A dense binary matrix: a nonempty list of equal-length bit-vector rows.
#[derive(Debug, Clone, PartialEq, Eq)]
pub struct BinaryDenseMatrix {
    pub data: Vec<BitVector>,
}

/// Column `k` of a dense matrix, read off the rows.
pub open spec fn dense_col(m: BinaryDenseMatrix, k: int) -> Seq<bool> {
    Seq::new(m.data@.len(), |r: int| bit_seq(m.data@[r])[k])
}

impl BinaryDenseMatrix {
    /// At least one row, and all rows of one width.
    pub open spec fn wf(self) -> bool {
        &&& self.data@.len() > 0
        &&& uniform_width(self.data@, self.spec_cols())
    }

    pub open spec fn spec_rows(self) -> nat {
        self.data@.len()
    }

    pub open spec fn spec_cols(self) -> nat {
        if self.data@.len() > 0 {
            bit_seq(self.data@[0]).len()
        } else {
            0
        }
    }

    /// Entry `(r, k)` of the matrix.
    pub open spec fn bit(self, r: int, k: int) -> bool {
        bit_seq(self.data@[r])[k]
    }

    /// Builds a matrix from its rows, validating that there is at least
    /// one and that all have one width.
    pub fn new(data: Vec<BitVector>) -> (r: Result<Self, QldpcError>)
        ensures
            match r {
                Ok(m) => {
                    &&& m.data@ == data@
                    &&& m.wf()
                },
                Err(e) => {
                    &&& e == QldpcError::ShapeMismatch
                    &&& !(data@.len() > 0 && (data@.len() > 0 ==> uniform_width(
                        data@,
                        bit_seq(data@[0]).len(),
                    )))
                },
            },
    {
        if data.len() == 0 {
            return Err(QldpcError::ShapeMismatch);
        }
        let n_cols = data[0].len();
        let mut t: usize = 1;
        while t < data.len()
            invariant
                1 <= t <= data@.len(),
                data@.len() > 0,
                n_cols == bit_seq(data@[0]).len(),
                forall|s: int| 0 <= s < t ==> bit_seq(#[trigger] data@[s]).len() == n_cols,
            decreases data.len() - t,
        {
            if data[t].len() != n_cols {
                return Err(QldpcError::ShapeMismatch);
            }
            t += 1;
        }
        Ok(BinaryDenseMatrix { data })
    }

    /// The all-zero matrix of the given shape.
    pub fn zeros(rows: usize, cols: usize) -> (r: Self)
        requires
            rows >= 1,
        ensures
            r.wf(),
            r.spec_rows() == rows,
            r.spec_cols() == cols,
            forall|a: int, k: int| 0 <= a < rows && 0 <= k < cols ==> !r.bit(a, k),
    {
        let mut data: Vec<BitVector> = Vec::new();
        let mut t: usize = 0;
        while t < rows
            invariant
                t <= rows,
                data@.len() == t,
                forall|s: int|
                    0 <= s < t ==> bit_seq(#[trigger] data@[s]) == Seq::new(
                        cols as nat,
                        |i: int| false,
                    ),
            decreases rows - t,
        {
            data.push(BitVector::repeat(false, cols));
            t += 1;
        }
        BinaryDenseMatrix { data }
    }

    /// The identity matrix of the given size.
    pub fn identity(size: usize) -> (r: Self)
        requires
            size >= 1,
        ensures
            r.wf(),
            r.spec_rows() == size,
            r.spec_cols() == size,
            forall|a: int, k: int| 0 <= a < size && 0 <= k < size ==> r.bit(a, k) == (a == k),
    {
        let mut data: Vec<BitVector> = Vec::new();
        let mut t: usize = 0;
        while t < size
            invariant
                t <= size,
                data@.len() == t,
                forall|s: int| 0 <= s < t ==> bit_seq(#[trigger] data@[s]).len() == size,
                forall|s: int, k: int|
                    0 <= s < t && 0 <= k < size ==> (#[trigger] bit_seq(data@[s])[k]) == (s == k),
            decreases size - t,
        {
            let mut row = BitVector::repeat(false, size);
            row.set(t, true);
            data.push(row);
            t += 1;
        }
        BinaryDenseMatrix { data }
    }

    /// The number of rows.
    pub fn rows(&self) -> (r: usize)
        ensures
            r == self.spec_rows(),
    {
        self.data.len()
    }

    /// The number of columns.
    pub fn cols(&self) -> (r: usize)
        ensures
            r == self.spec_cols(),
    {
        if self.data.len() == 0 {
            0
        } else {
            self.data[0].len()
        }
    }

    /// The shape as `(rows, cols)`.
    pub fn shape(&self) -> (r: (usize, usize))
        ensures
            r.0 == self.spec_rows(),
            r.1 == self.spec_cols(),
    {
        (self.rows(), self.cols())
    }

    /// The rows of the matrix.
    pub fn get_data(&self) -> (r: &Vec<BitVector>)
        ensures
            *r == self.data,
    {
        &self.data
    }

    /// The rank over GF(2): the value column-major Gaussian elimination
    /// computes, never exceeding either dimension.
    pub fn rank(&self) -> (r: usize)
        requires
            self.wf(),
        ensures
            r <= self.spec_rows(),
            r <= self.spec_cols(),
            r == elim_rank(rows_bits(self.data@), self.spec_cols() as int),
    {
        rank(&self.data)
    }

    /// The matrix with rows and columns exchanged.
    pub fn transpose(&self) -> (r: Self)
        requires
            self.wf(),
            self.spec_cols() > 0,
        ensures
            r.wf(),
            r.spec_rows() == self.spec_cols(),
            r.spec_cols() == self.spec_rows(),
            forall|a: int, k: int|
                0 <= a < self.spec_cols() && 0 <= k < self.spec_rows() ==> r.bit(a, k)
                    == self.bit(k, a),
    {
        let n_rows = self.rows();
        let n_cols = self.cols();
        let mut data: Vec<BitVector> = Vec::new();
        let mut c: usize = 0;
        while c < n_cols
            invariant
                c <= n_cols,
                self.wf(),
                n_rows == self.spec_rows(),
                n_cols == self.spec_cols(),
                data@.len() == c,
                forall|s: int| 0 <= s < c ==> bit_seq(#[trigger] data@[s]).len() == n_rows,
                forall|s: int, k: int|
                    0 <= s < c && 0 <= k < n_rows ==> (#[trigger] bit_seq(data@[s])[k]) == self.bit(
                        k,
                        s,
                    ),
            decreases n_cols - c,
        {
            let mut col_vec = BitVector::repeat(false, n_rows);
            let mut r2: usize = 0;
            while r2 < n_rows
                invariant
                    r2 <= n_rows,
                    c < n_cols,
                    self.wf(),
                    n_rows == self.spec_rows(),
                    n_cols == self.spec_cols(),
                    bit_seq(col_vec).len() == n_rows,
                    forall|k: int| 0 <= k < r2 ==> bit_seq(col_vec)[k] == self.bit(k, c as int),
                    forall|k: int| r2 <= k < n_rows ==> !bit_seq(col_vec)[k],
                decreases n_rows - r2,
            {
                if self.data[r2].get(c) {
                    col_vec.set(r2, true);
                }
                r2 += 1;
            }
            data.push(col_vec);
            c += 1;
        }
        BinaryDenseMatrix { data }
    }

    /// The matrix-vector product over GF(2): entry `i` is the inner
    /// product of row `i` with the vector.
    pub fn mul_vec(&self, rhs: &BitVector) -> (r: BitVector)
        requires
            self.wf(),
            bit_seq(*rhs).len() == self.spec_cols(),
        ensures
            bit_seq(r).len() == self.spec_rows(),
            forall|a: int|
                0 <= a < self.spec_rows() ==> bit_seq(r)[a] == inner_parity(
                    bit_seq(self.data@[a]),
                    bit_seq(*rhs),
                ),
    {
        let n_rows = self.rows();
        let mut result = BitVector::repeat(false, n_rows);
        let mut a: usize = 0;
        while a < n_rows
            invariant
                a <= n_rows,
                self.wf(),
                n_rows == self.spec_rows(),
                bit_seq(*rhs).len() == self.spec_cols(),
                bit_seq(result).len() == n_rows,
                forall|s: int|
                    0 <= s < a ==> bit_seq(result)[s] == inner_parity(
                        bit_seq(self.data@[s]),
                        bit_seq(*rhs),
                    ),
            decreases n_rows - a,
        {
            let p = inner_product(&self.data[a], rhs);
            result.set(a, p);
            a += 1;
        }
        result
    }

    /// The matrix-matrix product over GF(2): entry `(i, k)` is the inner
    /// product of row `i` with column `k` of the right factor.
    pub fn mul_mat(&self, rhs: &BinaryDenseMatrix) -> (r: Self)
        requires
            self.wf(),
            rhs.wf(),
            self.spec_cols() == rhs.spec_rows(),
            rhs.spec_cols() > 0,
        ensures
            r.wf(),
            r.spec_rows() == self.spec_rows(),
            r.spec_cols() == rhs.spec_cols(),
            forall|a: int, k: int|
                0 <= a < self.spec_rows() && 0 <= k < rhs.spec_cols() ==> r.bit(a, k)
                    == inner_parity(bit_seq(self.data@[a]), dense_col(*rhs, k)),
    {
        let rhs_t = rhs.transpose();
        let n_rows = self.rows();
        let n_cols = rhs.cols();
        let mut data: Vec<BitVector> = Vec::new();
        let mut a: usize = 0;
        while a < n_rows
            invariant
                a <= n_rows,
                self.wf(),
                rhs.wf(),
                self.spec_cols() == rhs.spec_rows(),
                rhs_t.wf(),
                rhs_t.spec_rows() == rhs.spec_cols(),
                rhs_t.spec_cols() == rhs.spec_rows(),
                forall|s: int, k: int|
                    0 <= s < rhs.spec_cols() && 0 <= k < rhs.spec_rows() ==> rhs_t.bit(s, k)
                        == rhs.bit(k, s),
                n_rows == self.spec_rows(),
                n_cols == rhs.spec_cols(),
                data@.len() == a,
                forall|s: int| 0 <= s < a ==> bit_seq(#[trigger] data@[s]).len() == n_cols,
                forall|s: int, k: int|
                    0 <= s < a && 0 <= k < n_cols ==> (#[trigger] bit_seq(data@[s])[k])
                        == inner_parity(bit_seq(self.data@[s]), dense_col(*rhs, k)),
            decreases n_rows - a,
        {
            let mut result_row = BitVector::repeat(false, n_cols);
            let mut k: usize = 0;
            while k < n_cols
                invariant
                    k <= n_cols,
                    a < n_rows,
                    self.wf(),
                    rhs.wf(),
                    self.spec_cols() == rhs.spec_rows(),
                    rhs_t.wf(),
                    rhs_t.spec_rows() == rhs.spec_cols(),
                    rhs_t.spec_cols() == rhs.spec_rows(),
                    forall|s: int, k2: int|
                        0 <= s < rhs.spec_cols() && 0 <= k2 < rhs.spec_rows() ==> rhs_t.bit(s, k2)
                            == rhs.bit(k2, s),
                    n_rows == self.spec_rows(),
                    n_cols == rhs.spec_cols(),
                    bit_seq(result_row).len() == n_cols,
                    forall|k2: int|
                        0 <= k2 < k ==> bit_seq(result_row)[k2] == inner_parity(
                            bit_seq(self.data@[a as int]),
                            dense_col(*rhs, k2),
                        ),
                decreases n_cols - k,
            {
                proof {
                    assert(bit_seq(rhs_t.data@[k as int]).len() == rhs_t.spec_cols());
                    assert forall|r3: int| 0 <= r3 < rhs.spec_rows() implies bit_seq(
                        rhs_t.data@[k as int],
                    )[r3] == dense_col(*rhs, k as int)[r3] by {
                        assert(rhs_t.bit(k as int, r3) == rhs.bit(r3, k as int));
                    }
                    assert(bit_seq(rhs_t.data@[k as int]) =~= dense_col(*rhs, k as int));
                }
                let p = inner_product(&self.data[a], &rhs_t.data[k]);
                result_row.set(k, p);
                k += 1;
            }
            data.push(result_row);
            a += 1;
        }
        BinaryDenseMatrix { data }
    }
}

/// The GF(2) inner product of two equal-length bit vectors: the parity of
/// the positions where both are set.
pub fn inner_product(a: &BitVector, b: &BitVector) -> (r: bool)
    requires
        bit_seq(*a).len() == bit_seq(*b).len(),
    ensures
        r == inner_parity(bit_seq(*a), bit_seq(*b)),
{
    let n = a.len();
    let mut parity = false;
    let mut i: usize = 0;
    while i < n
        invariant
            i <= n,
            n == bit_seq(*a).len(),
            bit_seq(*a).len() == bit_seq(*b).len(),
            parity == (count_true(and_bits(bit_seq(*a), bit_seq(*b)).take(i as int)) % 2 == 1),
        decreases n - i,
    {
        proof {
            let s = and_bits(bit_seq(*a), bit_seq(*b));
            assert(s.take(i as int + 1).drop_last() =~= s.take(i as int));
            assert(s.take(i as int + 1).last() == s[i as int]);
        }
        if a.get(i) && b.get(i) {
            parity = !parity;
        }
        i += 1;
    }
    proof {
        let s = and_bits(bit_seq(*a), bit_seq(*b));
        assert(s.take(s.len() as int) =~= s);
    }
    parity
}

/// Every row of `rows` holds `width` bits.
pub open spec fn uniform_width(rows: Seq<BitVector>, width: nat) -> bool {
    forall|t: int| 0 <= t < rows.len() ==> bit_seq(#[trigger] rows[t]).len() == width
}

/// The rows of a bit matrix as plain bit sequences.
pub open spec fn rows_bits(rows: Seq<BitVector>) -> Seq<Seq<bool>> {
    rows.map_values(|b: BitVector| bit_seq(b))
}

/// The first row at or after `r` whose bit in column `col` is set, or the
/// row count if no such row exists.
pub open spec fn find_pivot(m: Seq<Seq<bool>>, col: int, r: int) -> int
    decreases m.len() - r,
{
    if r < 0 || r >= m.len() {
        m.len() as int
    } else if m[r][col] {
        r
    } else {
        find_pivot(m, col, r + 1)
    }
}

/// The matrix with rows `a` and `b` exchanged.
pub open spec fn swap_rows(m: Seq<Seq<bool>>, a: int, b: int) -> Seq<Seq<bool>> {
    m.update(a, m[b]).update(b, m[a])
}

/// One clearing pass: row `rank` is combined by XOR into every other row
/// whose bit in column `col` is set.
pub open spec fn clear_column(m: Seq<Seq<bool>>, col: int, rank: int) -> Seq<Seq<bool>> {
    Seq::new(
        m.len(),
        |r: int|
            if r != rank && m[r][col] {
                crate::bits::xor_bits(m[r], m[rank])
            } else {
                m[r]
            },
    )
}

/// The column-major Gaussian elimination over GF(2), starting at column
/// `col` with `rank` rows already reduced: for each remaining column a
/// pivot is looked for below the reduced block; if found it is swapped
/// into place, the column is cleared, and the rank grows by one.
pub open spec fn elim_rank_from(m: Seq<Seq<bool>>, cols: int, col: int, rank: int) -> int
    decreases cols - col,
{
    if col < 0 || col >= cols {
        rank
    } else {
        let p = find_pivot(m, col, rank);
        if p == m.len() {
            elim_rank_from(m, cols, col + 1, rank)
        } else {
            elim_rank_from(clear_column(swap_rows(m, rank, p), col, rank), cols, col + 1, rank + 1)
        }
    }
}

/// The rank over GF(2) that column-major Gaussian elimination computes on
/// a matrix of `cols` columns.
pub open spec fn elim_rank(m: Seq<Seq<bool>>, cols: int) -> int {
    elim_rank_from(m, cols, 0, 0)
}

/// If no row in `[from, pivot)` holds `col` and row `pivot` does, the
/// pivot search returns `pivot`.
proof fn lemma_find_pivot_hit(m: Seq<Seq<bool>>, col: int, from: int, pivot: int)
    requires
        0 <= from <= pivot < m.len(),
        forall|t: int| from <= t < pivot ==> !m[t][col],
        m[pivot][col],
    ensures
        find_pivot(m, col, from) == pivot,
    decreases pivot - from,
{
    if from < pivot {
        lemma_find_pivot_hit(m, col, from + 1, pivot);
    }
}

/// If no row at or after `from` holds `col`, the pivot search fails.
proof fn lemma_find_pivot_miss(m: Seq<Seq<bool>>, col: int, from: int)
    requires
        0 <= from,
        forall|t: int| from <= t < m.len() ==> !m[t][col],
    ensures
        find_pivot(m, col, from) == m.len(),
    decreases m.len() - from,
{
    if from < m.len() {
        lemma_find_pivot_miss(m, col, from + 1);
    }
}

/// The rank over GF(2) of a list of equal-length bit-vector rows: the
/// value computed by column-major Gaussian elimination, never exceeding
/// the row count or the row width.
pub fn rank(bit_matrix: &Vec<BitVector>) -> (r: usize)
    requires
        bit_matrix@.len() > 0 ==> uniform_width(bit_matrix@, bit_seq(bit_matrix@[0]).len()),
    ensures
        r <= bit_matrix@.len(),
        bit_matrix@.len() > 0 ==> r <= bit_seq(bit_matrix@[0]).len(),
        bit_matrix@.len() == 0 ==> r == 0,
        bit_matrix@.len() > 0 ==> r == elim_rank(
            rows_bits(bit_matrix@),
            bit_seq(bit_matrix@[0]).len() as int,
        ),
{
    let n = bit_matrix.len();
    if n == 0 {
        return 0;
    }
    let m = bit_matrix[0].len();
    let mut mat: Vec<BitVector> = Vec::new();
    let mut t: usize = 0;
    while t < n
        invariant
            t <= n,
            n == bit_matrix@.len(),
            uniform_width(bit_matrix@, m as nat),
            mat@.len() == t,
            uniform_width(mat@, m as nat),
            forall|s: int| 0 <= s < t ==> bit_seq(#[trigger] mat@[s]) == bit_seq(bit_matrix@[s]),
        decreases n - t,
    {
        let ghost prev = mat@;
        mat.push(bit_matrix[t].clone());
        proof {
            assert forall|s: int| 0 <= s < t + 1 implies bit_seq(#[trigger] mat@[s]).len()
                == m as nat && bit_seq(mat@[s]) == bit_seq(bit_matrix@[s]) by {
                if s < t {
                    assert(mat@[s] == prev[s]);
                    assert(bit_seq(prev[s]).len() == m as nat);
                    assert(bit_seq(prev[s]) == bit_seq(bit_matrix@[s]));
                }
            }
        }
        t += 1;
    }
    let ghost orig = rows_bits(bit_matrix@);
    proof {
        assert(rows_bits(mat@) =~= orig);
    }
    let mut rank: usize = 0;
    let mut col: usize = 0;
    while col < m
        invariant
            col <= m,
            rank <= col,
            rank <= n,
            mat@.len() == n,
            n == bit_matrix@.len(),
            uniform_width(mat@, m as nat),
            orig == rows_bits(bit_matrix@),
            elim_rank(orig, m as int) == elim_rank_from(
                rows_bits(mat@),
                m as int,
                col as int,
                rank as int,
            ),
        decreases m - col,
    {
        let ghost before = rows_bits(mat@);
        let mut pivot: usize = rank;
        let mut found = false;
        while pivot < n && !found
            invariant
                rank <= pivot,
                pivot <= n,
                col < m,
                mat@.len() == n,
                uniform_width(mat@, m as nat),
                before == rows_bits(mat@),
                forall|s: int| rank <= s < pivot ==> !before[s][col as int],
                found ==> pivot < n && before[pivot as int][col as int],
            decreases n - pivot + (if found { 0int } else { 1int }),
        {
            if mat[pivot].get(col) {
                proof {
                    assert(before[pivot as int] == bit_seq(mat@[pivot as int]));
                }
                found = true;
            } else {
                proof {
                    assert(before[pivot as int] == bit_seq(mat@[pivot as int]));
                }
                pivot += 1;
            }
        }
        if found {
            proof {
                lemma_find_pivot_hit(before, col as int, rank as int, pivot as int);
            }
            if pivot != rank {
                let ghost b0 = mat@;
                let mut tmp = BitVector::repeat(false, 0);
                mat.set_and_swap(rank, &mut tmp);
                mat.set_and_swap(pivot, &mut tmp);
                mat.set_and_swap(rank, &mut tmp);
                proof {
                    assert forall|s: int| 0 <= s < n implies bit_seq(#[trigger] mat@[s]).len()
                        == m as nat by {
                        assert(bit_seq(b0[s]).len() == m as nat);
                        assert(bit_seq(b0[rank as int]).len() == m as nat);
                        assert(bit_seq(b0[pivot as int]).len() == m as nat);
                    }
                    assert(rows_bits(mat@) =~= swap_rows(before, rank as int, pivot as int));
                }
            } else {
                proof {
                    assert(rows_bits(mat@) =~= swap_rows(before, rank as int, pivot as int));
                }
            }
            let ghost swapped = rows_bits(mat@);
            let rank_vec = mat[rank].clone();
            proof {
                assert(bit_seq(rank_vec) == swapped[rank as int]);
            }
            let mut row: usize = 0;
            while row < n
                invariant
                    row <= n,
                    rank < n,
                    col < m,
                    mat@.len() == n,
                    uniform_width(mat@, m as nat),
                    bit_seq(rank_vec).len() == m as nat,
                    swapped.len() == n,
                    bit_seq(rank_vec) == swapped[rank as int],
                    forall|s: int|
                        0 <= s < row ==> rows_bits(mat@)[s] == clear_column(
                            swapped,
                            col as int,
                            rank as int,
                        )[s],
                    forall|s: int| row <= s < n ==> rows_bits(mat@)[s] == swapped[s],
                decreases n - row,
            {
                proof {
                    assert(rows_bits(mat@)[row as int] == bit_seq(mat@[row as int]));
                }
                if row != rank && mat[row].get(col) {
                    let ghost b1 = mat@;
                    let mut line = BitVector::repeat(false, 0);
                    mat.set_and_swap(row, &mut line);
                    line.xor_assign(&rank_vec);
                    mat.set_and_swap(row, &mut line);
                    proof {
                        assert forall|s: int| 0 <= s < n implies bit_seq(#[trigger] mat@[s]).len()
                            == m as nat by {
                            assert(bit_seq(b1[s]).len() == m as nat);
                            assert(bit_seq(b1[row as int]).len() == m as nat);
                        }
                        assert forall|s: int| 0 <= s < row + 1 implies rows_bits(mat@)[s]
                            == clear_column(swapped, col as int, rank as int)[s] by {
                            if s < row {
                                assert(mat@[s] == b1[s]);
                                assert(rows_bits(b1)[s] == clear_column(
                                    swapped,
                                    col as int,
                                    rank as int,
                                )[s]);
                            } else {
                                assert(bit_seq(mat@[s]) == crate::bits::xor_bits(
                                    swapped[s],
                                    swapped[rank as int],
                                ));
                            }
                        }
                        assert forall|s: int| row + 1 <= s < n implies rows_bits(mat@)[s]
                            == swapped[s] by {
                            assert(mat@[s] == b1[s]);
                            assert(rows_bits(b1)[s] == swapped[s]);
                        }
                    }
                } else {
                    proof {
                        assert(rows_bits(mat@)[row as int] == swapped[row as int]);
                        if row == rank {
                            assert(clear_column(swapped, col as int, rank as int)[row as int]
                                == swapped[row as int]);
                        } else {
                            assert(!swapped[row as int][col as int]);
                            assert(clear_column(swapped, col as int, rank as int)[row as int]
                                == swapped[row as int]);
                        }
                    }
                }
                row += 1;
            }
            proof {
                assert(rows_bits(mat@) =~= clear_column(swapped, col as int, rank as int));
                assert(elim_rank_from(before, m as int, col as int, rank as int)
                    == elim_rank_from(rows_bits(mat@), m as int, col as int + 1, rank as int + 1));
            }
            rank += 1;
        } else {
            proof {
                lemma_find_pivot_miss(before, col as int, rank as int);
                assert(elim_rank_from(before, m as int, col as int, rank as int)
                    == elim_rank_from(before, m as int, col as int + 1, rank as int));
            }
        }
        col += 1;
    }
    proof {
        assert(elim_rank_from(rows_bits(mat@), m as int, m as int, rank as int) == rank);
    }
    rank
}

/// Whether the given bit vectors are linearly independent over GF(2):
/// whether the elimination finds a pivot for every row.
pub fn is_linearly_independent(vectors: &Vec<BitVector>) -> (r: bool)
    requires
        vectors@.len() > 0 ==> uniform_width(vectors@, bit_seq(vectors@[0]).len()),
    ensures
        vectors@.len() == 0 ==> r,
        vectors@.len() > 0 ==> r == (elim_rank(
            rows_bits(vectors@),
            bit_seq(vectors@[0]).len() as int,
        ) == vectors@.len()),
{
    rank(vectors) == vectors.len()
}

} // verus!
