//! CSS codes.
//!
//! A CSS code is a pair of parity-check matrices `(H_X, H_Z)` on a common
//! column count `n`, with `H_X · H_Z^T = 0` over GF(2) and at least one
//! logical qubit.  The syndrome of an error pattern is the pair
//! `(H_Z · x, H_X · z)`.

use vstd::prelude::*;
use crate::bits::{bit_seq, xor_bits};
use crate::code::error_vector::{ErrorVector, Syndrome};
use crate::code::traits::QuantumCode;
use crate::errors::QldpcError;
use crate::math::gf2::{count_common, row_parity};
use crate::math::sparse_matrix::{sparse_elim_rank, BinarySparseMatrix};

verus! {

/// A CSS quantum code given by its two parity-check matrices.
#[derive(Debug, Clone)]
pub struct CssCode {
    pub code_name: String,
    pub hz: BinarySparseMatrix,
    pub hx: BinarySparseMatrix,
}

/// Orthogonality over GF(2): every row of `hx` meets every row of `hz` in
/// an even number of columns, so `H_X · H_Z^T = 0`.
pub open spec fn orthogonal(hx: BinarySparseMatrix, hz: BinarySparseMatrix) -> bool {
    forall|i: int, k: int|
        0 <= i < hx.spec_rows() && 0 <= k < hz.spec_rows() ==> #[trigger] count_common(
            hx.rows_view()[i],
            hz.rows_view()[k],
        ) % 2 == 0
}

impl CssCode {
    /// Both matrices are well formed and share the column count.
    pub open spec fn wf(self) -> bool {
        &&& self.hz.wf()
        &&& self.hx.wf()
        &&& self.hx.n_cols == self.hz.n_cols
    }

    /// Packs a code from its parts without validation.
    pub fn new(code_name: String, hz: BinarySparseMatrix, hx: BinarySparseMatrix) -> (r: Self)
        ensures
            r.code_name == code_name,
            r.hz == hz,
            r.hx == hx,
    {
        CssCode { code_name, hz, hx }
    }

    /// Builds a code from its parity-check matrices, validating the shared
    /// column count, the orthogonality `H_X · H_Z^T = 0`, and the presence
    /// of at least one logical qubit (`k = n − rank(H_Z) − rank(H_X) > 0`).
    pub fn from_parity_check_matrices(
        code_name: &str,
        hz: BinarySparseMatrix,
        hx: BinarySparseMatrix,
    ) -> (r: Result<Self, QldpcError>)
        requires
            hz.wf(),
            hx.wf(),
        ensures
            ({
                let shape = hx.n_cols == hz.n_cols;
                let logical = sparse_elim_rank(hz.rows_view(), hz.n_cols as int)
                    + sparse_elim_rank(hx.rows_view(), hx.n_cols as int) < hz.n_cols;
                match r {
                    Ok(c) => {
                        &&& shape && orthogonal(hx, hz) && logical
                        &&& c.code_name@ == code_name@
                        &&& c.hz == hz
                        &&& c.hx == hx
                        &&& c.wf()
                    },
                    Err(e) => {
                        &&& (e == QldpcError::ShapeMismatch <==> !shape)
                        &&& (e == QldpcError::NonOrthogonal <==> shape && !orthogonal(hx, hz))
                        &&& (e == QldpcError::NoLogicalQubits <==> shape && orthogonal(hx, hz)
                            && !logical)
                        &&& (e == QldpcError::ShapeMismatch || e == QldpcError::NonOrthogonal || e
                            == QldpcError::NoLogicalQubits)
                    },
                }
            }),
    {
        if hx.cols() != hz.cols() {
            return Err(QldpcError::ShapeMismatch);
        }
        let hzt = hz.transpose();
        let product = hx.mul_mat(&hzt);
        proof {
            assert(hzt.cols_view() == hz.rows_view());
        }
        let m = hx.rows();
        let mut i: usize = 0;
        while i < m
            invariant
                i <= m,
                m == hx.n_rows,
                hx.wf(),
                hz.wf(),
                hx.n_cols == hz.n_cols,
                product.wf(),
                product.n_rows == hx.n_rows,
                product.n_cols == hz.n_rows,
                forall|a: int, k: int|
                    0 <= a < hx.spec_rows() && 0 <= k < hz.spec_rows() ==> ((
                    #[trigger] product.rows_view()[a].contains(k as usize)) <==> count_common(
                        hx.rows_view()[a],
                        hz.rows_view()[k],
                    ) % 2 == 1),
                forall|a: int, k: int|
                    0 <= a < i && 0 <= k < hz.spec_rows() ==> #[trigger] count_common(
                        hx.rows_view()[a],
                        hz.rows_view()[k],
                    ) % 2 == 0,
            decreases m - i,
        {
            if product.row_adj[i].len() > 0 {
                let k = product.row_adj[i][0];
                proof {
                    let rowv = product.rows_view()[i as int];
                    assert(rowv == product.row_adj@[i as int]@);
                    assert(rowv.contains(rowv[0]));
                    assert(crate::math::gf2::in_range(rowv, product.n_cols as nat));
                    assert(k < product.n_cols);
                    let ki = k as int;
                    assert(product.rows_view()[i as int].contains(ki as usize));
                    assert(count_common(hx.rows_view()[i as int], hz.rows_view()[ki]) % 2 == 1);
                    assert(!orthogonal(hx, hz));
                }
                return Err(QldpcError::NonOrthogonal);
            }
            proof {
                assert forall|k: int| 0 <= k < hz.spec_rows() implies #[trigger] count_common(
                    hx.rows_view()[i as int],
                    hz.rows_view()[k],
                ) % 2 == 0 by {
                    assert(product.rows_view()[i as int] == product.row_adj@[i as int]@);
                    assert(!product.rows_view()[i as int].contains(k as usize));
                }
            }
            i += 1;
        }
        let n = hz.cols();
        let rank_hz = hz.rank();
        let rank_hx = hx.rank();
        if rank_hz >= n || rank_hx >= n - rank_hz {
            return Err(QldpcError::NoLogicalQubits);
        }
        Ok(CssCode { code_name: code_name.to_owned(), hz, hx })
    }

    /// The X parity checks.
    pub fn hx(&self) -> (r: &BinarySparseMatrix)
        ensures
            *r == self.hx,
    {
        &self.hx
    }

    /// The Z parity checks.
    pub fn hz(&self) -> (r: &BinarySparseMatrix)
        ensures
            *r == self.hz,
    {
        &self.hz
    }

    /// The total number of stabilizer checks.
    pub fn num_stabilizers(&self) -> (r: usize)
        requires
            self.hz.n_rows + self.hx.n_rows <= usize::MAX,
        ensures
            r == self.hz.n_rows + self.hx.n_rows,
    {
        self.hz.rows() + self.hx.rows()
    }

    /// The qubit count.
    pub fn num_qubits(&self) -> (r: usize)
        ensures
            r == self.hz.n_cols,
    {
        self.hz.cols()
    }

    /// The syndrome of an error pattern: `s_Z = H_Z · x` detects X errors
    /// and `s_X = H_X · z` detects Z errors.
    pub fn syndrome(&self, error_vector: &ErrorVector) -> (r: Syndrome)
        requires
            self.wf(),
            error_vector.wf(),
            error_vector.x_bits().len() == self.hz.n_cols,
        ensures
            bit_seq(r.z_syndrome).len() == self.hz.n_rows,
            forall|i: int|
                0 <= i < self.hz.n_rows ==> bit_seq(r.z_syndrome)[i] == row_parity(
                    self.hz.rows_view()[i],
                    error_vector.x_bits(),
                ),
            bit_seq(r.x_syndrome).len() == self.hx.n_rows,
            forall|i: int|
                0 <= i < self.hx.n_rows ==> bit_seq(r.x_syndrome)[i] == row_parity(
                    self.hx.rows_view()[i],
                    error_vector.z_bits(),
                ),
    {
        let syndrome_z = self.hz.mul_vec(error_vector.x_part());
        let syndrome_x = self.hx.mul_vec(error_vector.z_part());
        Syndrome::new(syndrome_z, syndrome_x)
    }
}

impl QuantumCode for CssCode {
    /// The code's display name.
    fn code_name(&self) -> (r: &str)
        ensures
            r@ == self.code_name@,
    {
        self.code_name.as_str()
    }

    /// The qubit count.
    fn n(&self) -> (r: usize)
        ensures
            r == self.hz.n_cols,
    {
        self.hz.cols()
    }

    /// The number of logical qubits, `n − rank(H_Z) − rank(H_X)`, clipped
    /// to zero on a malformed pair whose ranks exceed `n`.
    fn k(&self) -> (r: usize)
        ensures
            r as int == ({
                let n = self.hz.n_cols as int;
                let rz = sparse_elim_rank(self.hz.rows_view(), self.hz.n_cols as int);
                let rx = sparse_elim_rank(self.hx.rows_view(), self.hx.n_cols as int);
                if rz <= n && rx <= n - rz {
                    n - rz - rx
                } else {
                    0
                }
            }),
    {
        let n = self.hz.cols();
        let rank_hz = self.hz.rank();
        let rank_hx = self.hx.rank();
        if rank_hz <= n && rank_hx <= n - rank_hz {
            n - rank_hz - rank_hx
        } else {
            0
        }
    }
}

/// Syndrome linearity: against any parity-check matrix, the syndrome of a
/// componentwise XOR of two errors is the componentwise XOR of the two
/// syndromes.
pub proof fn lemma_syndrome_linearity(h: BinarySparseMatrix, e: Seq<bool>, f: Seq<bool>)
    requires
        h.wf(),
        e.len() == h.n_cols,
        f.len() == e.len(),
    ensures
        forall|i: int|
            0 <= i < h.spec_rows() ==> #[trigger] row_parity(h.rows_view()[i], xor_bits(e, f)) == (
            row_parity(h.rows_view()[i], e) != row_parity(h.rows_view()[i], f)),
{
    assert forall|i: int| 0 <= i < h.spec_rows() implies #[trigger] row_parity(
        h.rows_view()[i],
        xor_bits(e, f),
    ) == (row_parity(h.rows_view()[i], e) != row_parity(h.rows_view()[i], f)) by {
        crate::math::gf2::lemma_count_in_xor(h.rows_view()[i], e, f);
    }
}

} // verus!
