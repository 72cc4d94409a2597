//! Pauli error patterns and syndromes.
//!
//! An `ErrorVector` is a pair of equal-length bit vectors `(x_part,
//! z_part)`: the X and Z components of a Pauli error.  A `Syndrome` is the
//! pair `(s_Z, s_X)` that a CSS code computes from an error.

use vstd::prelude::*;
use crate::bits::{bit_seq, count_true, or_bits, BitVector};
use crate::code::paulis::{Paulis, Phase};
use crate::code::binary_symplectic::BinarySymplecticVector;
use crate::errors::QldpcError;
use crate::math::gf2::byte_bits;

verus! {

/// A Pauli error pattern as its X and Z bit vectors.
#[derive(Debug, Clone, PartialEq)]
pub struct ErrorVector {
    pub x_part: BitVector,
    pub z_part: BitVector,
}

impl ErrorVector {
    /// The two parts hold one bit per qubit.
    pub open spec fn wf(self) -> bool {
        bit_seq(self.x_part).len() == bit_seq(self.z_part).len()
    }

    pub open spec fn x_bits(self) -> Seq<bool> {
        bit_seq(self.x_part)
    }

    pub open spec fn z_bits(self) -> Seq<bool> {
        bit_seq(self.z_part)
    }

    /// Builds an error pattern, validating that the parts have one length.
    pub fn new(x_part: BitVector, z_part: BitVector) -> (r: Result<Self, QldpcError>)
        ensures
            match r {
                Ok(v) => {
                    &&& bit_seq(x_part).len() == bit_seq(z_part).len()
                    &&& v.x_bits() == bit_seq(x_part)
                    &&& v.z_bits() == bit_seq(z_part)
                    &&& v.wf()
                },
                Err(e) => {
                    &&& e == QldpcError::ShapeMismatch
                    &&& bit_seq(x_part).len() != bit_seq(z_part).len()
                },
            },
    {
        if x_part.len() != z_part.len() {
            return Err(QldpcError::ShapeMismatch);
        }
        Ok(ErrorVector { x_part, z_part })
    }

    /// The error pattern of a Pauli operator, with the phase dropped.
    pub fn from_paulis(paulis: &Paulis) -> (r: Self)
        requires
            paulis.wf(),
        ensures
            r.wf(),
            r.x_bits() == paulis.x_bits(),
            r.z_bits() == paulis.z_bits(),
    {
        ErrorVector {
            x_part: paulis.get_x_part().clone(),
            z_part: paulis.get_z_part().clone(),
        }
    }

    /// Parses an error pattern from Pauli-string text.
    pub fn from_string(s: &str) -> (r: Result<Self, QldpcError>)
        ensures
            match r {
                Ok(v) => {
                    &&& crate::code::paulis::valid_pauli_string(s@)
                    &&& v.wf()
                    &&& v.z_bits() == crate::code::paulis::pauli_z_bits_of(s@)
                    &&& v.x_bits() == crate::code::paulis::pauli_x_bits_of(s@)
                },
                Err(e) => {
                    &&& e == QldpcError::InvalidPauliString
                    &&& !crate::code::paulis::valid_pauli_string(s@)
                },
            },
    {
        match Paulis::from_stirng(s) {
            Ok(paulis) => Ok(Self::from_paulis(&paulis)),
            Err(e) => Err(e),
        }
    }

    /// Builds an error pattern from byte vectors of `0`/`1` values.
    pub fn from_u8vec(x_bytes: Vec<u8>, z_bytes: Vec<u8>) -> (r: Result<Self, QldpcError>)
        ensures
            match r {
                Ok(v) => {
                    &&& x_bytes@.len() == z_bytes@.len()
                    &&& v.wf()
                    &&& v.x_bits() == byte_bits(x_bytes@)
                    &&& v.z_bits() == byte_bits(z_bytes@)
                },
                Err(e) => {
                    &&& e == QldpcError::ShapeMismatch
                    &&& x_bytes@.len() != z_bytes@.len()
                },
            },
    {
        if x_bytes.len() != z_bytes.len() {
            return Err(QldpcError::ShapeMismatch);
        }
        let n = x_bytes.len();
        let mut x = BitVector::repeat(false, n);
        let mut z = BitVector::repeat(false, n);
        let mut i: usize = 0;
        while i < n
            invariant
                i <= n,
                n == x_bytes@.len(),
                x_bytes@.len() == z_bytes@.len(),
                bit_seq(x).len() == n,
                bit_seq(z).len() == n,
                forall|t: int| 0 <= t < i ==> bit_seq(x)[t] == (x_bytes@[t] != 0),
                forall|t: int| 0 <= t < i ==> bit_seq(z)[t] == (z_bytes@[t] != 0),
                forall|t: int| i <= t < n ==> !bit_seq(x)[t] && !bit_seq(z)[t],
            decreases n - i,
        {
            if x_bytes[i] != 0 {
                x.set(i, true);
            }
            if z_bytes[i] != 0 {
                z.set(i, true);
            }
            i += 1;
        }
        proof {
            assert(bit_seq(x) =~= byte_bits(x_bytes@));
            assert(bit_seq(z) =~= byte_bits(z_bytes@));
        }
        Ok(ErrorVector { x_part: x, z_part: z })
    }

    /// The X part.
    pub fn x_part(&self) -> (r: &BitVector)
        ensures
            *r == self.x_part,
    {
        &self.x_part
    }

    /// The Z part.
    pub fn z_part(&self) -> (r: &BitVector)
        ensures
            *r == self.z_part,
    {
        &self.z_part
    }

    /// The number of qubits the pattern acts on.
    pub fn num_qubits(&self) -> (r: usize)
        ensures
            r == self.x_bits().len(),
    {
        self.x_part.len()
    }

    /// How many qubits carry an error: the weight of the componentwise OR
    /// of the two parts.
    pub fn num_errors(&self) -> (r: usize)
        requires
            self.wf(),
        ensures
            r == count_true(or_bits(self.x_bits(), self.z_bits())),
    {
        let n = self.x_part.len();
        let mut count: usize = 0;
        let mut i: usize = 0;
        while i < n
            invariant
                i <= n,
                self.wf(),
                n == self.x_bits().len(),
                count == count_true(or_bits(self.x_bits(), self.z_bits()).take(i as int)),
                count <= i,
            decreases n - i,
        {
            proof {
                let s = or_bits(self.x_bits(), self.z_bits());
                assert(s.take(i as int + 1).drop_last() =~= s.take(i as int));
                assert(s.take(i as int + 1).last() == s[i as int]);
            }
            if self.x_part.get(i) || self.z_part.get(i) {
                count += 1;
            }
            i += 1;
        }
        proof {
            let s = or_bits(self.x_bits(), self.z_bits());
            assert(s.take(s.len() as int) =~= s);
        }
        count
    }

    /// The pattern as a Pauli operator with phase `+1`.
    pub fn to_paulis(&self) -> (r: Paulis)
        requires
            self.wf(),
        ensures
            r.wf(),
            r.num_qubits == self.x_bits().len(),
            r.phase == Phase::One,
            r.x_bits() == self.x_bits(),
            r.z_bits() == self.z_bits(),
    {
        Paulis {
            num_qubits: self.x_part.len(),
            phase: Phase::One,
            binary_symplectic_vector: BinarySymplecticVector {
                x_part: self.x_part.clone(),
                z_part: self.z_part.clone(),
            },
        }
    }
}

/// The syndrome of a CSS code: the Z-check results `s_Z = H_Z · x` and the
/// X-check results `s_X = H_X · z`.
#[derive(Debug, Clone, PartialEq)]
pub struct Syndrome {
    pub z_syndrome: BitVector,
    pub x_syndrome: BitVector,
}

impl Syndrome {
    /// Packs the two halves of a syndrome.
    pub fn new(z_syndrome: BitVector, x_syndrome: BitVector) -> (r: Self)
        ensures
            r.z_syndrome == z_syndrome,
            r.x_syndrome == x_syndrome,
    {
        Syndrome { z_syndrome, x_syndrome }
    }

    /// The total number of syndrome bits.
    pub fn len(&self) -> (r: usize)
        requires
            bit_seq(self.z_syndrome).len() + bit_seq(self.x_syndrome).len() <= usize::MAX,
        ensures
            r == bit_seq(self.z_syndrome).len() + bit_seq(self.x_syndrome).len(),
    {
        self.z_syndrome.len() + self.x_syndrome.len()
    }

    /// The number of stabilizer checks the syndrome answers: one bit each.
    pub fn num_stabilizers(&self) -> (r: usize)
        requires
            bit_seq(self.z_syndrome).len() + bit_seq(self.x_syndrome).len() <= usize::MAX,
        ensures
            r == bit_seq(self.z_syndrome).len() + bit_seq(self.x_syndrome).len(),
    {
        self.z_syndrome.len() + self.x_syndrome.len()
    }

    /// The `H_Z · x` half, which detects X errors.
    pub fn z_syndrome(&self) -> (r: &BitVector)
        ensures
            *r == self.z_syndrome,
    {
        &self.z_syndrome
    }

    /// The `H_X · z` half, which detects Z errors.
    pub fn x_syndrome(&self) -> (r: &BitVector)
        ensures
            *r == self.x_syndrome,
    {
        &self.x_syndrome
    }
}

} // verus!
