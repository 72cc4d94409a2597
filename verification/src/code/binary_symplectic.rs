//! Pauli operators in binary symplectic form, without phase.
//!
//! A `BinarySymplecticVector` is the pair `(x_part, z_part)` of equal-length
//! bit vectors.  The symplectic product of two such vectors is odd exactly
//! when the Pauli operators they stand for anticommute.

use vstd::prelude::*;
use crate::bits::{bit_seq, BitVector};
use crate::errors::QldpcError;
use crate::math::bit_linear_algebra::inner_product;
use crate::math::gf2::inner_parity;

verus! {

/// The binary symplectic representation of a Pauli operator: its X bits and
/// Z bits, with the phase left out.
#[derive(Debug, Clone, PartialEq)]
pub struct BinarySymplecticVector {
    pub x_part: BitVector,
    pub z_part: BitVector,
}

impl BinarySymplecticVector {
    /// The two parts hold one bit per qubit.
    pub open spec fn wf(self) -> bool {
        bit_seq(self.x_part).len() == bit_seq(self.z_part).len()
    }

    pub open spec fn x_bits(self) -> Seq<bool> {
        bit_seq(self.x_part)
    }

    pub open spec fn z_bits(self) -> Seq<bool> {
        bit_seq(self.z_part)
    }

    pub open spec fn spec_num_qubits(self) -> nat {
        bit_seq(self.z_part).len()
    }

    /// Builds a vector from its X and Z parts, validating that the lengths
    /// agree.
    pub fn new(x_part: BitVector, z_part: BitVector) -> (r: Result<Self, QldpcError>)
        ensures
            match r {
                Ok(v) => {
                    &&& bit_seq(x_part).len() == bit_seq(z_part).len()
                    &&& v.x_bits() == bit_seq(x_part)
                    &&& v.z_bits() == bit_seq(z_part)
                    &&& v.wf()
                },
                Err(e) => {
                    &&& e == QldpcError::ShapeMismatch
                    &&& bit_seq(x_part).len() != bit_seq(z_part).len()
                },
            },
    {
        if x_part.len() != z_part.len() {
            return Err(QldpcError::ShapeMismatch);
        }
        Ok(BinarySymplecticVector { x_part, z_part })
    }

    /// The X part.
    pub fn x_part(&self) -> (r: &BitVector)
        ensures
            *r == self.x_part,
    {
        &self.x_part
    }

    /// The Z part.
    pub fn z_part(&self) -> (r: &BitVector)
        ensures
            *r == self.z_part,
    {
        &self.z_part
    }

    /// The number of qubits the vector acts on.
    pub fn num_qubits(&self) -> (r: usize)
        ensures
            r == self.spec_num_qubits(),
    {
        self.z_part.len()
    }

    /// The symplectic product `⟨a.z, b.x⟩ + ⟨a.x, b.z⟩` over GF(2): `true`
    /// exactly when the two Pauli operators anticommute.
    pub fn symplectic_product(&self, other: &BinarySymplecticVector) -> (r: bool)
        requires
            self.wf(),
            other.wf(),
            self.spec_num_qubits() == other.spec_num_qubits(),
        ensures
            r == symp_product(*self, *other),
    {
        let term1 = inner_product(&self.z_part, &other.x_part);
        let term2 = inner_product(&self.x_part, &other.z_part);
        term1 ^ term2
    }
}

/// The symplectic product of two equal-length symplectic vectors: the GF(2)
/// sum `⟨a.z, b.x⟩ + ⟨a.x, b.z⟩`.
pub open spec fn symp_product(a: BinarySymplecticVector, b: BinarySymplecticVector) -> bool {
    inner_parity(a.z_bits(), b.x_bits()) != inner_parity(a.x_bits(), b.z_bits())
}

/// Every vector commutes with itself: the symplectic product of a vector
/// with itself is zero.
pub proof fn lemma_symp_self(a: BinarySymplecticVector)
    requires
        a.wf(),
    ensures
        !symp_product(a, a),
{
    assert(crate::bits::and_bits(a.z_bits(), a.x_bits()) =~= crate::bits::and_bits(
        a.x_bits(),
        a.z_bits(),
    ));
}

/// The symplectic product is symmetric.
pub proof fn lemma_symp_symmetric(a: BinarySymplecticVector, b: BinarySymplecticVector)
    requires
        a.wf(),
        b.wf(),
        a.spec_num_qubits() == b.spec_num_qubits(),
    ensures
        symp_product(a, b) == symp_product(b, a),
{
    assert(crate::bits::and_bits(a.z_bits(), b.x_bits()) =~= crate::bits::and_bits(
        b.x_bits(),
        a.z_bits(),
    ));
    assert(crate::bits::and_bits(a.x_bits(), b.z_bits()) =~= crate::bits::and_bits(
        b.z_bits(),
        a.x_bits(),
    ));
}

/// The symplectic product is linear: against a fixed vector, the product of
/// a componentwise XOR is the GF(2) sum of the two products.
pub proof fn lemma_symp_bilinear(
    a: BinarySymplecticVector,
    b: BinarySymplecticVector,
    c: BinarySymplecticVector,
    d: BinarySymplecticVector,
)
    requires
        a.wf(),
        b.wf(),
        c.wf(),
        a.spec_num_qubits() == c.spec_num_qubits(),
        b.spec_num_qubits() == c.spec_num_qubits(),
        d.z_bits() == crate::bits::xor_bits(a.z_bits(), b.z_bits()),
        d.x_bits() == crate::bits::xor_bits(a.x_bits(), b.x_bits()),
    ensures
        symp_product(d, c) == (symp_product(a, c) != symp_product(b, c)),
{
    crate::math::gf2::lemma_inner_parity_xor(a.z_bits(), b.z_bits(), c.x_bits());
    crate::math::gf2::lemma_inner_parity_xor(a.x_bits(), b.x_bits(), c.z_bits());
}

/// A vector with no set bit commutes with everything.
pub proof fn lemma_symp_zero_left(a: BinarySymplecticVector, b: BinarySymplecticVector)
    requires
        a.wf(),
        b.wf(),
        a.spec_num_qubits() == b.spec_num_qubits(),
        forall|i: int| 0 <= i < a.z_bits().len() ==> !a.z_bits()[i] && !a.x_bits()[i],
    ensures
        !symp_product(a, b),
{
    crate::math::gf2::lemma_count_true_all_false(crate::bits::and_bits(a.z_bits(), b.x_bits()));
    crate::math::gf2::lemma_count_true_all_false(crate::bits::and_bits(a.x_bits(), b.z_bits()));
}

} // verus!
