//! Fixed-length bit vectors backed by the `bitvec` crate.
//!
//! The library stores bit vectors as `bitvec::vec::BitVec<u64, Lsb0>`, a
//! word-packed representation.  Verus cannot look inside that type (its
//! trait bounds cannot be declared here), so this module holds it in an
//! opaque struct, names its contents as a `Seq<bool>`, and wraps the handful
//! of operations the library needs.  Every contract on a wrapper is trusted;
//! each states only what the `bitvec` sources and documentation show.

use vstd::prelude::*;

verus! {

/// A fixed-length ordered sequence of bits.
///
/// The backing store is `bitvec`'s word-packed vector; Verus reasons about
/// the value only through [`bit_seq`].
#[derive(Debug)]
#[verifier::external_body]
pub struct BitVector {
    inner: bitvec::vec::BitVec<u64, bitvec::order::Lsb0>,
}

/// The ordered contents of a bit vector.
pub uninterp spec fn bit_seq(v: BitVector) -> Seq<bool>;

impl BitVector {
    /// Relies on `BitVec::repeat`: a vector of `len` copies of `bit`.
    #[verifier::external_body]
    pub fn repeat(bit: bool, len: usize) -> (r: BitVector)
        ensures
            bit_seq(r) == Seq::new(len as nat, |i: int| bit),
    {
        BitVector { inner: bitvec::vec::BitVec::repeat(bit, len) }
    }

    /// Relies on `BitSlice::len` (through `Deref`): the number of live bits.
    #[verifier::external_body]
    pub fn len(&self) -> (r: usize)
        ensures
            r == bit_seq(*self).len(),
    {
        self.inner.len()
    }

    /// Relies on `BitSlice`'s `Index<usize>` impl: the bit at position `i`.
    #[verifier::external_body]
    pub fn get(&self, i: usize) -> (r: bool)
        requires
            i < bit_seq(*self).len(),
        ensures
            r == bit_seq(*self)[i as int],
    {
        self.inner[i]
    }

    /// Relies on `BitSlice::set`: writes `bit` at position `i`.
    #[verifier::external_body]
    pub fn set(&mut self, i: usize, bit: bool)
        requires
            i < bit_seq(*old(self)).len(),
        ensures
            bit_seq(*final(self)) == bit_seq(*old(self)).update(i as int, bit),
    {
        self.inner.set(i, bit);
    }

    /// Relies on `BitSlice`'s `BitXorAssign<&BitSlice>` impl: for equal
    /// lengths it combines the two vectors bit by bit with exclusive or.
    #[verifier::external_body]
    pub fn xor_assign(&mut self, other: &BitVector)
        requires
            bit_seq(*old(self)).len() == bit_seq(*other).len(),
        ensures
            bit_seq(*final(self)) == xor_bits(bit_seq(*old(self)), bit_seq(*other)),
    {
        *self.inner.as_mut_bitslice() ^= other.inner.as_bitslice();
    }
}

impl Clone for BitVector {
    /// Relies on `BitVec`'s `Clone` impl: the copy holds the same bits.
    #[verifier::external_body]
    fn clone(&self) -> (r: Self)
        ensures
            bit_seq(r) == bit_seq(*self),
    {
        BitVector { inner: self.inner.clone() }
    }
}

/// Relies on `BitVec`'s `PartialEq` impl: equal lengths and equal bits.
#[verifier::external_body]
fn bv_eq(a: &BitVector, b: &BitVector) -> (r: bool)
    ensures
        r == (bit_seq(*a) == bit_seq(*b)),
{
    a.inner == b.inner
}

impl PartialEq for BitVector {
    fn eq(&self, other: &Self) -> (r: bool) {
        bv_eq(self, other)
    }
}

impl Eq for BitVector {}

impl vstd::std_specs::cmp::PartialEqSpecImpl for BitVector {
    open spec fn obeys_eq_spec() -> bool {
        true
    }

    open spec fn eq_spec(&self, other: &Self) -> bool {
        bit_seq(*self) == bit_seq(*other)
    }
}

/// Componentwise exclusive or of two equal-length bit sequences.
pub open spec fn xor_bits(a: Seq<bool>, b: Seq<bool>) -> Seq<bool> {
    Seq::new(a.len(), |i: int| a[i] != b[i])
}

/// Componentwise conjunction of two equal-length bit sequences.
pub open spec fn and_bits(a: Seq<bool>, b: Seq<bool>) -> Seq<bool> {
    Seq::new(a.len(), |i: int| a[i] && b[i])
}

/// Componentwise disjunction of two equal-length bit sequences.
pub open spec fn or_bits(a: Seq<bool>, b: Seq<bool>) -> Seq<bool> {
    Seq::new(a.len(), |i: int| a[i] || b[i])
}

/// How many positions of `s` hold `true`.
pub open spec fn count_true(s: Seq<bool>) -> nat
    decreases s.len(),
{
    if s.len() == 0 {
        0
    } else {
        count_true(s.drop_last()) + (if s.last() { 1nat } else { 0nat })
    }
}

} // verus!
