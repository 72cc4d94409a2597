//! Specification-level GF(2) algebra.
//!
//! Arithmetic over the two-element field is exclusive or and conjunction.
//! The spec functions here describe parities of bit sequences — the values
//! that matrix-vector products, inner products and symplectic products
//! return — and the lemmas state that those parities are linear in their bit
//! arguments.

use vstd::prelude::*;
use crate::bits::{and_bits, count_true, xor_bits};

verus! {

/// How many listed positions of `v` hold `true`: the size of
/// `{t | v[row[t]]}`.
pub open spec fn count_in(row: Seq<usize>, v: Seq<bool>) -> nat
    decreases row.len(),
{
    if row.len() == 0 {
        0
    } else {
        count_in(row.drop_last(), v) + (if v[row.last() as int] { 1nat } else { 0nat })
    }
}

/// The parity of the listed positions of `v` that hold `true`.
pub open spec fn row_parity(row: Seq<usize>, v: Seq<bool>) -> bool {
    count_in(row, v) % 2 == 1
}

/// How many entries of `row` also occur in `col`.
pub open spec fn count_common(row: Seq<usize>, col: Seq<usize>) -> nat
    decreases row.len(),
{
    if row.len() == 0 {
        0
    } else {
        count_common(row.drop_last(), col) + (if col.contains(row.last()) { 1nat } else { 0nat })
    }
}

/// The GF(2) inner product of two equal-length bit sequences: the parity of
/// the positions where both hold `true`.
pub open spec fn inner_parity(a: Seq<bool>, b: Seq<bool>) -> bool {
    count_true(and_bits(a, b)) % 2 == 1
}

/// A byte vector of `0`/`1` values read as bits: a position is set exactly
/// when its byte is nonzero.
pub open spec fn byte_bits(s: Seq<u8>) -> Seq<bool> {
    Seq::new(s.len(), |i: int| s[i] != 0)
}

/// Every entry of `s` lies below `bound`.
pub open spec fn in_range(s: Seq<usize>, bound: nat) -> bool {
    forall|t: int| 0 <= t < s.len() ==> (#[trigger] s[t]) < bound
}

/// The entries of `s` increase strictly, so `s` lists a set.
pub open spec fn strictly_sorted(s: Seq<usize>) -> bool {
    forall|p: int, q: int| 0 <= p < q < s.len() ==> s[p] < s[q]
}

/// Counting listed positions is linear over GF(2): against `a ⊕ b` the
/// parity is the sum of the parities against `a` and against `b`.
pub proof fn lemma_count_in_xor(row: Seq<usize>, a: Seq<bool>, b: Seq<bool>)
    requires
        a.len() == b.len(),
        in_range(row, a.len()),
    ensures
        count_in(row, xor_bits(a, b)) % 2 == (count_in(row, a) + count_in(row, b)) % 2,
    decreases row.len(),
{
    if row.len() > 0 {
        let r1 = row.drop_last();
        assert(in_range(r1, a.len()));
        lemma_count_in_xor(r1, a, b);
        let j = row.last() as int;
        assert(0 <= j < a.len());
        assert(xor_bits(a, b)[j] == (a[j] != b[j]));
    }
}

/// No listed position of an all-`false` sequence holds `true`.
pub proof fn lemma_count_in_all_false(row: Seq<usize>, v: Seq<bool>)
    requires
        in_range(row, v.len()),
        forall|i: int| 0 <= i < v.len() ==> !v[i],
    ensures
        count_in(row, v) == 0,
    decreases row.len(),
{
    if row.len() > 0 {
        assert(in_range(row.drop_last(), v.len()));
        lemma_count_in_all_false(row.drop_last(), v);
    }
}

/// A sequence with no `true` position has weight zero.
pub proof fn lemma_count_true_all_false(s: Seq<bool>)
    requires
        forall|i: int| 0 <= i < s.len() ==> !s[i],
    ensures
        count_true(s) == 0,
    decreases s.len(),
{
    if s.len() > 0 {
        lemma_count_true_all_false(s.drop_last());
    }
}

/// The GF(2) inner product is linear in its first argument:
/// `⟨a ⊕ b, c⟩ = ⟨a, c⟩ + ⟨b, c⟩`.
pub proof fn lemma_inner_parity_xor(a: Seq<bool>, b: Seq<bool>, c: Seq<bool>)
    requires
        a.len() == b.len(),
        b.len() == c.len(),
    ensures
        count_true(and_bits(xor_bits(a, b), c)) % 2 == (count_true(and_bits(a, c))
            + count_true(and_bits(b, c))) % 2,
    decreases a.len(),
{
    if a.len() > 0 {
        let a1 = a.drop_last();
        let b1 = b.drop_last();
        let c1 = c.drop_last();
        lemma_inner_parity_xor(a1, b1, c1);
        assert(and_bits(xor_bits(a, b), c).drop_last() =~= and_bits(xor_bits(a1, b1), c1));
        assert(and_bits(a, c).drop_last() =~= and_bits(a1, c1));
        assert(and_bits(b, c).drop_last() =~= and_bits(b1, c1));
        let n = a.len() as int;
        assert(and_bits(xor_bits(a, b), c).last() == ((a[n - 1] != b[n - 1]) && c[n - 1]));
        assert(and_bits(a, c).last() == (a[n - 1] && c[n - 1]));
        assert(and_bits(b, c).last() == (b[n - 1] && c[n - 1]));
    } else {
        assert(and_bits(xor_bits(a, b), c).len() == 0);
        assert(and_bits(a, c).len() == 0);
        assert(and_bits(b, c).len() == 0);
    }
}

} // verus!
