//! Stabilizer groups.
//!
//! A `StabilizerGroup` owns an ordered list of `r ≤ n` Pauli generators on
//! a common qubit count.  Construction validates that the generators
//! pairwise commute and that their stacked symplectic vectors are linearly
//! independent over GF(2); the group then has `2^r` elements, and
//! [`StabilizerGroup::element`] maps an index to the corresponding product
//! of generators.  Every element so produced commutes with every
//! generator.

use vstd::prelude::*;
use crate::bits::{bit_seq, xor_bits, BitVector};
use crate::code::binary_symplectic::{
    lemma_symp_bilinear, lemma_symp_self, lemma_symp_symmetric, lemma_symp_zero_left, symp_product,
};
use crate::code::paulis::{corr_sum, phase_exp, Paulis};
use crate::errors::QldpcError;
use crate::math::bit_linear_algebra::{elim_rank, is_linearly_independent, rows_bits, uniform_width};

verus! {

/// A list of pairwise-commuting, linearly independent Pauli generators on
/// a common qubit count.
#[derive(Debug, Clone)]
pub struct StabilizerGroup {
    pub num_qubits: usize,
    pub generators: Vec<Paulis>,
}

/// Every listed operator is well formed and acts on `n` qubits.
pub open spec fn all_on(gens: Seq<Paulis>, n: nat) -> bool {
    forall|t: int| 0 <= t < gens.len() ==> (#[trigger] gens[t]).wf() && gens[t].num_qubits == n
}

/// Every two listed operators commute.
pub open spec fn pairwise_commuting(gens: Seq<Paulis>) -> bool {
    forall|p: int, q: int|
        0 <= p < q < gens.len() ==> !symp_product(
            (#[trigger] gens[p]).binary_symplectic_vector,
            (#[trigger] gens[q]).binary_symplectic_vector,
        )
}

/// The generators' symplectic vectors stacked into rows: generator `t`
/// contributes the length-`2n` row `x_bits ++ z_bits`.
pub open spec fn stacked_symplectic(gens: Seq<Paulis>) -> Seq<Seq<bool>> {
    Seq::new(gens.len(), |t: int| gens[t].x_bits() + gens[t].z_bits())
}

/// `k` shifted right by `j` binary digits.
pub open spec fn shr2(k: nat, j: nat) -> nat
    decreases j,
{
    if j == 0 {
        k
    } else {
        shr2(k, (j - 1) as nat) / 2
    }
}

/// Binary digit `j` of `k`.
pub open spec fn bit_of(k: nat, j: nat) -> bool {
    shr2(k, j) % 2 == 1
}

/// The Z bits of the product of the generators, among the first `t`, whose
/// digit is set in `k`.
pub open spec fn subset_z(gens: Seq<Paulis>, k: nat, t: int, n: nat) -> Seq<bool>
    decreases t,
{
    if t <= 0 {
        Seq::new(n, |i: int| false)
    } else if bit_of(k, (t - 1) as nat) {
        xor_bits(subset_z(gens, k, t - 1, n), gens[t - 1].z_bits())
    } else {
        subset_z(gens, k, t - 1, n)
    }
}

/// The X bits of the product of the generators, among the first `t`, whose
/// digit is set in `k`.
pub open spec fn subset_x(gens: Seq<Paulis>, k: nat, t: int, n: nat) -> Seq<bool>
    decreases t,
{
    if t <= 0 {
        Seq::new(n, |i: int| false)
    } else if bit_of(k, (t - 1) as nat) {
        xor_bits(subset_x(gens, k, t - 1, n), gens[t - 1].x_bits())
    } else {
        subset_x(gens, k, t - 1, n)
    }
}

/// `2^r`, the number of elements a group on `r` independent generators
/// has.
pub open spec fn pow2n(r: nat) -> nat
    decreases r,
{
    if r == 0 {
        1
    } else {
        2 * pow2n((r - 1) as nat)
    }
}

/// The Z bits of the product of the generators, among the first `t`, whose
/// coefficient is set in `c`.
pub open spec fn combo_z(gens: Seq<Paulis>, c: Seq<bool>, t: int, n: nat) -> Seq<bool>
    decreases t,
{
    if t <= 0 {
        Seq::new(n, |i: int| false)
    } else if c[t - 1] {
        xor_bits(combo_z(gens, c, t - 1, n), gens[t - 1].z_bits())
    } else {
        combo_z(gens, c, t - 1, n)
    }
}

/// The X bits of the product of the generators, among the first `t`, whose
/// coefficient is set in `c`.
pub open spec fn combo_x(gens: Seq<Paulis>, c: Seq<bool>, t: int, n: nat) -> Seq<bool>
    decreases t,
{
    if t <= 0 {
        Seq::new(n, |i: int| false)
    } else if c[t - 1] {
        xor_bits(combo_x(gens, c, t - 1, n), gens[t - 1].x_bits())
    } else {
        combo_x(gens, c, t - 1, n)
    }
}

/// Symplectic independence of a generator list: no nonempty choice of
/// generators combines to the identity's symplectic form.
pub open spec fn symplectically_independent(gens: Seq<Paulis>, n: nat) -> bool {
    forall|c: Seq<bool>|
        (c.len() == gens.len() && (exists|j: int| 0 <= j < c.len() && c[j])) ==> (exists|i: int|
            0 <= i < n && ((#[trigger] combo_z(gens, c, gens.len() as int, n))[i] || combo_x(
                gens,
                c,
                gens.len() as int,
                n,
            )[i]))
}

/// The phase exponent of the product of the generators, among the first
/// `t`, whose digit is set in `k`, with the Pauli product's per-position
/// corrections applied at every step.
pub open spec fn subset_exp(gens: Seq<Paulis>, k: nat, t: int, n: nat) -> int
    decreases t,
{
    if t <= 0 {
        0
    } else if bit_of(k, (t - 1) as nat) {
        (subset_exp(gens, k, t - 1, n) + phase_exp(gens[t - 1].phase) + corr_sum(
            subset_z(gens, k, t - 1, n),
            subset_x(gens, k, t - 1, n),
            gens[t - 1].z_bits(),
            gens[t - 1].x_bits(),
            n as int,
        )) % 4
    } else {
        subset_exp(gens, k, t - 1, n)
    }
}

impl StabilizerGroup {
    /// The construction-time invariant: at most `n` generators, all well
    /// formed on `n` qubits, pairwise commuting.
    pub open spec fn wf(self) -> bool {
        &&& self.generators@.len() <= self.num_qubits
        &&& all_on(self.generators@, self.num_qubits as nat)
        &&& pairwise_commuting(self.generators@)
    }

    /// Builds a group from its generators, validating a common qubit
    /// count, pairwise commutation, and linear independence of the stacked
    /// symplectic vectors over GF(2).
    pub fn new(generators: Vec<Paulis>) -> (r: Result<Self, QldpcError>)
        requires
            generators@.len() > 0 ==> generators@[0].num_qubits <= usize::MAX / 2,
        ensures
            ({
                let shapes_ok = generators@.len() > 0 && all_on(
                    generators@,
                    generators@[0].num_qubits as nat,
                );
                let independent = generators@.len() <= generators@[0].num_qubits && elim_rank(
                    stacked_symplectic(generators@),
                    2 * generators@[0].num_qubits,
                ) == generators@.len();
                match r {
                    Ok(g) => {
                        &&& shapes_ok
                        &&& pairwise_commuting(generators@)
                        &&& independent
                        &&& g.num_qubits == generators@[0].num_qubits
                        &&& g.generators@ == generators@
                        &&& g.wf()
                    },
                    Err(e) => {
                        &&& (e == QldpcError::ShapeMismatch <==> !shapes_ok)
                        &&& (e == QldpcError::NonCommutingGenerators <==> shapes_ok
                            && !pairwise_commuting(generators@))
                        &&& (e == QldpcError::DependentGenerators <==> shapes_ok
                            && pairwise_commuting(generators@) && !independent)
                        &&& (e == QldpcError::ShapeMismatch || e
                            == QldpcError::NonCommutingGenerators || e
                            == QldpcError::DependentGenerators)
                    },
                }
            }),
    {
        let r_count = generators.len();
        if r_count == 0 {
            return Err(QldpcError::ShapeMismatch);
        }
        let n = generators[0].get_num_qubits();
        let mut t: usize = 0;
        while t < r_count
            invariant
                t <= r_count,
                r_count == generators@.len(),
                r_count > 0,
                n == generators@[0].num_qubits,
                forall|s: int|
                    0 <= s < t ==> (#[trigger] generators@[s]).wf() && generators@[s].num_qubits
                        == n,
            decreases r_count - t,
        {
            let g = &generators[t];
            if g.get_num_qubits() != n || g.get_z_part().len() != n || g.get_x_part().len() != n {
                proof {
                    assert(!(generators@[t as int].wf() && generators@[t as int].num_qubits == n));
                    assert(!all_on(generators@, n as nat));
                }
                return Err(QldpcError::ShapeMismatch);
            }
            t += 1;
        }
        let mut p: usize = 0;
        while p < r_count
            invariant
                p <= r_count,
                r_count == generators@.len(),
                r_count > 0,
                n == generators@[0].num_qubits,
                all_on(generators@, n as nat),
                forall|a: int, b: int|
                    0 <= a < b < r_count && a < p ==> !symp_product(
                        (#[trigger] generators@[a]).binary_symplectic_vector,
                        (#[trigger] generators@[b]).binary_symplectic_vector,
                    ),
            decreases r_count - p,
        {
            let mut q: usize = p + 1;
            while q < r_count
                invariant
                    p < r_count,
                    p < q,
                    q <= r_count,
                    r_count == generators@.len(),
                    r_count > 0,
                    n == generators@[0].num_qubits,
                    all_on(generators@, n as nat),
                    forall|a: int, b: int|
                        0 <= a < b < r_count && a < p ==> !symp_product(
                            (#[trigger] generators@[a]).binary_symplectic_vector,
                            (#[trigger] generators@[b]).binary_symplectic_vector,
                        ),
                    forall|b: int|
                        p < b < q ==> !symp_product(
                            generators@[p as int].binary_symplectic_vector,
                            (#[trigger] generators@[b]).binary_symplectic_vector,
                        ),
                decreases r_count - q,
            {
                if !generators[p].commutes(&generators[q]) {
                    return Err(QldpcError::NonCommutingGenerators);
                }
                q += 1;
            }
            p += 1;
        }
        if r_count > n {
            return Err(QldpcError::DependentGenerators);
        }
        // Stack each generator's X and Z parts into one length-2n vector.
        let mut stacked: Vec<BitVector> = Vec::new();
        let mut t2: usize = 0;
        while t2 < r_count
            invariant
                t2 <= r_count,
                r_count == generators@.len(),
                n <= usize::MAX / 2,
                all_on(generators@, n as nat),
                stacked@.len() == t2,
                uniform_width(stacked@, (n + n) as nat),
                forall|s: int|
                    0 <= s < t2 ==> bit_seq(#[trigger] stacked@[s]) == generators@[s].x_bits()
                        + generators@[s].z_bits(),
            decreases r_count - t2,
        {
            let g = &generators[t2];
            let mut v = BitVector::repeat(false, n + n);
            let mut j: usize = 0;
            while j < n
                invariant
                    j <= n,
                    g.wf(),
                    g == &generators@[t2 as int],
                    t2 < r_count,
                    r_count == generators@.len(),
                    g.num_qubits == n,
                    n <= usize::MAX / 2,
                    bit_seq(v).len() == n + n,
                    forall|s: int| 0 <= s < j ==> bit_seq(v)[s] == g.x_bits()[s],
                    forall|s: int| 0 <= s < j ==> bit_seq(v)[n + s] == g.z_bits()[s],
                decreases n - j,
            {
                v.set(j, g.get_x_part().get(j));
                v.set(n + j, g.get_z_part().get(j));
                j += 1;
            }
            proof {
                assert(bit_seq(v) =~= generators@[t2 as int].x_bits()
                    + generators@[t2 as int].z_bits());
            }
            let ghost prev = stacked@;
            stacked.push(v);
            proof {
                assert forall|s: int| 0 <= s < t2 + 1 implies bit_seq(#[trigger] stacked@[s]).len()
                    == (n + n) as nat by {
                    if s < t2 {
                        assert(stacked@[s] == prev[s]);
                        assert(bit_seq(prev[s]).len() == (n + n) as nat);
                    }
                }
            }
            t2 += 1;
        }
        proof {
            assert(rows_bits(stacked@) =~= stacked_symplectic(generators@));
            assert(bit_seq(stacked@[0]).len() == 2 * n);
        }
        if !is_linearly_independent(&stacked) {
            return Err(QldpcError::DependentGenerators);
        }
        Ok(StabilizerGroup { num_qubits: n, generators })
    }

    /// The number of generators.
    pub fn get_num_generators(&self) -> (r: usize)
        ensures
            r == self.generators@.len(),
    {
        self.generators.len()
    }

    /// The qubit count.
    pub fn get_num_qubits(&self) -> (r: usize)
        ensures
            r == self.num_qubits,
    {
        self.num_qubits
    }

    /// The generators.
    pub fn get_generators(&self) -> (r: &Vec<Paulis>)
        ensures
            *r == self.generators,
    {
        &self.generators
    }

    /// Element `k` of the group: the product of the generators whose
    /// binary digit is set in `k`, phases tracked through the Pauli
    /// product.  Digits at and above the generator count are ignored, so
    /// indices `0, 1, …, 2^r − 1` enumerate the whole group.
    ///
    /// Stabilizer closure: every element returned here commutes with every
    /// generator of the group.
    pub fn element(&self, k: usize) -> (r: Paulis)
        requires
            self.wf(),
        ensures
            r.wf(),
            r.num_qubits == self.num_qubits,
            r.z_bits() == subset_z(
                self.generators@,
                k as nat,
                self.generators@.len() as int,
                self.num_qubits as nat,
            ),
            r.x_bits() == subset_x(
                self.generators@,
                k as nat,
                self.generators@.len() as int,
                self.num_qubits as nat,
            ),
            phase_exp(r.phase) == subset_exp(
                self.generators@,
                k as nat,
                self.generators@.len() as int,
                self.num_qubits as nat,
            ),
            forall|m: int|
                0 <= m < self.generators@.len() ==> !symp_product(
                    r.binary_symplectic_vector,
                    (#[trigger] self.generators@[m]).binary_symplectic_vector,
                ),
    {
        let ghost gens = self.generators@;
        let ghost n_spec = self.num_qubits as nat;
        let r_count = self.generators.len();
        let mut acc = Paulis::identity(self.num_qubits);
        proof {
            assert(acc.z_bits() =~= subset_z(gens, k as nat, 0, n_spec));
            assert(acc.x_bits() =~= subset_x(gens, k as nat, 0, n_spec));
            assert forall|m: int| 0 <= m < r_count implies !symp_product(
                acc.binary_symplectic_vector,
                (#[trigger] gens[m]).binary_symplectic_vector,
            ) by {
                lemma_symp_zero_left(
                    acc.binary_symplectic_vector,
                    gens[m].binary_symplectic_vector,
                );
            }
        }
        let mut kk = k;
        let mut j: usize = 0;
        while j < r_count
            invariant
                j <= r_count,
                self.wf(),
                gens == self.generators@,
                n_spec == self.num_qubits as nat,
                r_count == gens.len(),
                kk == shr2(k as nat, j as nat),
                acc.wf(),
                acc.num_qubits == self.num_qubits,
                acc.z_bits() == subset_z(gens, k as nat, j as int, n_spec),
                acc.x_bits() == subset_x(gens, k as nat, j as int, n_spec),
                phase_exp(acc.phase) == subset_exp(gens, k as nat, j as int, n_spec),
                forall|m: int|
                    0 <= m < r_count ==> !symp_product(
                        acc.binary_symplectic_vector,
                        (#[trigger] gens[m]).binary_symplectic_vector,
                    ),
            decreases r_count - j,
        {
            let take = kk % 2 == 1;
            proof {
                assert(take == bit_of(k as nat, j as nat));
            }
            if take {
                let ghost old_acc = acc;
                let g = &self.generators[j];
                acc = acc.mul(g);
                proof {
                    assert forall|m: int| 0 <= m < r_count implies !symp_product(
                        acc.binary_symplectic_vector,
                        (#[trigger] gens[m]).binary_symplectic_vector,
                    ) by {
                        lemma_symp_bilinear(
                            old_acc.binary_symplectic_vector,
                            gens[j as int].binary_symplectic_vector,
                            gens[m].binary_symplectic_vector,
                            acc.binary_symplectic_vector,
                        );
                        if m == j {
                            lemma_symp_self(gens[j as int].binary_symplectic_vector);
                        } else if m < j {
                            lemma_symp_symmetric(
                                gens[m].binary_symplectic_vector,
                                gens[j as int].binary_symplectic_vector,
                            );
                        }
                    }
                }
            }
            kk = kk / 2;
            proof {
                assert(shr2(k as nat, (j + 1) as nat) == shr2(k as nat, j as nat) / 2);
            }
            j += 1;
        }
        acc
    }
}

/// Shifting a halved number is shifting one digit further.
proof fn lemma_bit_half(k: nat, j: nat)
    ensures
        shr2(k / 2, j) == shr2(k, (j + 1) as nat),
    decreases j,
{
    if j == 0 {
        assert(shr2(k / 2, 0) == k / 2);
        assert(shr2(k, 1) == shr2(k, 0) / 2);
        assert(shr2(k, 0) == k);
    } else {
        lemma_bit_half(k, (j - 1) as nat);
        assert(shr2(k / 2, j) == shr2(k / 2, (j - 1) as nat) / 2);
        assert(shr2(k, (j + 1) as nat) == shr2(k, j) / 2);
    }
}

/// A number below `2^r` is determined by its first `r` binary digits.
proof fn lemma_bits_determine(k1: nat, k2: nat, r: nat)
    requires
        k1 < pow2n(r),
        k2 < pow2n(r),
        forall|j: int| 0 <= j < r ==> #[trigger] bit_of(k1, j as nat) == bit_of(k2, j as nat),
    ensures
        k1 == k2,
    decreases r,
{
    if r == 0 {
    } else {
        let j0: int = 0;
        assert(bit_of(k1, j0 as nat) == bit_of(k2, j0 as nat));
        assert(shr2(k1, 0) == k1);
        assert(shr2(k2, 0) == k2);
        assert(k1 % 2 == k2 % 2);
        assert(k1 / 2 < pow2n((r - 1) as nat));
        assert(k2 / 2 < pow2n((r - 1) as nat));
        assert forall|j: int| 0 <= j < r - 1 implies #[trigger] bit_of(k1 / 2, j as nat) == bit_of(
            k2 / 2,
            j as nat,
        ) by {
            lemma_bit_half(k1, j as nat);
            lemma_bit_half(k2, j as nat);
            assert(bit_of(k1, (j + 1) as nat) == bit_of(k2, (j + 1) as nat));
        }
        lemma_bits_determine(k1 / 2, k2 / 2, (r - 1) as nat);
        assert(k1 == 2 * (k1 / 2) + k1 % 2);
        assert(k2 == 2 * (k2 / 2) + k2 % 2);
    }
}

/// Either combination holds one bit per qubit.
proof fn lemma_combo_len(gens: Seq<Paulis>, c: Seq<bool>, t: int, n: nat)
    ensures
        combo_z(gens, c, t, n).len() == n,
        combo_x(gens, c, t, n).len() == n,
    decreases t,
{
    if t > 0 {
        lemma_combo_len(gens, c, t - 1, n);
    }
}

/// The digit-indexed product equals the coefficient-indexed one at the
/// digits of `k`.
proof fn lemma_subset_is_combo(gens: Seq<Paulis>, k: nat, c: Seq<bool>, t: int, n: nat)
    requires
        forall|j: int| 0 <= j < t ==> c[j] == bit_of(k, j as nat),
    ensures
        subset_z(gens, k, t, n) == combo_z(gens, c, t, n),
        subset_x(gens, k, t, n) == combo_x(gens, c, t, n),
    decreases t,
{
    if t > 0 {
        lemma_subset_is_combo(gens, k, c, t - 1, n);
    }
}

/// The combination map is linear over GF(2) in its coefficients.
proof fn lemma_combo_linear(gens: Seq<Paulis>, c1: Seq<bool>, c2: Seq<bool>, cx: Seq<bool>, t: int, n: nat)
    requires
        forall|j: int| 0 <= j < t ==> cx[j] == (c1[j] != c2[j]),
    ensures
        combo_z(gens, cx, t, n) == xor_bits(combo_z(gens, c1, t, n), combo_z(gens, c2, t, n)),
        combo_x(gens, cx, t, n) == xor_bits(combo_x(gens, c1, t, n), combo_x(gens, c2, t, n)),
    decreases t,
{
    if t <= 0 {
        assert(combo_z(gens, cx, t, n) =~= xor_bits(
            combo_z(gens, c1, t, n),
            combo_z(gens, c2, t, n),
        ));
        assert(combo_x(gens, cx, t, n) =~= xor_bits(
            combo_x(gens, c1, t, n),
            combo_x(gens, c2, t, n),
        ));
    } else {
        lemma_combo_linear(gens, c1, c2, cx, t - 1, n);
        lemma_combo_len(gens, c1, t - 1, n);
        lemma_combo_len(gens, c2, t - 1, n);
        lemma_combo_len(gens, cx, t - 1, n);
        let az = combo_z(gens, c1, t - 1, n);
        let bz = combo_z(gens, c2, t - 1, n);
        let ax = combo_x(gens, c1, t - 1, n);
        let bx = combo_x(gens, c2, t - 1, n);
        let gz = gens[t - 1].z_bits();
        let gx = gens[t - 1].x_bits();
        if c1[t - 1] && c2[t - 1] {
            assert forall|i: int| 0 <= i < az.len() implies xor_bits(az, bz)[i] == xor_bits(
                xor_bits(az, gz),
                xor_bits(bz, gz),
            )[i] by {}
            assert(xor_bits(az, bz) =~= xor_bits(xor_bits(az, gz), xor_bits(bz, gz)));
            assert forall|i: int| 0 <= i < ax.len() implies xor_bits(ax, bx)[i] == xor_bits(
                xor_bits(ax, gx),
                xor_bits(bx, gx),
            )[i] by {}
            assert(xor_bits(ax, bx) =~= xor_bits(xor_bits(ax, gx), xor_bits(bx, gx)));
        } else if c1[t - 1] {
            assert forall|i: int| 0 <= i < az.len() implies xor_bits(xor_bits(az, bz), gz)[i]
                == xor_bits(xor_bits(az, gz), bz)[i] by {}
            assert(xor_bits(xor_bits(az, bz), gz) =~= xor_bits(xor_bits(az, gz), bz));
            assert forall|i: int| 0 <= i < ax.len() implies xor_bits(xor_bits(ax, bx), gx)[i]
                == xor_bits(xor_bits(ax, gx), bx)[i] by {}
            assert(xor_bits(xor_bits(ax, bx), gx) =~= xor_bits(xor_bits(ax, gx), bx));
        } else if c2[t - 1] {
            assert forall|i: int| 0 <= i < az.len() implies xor_bits(xor_bits(az, bz), gz)[i]
                == xor_bits(az, xor_bits(bz, gz))[i] by {}
            assert(xor_bits(xor_bits(az, bz), gz) =~= xor_bits(az, xor_bits(bz, gz)));
            assert forall|i: int| 0 <= i < ax.len() implies xor_bits(xor_bits(ax, bx), gx)[i]
                == xor_bits(ax, xor_bits(bx, gx))[i] by {}
            assert(xor_bits(xor_bits(ax, bx), gx) =~= xor_bits(ax, xor_bits(bx, gx)));
        }
    }
}

/// The group has `2^r` elements: over generators that are symplectically
/// independent — no nonempty choice of them combines to the identity's
/// symplectic form — distinct indices below `2^r` name elements with
/// distinct symplectic forms, so the `2^r` enumerated elements are all
/// different.
pub proof fn lemma_group_size(g: StabilizerGroup, k1: nat, k2: nat)
    requires
        g.wf(),
        symplectically_independent(g.generators@, g.num_qubits as nat),
        k1 < pow2n(g.generators@.len()),
        k2 < pow2n(g.generators@.len()),
        k1 != k2,
    ensures
        subset_z(g.generators@, k1, g.generators@.len() as int, g.num_qubits as nat) != subset_z(
            g.generators@,
            k2,
            g.generators@.len() as int,
            g.num_qubits as nat,
        ) || subset_x(g.generators@, k1, g.generators@.len() as int, g.num_qubits as nat)
            != subset_x(g.generators@, k2, g.generators@.len() as int, g.num_qubits as nat),
{
    let gens = g.generators@;
    let n = g.num_qubits as nat;
    let r = gens.len() as int;
    let c1 = Seq::new(gens.len(), |j: int| bit_of(k1, j as nat));
    let c2 = Seq::new(gens.len(), |j: int| bit_of(k2, j as nat));
    let cx = Seq::new(gens.len(), |j: int| c1[j] != c2[j]);
    lemma_subset_is_combo(gens, k1, c1, r, n);
    lemma_subset_is_combo(gens, k2, c2, r, n);
    lemma_combo_linear(gens, c1, c2, cx, r, n);
    lemma_combo_len(gens, c1, r, n);
    lemma_combo_len(gens, c2, r, n);
    lemma_combo_len(gens, cx, r, n);
    // The two indices disagree in some digit below `r`.
    if forall|j: int| 0 <= j < r ==> !(#[trigger] cx[j]) {
        assert forall|j: int| 0 <= j < r implies #[trigger] bit_of(k1, j as nat) == bit_of(
            k2,
            j as nat,
        ) by {
            assert(!cx[j]);
        }
        lemma_bits_determine(k1, k2, gens.len());
        assert(false);
    }
    let jw = choose|j: int| 0 <= j < r && cx[j];
    assert(exists|j: int| 0 <= j < cx.len() && cx[j]);
    // Independence gives the combined difference a set bit.
    let iw = choose|i: int|
        0 <= i < n && ((#[trigger] combo_z(gens, cx, gens.len() as int, n))[i] || combo_x(
            gens,
            cx,
            gens.len() as int,
            n,
        )[i]);
    if subset_z(gens, k1, r, n) == subset_z(gens, k2, r, n) && subset_x(gens, k1, r, n)
        == subset_x(gens, k2, r, n) {
        assert(combo_z(gens, cx, r, n)[iw] == (combo_z(gens, c1, r, n)[iw] != combo_z(
            gens,
            c2,
            r,
            n,
        )[iw]));
        assert(combo_x(gens, cx, r, n)[iw] == (combo_x(gens, c1, r, n)[iw] != combo_x(
            gens,
            c2,
            r,
            n,
        )[iw]));
        assert(false);
    }
}

} // verus!
