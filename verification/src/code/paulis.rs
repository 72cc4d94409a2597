//! Pauli operators with phase.
//!
//! A `Paulis` value is a Pauli operator on `n` qubits: a phase from
//! `{+1, +i, −1, −i}` together with the binary symplectic form of the
//! tensor factors.  Position `i` encodes `(x=0,z=0) → I`, `(x=1,z=0) → X`,
//! `(x=0,z=1) → Z`, `(x=1,z=1) → Y`.
//!
//! Phases are modelled by their exponent of `i`: the product of two phases
//! adds exponents mod 4, and the product of two operators multiplies the
//! phases with a per-position correction of `±i` where the single-qubit
//! factors anticommute.

use vstd::prelude::*;
use vstd::string::StrSliceExecFns;
use crate::bits::{bit_seq, xor_bits, BitVector};
use crate::code::binary_symplectic::BinarySymplecticVector;
use crate::errors::QldpcError;

verus! {

/// A phase from `{+1, +i, −1, −i}`.
#[derive(Debug, Clone, Copy, PartialEq, Eq, Structural)]
pub enum Phase {
    One,
    I,
    MinusOne,
    MinusI,
}

/// The exponent `e` with `phase == i^e`, in `{0, 1, 2, 3}`.
pub open spec fn phase_exp(p: Phase) -> int {
    match p {
        Phase::One => 0,
        Phase::I => 1,
        Phase::MinusOne => 2,
        Phase::MinusI => 3,
    }
}

impl Phase {
    /// The product of two phases: exponents of `i` add mod 4.
    pub fn mul(self, rhs: Phase) -> (r: Phase)
        ensures
            phase_exp(r) == (phase_exp(self) + phase_exp(rhs)) % 4,
    {
        match (self, rhs) {
            (Phase::One, p) => p,
            (p, Phase::One) => p,
            (Phase::I, Phase::I) => Phase::MinusOne,
            (Phase::I, Phase::MinusI) => Phase::One,
            (Phase::MinusI, Phase::I) => Phase::One,
            (Phase::MinusI, Phase::MinusI) => Phase::MinusOne,
            (Phase::I, Phase::MinusOne) => Phase::MinusI,
            (Phase::MinusOne, Phase::I) => Phase::MinusI,
            (Phase::MinusI, Phase::MinusOne) => Phase::I,
            (Phase::MinusOne, Phase::MinusI) => Phase::I,
            (Phase::MinusOne, Phase::MinusOne) => Phase::One,
        }
    }
}

/// A Pauli operator: a qubit count, a phase, and the binary symplectic form.
#[derive(Debug, Clone, PartialEq)]
pub struct Paulis {
    pub num_qubits: usize,
    pub phase: Phase,
    pub binary_symplectic_vector: BinarySymplecticVector,
}

/// The per-position phase correction of the Pauli product, as an exponent
/// of `i`: `0` where either factor is `I` or both are equal; `1` (`+i`) for
/// `X·Y`, `Y·Z` and `Z·X`; `3` (`−i`) for the opposite orderings.
pub open spec fn pauli_corr(az: bool, ax: bool, bz: bool, bx: bool) -> int {
    if (!az && !ax) || (!bz && !bx) {
        0
    } else if az == bz && ax == bx {
        0
    } else if (!az && ax && bz && bx) || (az && ax && bz && !bx) || (az && !ax && !bz && bx) {
        1
    } else {
        3
    }
}

/// The summed phase correction over the first `t` positions.
pub open spec fn corr_sum(az: Seq<bool>, ax: Seq<bool>, bz: Seq<bool>, bx: Seq<bool>, t: int) -> int
    decreases t,
{
    if t <= 0 {
        0
    } else {
        corr_sum(az, ax, bz, bx, t - 1) + pauli_corr(az[t - 1], ax[t - 1], bz[t - 1], bx[t - 1])
    }
}

/// Whether `c` names a single-qubit Pauli factor.
pub open spec fn is_pauli_char(c: char) -> bool {
    c == 'I' || c == 'X' || c == 'Y' || c == 'Z'
}

/// Where the operator body begins, after the optional `+`/`-` sign and the
/// optional `i`.
pub open spec fn pauli_body_start(s: Seq<char>) -> int {
    if s.len() > 0 && (s[0] == '+' || s[0] == '-') {
        if s.len() > 1 && s[1] == 'i' {
            2
        } else {
            1
        }
    } else if s.len() > 0 && s[0] == 'i' {
        1
    } else {
        0
    }
}

/// The accepted grammar: a nonempty string of an optional sign, an optional
/// `i`, and then one character per qubit from `{I, X, Y, Z}`; a sign must
/// be followed by something.
pub open spec fn valid_pauli_string(s: Seq<char>) -> bool {
    &&& s.len() > 0
    &&& ((s[0] == '+' || s[0] == '-') ==> s.len() >= 2)
    &&& forall|k: int| pauli_body_start(s) <= k < s.len() ==> is_pauli_char(#[trigger] s[k])
}

/// The phase exponent a string denotes: `2` for a leading `-`, plus `1` for
/// an `i` in the prefix.
pub open spec fn pauli_phase_exp_of(s: Seq<char>) -> int {
    (if s.len() > 0 && s[0] == '-' {
        2int
    } else {
        0int
    }) + (if pauli_body_start(s) == 2 || (s.len() > 0 && s[0] == 'i') {
        1int
    } else {
        0int
    })
}

/// The Z bits a string denotes: one per body character, set for `Z` and `Y`.
pub open spec fn pauli_z_bits_of(s: Seq<char>) -> Seq<bool> {
    Seq::new(
        (s.len() - pauli_body_start(s)) as nat,
        |k: int|
            {
                let c = s[pauli_body_start(s) + k];
                c == 'Z' || c == 'Y'
            },
    )
}

/// The X bits a string denotes: one per body character, set for `X` and `Y`.
pub open spec fn pauli_x_bits_of(s: Seq<char>) -> Seq<bool> {
    Seq::new(
        (s.len() - pauli_body_start(s)) as nat,
        |k: int|
            {
                let c = s[pauli_body_start(s) + k];
                c == 'X' || c == 'Y'
            },
    )
}

impl Paulis {
    /// The Z and X parts hold one bit per qubit.
    pub open spec fn wf(self) -> bool {
        &&& bit_seq(self.binary_symplectic_vector.z_part).len() == self.num_qubits
        &&& bit_seq(self.binary_symplectic_vector.x_part).len() == self.num_qubits
    }

    pub open spec fn z_bits(self) -> Seq<bool> {
        bit_seq(self.binary_symplectic_vector.z_part)
    }

    pub open spec fn x_bits(self) -> Seq<bool> {
        bit_seq(self.binary_symplectic_vector.x_part)
    }

    pub open spec fn exp(self) -> int {
        phase_exp(self.phase)
    }

    /// Builds an operator from its parts, validating the lengths.
    pub fn new(num_qubits: usize, phase: Phase, z_part: BitVector, x_part: BitVector) -> (r:
        Result<Self, QldpcError>)
        ensures
            match r {
                Ok(p) => {
                    &&& bit_seq(z_part).len() == num_qubits
                    &&& bit_seq(x_part).len() == num_qubits
                    &&& p.num_qubits == num_qubits
                    &&& p.phase == phase
                    &&& p.z_bits() == bit_seq(z_part)
                    &&& p.x_bits() == bit_seq(x_part)
                    &&& p.wf()
                },
                Err(e) => {
                    &&& e == QldpcError::ShapeMismatch
                    &&& !(bit_seq(z_part).len() == num_qubits && bit_seq(x_part).len()
                        == num_qubits)
                },
            },
    {
        if z_part.len() != num_qubits || x_part.len() != num_qubits {
            return Err(QldpcError::ShapeMismatch);
        }
        Ok(
            Paulis {
                num_qubits,
                phase,
                binary_symplectic_vector: BinarySymplecticVector { x_part, z_part },
            },
        )
    }

    /// Parses an operator from text such as `+XZIY`, `-iYZXI` or `IIXI`.
    pub fn from_stirng(s: &str) -> (r: Result<Self, QldpcError>)
        ensures
            match r {
                Ok(p) => {
                    &&& valid_pauli_string(s@)
                    &&& p.wf()
                    &&& p.num_qubits == s@.len() - pauli_body_start(s@)
                    &&& phase_exp(p.phase) == pauli_phase_exp_of(s@)
                    &&& p.z_bits() == pauli_z_bits_of(s@)
                    &&& p.x_bits() == pauli_x_bits_of(s@)
                },
                Err(e) => {
                    &&& e == QldpcError::InvalidPauliString
                    &&& !valid_pauli_string(s@)
                },
            },
    {
        let len = s.unicode_len();
        if len == 0 {
            return Err(QldpcError::InvalidPauliString);
        }
        let c0 = s.get_char(0);
        let mut start: usize = 0;
        let mut neg = false;
        let mut has_i = false;
        if c0 == '+' || c0 == '-' {
            neg = c0 == '-';
            if len < 2 {
                return Err(QldpcError::InvalidPauliString);
            }
            let c1 = s.get_char(1);
            if c1 == 'i' {
                has_i = true;
                start = 2;
            } else {
                start = 1;
            }
        } else if c0 == 'i' {
            has_i = true;
            start = 1;
        }
        assert(start == pauli_body_start(s@));
        let n = len - start;
        let mut z = BitVector::repeat(false, n);
        let mut x = BitVector::repeat(false, n);
        let mut k: usize = 0;
        while k < n
            invariant
                k <= n,
                n == s@.len() - start,
                start == pauli_body_start(s@),
                start + n == s@.len(),
                start + n <= usize::MAX,
                bit_seq(z).len() == n,
                bit_seq(x).len() == n,
                forall|t: int| start <= t < start + k ==> is_pauli_char(#[trigger] s@[t]),
                forall|t: int|
                    0 <= t < k ==> bit_seq(z)[t] == (s@[start + t] == 'Z' || s@[start + t] == 'Y'),
                forall|t: int|
                    0 <= t < k ==> bit_seq(x)[t] == (s@[start + t] == 'X' || s@[start + t] == 'Y'),
                forall|t: int| k <= t < n ==> !bit_seq(z)[t] && !bit_seq(x)[t],
            decreases n - k,
        {
            let c = s.get_char(start + k);
            if c == 'I' {
            } else if c == 'X' {
                x.set(k, true);
            } else if c == 'Y' {
                z.set(k, true);
                x.set(k, true);
            } else if c == 'Z' {
                z.set(k, true);
            } else {
                proof {
                    assert(!is_pauli_char(s@[start + k as int]));
                }
                return Err(QldpcError::InvalidPauliString);
            }
            k += 1;
        }
        let phase = if neg {
            if has_i {
                Phase::MinusI
            } else {
                Phase::MinusOne
            }
        } else {
            if has_i {
                Phase::I
            } else {
                Phase::One
            }
        };
        proof {
            assert(bit_seq(z) =~= pauli_z_bits_of(s@));
            assert(bit_seq(x) =~= pauli_x_bits_of(s@));
        }
        Ok(
            Paulis {
                num_qubits: n,
                phase,
                binary_symplectic_vector: BinarySymplecticVector { x_part: x, z_part: z },
            },
        )
    }

    /// The identity operator on `num_qubits` qubits: phase `+1`, all bits
    /// clear.
    pub fn identity(num_qubits: usize) -> (r: Self)
        ensures
            r.wf(),
            r.num_qubits == num_qubits,
            r.phase == Phase::One,
            forall|t: int| 0 <= t < num_qubits ==> !r.z_bits()[t] && !r.x_bits()[t],
    {
        let z_part = BitVector::repeat(false, num_qubits);
        let x_part = BitVector::repeat(false, num_qubits);
        Paulis {
            num_qubits,
            phase: Phase::One,
            binary_symplectic_vector: BinarySymplecticVector { x_part, z_part },
        }
    }

    /// The qubit count.
    pub fn get_num_qubits(&self) -> (r: usize)
        ensures
            r == self.num_qubits,
    {
        self.num_qubits
    }

    /// The phase.
    pub fn get_phase(&self) -> (r: Phase)
        ensures
            r == self.phase,
    {
        self.phase
    }

    /// The binary symplectic form.
    pub fn get_binary_symplectic_vector(&self) -> (r: &BinarySymplecticVector)
        ensures
            *r == self.binary_symplectic_vector,
    {
        &self.binary_symplectic_vector
    }

    /// The Z part.
    pub fn get_z_part(&self) -> (r: &BitVector)
        ensures
            *r == self.binary_symplectic_vector.z_part,
    {
        &self.binary_symplectic_vector.z_part
    }

    /// The X part.
    pub fn get_x_part(&self) -> (r: &BitVector)
        ensures
            *r == self.binary_symplectic_vector.x_part,
    {
        &self.binary_symplectic_vector.x_part
    }

    /// Whether the two operators commute: true exactly when the symplectic
    /// product of their binary forms is zero.
    pub fn commutes(&self, other: &Paulis) -> (r: bool)
        requires
            self.wf(),
            other.wf(),
            self.num_qubits == other.num_qubits,
        ensures
            r == !crate::code::binary_symplectic::symp_product(
                self.binary_symplectic_vector,
                other.binary_symplectic_vector,
            ),
    {
        !self.binary_symplectic_vector.symplectic_product(&other.binary_symplectic_vector)
    }

    /// The Pauli product.
    ///
    /// The bits combine by exclusive or; the phase is the product of the two
    /// phases and of a `±i` correction for every position whose factors
    /// anticommute.
    pub fn mul(&self, rhs: &Paulis) -> (r: Paulis)
        requires
            self.wf(),
            rhs.wf(),
            self.num_qubits == rhs.num_qubits,
        ensures
            r.wf(),
            r.num_qubits == self.num_qubits,
            r.z_bits() == xor_bits(self.z_bits(), rhs.z_bits()),
            r.x_bits() == xor_bits(self.x_bits(), rhs.x_bits()),
            phase_exp(r.phase) == (self.exp() + rhs.exp() + corr_sum(
                self.z_bits(),
                self.x_bits(),
                rhs.z_bits(),
                rhs.x_bits(),
                self.num_qubits as int,
            )) % 4,
    {
        let n = self.num_qubits;
        let mut phase = self.phase.mul(rhs.phase);
        let mut z = BitVector::repeat(false, n);
        let mut x = BitVector::repeat(false, n);
        let mut i: usize = 0;
        while i < n
            invariant
                i <= n,
                self.wf(),
                rhs.wf(),
                n == self.num_qubits,
                self.num_qubits == rhs.num_qubits,
                bit_seq(z).len() == n,
                bit_seq(x).len() == n,
                forall|t: int|
                    0 <= t < i ==> bit_seq(z)[t] == (self.z_bits()[t] != rhs.z_bits()[t]),
                forall|t: int|
                    0 <= t < i ==> bit_seq(x)[t] == (self.x_bits()[t] != rhs.x_bits()[t]),
                forall|t: int| i <= t < n ==> !bit_seq(z)[t] && !bit_seq(x)[t],
                phase_exp(phase) == (self.exp() + rhs.exp() + corr_sum(
                    self.z_bits(),
                    self.x_bits(),
                    rhs.z_bits(),
                    rhs.x_bits(),
                    i as int,
                )) % 4,
            decreases n - i,
        {
            let a_z = self.binary_symplectic_vector.z_part.get(i);
            let a_x = self.binary_symplectic_vector.x_part.get(i);
            let b_z = rhs.binary_symplectic_vector.z_part.get(i);
            let b_x = rhs.binary_symplectic_vector.x_part.get(i);
            match (a_z, a_x, b_z, b_x) {
                (false, false, _, _) => {},
                (_, _, false, false) => {},
                (true, false, true, false) | (false, true, false, true) | (true, true, true, true) => {
                },
                (false, true, true, true) | (true, true, true, false) | (true, false, false, true) => {
                    phase = phase.mul(Phase::I);
                },
                (false, true, true, false) | (true, true, false, true) | (true, false, true, true) => {
                    phase = phase.mul(Phase::MinusI);
                },
            }
            if a_z != b_z {
                z.set(i, true);
            }
            if a_x != b_x {
                x.set(i, true);
            }
            i += 1;
        }
        proof {
            assert(bit_seq(z) =~= xor_bits(self.z_bits(), rhs.z_bits()));
            assert(bit_seq(x) =~= xor_bits(self.x_bits(), rhs.x_bits()));
        }
        Paulis {
            num_qubits: n,
            phase,
            binary_symplectic_vector: BinarySymplecticVector { x_part: x, z_part: z },
        }
    }
}

} // verus!
