//! Stabilizer codes.
//!
//! A `StabilizerCode` names a validated [`StabilizerGroup`]; its parameters
//! are `n` qubits and `k = n − r` logical qubits for `r` generators.

use vstd::prelude::*;
use crate::code::paulis::Paulis;
use crate::code::quantum_code::QuantumCode;
use crate::code::stabilizer::StabilizerGroup;
use crate::errors::QldpcError;

verus! {

/// A named stabilizer code.
#[derive(Debug, Clone)]
pub struct StabilizerCode {
    pub code_name: String,
    pub stabilizer_group: StabilizerGroup,
}

impl StabilizerCode {
    /// Packs a code from a name and an already validated group.
    pub fn new(code_name: String, stabilizer_group: StabilizerGroup) -> (r: Self)
        ensures
            r.code_name == code_name,
            r.stabilizer_group == stabilizer_group,
    {
        StabilizerCode { code_name, stabilizer_group }
    }

    /// Builds a code from generators, validating them as a stabilizer
    /// group.
    pub fn from_generators(code_name: &str, generators: Vec<Paulis>) -> (r: Result<
        Self,
        QldpcError,
    >)
        requires
            generators@.len() > 0 ==> generators@[0].num_qubits <= usize::MAX / 2,
        ensures
            ({
                let shapes_ok = generators@.len() > 0 && crate::code::stabilizer::all_on(
                    generators@,
                    generators@[0].num_qubits as nat,
                );
                let independent = generators@.len() <= generators@[0].num_qubits
                    && crate::math::bit_linear_algebra::elim_rank(
                    crate::code::stabilizer::stacked_symplectic(generators@),
                    2 * generators@[0].num_qubits,
                ) == generators@.len();
                match r {
                    Ok(c) => {
                        &&& shapes_ok
                        &&& crate::code::stabilizer::pairwise_commuting(generators@)
                        &&& independent
                        &&& c.code_name@ == code_name@
                        &&& c.stabilizer_group.wf()
                        &&& c.stabilizer_group.generators@ == generators@
                        &&& c.stabilizer_group.num_qubits == generators@[0].num_qubits
                    },
                    Err(e) => {
                        &&& (e == QldpcError::ShapeMismatch <==> !shapes_ok)
                        &&& (e == QldpcError::NonCommutingGenerators <==> shapes_ok
                            && !crate::code::stabilizer::pairwise_commuting(generators@))
                        &&& (e == QldpcError::DependentGenerators <==> shapes_ok
                            && crate::code::stabilizer::pairwise_commuting(generators@)
                            && !independent)
                        &&& (e == QldpcError::ShapeMismatch || e
                            == QldpcError::NonCommutingGenerators || e
                            == QldpcError::DependentGenerators)
                    },
                }
            }),
    {
        match StabilizerGroup::new(generators) {
            Ok(stabilizer_group) => Ok(
                StabilizerCode { code_name: code_name.to_owned(), stabilizer_group },
            ),
            Err(e) => Err(e),
        }
    }

    /// The number of stabilizer generators.
    pub fn get_num_stabilizers(&self) -> (r: usize)
        ensures
            r == self.stabilizer_group.generators@.len(),
    {
        self.stabilizer_group.get_num_generators()
    }

    /// The stabilizer group.
    pub fn get_stabilizer_group(&self) -> (r: &StabilizerGroup)
        ensures
            *r == self.stabilizer_group,
    {
        &self.stabilizer_group
    }
}

impl QuantumCode for StabilizerCode {
    /// The code's display name.
    fn get_code_name(&self) -> (r: &str)
        ensures
            r@ == self.code_name@,
    {
        self.code_name.as_str()
    }

    /// The qubit count.
    fn get_n(&self) -> (r: usize)
        ensures
            r == self.stabilizer_group.num_qubits,
    {
        self.stabilizer_group.get_num_qubits()
    }

    /// The number of logical qubits, `n − r`, clipped to zero on a group
    /// holding more generators than qubits.
    fn get_k(&self) -> (r: usize)
        ensures
            r as int == ({
                let n = self.stabilizer_group.num_qubits as int;
                let gens = self.stabilizer_group.generators@.len() as int;
                if gens <= n {
                    n - gens
                } else {
                    0
                }
            }),
    {
        let n = self.stabilizer_group.get_num_qubits();
        let r = self.stabilizer_group.get_num_generators();
        if r <= n {
            n - r
        } else {
            0
        }
    }
}

} // verus!
