//! The common face of quantum codes, in its older `get_`-prefixed form.

use vstd::prelude::*;

verus! {

/// What every code reports: a display name, the qubit count `n`, and the
/// logical qubit count `k`.
pub trait QuantumCode {
    /// The code's display name.
    fn get_code_name(&self) -> &str;

    /// The number of physical qubits.
    fn get_n(&self) -> usize;

    /// The number of logical qubits.
    fn get_k(&self) -> usize;
}

} // verus!
