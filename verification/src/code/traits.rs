//! The common face of quantum codes.

use vstd::prelude::*;

verus! {

/// What every code reports: a display name, the qubit count `n`, and the
/// logical qubit count `k`.
pub trait QuantumCode {
    /// The code's display name.
    fn code_name(&self) -> &str;

    /// The number of physical qubits.
    fn n(&self) -> usize;

    /// The number of logical qubits.
    fn k(&self) -> usize;
}

} // verus!
