use vstd::prelude::*;

verus! {

/// The failure modes of the library.
///
/// Shape mismatches and index errors are programmer errors; the invariant
/// violations arise from construction-time validation of codes, groups and
/// adjacency structures; `InvalidPauliString` reports an unparseable Pauli
/// string.
#[derive(Clone, Copy, Debug, PartialEq, Eq, Structural)]
pub enum QldpcError {
    /// Dimensions of operands disagree.
    ShapeMismatch,
    /// An adjacency list names a row or column outside the matrix.
    IndexOutOfRange,
    /// Row and column adjacency lists are unsorted or do not describe the
    /// same set of matrix entries.
    InconsistentAdjacency,
    /// A Pauli string holds a character outside the accepted grammar.
    InvalidPauliString,
    /// Two proposed stabilizer generators anticommute.
    NonCommutingGenerators,
    /// The proposed stabilizer generators are not linearly independent over
    /// GF(2).
    DependentGenerators,
    /// `H_X · H_Z^T != 0` for a proposed CSS code.
    NonOrthogonal,
    /// A proposed CSS code has no logical qubits (`k <= 0`).
    NoLogicalQubits,
}

} // verus!
