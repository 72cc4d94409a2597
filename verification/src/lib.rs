//! Building blocks of a quantum LDPC error-correction simulator: sparse
//! and dense binary linear algebra over GF(2), Pauli operators in binary
//! symplectic form, stabilizer groups, CSS codes with their syndrome map,
//! and the structural side of a belief-propagation decoder.

pub mod bits;
pub mod channel;
pub mod code;
pub mod decoder;
pub mod errors;
pub mod math;
