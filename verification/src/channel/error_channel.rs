//! The common face of Pauli error channels.
//!
//! Concrete channels draw their randomness outside the library; they hand
//! back plain [`ErrorVector`] values.

use vstd::prelude::*;
use crate::code::error_vector::ErrorVector;

verus! {

/// A source of Pauli error patterns.
pub trait ErrorChannel {
    /// Draws one error pattern.
    fn sample(&self) -> ErrorVector;

    /// Draws `num_samples` error patterns, as if by that many calls of
    /// `sample`.
    fn sample_batch(&self, num_samples: usize) -> Vec<ErrorVector>;
}

} // verus!
