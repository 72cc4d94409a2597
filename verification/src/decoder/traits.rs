//! The common face of decoders.

use vstd::prelude::*;
use crate::code::error_vector::{ErrorVector, Syndrome};

verus! {

/// A decoder maps a syndrome to an estimated error pattern, mutating its
/// own scratch state along the way.
pub trait Decoder {
    /// The decoder's display name.
    fn name(&self) -> &str;

    /// Decodes a syndrome into an estimated error pattern.
    fn decode(&mut self, syndrome: &Syndrome) -> ErrorVector;
}

} // verus!
