//! The error shared by every operation that takes a whole buffer.

use vstd::prelude::*;

verus! {

/// A buffer whose length does not match the grid's or the screen's.
#[derive(Debug, Clone, Copy, PartialEq, Eq, Structural)]
pub struct LengthMismatch {
    /// The length that was needed.
    pub expected: usize,
    /// The length that was given.
    pub found: usize,
}

} // verus!
