//! What can go wrong inside the library.

use vstd::prelude::*;

verus! {

/// The error of every fallible function of the library.
#[derive(Debug, Clone, Copy, PartialEq, Eq, Structural)]
pub enum FunkyError {
    /// The source has more characters than a 32-bit line number can count.
    SourceTooLarge,
    /// `--check` and `--in-place` were given together.
    ConflictingModes,
}

} // verus!
