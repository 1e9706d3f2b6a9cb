//! What can go wrong in the pool's own work.

use vstd::prelude::*;

verus! {

/// Why a text is not hexadecimal.
#[derive(Debug, Clone, Copy, PartialEq, Eq)]
pub enum FromHexError {
    /// The byte at `index` is no hexadecimal digit; `c` is the character with its number.
    InvalidHexCharacter { c: char, index: usize },
    /// Two digits make a byte, and there is one digit too few or too many.
    OddLength,
    /// The digits do not fill a buffer of fixed size.
    InvalidStringLength,
}

#[derive(Debug, Clone, Copy, PartialEq, Eq)]
pub enum PoolError {
    FromHexError(FromHexError),
}

} // verus!
