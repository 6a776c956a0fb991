use vstd::prelude::*;

verus! {

/// Why a byte buffer could not be decoded.
///
/// A failed decode never yields a partial value: the whole call fails.
#[derive(Clone, Copy, Debug, PartialEq, Eq, Structural)]
pub enum DecodeError {
    /// A byte that is not the tag of any operation stood where an operation
    /// was expected.
    InvalidOpcode(u8),
    /// The buffer ended before the structure did.
    UnexpectedEnd,
    /// An integer's leading byte announced a width the integer's type cannot
    /// hold.
    InvalidInteger,
}

} // verus!
