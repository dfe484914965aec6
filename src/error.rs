use vstd::prelude::*;

verus! {

/// Why a packet could not be decoded. Every one of these ends the decode:
/// no partial tree is ever returned.
#[derive(Debug, Clone, Copy, PartialEq, Eq, Structural)]
pub enum DecodeError {
    /// The text holds a character that is not a hexadecimal digit.
    BadHexDigit,
    /// A field runs past the end of the bit stream.
    Truncated,
    /// Children framed by a bit length overran that length.
    LengthMismatch,
    /// A literal's nibbles make a number that does not fit in 64 bits.
    LiteralOverflow,
    /// An operator has a number of children its operation does not accept.
    BadArity,
}

} // verus!
