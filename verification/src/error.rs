//! hexadecimal parsing errors.

use vstd::prelude::*;

verus! {

/// errors produced during hexadecimal string parsing.
#[derive(Debug, Copy, Clone, Hash, PartialEq, Eq, PartialOrd, Ord, Structural)]
pub enum ParseHexError {
    /// encountered a non-hexadecimal byte
    NonHexByte,
    /// hex string was not of valid size
    InvalidSize,
}

impl ParseHexError {
    /// get value of error as static string slice.
    pub fn as_str(&self) -> (r: &'static str)
        ensures
            *self == ParseHexError::NonHexByte ==> r@ == "encountered non-hexadecimal byte"@,
            *self == ParseHexError::InvalidSize ==> r@ == "hex string was not of valid size"@,
    {
        match *self {
            ParseHexError::NonHexByte => "encountered non-hexadecimal byte",
            ParseHexError::InvalidSize => "hex string was not of valid size",
        }
    }
}

} // verus!
