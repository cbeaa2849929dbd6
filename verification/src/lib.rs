//! simple hexadecimal conversion helpers.
//!
//! the goal of the `hex_core` crate is to provide a set of common utilities
//! upon which higher-level hexadecimal systems can easily be built.

pub mod byte;
pub mod error;
pub mod hex;
pub mod util;

pub use error::ParseHexError;

pub use hex::{from, into, into_upper};

pub use util::{as_str, as_str_upper};
