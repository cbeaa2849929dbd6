//! non-essential utilities.

use vstd::prelude::*;

use crate::byte::is_hex_digit;
use crate::error::ParseHexError;
use crate::hex;
use crate::hex::{encoded_lower, encoded_upper, is_hex_seq};

verus! {

/// the characters of an ASCII byte sequence, one character per byte.
pub open spec fn chars_of_bytes(bs: Seq<u8>) -> Seq<char> {
    bs.map_values(|b: u8| b as char)
}

/// check if supplied byte is a valid hexadecimal byte (UTF-8).
pub fn is_hex_byte(byte: u8) -> (r: bool)
    ensures
        r == is_hex_digit(byte),
{
    (0x30 <= byte && byte <= 0x39) || (0x61 <= byte && byte <= 0x66) || (0x41 <= byte && byte
        <= 0x46)
}

/// check if supplied slice is valid hexadecimal bytes (UTF-8).
pub fn is_hex_slice(bytes: &[u8]) -> (r: bool)
    ensures
        r == is_hex_seq(bytes@),
{
    let n: usize = bytes.len();
    let mut idx: usize = 0;
    while idx < n
        invariant
            n == bytes@.len(),
            idx <= n,
            forall|j: int| 0 <= j < idx ==> is_hex_digit(#[trigger] bytes@[j]),
        decreases n - idx,
    {
        if !is_hex_byte(bytes[idx]) {
            return false;
        }
        idx = idx + 1;
    }
    true
}

/// relies on `String::from_utf8`: bytes below `0x80` are valid UTF-8 and
/// decode to one character per byte, each the character with that byte's
/// code point, so the call returns `Ok` and the text mirrors the bytes.
#[verifier::external_body]
fn ascii_to_string(bytes: &Vec<u8>) -> (r: String)
    requires
        forall|i: int| 0 <= i < bytes@.len() ==> #[trigger] bytes@[i] < 0x80,
    ensures
        r@ == chars_of_bytes(bytes@),
{
    String::from_utf8(bytes.clone()).unwrap()
}

/// equivalent to `hex::into` with an additional textual result.
///
/// fills `dst` with the lowercase hexadecimal text of `src` and returns the
/// same text as an owned string; yields `InvalidSize` when `dst` is not
/// exactly twice the size of `src`, leaving `dst` unchanged.
pub fn as_str(src: &[u8], dst: &mut Vec<u8>) -> (r: Result<String, ParseHexError>)
    ensures
        final(dst)@.len() == old(dst)@.len(),
        r is Ok <==> old(dst)@.len() == src@.len() * 2,
        r is Err ==> r == Err::<String, ParseHexError>(ParseHexError::InvalidSize) && final(dst)@
            == old(dst)@,
        r is Ok ==> final(dst)@ == encoded_lower(src@) && r->Ok_0@ == chars_of_bytes(
            encoded_lower(src@),
        ),
{
    match hex::into(src, dst) {
        Ok(()) => {
            proof {
                hex::lemma_buffer_round_trip_lower(src@);
                assert forall|i: int| 0 <= i < dst@.len() implies #[trigger] dst@[i] < 0x80 by {
                    assert(is_hex_digit(dst@[i]));
                }
            }
            Ok(ascii_to_string(dst))
        },
        Err(e) => Err(e),
    }
}

/// equivalent to `hex::into_upper` with an additional textual result.
///
/// fills `dst` with the uppercase hexadecimal text of `src` and returns the
/// same text as an owned string; yields `InvalidSize` when `dst` is not
/// exactly twice the size of `src`, leaving `dst` unchanged.
pub fn as_str_upper(src: &[u8], dst: &mut Vec<u8>) -> (r: Result<String, ParseHexError>)
    ensures
        final(dst)@.len() == old(dst)@.len(),
        r is Ok <==> old(dst)@.len() == src@.len() * 2,
        r is Err ==> r == Err::<String, ParseHexError>(ParseHexError::InvalidSize) && final(dst)@
            == old(dst)@,
        r is Ok ==> final(dst)@ == encoded_upper(src@) && r->Ok_0@ == chars_of_bytes(
            encoded_upper(src@),
        ),
{
    match hex::into_upper(src, dst) {
        Ok(()) => {
            proof {
                hex::lemma_buffer_round_trip_upper(src@);
                assert forall|i: int| 0 <= i < dst@.len() implies #[trigger] dst@[i] < 0x80 by {
                    assert(is_hex_digit(dst@[i]));
                }
            }
            Ok(ascii_to_string(dst))
        },
        Err(e) => Err(e),
    }
}

} // verus!
