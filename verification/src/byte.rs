//! single-byte hexadecimal conversions.

use vstd::prelude::*;

use crate::error::ParseHexError;

verus! {

/// ASCII `'0'`.
pub const DIGIT_ZERO: u8 = 0x30;

/// ASCII `'9'`.
pub const DIGIT_NINE: u8 = 0x39;

/// ASCII `'a'`.
pub const DIGIT_LOWER_A: u8 = 0x61;

/// ASCII `'f'`.
pub const DIGIT_LOWER_F: u8 = 0x66;

/// ASCII `'A'`.
pub const DIGIT_UPPER_A: u8 = 0x41;

/// ASCII `'F'`.
pub const DIGIT_UPPER_F: u8 = 0x46;

/// true of exactly the ASCII bytes that are hexadecimal digits:
/// `0-9`, `a-f`, `A-F`.
pub open spec fn is_hex_digit(b: u8) -> bool {
    (DIGIT_ZERO <= b && b <= DIGIT_NINE) || (DIGIT_LOWER_A <= b && b <= DIGIT_LOWER_F) || (DIGIT_UPPER_A <= b && b <= DIGIT_UPPER_F)
}

/// the nibble value (in `0..16`) that a hexadecimal digit stands for,
/// case-insensitively.
pub open spec fn nibble_of_digit(b: u8) -> u8
    recommends
        is_hex_digit(b),
{
    if DIGIT_ZERO <= b && b <= DIGIT_NINE {
        (b - DIGIT_ZERO) as u8
    } else if DIGIT_LOWER_A <= b && b <= DIGIT_LOWER_F {
        (b - DIGIT_LOWER_A + 10) as u8
    } else {
        (b - DIGIT_UPPER_A + 10) as u8
    }
}

/// the byte value encoded by a pair of hexadecimal digits: the first digit
/// gives bits 7-4, the second bits 3-0.
pub open spec fn decoded_pair(a: u8, b: u8) -> u8
    recommends
        is_hex_digit(a),
        is_hex_digit(b),
{
    (nibble_of_digit(a) * 16 + nibble_of_digit(b)) as u8
}

/// the high nibble of a byte (bits 7-4).
pub open spec fn high_nibble(b: u8) -> u8 {
    b / 16
}

/// the low nibble of a byte (bits 3-0).
pub open spec fn low_nibble(b: u8) -> u8 {
    b % 16
}

/// the lowercase hexadecimal digit for a nibble value: `0-9` then `a-f`.
pub open spec fn lower_digit(n: u8) -> u8
    recommends
        n < 16,
{
    if n < 10 {
        (n + DIGIT_ZERO) as u8
    } else {
        (n - 10 + DIGIT_LOWER_A) as u8
    }
}

/// the uppercase hexadecimal digit for a nibble value: `0-9` then `A-F`.
pub open spec fn upper_digit(n: u8) -> u8
    recommends
        n < 16,
{
    if n < 10 {
        (n + DIGIT_ZERO) as u8
    } else {
        (n - 10 + DIGIT_UPPER_A) as u8
    }
}

/// attempt to parse the value of a byte encoded as a pair of
/// hexadecimal bytes.
///
/// accepts both lowercase and uppercase digits; any other byte in either
/// position yields `NonHexByte`.
pub fn from(char_a: u8, char_b: u8) -> (r: Result<u8, ParseHexError>)
    ensures
        r == (if is_hex_digit(char_a) && is_hex_digit(char_b) {
            Ok::<u8, ParseHexError>(decoded_pair(char_a, char_b))
        } else {
            Err::<u8, ParseHexError>(ParseHexError::NonHexByte)
        }),
{
    let byte_a: u8 = if DIGIT_UPPER_A <= char_a && char_a <= DIGIT_UPPER_F {
        char_a - DIGIT_UPPER_A + 10
    } else if DIGIT_LOWER_A <= char_a && char_a <= DIGIT_LOWER_F {
        char_a - DIGIT_LOWER_A + 10
    } else if DIGIT_ZERO <= char_a && char_a <= DIGIT_NINE {
        char_a - DIGIT_ZERO
    } else {
        return Err(ParseHexError::NonHexByte);
    };
    let byte_b: u8 = if DIGIT_UPPER_A <= char_b && char_b <= DIGIT_UPPER_F {
        char_b - DIGIT_UPPER_A + 10
    } else if DIGIT_LOWER_A <= char_b && char_b <= DIGIT_LOWER_F {
        char_b - DIGIT_LOWER_A + 10
    } else if DIGIT_ZERO <= char_b && char_b <= DIGIT_NINE {
        char_b - DIGIT_ZERO
    } else {
        return Err(ParseHexError::NonHexByte);
    };
    let byte: u8 = byte_a * 16 + byte_b;
    Ok(byte)
}

/// convert a standard byte value into a pair of lowercase hexadecimal bytes.
pub fn into(byte: u8) -> (r: (u8, u8))
    ensures
        r.0 == lower_digit(high_nibble(byte)),
        r.1 == lower_digit(low_nibble(byte)),
        is_hex_digit(r.0),
        is_hex_digit(r.1),
{
    let byte_a: u8 = byte / 16;
    let byte_b: u8 = byte % 16;
    let char_a: u8 = if byte_a < 10 {
        byte_a + DIGIT_ZERO
    } else {
        byte_a - 10 + DIGIT_LOWER_A
    };
    let char_b: u8 = if byte_b < 10 {
        byte_b + DIGIT_ZERO
    } else {
        byte_b - 10 + DIGIT_LOWER_A
    };
    (char_a, char_b)
}

/// convert a standard byte value into a pair of uppercase hexadecimal bytes.
pub fn into_upper(byte: u8) -> (r: (u8, u8))
    ensures
        r.0 == upper_digit(high_nibble(byte)),
        r.1 == upper_digit(low_nibble(byte)),
        is_hex_digit(r.0),
        is_hex_digit(r.1),
{
    let byte_a: u8 = byte / 16;
    let byte_b: u8 = byte % 16;
    let char_a: u8 = if byte_a < 10 {
        byte_a + DIGIT_ZERO
    } else {
        byte_a - 10 + DIGIT_UPPER_A
    };
    let char_b: u8 = if byte_b < 10 {
        byte_b + DIGIT_ZERO
    } else {
        byte_b - 10 + DIGIT_UPPER_A
    };
    (char_a, char_b)
}

/// round trip, lowercase: the lowercase hexadecimal digits of any byte are
/// valid hexadecimal digits, and decoding them yields the byte back.
pub proof fn lemma_round_trip_lower(b: u8)
    ensures
        is_hex_digit(lower_digit(high_nibble(b))),
        is_hex_digit(lower_digit(low_nibble(b))),
        decoded_pair(lower_digit(high_nibble(b)), lower_digit(low_nibble(b))) == b,
{
    assert(b == (b / 16) * 16 + b % 16) by (nonlinear_arith);
}

/// round trip, uppercase: the uppercase hexadecimal digits of any byte are
/// valid hexadecimal digits, and decoding them yields the byte back.
pub proof fn lemma_round_trip_upper(b: u8)
    ensures
        is_hex_digit(upper_digit(high_nibble(b))),
        is_hex_digit(upper_digit(low_nibble(b))),
        decoded_pair(upper_digit(high_nibble(b)), upper_digit(low_nibble(b))) == b,
{
    assert(b == (b / 16) * 16 + b % 16) by (nonlinear_arith);
}

} // verus!
