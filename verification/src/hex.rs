//! primary hexadecimal conversion functions.

use vstd::prelude::*;

use crate::byte;
use crate::byte::{decoded_pair, high_nibble, is_hex_digit, low_nibble, lower_digit, upper_digit};
use crate::error::ParseHexError;

verus! {

/// true of a byte sequence whose every element is a hexadecimal digit;
/// vacuously true of the empty sequence.
pub open spec fn is_hex_seq(hs: Seq<u8>) -> bool {
    forall|i: int| 0 <= i < hs.len() ==> is_hex_digit(#[trigger] hs[i])
}

/// the lowercase hexadecimal text of a byte sequence: two digits per byte,
/// high nibble first, in order.
pub open spec fn encoded_lower(bs: Seq<u8>) -> Seq<u8> {
    Seq::new(
        bs.len() * 2,
        |i: int|
            if i % 2 == 0 {
                lower_digit(high_nibble(bs[i / 2]))
            } else {
                lower_digit(low_nibble(bs[i / 2]))
            },
    )
}

/// the uppercase hexadecimal text of a byte sequence: two digits per byte,
/// high nibble first, in order.
pub open spec fn encoded_upper(bs: Seq<u8>) -> Seq<u8> {
    Seq::new(
        bs.len() * 2,
        |i: int|
            if i % 2 == 0 {
                upper_digit(high_nibble(bs[i / 2]))
            } else {
                upper_digit(low_nibble(bs[i / 2]))
            },
    )
}

/// the byte sequence a hexadecimal text decodes to: consecutive
/// non-overlapping pairs, each decoded case-insensitively, in order.
pub open spec fn decoded(hs: Seq<u8>) -> Seq<u8>
    recommends
        hs.len() % 2 == 0,
        is_hex_seq(hs),
{
    Seq::new(hs.len() / 2, |i: int| decoded_pair(hs[2 * i], hs[2 * i + 1]))
}

/// convert from hexadecimal to byte values.
///
/// parses a slice of hexadecimal bytes, writing output to the supplied
/// buffer. the `src` buffer must be exactly twice the size of the `dst`
/// buffer: any other pairing yields `InvalidSize` before any input is read.
/// the first non-hexadecimal byte aborts the conversion with `NonHexByte`,
/// and the contents of `dst` are then unspecified (its length is kept).
pub fn from(src: &[u8], dst: &mut Vec<u8>) -> (r: Result<(), ParseHexError>)
    ensures
        final(dst)@.len() == old(dst)@.len(),
        src@.len() != old(dst)@.len() * 2 ==> r == Err::<(), ParseHexError>(
            ParseHexError::InvalidSize,
        ) && final(dst)@ == old(dst)@,
        src@.len() == old(dst)@.len() * 2 && !is_hex_seq(src@) ==> r == Err::<(), ParseHexError>(
            ParseHexError::NonHexByte,
        ),
        r is Ok <==> src@.len() == old(dst)@.len() * 2 && is_hex_seq(src@),
        r is Ok ==> final(dst)@ == decoded(src@),
{
    if src.len() % 2 != 0 || dst.len() != src.len() / 2 {
        proof {
            assert(src@.len() == 2 * (src@.len() / 2) + src@.len() % 2);
        }
        return Err(ParseHexError::InvalidSize);
    }
    proof {
        assert(src@.len() == 2 * (src@.len() / 2) + src@.len() % 2);
    }
    let n: usize = dst.len();
    let mut idx: usize = 0;
    while idx < n
        invariant
            n == dst@.len(),
            n == old(dst)@.len(),
            src@.len() == n * 2,
            n * 2 <= usize::MAX,
            idx <= n,
            forall|j: int|
                0 <= j < idx ==> is_hex_digit(#[trigger] src@[2 * j]) && is_hex_digit(
                    src@[2 * j + 1],
                ) && dst@[j] == decoded_pair(src@[2 * j], src@[2 * j + 1]),
        decreases n - idx,
    {
        let char_a: u8 = src[2 * idx];
        let char_b: u8 = src[2 * idx + 1];
        match byte::from(char_a, char_b) {
            Ok(value) => {
                dst.set(idx, value);
            },
            Err(e) => {
                proof {
                    let bad: int = if !is_hex_digit(char_a) {
                        2 * idx as int
                    } else {
                        2 * idx as int + 1
                    };
                    assert(!is_hex_digit(src@[bad]));
                }
                return Err(e);
            },
        }
        idx = idx + 1;
    }
    proof {
        assert forall|i: int| 0 <= i < src@.len() implies is_hex_digit(#[trigger] src@[i]) by {
            let j: int = i / 2;
            assert(i == 2 * j || i == 2 * j + 1);
            assert(is_hex_digit(src@[2 * j]));
            assert(is_hex_digit(src@[2 * j + 1]));
        }
        assert(dst@ =~= decoded(src@));
    }
    Ok(())
}

/// convert from byte values to lowercase hexadecimal.
///
/// processes a slice of byte values, writing their corresponding lowercase
/// hexadecimal representation to the supplied buffer. the `dst` buffer must
/// be exactly twice the size of the `src` buffer: any other pairing yields
/// `InvalidSize` before any output is produced.
pub fn into(src: &[u8], dst: &mut Vec<u8>) -> (r: Result<(), ParseHexError>)
    ensures
        final(dst)@.len() == old(dst)@.len(),
        r is Ok <==> old(dst)@.len() == src@.len() * 2,
        r is Err ==> r == Err::<(), ParseHexError>(ParseHexError::InvalidSize) && final(dst)@
            == old(dst)@,
        r is Ok ==> final(dst)@ == encoded_lower(src@),
{
    if dst.len() % 2 != 0 || src.len() != dst.len() / 2 {
        proof {
            assert(old(dst)@.len() == 2 * (old(dst)@.len() / 2) + old(dst)@.len() % 2);
        }
        return Err(ParseHexError::InvalidSize);
    }
    proof {
        assert(old(dst)@.len() == 2 * (old(dst)@.len() / 2) + old(dst)@.len() % 2);
    }
    let n: usize = src.len();
    let mut idx: usize = 0;
    while idx < n
        invariant
            n == src@.len(),
            dst@.len() == n * 2,
            n * 2 <= usize::MAX,
            idx <= n,
            forall|j: int| 0 <= j < 2 * idx ==> #[trigger] dst@[j] == encoded_lower(src@)[j],
        decreases n - idx,
    {
        let (char_a, char_b): (u8, u8) = byte::into(src[idx]);
        dst.set(2 * idx, char_a);
        dst.set(2 * idx + 1, char_b);
        idx = idx + 1;
    }
    proof {
        assert(dst@ =~= encoded_lower(src@));
    }
    Ok(())
}

/// convert from byte values to uppercase hexadecimal.
///
/// processes a slice of byte values, writing their corresponding uppercase
/// hexadecimal representation to the supplied buffer. the `dst` buffer must
/// be exactly twice the size of the `src` buffer: any other pairing yields
/// `InvalidSize` before any output is produced.
pub fn into_upper(src: &[u8], dst: &mut Vec<u8>) -> (r: Result<(), ParseHexError>)
    ensures
        final(dst)@.len() == old(dst)@.len(),
        r is Ok <==> old(dst)@.len() == src@.len() * 2,
        r is Err ==> r == Err::<(), ParseHexError>(ParseHexError::InvalidSize) && final(dst)@
            == old(dst)@,
        r is Ok ==> final(dst)@ == encoded_upper(src@),
{
    if dst.len() % 2 != 0 || src.len() != dst.len() / 2 {
        proof {
            assert(old(dst)@.len() == 2 * (old(dst)@.len() / 2) + old(dst)@.len() % 2);
        }
        return Err(ParseHexError::InvalidSize);
    }
    proof {
        assert(old(dst)@.len() == 2 * (old(dst)@.len() / 2) + old(dst)@.len() % 2);
    }
    let n: usize = src.len();
    let mut idx: usize = 0;
    while idx < n
        invariant
            n == src@.len(),
            dst@.len() == n * 2,
            n * 2 <= usize::MAX,
            idx <= n,
            forall|j: int| 0 <= j < 2 * idx ==> #[trigger] dst@[j] == encoded_upper(src@)[j],
        decreases n - idx,
    {
        let (char_a, char_b): (u8, u8) = byte::into_upper(src[idx]);
        dst.set(2 * idx, char_a);
        dst.set(2 * idx + 1, char_b);
        idx = idx + 1;
    }
    proof {
        assert(dst@ =~= encoded_upper(src@));
    }
    Ok(())
}

/// buffer round trip, lowercase: the lowercase hexadecimal text of any byte
/// sequence is twice as long, consists of hexadecimal digits only, and
/// decodes to the sequence itself.
pub proof fn lemma_buffer_round_trip_lower(bs: Seq<u8>)
    ensures
        encoded_lower(bs).len() == bs.len() * 2,
        is_hex_seq(encoded_lower(bs)),
        decoded(encoded_lower(bs)) == bs,
{
    assert forall|i: int| 0 <= i < encoded_lower(bs).len() implies is_hex_digit(
        #[trigger] encoded_lower(bs)[i],
    ) by {
        byte::lemma_round_trip_lower(bs[i / 2]);
    }
    assert forall|i: int| 0 <= i < bs.len() implies #[trigger] decoded(encoded_lower(bs))[i]
        == bs[i] by {
        byte::lemma_round_trip_lower(bs[i]);
        assert(encoded_lower(bs)[2 * i] == lower_digit(high_nibble(bs[i])));
        assert(encoded_lower(bs)[2 * i + 1] == lower_digit(low_nibble(bs[i])));
    }
    assert(decoded(encoded_lower(bs)) =~= bs);
}

/// buffer round trip, uppercase: the uppercase hexadecimal text of any byte
/// sequence is twice as long, consists of hexadecimal digits only, and
/// decodes to the sequence itself.
pub proof fn lemma_buffer_round_trip_upper(bs: Seq<u8>)
    ensures
        encoded_upper(bs).len() == bs.len() * 2,
        is_hex_seq(encoded_upper(bs)),
        decoded(encoded_upper(bs)) == bs,
{
    assert forall|i: int| 0 <= i < encoded_upper(bs).len() implies is_hex_digit(
        #[trigger] encoded_upper(bs)[i],
    ) by {
        byte::lemma_round_trip_upper(bs[i / 2]);
    }
    assert forall|i: int| 0 <= i < bs.len() implies #[trigger] decoded(encoded_upper(bs))[i]
        == bs[i] by {
        byte::lemma_round_trip_upper(bs[i]);
        assert(encoded_upper(bs)[2 * i] == upper_digit(high_nibble(bs[i])));
        assert(encoded_upper(bs)[2 * i + 1] == upper_digit(low_nibble(bs[i])));
    }
    assert(decoded(encoded_upper(bs)) =~= bs);
}

} // verus!
