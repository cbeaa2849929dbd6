use hex_core::error::ParseHexError;
use hex_core::{byte, hex, util};

const LOWER: &[u8] = b"0123456789abcdef";

const UPPER: &[u8] = b"0123456789ABCDEF";

const LOWER_STR: &str = "0123456789abcdef";

const UPPER_STR: &str = "0123456789ABCDEF";

const BYTES: &[u8] = &[0x01, 0x23, 0x45, 0x67, 0x89, 0xab, 0xcd, 0xef];

#[test]
fn byte_lower() {
    for i in 0..256u32 {
        let i = i as u8;
        let (a, b) = byte::into(i);
        assert_eq!(i, byte::from(a, b).unwrap());
    }
}

#[test]
fn byte_upper() {
    for i in 0..256u32 {
        let i = i as u8;
        let (a, b) = byte::into_upper(i);
        assert_eq!(i, byte::from(a, b).unwrap());
    }
}

#[test]
fn hex_lower() {
    let mut lower_bytes = vec![0u8; BYTES.len()];
    hex::from(LOWER, &mut lower_bytes).unwrap();
    assert_eq!(BYTES, &*lower_bytes);
    let mut lower_hex = vec![0u8; LOWER.len()];
    hex::into(BYTES, &mut lower_hex).unwrap();
    assert_eq!(LOWER, &*lower_hex);
}

#[test]
fn hex_upper() {
    let mut upper_bytes = vec![0u8; BYTES.len()];
    hex::from(UPPER, &mut upper_bytes).unwrap();
    assert_eq!(BYTES, &*upper_bytes);
    let mut upper_hex = vec![0u8; UPPER.len()];
    hex::into_upper(BYTES, &mut upper_hex).unwrap();
    assert_eq!(UPPER, &*upper_hex);
}

#[test]
fn util_lower() {
    let mut lower_buff = vec![0u8; LOWER_STR.len()];
    let lower_str = util::as_str(BYTES, &mut lower_buff).unwrap();
    assert_eq!(LOWER_STR, lower_str.as_str());
}

#[test]
fn util_upper() {
    let mut upper_buff = vec![0u8; UPPER_STR.len()];
    let upper_str = util::as_str_upper(BYTES, &mut upper_buff).unwrap();
    assert_eq!(UPPER_STR, upper_str.as_str());
}

#[test]
fn bytes() {
    let upper: &[u8] = UPPER;
    let lower: &[u8] = LOWER;
    for byte in lower.iter().chain(upper) {
        assert!(util::is_hex_byte(*byte));
    }
    let nonhex = (0..256u32).filter_map(|i| {
        let byte = i as u8;
        if lower.contains(&byte) || upper.contains(&byte) {
            None
        } else {
            Some(byte)
        }
    });
    for byte in nonhex {
        assert!(!util::is_hex_byte(byte));
    }
}

#[test]
fn slice() {
    let upper: &[u8] = UPPER;
    let lower: &[u8] = LOWER;
    assert!(util::is_hex_slice(upper));
    assert!(util::is_hex_slice(lower));
    assert!(util::is_hex_slice(&[]));
    let nonhex = (0..256u32).filter_map(|i| {
        let byte = i as u8;
        if lower.contains(&byte) || upper.contains(&byte) {
            None
        } else {
            Some(byte)
        }
    });
    for byte in nonhex {
        assert!(!util::is_hex_slice(&[byte]));
    }
}

#[test]
fn case_insensitive_pair() {
    assert_eq!(byte::from(b'a', b'f').unwrap(), 0xaf);
    assert_eq!(byte::from(b'A', b'F').unwrap(), 0xaf);
    assert_eq!(byte::from(b'a', b'F').unwrap(), 0xaf);
}

#[test]
fn rejects_non_hex_pair() {
    assert_eq!(byte::from(b'g', b'0'), Err(ParseHexError::NonHexByte));
    assert_eq!(byte::from(b'0', b'z'), Err(ParseHexError::NonHexByte));
}

#[test]
fn validity_predicate() {
    assert!(util::is_hex_slice(b"0123456789abcdefABCDEF"));
    assert!(util::is_hex_slice(b""));
    assert!(!util::is_hex_slice(b"0g"));
}

#[test]
fn size_mismatch_rejected_before_output() {
    // decode: hex text not exactly twice the byte buffer
    let mut bytes = vec![7u8; 3];
    assert_eq!(
        hex::from(b"0011", &mut bytes),
        Err(ParseHexError::InvalidSize)
    );
    assert_eq!(bytes, vec![7u8; 3]);
    // odd-length hex text
    let mut one = vec![7u8; 1];
    assert_eq!(hex::from(b"abc", &mut one), Err(ParseHexError::InvalidSize));
    assert_eq!(one, vec![7u8; 1]);
    // encode, both variants
    let mut hex_buff = vec![7u8; 5];
    assert_eq!(
        hex::into(&[1, 2], &mut hex_buff),
        Err(ParseHexError::InvalidSize)
    );
    assert_eq!(
        hex::into_upper(&[1, 2], &mut hex_buff),
        Err(ParseHexError::InvalidSize)
    );
    assert_eq!(hex_buff, vec![7u8; 5]);
    // textual wrappers
    let mut text_buff = vec![7u8; 3];
    assert_eq!(
        util::as_str(&[1, 2], &mut text_buff),
        Err(ParseHexError::InvalidSize)
    );
    assert_eq!(
        util::as_str_upper(&[1, 2], &mut text_buff),
        Err(ParseHexError::InvalidSize)
    );
    assert_eq!(text_buff, vec![7u8; 3]);
}

#[test]
fn decode_rejects_first_bad_pair() {
    let mut bytes = vec![0u8; 2];
    assert_eq!(
        hex::from(b"0 ff", &mut bytes),
        Err(ParseHexError::NonHexByte)
    );
    assert_eq!(bytes.len(), 2);
}

#[test]
fn empty_buffers() {
    let mut bytes: Vec<u8> = Vec::new();
    hex::from(b"", &mut bytes).unwrap();
    assert!(bytes.is_empty());
    let mut hex_buff: Vec<u8> = Vec::new();
    hex::into(b"", &mut hex_buff).unwrap();
    assert!(hex_buff.is_empty());
    let text = util::as_str(b"", &mut hex_buff).unwrap();
    assert_eq!(text, "");
}

#[test]
fn buffer_round_trip_all_byte_values() {
    let all: Vec<u8> = (0..256u32).map(|i| i as u8).collect();
    let mut lower_hex = vec![0u8; 512];
    hex::into(&all, &mut lower_hex).unwrap();
    let mut back = vec![0u8; 256];
    hex::from(&lower_hex, &mut back).unwrap();
    assert_eq!(all, back);
    let mut upper_hex = vec![0u8; 512];
    hex::into_upper(&all, &mut upper_hex).unwrap();
    hex::from(&upper_hex, &mut back).unwrap();
    assert_eq!(all, back);
}

#[test]
fn text_view_matches_buffer() {
    let mut buff = vec![0u8; 4];
    let text = util::as_str(&[0xde, 0xad], &mut buff).unwrap();
    assert_eq!(text, "dead");
    assert_eq!(buff, b"dead");
    let upper_text = util::as_str_upper(&[0xde, 0xad], &mut buff).unwrap();
    assert_eq!(upper_text, "DEAD");
    assert_eq!(buff, b"DEAD");
}

#[test]
fn error_descriptions() {
    assert_eq!(
        ParseHexError::NonHexByte.as_str(),
        "encountered non-hexadecimal byte"
    );
    assert_eq!(
        ParseHexError::InvalidSize.as_str(),
        "hex string was not of valid size"
    );
}
