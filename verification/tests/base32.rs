use stip::base32::{b32decode, b32encode, ParseError};

fn good() -> Vec<(&'static [u8], &'static [u8])> {
    vec![
        (b"", b""),
        (b"OM======", b"\x73"),
        (b"GQZQ====", b"\x34\x33"),
        (b"fe3ue===", b"\x29\x37\x42"),
        (b"2RAJ4KA=", b"\xD4\x40\x9E\x28"),
        (b"irvzqone", b"\x44\x6B\x98\x39\xA4"),
        (b"TOX2D7T5WIZXWBO62FLMRLD2PPMXZ5YBL7BC2===", b"\x9B\xAF\xA1\xFE\x7D\xB2\x33\x7B\x05\xDE\xD1\x56\xC8\xAC\x7A\x7B\xD9\x7C\xF7\x01\x5F\xC2\x2D"),
        (b"zowrzjxqh2pfzc54dc4baviexlvxdtito4m4igi=", b"\xCB\xAD\x1C\xA6\xF0\x3E\x9E\x5C\x8B\xBC\x18\xB8\x10\x55\x04\xBA\xEB\x71\xCD\x13\x77\x19\xC4\x19"),
        (b"5FB2PALLET2NFGZ72LCVC6PE6VBDF6PC2ZGPP7DD", b"\xE9\x43\xA7\x81\x6B\x24\xF4\xD2\x9B\x3F\xD2\xC5\x51\x79\xE4\xF5\x42\x32\xF9\xE2\xD6\x4C\xF7\xFC\x63"),
    ]
}

fn bad() -> Vec<&'static [u8]> {
    vec![b"a0======", b"a1======", b"a/======", b"0M=A===="]
}

#[test]
fn base32_test_good_base32_strings() {
    for (input, expected) in good() {
        assert_eq!(b32decode(input).unwrap().as_slice(), expected);
    }
}

#[test]
fn base32_test_bad_base32_strings() {
    for input in bad() {
        b32decode(input).unwrap_err();
    }
}

#[test]
fn test_good_base32_strings() {
    for (input, expected) in good() {
        assert_eq!(b32decode(input).unwrap().as_slice(), expected);
    }
}

#[test]
fn test_bad_base32_strings() {
    for input in bad() {
        b32decode(input).unwrap_err();
    }
}

#[test]
fn test_good_b32encode() {
    for (expected, input) in good() {
        assert_eq!(b32encode(input).as_bytes(), expected.to_ascii_uppercase());
    }
}

#[test]
fn bad_strings_fail_with_invalid_character() {
    for input in bad() {
        assert_eq!(b32decode(input), Err(ParseError::InvalidCharacter));
    }
}

#[test]
fn padding_must_be_a_trailing_run() {
    assert_eq!(b32decode(b"OM=M"), Err(ParseError::InvalidCharacter));
    assert_eq!(b32decode(b"=OM"), Err(ParseError::InvalidCharacter));
    assert_eq!(b32decode(b"O=M====="), Err(ParseError::InvalidCharacter));
    assert_eq!(b32decode(b"========"), Ok(vec![]));
    assert_eq!(b32decode(b"="), Ok(vec![]));
}

#[test]
fn padding_is_not_required() {
    assert_eq!(b32decode(b"OM"), Ok(vec![0x73]));
    assert_eq!(b32decode(b"GQZQ"), Ok(vec![0x34, 0x33]));
    assert_eq!(b32decode(b"O"), Ok(vec![]));
    assert_eq!(b32decode(b"OM=="), Ok(vec![0x73]));
}

#[test]
fn trailing_bits_are_dropped_whatever_they_hold() {
    assert_eq!(b32decode(b"OM======"), Ok(vec![0x73]));
    assert_eq!(b32decode(b"ON======"), Ok(vec![0x73]));
    assert_eq!(b32decode(b"OP======"), Ok(vec![0x73]));
    assert_eq!(b32decode(b"GQZR===="), Ok(vec![0x34, 0x33]));
}

#[test]
fn every_character_outside_the_alphabet_is_refused() {
    for c in 0..=255u8 {
        let accepted = c.is_ascii_alphabetic() || (b'2'..=b'7').contains(&c) || c == b'=';
        let text = [b'A', c];
        assert_eq!(b32decode(&text).is_ok(), accepted, "character {}", c);
    }
}

#[test]
fn both_cases_decode_alike() {
    let upper = b32decode(b"TOX2D7T5WIZXWBO62FLMRLD2PPMXZ5YBL7BC2===").unwrap();
    let lower = b32decode(b"tox2d7t5wizxwbo62flmrld2ppmxz5ybl7bc2===").unwrap();
    assert_eq!(upper, lower);
}

#[test]
fn encoding_pads_to_a_multiple_of_eight() {
    assert_eq!(b32encode(b""), "");
    assert_eq!(b32encode(b"f"), "MY======");
    assert_eq!(b32encode(b"fo"), "MZXQ====");
    assert_eq!(b32encode(b"foo"), "MZXW6===");
    assert_eq!(b32encode(b"foob"), "MZXW6YQ=");
    assert_eq!(b32encode(b"fooba"), "MZXW6YTB");
    assert_eq!(b32encode(b"foobar"), "MZXW6YTBOI======");
    for len in 1..40usize {
        let data: Vec<u8> = (0..len).map(|i| (i * 37 + 11) as u8).collect();
        assert_eq!(b32encode(&data).len() % 8, 0);
        assert_eq!(b32encode(&data).len(), (len + 4) / 5 * 8);
    }
}

#[test]
fn decoding_undoes_encoding() {
    let mut data: Vec<u8> = Vec::new();
    let mut state: u32 = 0x1234_5678;
    for _ in 0..300 {
        let text = b32encode(&data);
        assert_eq!(b32decode(text.as_bytes()), Ok(data.clone()));
        state = state.wrapping_mul(1_664_525).wrapping_add(1_013_904_223);
        data.push((state >> 24) as u8);
    }
    let all: Vec<u8> = (0..=255u8).collect();
    assert_eq!(b32decode(b32encode(&all).as_bytes()), Ok(all));
}
