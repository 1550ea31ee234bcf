use stip::text::{chars_of, parse_decimal, render_decimal, render_padded, same_text, text_of};

#[test]
fn a_text_is_its_characters() {
    assert_eq!(chars_of(""), Vec::<char>::new());
    assert_eq!(chars_of("aß€😀"), vec!['a', 'ß', '€', '😀']);
    let chars = chars_of("höher:ü");
    assert_eq!(text_of(&chars, 0, 5), "höher");
    assert_eq!(text_of(&chars, 6, 7), "ü");
    assert_eq!(text_of(&chars, 3, 3), "");
    assert_eq!(text_of(&chars, 0, 7), "höher:ü");
}

#[test]
fn texts_are_the_same_where_their_characters_are() {
    assert!(same_text("", ""));
    assert!(same_text("secret", "secret"));
    assert!(!same_text("secret", "Secret"));
    assert!(!same_text("secret", "secrets"));
    assert!(!same_text("secret", ""));
    assert!(same_text("ü€", "ü€"));
    assert!(!same_text("ü", "u\u{308}"));
}

#[test]
fn decimal_numbers_are_read_up_to_a_limit() {
    assert_eq!(parse_decimal("0", 10), Some(0));
    assert_eq!(parse_decimal("10", 10), Some(10));
    assert_eq!(parse_decimal("11", 10), None);
    assert_eq!(parse_decimal("0000000000000000000000010", 10), Some(10));
    assert_eq!(parse_decimal("+7", 10), Some(7));
    assert_eq!(parse_decimal("+", 10), None);
    assert_eq!(parse_decimal("", 10), None);
    assert_eq!(parse_decimal("-7", 10), None);
    assert_eq!(parse_decimal("7+", 10), None);
    assert_eq!(parse_decimal("+-7", 10), None);
    assert_eq!(parse_decimal("7 ", 10), None);
    assert_eq!(parse_decimal("٧", 10), None);
    assert_eq!(parse_decimal("18446744073709551615", u64::MAX), Some(u64::MAX));
    assert_eq!(parse_decimal("18446744073709551616", u64::MAX), None);
    assert_eq!(parse_decimal("184467440737095516150", u64::MAX), None);
    assert_eq!(parse_decimal("99999999999999999999", u64::MAX), None);
    assert_eq!(parse_decimal("18446744073709551615x", u64::MAX), None);
    assert_eq!(parse_decimal("0", 0), Some(0));
    assert_eq!(parse_decimal("1", 0), None);
    for n in [0u64, 1, 9, 10, 99, 100, 4294967295, 4294967296, u64::MAX - 1, u64::MAX] {
        assert_eq!(parse_decimal(&n.to_string(), u64::MAX), Some(n));
        assert_eq!(parse_decimal(&render_decimal(n), u64::MAX), Some(n));
    }
}

#[test]
fn numbers_are_written_in_base_ten() {
    assert_eq!(render_decimal(0), "0");
    assert_eq!(render_decimal(7), "7");
    assert_eq!(render_decimal(10), "10");
    assert_eq!(render_decimal(1234567890), "1234567890");
    assert_eq!(render_decimal(u64::MAX), "18446744073709551615");
    assert_eq!(render_padded(0, 0), "0");
    assert_eq!(render_padded(0, 3), "000");
    assert_eq!(render_padded(42, 1), "42");
    assert_eq!(render_padded(42, 2), "42");
    assert_eq!(render_padded(42, 6), "000042");
    for n in [0u64, 5, 10, 999, 1000, 65535, u64::MAX] {
        for width in 0..25usize {
            assert_eq!(render_padded(n, width), format!("{:0width$}", n, width = width));
        }
    }
}
