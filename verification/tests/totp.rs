use stip::totp::{
    elapsed_millis, from_moving_factor, from_now, from_now_with_period, from_seconds, from_time,
    truncate, TotpToken,
};

const RFC_SECRET: &[u8] = b"12345678901234567890";

#[test]
fn totp_works_with_specified_second() {
    let number = from_seconds(b"\x21\x22", 1678732967, 6);
    assert_eq!(number, 486091);
}

#[test]
fn works_with_specified_second() {
    let number = from_seconds(b"\x21\x22", 1678732967, 6);
    assert_eq!(number, 486091);
}

#[test]
fn support_very_large_digits() {
    let number = from_seconds(b"\x21\x22", 1678732967, 32);
    assert_eq!(number, 783486091);
}

#[test]
fn counter_based_codes_of_the_standard() {
    let expected = [755224, 287082, 359152, 969429, 338314, 254676, 287922, 162583, 399871, 520489];
    for (counter, code) in expected.iter().enumerate() {
        assert_eq!(from_moving_factor(RFC_SECRET, counter as u64, 6), *code);
    }
}

#[test]
fn time_based_codes_of_the_standard() {
    assert_eq!(from_seconds(RFC_SECRET, 59, 8), 94287082);
    assert_eq!(from_seconds(RFC_SECRET, 1111111109, 8), 7081804);
    assert_eq!(from_seconds(RFC_SECRET, 1111111111, 8), 14050471);
    assert_eq!(from_seconds(RFC_SECRET, 1234567890, 8), 89005924);
    assert_eq!(from_seconds(RFC_SECRET, 2000000000, 8), 69279037);
    assert_eq!(from_seconds(RFC_SECRET, 20000000000, 8), 65353130);
}

#[test]
fn truncation_takes_four_bytes_at_the_dynamic_offset() {
    let mac = *b"\x1f\x86\x98\x69\x0e\x02\xca\x16\x61\x85\x50\xef\x7f\x19\xda\x8e\x94\x5b\x55\x5a";
    assert_eq!(truncate(&mac, 10), 0x50ef7f19);
    assert_eq!(truncate(&mac, 6), 872921);
    let mut high = [0xffu8; 20];
    high[19] = 0xf0;
    assert_eq!(truncate(&high, 10), 0x7fff_ffff);
    high[19] = 0xff;
    assert_eq!(truncate(&high, 10), 0x7fff_ffff);
}

#[test]
fn digit_counts_reduce_by_powers_of_ten() {
    let mac = [0xffu8; 20];
    let value: u32 = 0x7fff_ffff;
    assert_eq!(value, 2147483647);
    assert_eq!(truncate(&mac, 0), 0);
    assert_eq!(truncate(&mac, 1), 7);
    assert_eq!(truncate(&mac, 5), 83647);
    assert_eq!(truncate(&mac, 9), 147483647);
    assert_eq!(truncate(&mac, 10), 2147483647);
    assert_eq!(truncate(&mac, 11), 147483647);
    assert_eq!(truncate(&mac, 32), 147483647);
    assert_eq!(truncate(&mac, usize::MAX), 147483647);
}

#[test]
fn the_period_sets_the_counter() {
    assert_eq!(from_time(RFC_SECRET, 59, 6, 30), from_moving_factor(RFC_SECRET, 1, 6));
    assert_eq!(from_time(RFC_SECRET, 60, 6, 30), from_moving_factor(RFC_SECRET, 2, 6));
    assert_eq!(from_time(RFC_SECRET, 59, 6, 60), from_moving_factor(RFC_SECRET, 0, 6));
    assert_eq!(from_time(RFC_SECRET, 35, 6, 35), 287082);
    assert_eq!(from_time(RFC_SECRET, 7, 6, 1), 162583);
}

#[test]
fn a_token_carries_its_window() {
    let token = from_now(b"\x21\x22", 6, 1678732967);
    assert_eq!(token, TotpToken { number: 486091, window_start: 1678732950, window_end: 1678732980 });
    let token = from_now_with_period(RFC_SECRET, 35, 6, 69);
    assert_eq!(token, TotpToken { number: 287082, window_start: 35, window_end: 70 });
    let token = from_now(RFC_SECRET, 6, 0);
    assert_eq!(token, TotpToken { number: 755224, window_start: 0, window_end: 30 });
    let token = from_now(RFC_SECRET, 6, 29);
    assert_eq!((token.window_start, token.window_end), (0, 30));
    let token = from_now(RFC_SECRET, 6, 30);
    assert_eq!((token.window_start, token.window_end), (30, 60));
}

#[test]
fn a_token_is_written_with_leading_zeros() {
    let token = TotpToken { number: 7081804, window_start: 0, window_end: 30 };
    assert_eq!(token.text(8), "07081804");
    assert_eq!(token.text(6), "7081804");
    assert_eq!(token.text(0), "7081804");
    let token = TotpToken { number: 0, window_start: 0, window_end: 30 };
    assert_eq!(token.text(6), "000000");
    assert_eq!(token.text(1), "0");
    assert_eq!(token.text(0), "0");
    let token = TotpToken { number: 783486091, window_start: 0, window_end: 30 };
    assert_eq!(token.text(32), "00000000000000000000000783486091");
}

#[test]
fn elapsed_time_grows_within_a_window_and_starts_again() {
    assert_eq!(elapsed_millis(0, 30), 0);
    assert_eq!(elapsed_millis(29_999, 30), 29_999);
    assert_eq!(elapsed_millis(30_000, 30), 0);
    assert_eq!(elapsed_millis(1_678_732_967_123, 30), 17_123);
    assert_eq!(elapsed_millis(1_678_732_967_123, 35), 2_123);
    let clock = [60_000u128, 60_001, 61_500, 75_000, 89_999, 90_000, 90_250, 119_999, 120_000];
    let mut last = 0.0f32;
    for (i, now) in clock.iter().enumerate() {
        let progress = elapsed_millis(*now, 30) as f32 / 30_000.0;
        assert!((0.0..1.0).contains(&progress));
        if now % 30_000 == 0 {
            assert_eq!(progress, 0.0);
        } else if i > 0 {
            assert!(progress >= last);
        }
        last = progress;
    }
}
