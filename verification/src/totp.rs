//! One-time passwords from a shared secret: counter based, and time based on top.
//!
//! No function here reads a clock: the time is an argument.

use crate::sha1::{hmac, hmac_digest};
use crate::text::{decimal_text, render_padded, zero_padded};
use vstd::prelude::*;

verus! {

/// The length of a time window in seconds, where none is given.
pub const DEFAULT_PERIOD: u64 = 30;

/// The largest power of ten that a code is reduced by.
pub const MAX_MODULUS: u32 = 1_000_000_000;

/// A code and the half-open window of time, in seconds since the epoch, in which it
/// is valid.
#[derive(Debug, Clone, Copy, PartialEq, Eq)]
pub struct TotpToken {
    pub number: u32,
    pub window_start: u64,
    pub window_end: u64,
}

/// Ten to the power `digits`.
pub open spec fn pow10(digits: nat) -> nat
    decreases digits,
{
    if digits == 0 {
        1
    } else {
        10 * pow10((digits - 1) as nat)
    }
}

/// What a code of `digits` digits is reduced by: `10^digits` up to ten digits, which
/// already leaves every 31-bit value as it is, and `10^9` for any larger count.
pub open spec fn modulus(digits: nat) -> nat {
    if digits <= 10 {
        pow10(digits)
    } else {
        MAX_MODULUS as nat
    }
}

/// The counter as eight bytes, the highest first.
pub open spec fn counter_bytes(counter: u64) -> Seq<u8> {
    seq![
        ((counter >> 56) & 0xff) as u8,
        ((counter >> 48) & 0xff) as u8,
        ((counter >> 40) & 0xff) as u8,
        ((counter >> 32) & 0xff) as u8,
        ((counter >> 24) & 0xff) as u8,
        ((counter >> 16) & 0xff) as u8,
        ((counter >> 8) & 0xff) as u8,
        ((counter >> 0) & 0xff) as u8,
    ]
}

/// Where the four bytes of the code start: the low four bits of the last byte.
pub open spec fn dynamic_offset(mac: Seq<u8>) -> int {
    (mac[19] & 0x0f) as int
}

/// The 31-bit value cut out of a keyed hash: four bytes from the dynamic offset, the
/// highest first, without the top bit.
pub open spec fn truncated(mac: Seq<u8>) -> u32 {
    let at = dynamic_offset(mac);
    ((mac[at] & 0x7f) as u32) << 24 | (mac[at + 1] as u32) << 16 | (mac[at + 2] as u32) << 8 | (
    mac[at + 3] as u32)
}

/// The code of a keyed hash.
pub open spec fn code_of(mac: Seq<u8>, digits: nat) -> nat {
    truncated(mac) as nat % modulus(digits)
}

/// The counter-based code of a secret.
pub open spec fn hotp(secret: Seq<u8>, counter: u64, digits: nat) -> nat {
    code_of(hmac_digest(secret, counter_bytes(counter)), digits)
}

/// The start of the window of length `period` that holds `seconds`.
pub open spec fn window_start(seconds: u64, period: u64) -> int {
    (seconds / period) * period
}

proof fn lemma_pow10_values()
    ensures
        pow10(0) == 1,
        pow10(1) == 10,
        pow10(2) == 100,
        pow10(3) == 1_000,
        pow10(4) == 10_000,
        pow10(5) == 100_000,
        pow10(6) == 1_000_000,
        pow10(7) == 10_000_000,
        pow10(8) == 100_000_000,
        pow10(9) == 1_000_000_000,
        pow10(10) == 10_000_000_000,
{
    reveal_with_fuel(pow10, 11);
}

proof fn lemma_truncated_bound(b0: u8, b1: u8, b2: u8, b3: u8)
    by (bit_vector)
    ensures
        (((b0 & 0x7f) as u32) << 24 | (b1 as u32) << 16 | (b2 as u32) << 8 | (b3 as u32))
            < 0x8000_0000u32,
{
}

/// Ten to the power `digits`, for at most nine digits.
fn power_of_ten(digits: usize) -> (power: u32)
    requires
        digits <= 9,
    ensures
        power == pow10(digits as nat),
{
    let mut power: u32 = 1;
    let mut i: usize = 0;
    proof {
        lemma_pow10_values();
    }
    while i < digits
        invariant
            i <= digits <= 9,
            power == pow10(i as nat),
            power <= 1_000_000_000,
            i < 9 ==> power <= 100_000_000,
        decreases digits - i,
    {
        proof {
            lemma_pow10_values();
            reveal_with_fuel(pow10, 2);
        }
        power = power * 10;
        i += 1;
    }
    power
}

/// Cuts the code of `digits` digits out of a keyed hash.
pub fn truncate(mac: &[u8; 20], digits: usize) -> (number: u32)
    ensures
        number == code_of(mac@, digits as nat),
        number < 0x8000_0000,
{
    let last = mac[19];
    assert(last & 0x0f < 16) by (bit_vector);
    let at = (last & 0x0f) as usize;
    let value = ((mac[at] & 0x7f) as u32) << 24 | (mac[at + 1] as u32) << 16 | (mac[at + 2] as u32)
        << 8 | (mac[at + 3] as u32);
    proof {
        lemma_truncated_bound(mac[at as int], mac[at + 1], mac[at + 2], mac[at + 3]);
        lemma_pow10_values();
    }
    if digits > 10 {
        value % MAX_MODULUS
    } else if digits == 10 {
        value
    } else {
        value % power_of_ten(digits)
    }
}

/// The big-endian bytes of a counter.
fn counter_to_bytes(counter: u64) -> (bytes: [u8; 8])
    ensures
        bytes@ == counter_bytes(counter),
{
    assert(forall|x: u64| #[trigger] (x & 0xff) < 256) by (bit_vector);
    let bytes = [
        ((counter >> 56) & 0xff) as u8,
        ((counter >> 48) & 0xff) as u8,
        ((counter >> 40) & 0xff) as u8,
        ((counter >> 32) & 0xff) as u8,
        ((counter >> 24) & 0xff) as u8,
        ((counter >> 16) & 0xff) as u8,
        ((counter >> 8) & 0xff) as u8,
        ((counter >> 0) & 0xff) as u8,
    ];
    assert(bytes@ =~= counter_bytes(counter));
    bytes
}

/// The counter-based code of `digits` digits for `secret` at `moving_factor`.
pub fn from_moving_factor(secret: &[u8], moving_factor: u64, digits: usize) -> (number: u32)
    ensures
        number == hotp(secret@, moving_factor, digits as nat),
{
    let message = counter_to_bytes(moving_factor);
    let mac = hmac(secret, message.as_slice());
    truncate(&mac, digits)
}

/// The time-based code at `unix_seconds`, with windows of `period` seconds.
pub fn from_time(secret: &[u8], unix_seconds: u64, digits: usize, period: u64) -> (number: u32)
    requires
        period > 0,
    ensures
        number == hotp(secret@, unix_seconds / period, digits as nat),
{
    from_moving_factor(secret, unix_seconds / period, digits)
}

/// The time-based code at `timestamp`, with windows of thirty seconds.
pub fn from_seconds(secret: &[u8], timestamp: u64, digits: usize) -> (number: u32)
    ensures
        number == hotp(secret@, timestamp / DEFAULT_PERIOD, digits as nat),
{
    from_time(secret, timestamp, digits, DEFAULT_PERIOD)
}

/// The token at `now`, with windows of `period` seconds: the code, and the window
/// that holds `now`.
pub fn from_now_with_period(secret: &[u8], period: u64, digits: usize, now: u64) -> (token:
    TotpToken)
    requires
        period > 0,
        window_start(now, period) + period <= u64::MAX,
    ensures
        token.number == hotp(secret@, now / period, digits as nat),
        token.window_start == window_start(now, period),
        token.window_end == window_start(now, period) + period,
        token.window_start <= now < token.window_end,
{
    let counter = now / period;
    proof {
        vstd::arithmetic::div_mod::lemma_fundamental_div_mod(now as int, period as int);
        vstd::arithmetic::div_mod::lemma_mod_bound(now as int, period as int);
        assert(counter * period == period * counter) by (nonlinear_arith);
    }
    let start = counter * period;
    TotpToken {
        number: from_moving_factor(secret, counter, digits),
        window_start: start,
        window_end: start + period,
    }
}

/// The token at `now`, with windows of thirty seconds.
pub fn from_now(secret: &[u8], digits: usize, now: u64) -> (token: TotpToken)
    requires
        window_start(now, DEFAULT_PERIOD) + DEFAULT_PERIOD <= u64::MAX,
    ensures
        token.number == hotp(secret@, now / DEFAULT_PERIOD, digits as nat),
        token.window_start == window_start(now, DEFAULT_PERIOD),
        token.window_end == token.window_start + DEFAULT_PERIOD,
        token.window_start <= now < token.window_end,
{
    from_now_with_period(secret, DEFAULT_PERIOD, digits, now)
}

/// How far into its window of `period` seconds a time in milliseconds is, in
/// milliseconds.
pub open spec fn elapsed(now_millis: nat, period: nat) -> nat {
    now_millis % (period * 1000)
}

/// The milliseconds of the current window that have passed at `now_millis`. Divided
/// by the length of the window this is the progress through it, from zero up to but
/// not reaching one.
pub fn elapsed_millis(now_millis: u128, period: u64) -> (passed: u128)
    requires
        period > 0,
    ensures
        passed == elapsed(now_millis as nat, period as nat),
        passed < period * 1000,
{
    let window: u128 = period as u128 * 1000;
    now_millis % window
}

/// Within one window the elapsed time does not fall as time goes on: it grows by
/// exactly the time that has passed.
pub proof fn lemma_elapsed_monotonic(earlier: nat, later: nat, period: nat)
    requires
        period > 0,
        earlier <= later,
        earlier / (period * 1000) == later / (period * 1000),
    ensures
        elapsed(earlier, period) <= elapsed(later, period),
        elapsed(later, period) - elapsed(earlier, period) == later - earlier,
{
    let window = (period * 1000) as int;
    vstd::arithmetic::div_mod::lemma_fundamental_div_mod(earlier as int, window);
    vstd::arithmetic::div_mod::lemma_fundamental_div_mod(later as int, window);
}

/// At the start of every window the elapsed time is zero.
pub proof fn lemma_elapsed_resets(windows: nat, period: nat)
    requires
        period > 0,
    ensures
        elapsed(windows * (period * 1000), period) == 0,
{
    vstd::arithmetic::div_mod::lemma_mod_multiples_basic(windows as int, (period * 1000) as int);
}

/// A number below `10^digits` has at most `digits` decimal digits.
proof fn lemma_decimal_width(n: nat, digits: nat)
    requires
        digits >= 1,
        n < pow10(digits),
    ensures
        decimal_text(n).len() <= digits,
    decreases digits,
{
    reveal_with_fuel(pow10, 2);
    if n >= 10 {
        assert(digits >= 2);
        lemma_decimal_width(n / 10, (digits - 1) as nat);
    }
}

/// A code of one digit or more, written with zeros in front, has exactly as many
/// characters as it has digits.
pub proof fn lemma_code_width(mac: Seq<u8>, digits: nat)
    requires
        digits >= 1,
    ensures
        zero_padded(decimal_text(code_of(mac, digits)), digits).len() == digits,
{
    let at = dynamic_offset(mac);
    lemma_truncated_bound(mac[at], mac[at + 1], mac[at + 2], mac[at + 3]);
    lemma_pow10_values();
    let code = code_of(mac, digits);
    if digits <= 9 {
        lemma_pow10_positive(digits);
        vstd::arithmetic::div_mod::lemma_mod_bound(truncated(mac) as int, pow10(digits) as int);
        lemma_decimal_width(code, digits);
    } else if digits == 10 {
        vstd::arithmetic::div_mod::lemma_small_mod(truncated(mac) as nat, pow10(10));
        lemma_decimal_width(code, 10);
    } else {
        lemma_decimal_width(code, 9);
    }
}

/// A power of ten is positive.
proof fn lemma_pow10_positive(digits: nat)
    ensures
        pow10(digits) > 0,
    decreases digits,
{
    if digits > 0 {
        lemma_pow10_positive((digits - 1) as nat);
    }
}

impl TotpToken {
    /// The code as text, with zeros in front up to `digits` characters.
    pub fn text(&self, digits: usize) -> (text: String)
        ensures
            text@ == zero_padded(decimal_text(self.number as nat), digits as nat),
    {
        render_padded(self.number as u64, digits)
    }
}

} // verus!
