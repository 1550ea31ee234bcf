//! RFC 4648 base32: text to bytes and back.
//!
//! Both directions are specified over 40-bit groups: five bytes on one side, eight
//! 5-bit symbols on the other, the first byte or symbol in the highest bits. What is
//! missing in the last group counts as zero.

use crate::text::{ascii_text, lemma_ascii_text_bytes};
use vstd::prelude::*;

verus! {

/// The padding character, `=`.
pub const PAD: u8 = 0x3d;

/// Why a text is no base32.
#[derive(Debug, Clone, Copy, PartialEq, Eq)]
pub enum ParseError {
    /// A character outside the alphabet, or anything but padding after padding.
    InvalidCharacter,
}

/// The value of an alphabet character: `A`-`Z` in either case, then `2`-`7`.
pub open spec fn symbol_value(c: u8) -> Option<u8> {
    if 0x41 <= c <= 0x5a {
        Some((c - 0x41) as u8)
    } else if 0x61 <= c <= 0x7a {
        Some((c - 0x61) as u8)
    } else if 0x32 <= c <= 0x37 {
        Some((c - 0x32 + 26) as u8)
    } else {
        None
    }
}

/// The upper-case alphabet character of a value below 32.
pub open spec fn symbol_char(v: u8) -> u8 {
    if v < 26 {
        (0x41 + v) as u8
    } else {
        (0x32 + v - 26) as u8
    }
}

/// `text` is `n` alphabet characters followed by padding only.
pub open spec fn well_formed(text: Seq<u8>, n: int) -> bool {
    &&& 0 <= n <= text.len()
    &&& forall|i: int| 0 <= i < n ==> symbol_value(#[trigger] text[i]) is Some
    &&& forall|i: int| n <= i < text.len() ==> #[trigger] text[i] == PAD
}

/// The values of a run of alphabet characters.
pub open spec fn symbols(body: Seq<u8>) -> Seq<u8> {
    Seq::new(body.len(), |i: int| symbol_value(body[i]).unwrap())
}

/// The symbol at `i`, zero past the end.
pub open spec fn symbol_at(vals: Seq<u8>, i: int) -> u64 {
    if 0 <= i < vals.len() {
        vals[i] as u64
    } else {
        0
    }
}

/// The 40-bit group of symbols `8g .. 8g + 7`.
pub open spec fn symbol_group(vals: Seq<u8>, g: int) -> u64 {
    symbol_at(vals, 8 * g) << 35 | symbol_at(vals, 8 * g + 1) << 30 | symbol_at(vals, 8 * g + 2)
        << 25 | symbol_at(vals, 8 * g + 3) << 20 | symbol_at(vals, 8 * g + 4) << 15 | symbol_at(
        vals,
        8 * g + 5,
    ) << 10 | symbol_at(vals, 8 * g + 6) << 5 | symbol_at(vals, 8 * g + 7)
}

/// Byte `p` (0 to 4) of a 40-bit group.
pub open spec fn group_byte(group: u64, p: int) -> u8 {
    ((group >> ((32 - 8 * p) as u64)) & 0xff) as u8
}

/// The bytes that a run of symbols packs into: five bits each, the first symbol first,
/// the bits that do not fill a last byte dropped.
pub open spec fn unpacked(vals: Seq<u8>) -> Seq<u8> {
    Seq::new(
        ((5 * vals.len()) / 8) as nat,
        |j: int| group_byte(symbol_group(vals, j / 5), j % 5),
    )
}

/// What a text decodes to.
pub open spec fn decoded(text: Seq<u8>) -> Result<Seq<u8>, ParseError> {
    if exists|n: int| well_formed(text, n) {
        let n = choose|n: int| well_formed(text, n);
        Ok(unpacked(symbols(text.take(n))))
    } else {
        Err(ParseError::InvalidCharacter)
    }
}

/// A text has at most one split into alphabet characters and padding.
pub proof fn lemma_well_formed_unique(text: Seq<u8>, n: int, m: int)
    requires
        well_formed(text, n),
        well_formed(text, m),
    ensures
        n == m,
{
    if n < m {
        assert(text[n] == PAD);
        assert(symbol_value(text[n]) is Some);
    } else if m < n {
        assert(text[m] == PAD);
        assert(symbol_value(text[m]) is Some);
    }
}

/// A text is refused where, after `len` alphabet characters, a character at `at`
/// is neither padding nor, at `len` itself, of the alphabet.
proof fn lemma_stray_character(text: Seq<u8>, len: int, at: int)
    requires
        0 <= len <= at < text.len(),
        text[at] != PAD,
        symbol_value(text[len]) is None,
    ensures
        decoded(text) == Err::<Seq<u8>, ParseError>(ParseError::InvalidCharacter),
{
    assert forall|m: int| !well_formed(text, m) by {
        if well_formed(text, m) {
            if m > len {
                assert(symbol_value(text[len]) is Some);
            } else {
                assert(text[at] == PAD);
            }
        }
    }
}

/// The 5-bit value of `c`, or `None` outside the alphabet.
fn value(c: u8) -> (v: Option<u8>)
    ensures
        v == symbol_value(c),
        v matches Some(x) ==> x < 32,
{
    if 0x41 <= c && c <= 0x5a {
        Some(c - 0x41)
    } else if 0x61 <= c && c <= 0x7a {
        Some(c - 0x61)
    } else if 0x32 <= c && c <= 0x37 {
        Some(c - 0x32 + 26)
    } else {
        None
    }
}

/// Symbol `base + k` of the first `len` characters, zero past their end.
fn symbol_or_zero(input: &[u8], len: usize, base: usize, k: usize) -> (s: u64)
    requires
        len <= input@.len(),
        base <= len,
        forall|i: int| 0 <= i < len ==> symbol_value(#[trigger] input@[i]) is Some,
    ensures
        s == symbol_at(symbols(input@.take(len as int)), base + k),
        s < 32,
{
    if k < len - base {
        match value(input[base + k]) {
            Some(v) => v as u64,
            None => 0,
        }
    } else {
        0
    }
}

/// Decodes base32 text: alphabet characters in either case, then padding only.
///
/// Five bits are taken from each character, the first character first; bits that do
/// not fill a last byte are dropped, whatever they hold.
pub fn b32decode(input: &[u8]) -> (result: Result<Vec<u8>, ParseError>)
    ensures
        result matches Ok(bytes) ==> decoded(input@) == Ok::<Seq<u8>, ParseError>(bytes@),
        result matches Err(e) ==> decoded(input@) == Err::<Seq<u8>, ParseError>(e),
{
    let n = input.len();
    let mut len: usize = 0;
    while len < n && input[len] != PAD
        invariant
            len <= n == input@.len(),
            forall|i: int| 0 <= i < len ==> symbol_value(#[trigger] input@[i]) is Some,
        decreases n - len,
    {
        if value(input[len]).is_none() {
            proof {
                lemma_stray_character(input@, len as int, len as int);
            }
            return Err(ParseError::InvalidCharacter);
        }
        len += 1;
    }
    let mut rest: usize = len;
    while rest < n
        invariant
            len <= rest <= n == input@.len(),
            len < n ==> input@[len as int] == PAD,
            forall|i: int| len <= i < rest ==> #[trigger] input@[i] == PAD,
        decreases n - rest,
    {
        if input[rest] != PAD {
            proof {
                lemma_stray_character(input@, len as int, rest as int);
            }
            return Err(ParseError::InvalidCharacter);
        }
        rest += 1;
    }
    proof {
        assert(well_formed(input@, len as int));
        lemma_well_formed_unique(input@, len as int, choose|m: int| well_formed(input@, m));
    }
    let ghost vals = symbols(input@.take(len as int));
    let total: usize = len / 8 * 5 + (len % 8) * 5 / 8;
    assert(total == (5 * vals.len()) / 8);
    let mut out: Vec<u8> = Vec::new();
    let mut base: usize = 0;
    while out.len() < total
        invariant
            len <= input@.len(),
            forall|i: int| 0 <= i < len ==> symbol_value(#[trigger] input@[i]) is Some,
            vals == symbols(input@.take(len as int)),
            total == (5 * len) / 8,
            out@.len() <= total,
            out@.len() < total ==> out@.len() * 8 == base * 5,
            base <= len,
            forall|j: int| 0 <= j < out@.len() ==> out@[j] == unpacked(vals)[j],
        decreases total - out@.len(),
    {
        let group: u64 = symbol_or_zero(input, len, base, 0) << 35 | symbol_or_zero(
            input,
            len,
            base,
            1,
        ) << 30 | symbol_or_zero(input, len, base, 2) << 25 | symbol_or_zero(input, len, base, 3)
            << 20 | symbol_or_zero(input, len, base, 4) << 15 | symbol_or_zero(
            input,
            len,
            base,
            5,
        ) << 10 | symbol_or_zero(input, len, base, 6) << 5 | symbol_or_zero(input, len, base, 7);
        let ghost g = base as int / 8;
        assert(group == symbol_group(vals, g));
        let mut p: u64 = 0;
        while p < 5 && out.len() < total
            invariant
                p <= 5,
                out@.len() <= total,
                out@.len() == 5 * g + p,
                group == symbol_group(vals, g),
                total == (5 * vals.len()) / 8,
                forall|j: int| 0 <= j < out@.len() ==> out@[j] == unpacked(vals)[j],
            decreases 5 - p,
        {
            let byte = ((group >> (32 - 8 * p)) & 0xff) as u8;
            assert(byte == group_byte(group, p as int));
            out.push(byte);
            p += 1;
        }
        if out.len() < total {
            base += 8;
        }
    }
    assert(out@ =~= unpacked(vals));
    Ok(out)
}

/// The byte at `i`, zero past the end.
pub open spec fn byte_at(data: Seq<u8>, i: int) -> u64 {
    if 0 <= i < data.len() {
        data[i] as u64
    } else {
        0
    }
}

/// The 40-bit group of bytes `5g .. 5g + 4`.
pub open spec fn byte_group(data: Seq<u8>, g: int) -> u64 {
    byte_at(data, 5 * g) << 32 | byte_at(data, 5 * g + 1) << 24 | byte_at(data, 5 * g + 2) << 16
        | byte_at(data, 5 * g + 3) << 8 | byte_at(data, 5 * g + 4)
}

/// Symbol `p` (0 to 7) of a 40-bit group.
pub open spec fn group_symbol(group: u64, p: int) -> u8 {
    ((group >> ((35 - 5 * p) as u64)) & 0x1f) as u8
}

/// How many alphabet characters `n` bytes take: one for every five bits, the last
/// one filled up with zeros.
pub open spec fn symbol_count(n: nat) -> nat {
    (8 * n + 4) / 5
}

/// The length of the text for `n` bytes: eight characters for every five bytes begun.
pub open spec fn encoded_len(n: nat) -> nat {
    (n + 4) / 5 * 8
}

/// The ASCII codes of the text that `data` encodes to.
pub open spec fn encoded(data: Seq<u8>) -> Seq<u8> {
    Seq::new(
        encoded_len(data.len()),
        |i: int|
            if i < symbol_count(data.len()) {
                symbol_char(group_symbol(byte_group(data, i / 8), i % 8))
            } else {
                PAD
            },
    )
}

/// Byte `base + k`, zero past the end.
fn byte_or_zero(input: &[u8], base: usize, k: usize) -> (b: u64)
    requires
        base <= input@.len(),
    ensures
        b == byte_at(input@, base + k),
        b < 256,
{
    if k < input.len() - base {
        input[base + k] as u64
    } else {
        0
    }
}

/// The upper-case alphabet character of `v`.
fn symbol_letter(v: u8) -> (c: char)
    requires
        v < 32,
    ensures
        c == symbol_char(v) as char,
        symbol_char(v) < 128,
{
    if v < 26 {
        (0x41 + v) as char
    } else {
        (0x32 + v - 26) as char
    }
}

/// Encodes bytes as upper-case base32, padded with `=` to a multiple of eight
/// characters.
pub fn b32encode(input: &[u8]) -> (text: String)
    ensures
        text@ == ascii_text(encoded(input@)),
        vstd::utf8::encode_utf8(text@) == encoded(input@),
{
    let n = input.len();
    let groups: usize = n / 5 + if n % 5 != 0 {
        1
    } else {
        0
    };
    let mut result = String::new();
    let mut g: usize = 0;
    while g < groups
        invariant
            n == input@.len(),
            groups == (n + 4) / 5,
            g <= groups,
            result@.len() == 8 * g,
            forall|i: int|
                0 <= i < 8 * g ==> result@[i] == encoded(input@)[i] as char && encoded(
                    input@,
                )[i] < 128,
        decreases groups - g,
    {
        let base = g * 5;
        let m: u64 = if n - base >= 5 {
            5
        } else {
            (n - base) as u64
        };
        let k: u64 = (8 * m + 4) / 5;
        let group: u64 = byte_or_zero(input, base, 0) << 32 | byte_or_zero(input, base, 1) << 24
            | byte_or_zero(input, base, 2) << 16 | byte_or_zero(input, base, 3) << 8
            | byte_or_zero(input, base, 4);
        assert(group == byte_group(input@, g as int));
        let mut p: u64 = 0;
        while p < 8
            invariant
                n == input@.len(),
                g < groups == (n + 4) / 5,
                p <= 8,
                k == (8 * m + 4) / 5,
                m == if n - 5 * g >= 5 { 5 } else { n - 5 * g },
                group == byte_group(input@, g as int),
                result@.len() == 8 * g + p,
                forall|i: int|
                    0 <= i < 8 * g + p ==> result@[i] == encoded(input@)[i] as char && encoded(
                        input@,
                    )[i] < 128,
            decreases 8 - p,
        {
            let ghost i = 8 * g + p;
            assert(i / 8 == g && i % 8 == p);
            assert(i < symbol_count(n as nat) <==> p < k);
            if p < k {
                let shift: u64 = 35 - 5 * p;
                assert(((group >> shift) & 0x1f) < 32) by (bit_vector);
                let v = ((group >> shift) & 0x1f) as u8;
                assert(v == group_symbol(group, p as int));
                result.push(symbol_letter(v));
            } else {
                result.push('=');
            }
            p += 1;
        }
        g += 1;
    }
    proof {
        assert(result@ =~= ascii_text(encoded(input@)));
        assert forall|i: int| 0 <= i < encoded(input@).len() implies #[trigger] encoded(
            input@,
        )[i] < 128 by {
            assert(result@[i] == encoded(input@)[i] as char);
        }
        lemma_ascii_text_bytes(encoded(input@));
    }
    result
}

proof fn lemma_symbol_small(x: u64, s: u64)
    by (bit_vector)
    ensures
        (x >> s) & 0x1f < 32,
{
}

proof fn lemma_group_bytes(b0: u64, b1: u64, b2: u64, b3: u64, b4: u64)
    by (bit_vector)
    requires
        b0 < 256,
        b1 < 256,
        b2 < 256,
        b3 < 256,
        b4 < 256,
    ensures
        ({
            let x = b0 << 32 | b1 << 24 | b2 << 16 | b3 << 8 | b4;
            &&& x < 0x100_0000_0000
            &&& (x >> 32) & 0xff == b0
            &&& (x >> 24) & 0xff == b1
            &&& (x >> 16) & 0xff == b2
            &&& (x >> 8) & 0xff == b3
            &&& (x >> 0) & 0xff == b4
            &&& b1 == 0 && b2 == 0 && b3 == 0 && b4 == 0 ==> x & 0xffff_ffff == 0
            &&& b2 == 0 && b3 == 0 && b4 == 0 ==> x & 0xff_ffff == 0
            &&& b3 == 0 && b4 == 0 ==> x & 0xffff == 0
            &&& b4 == 0 ==> x & 0xff == 0
        }),
{
}

proof fn lemma_group_symbols(x: u64)
    by (bit_vector)
    requires
        x < 0x100_0000_0000,
    ensures
        ((x >> 35) & 0x1f) << 35 | ((x >> 30) & 0x1f) << 30 | ((x >> 25) & 0x1f) << 25 | ((x
            >> 20) & 0x1f) << 20 | ((x >> 15) & 0x1f) << 15 | ((x >> 10) & 0x1f) << 10 | ((x >> 5)
            & 0x1f) << 5 | ((x >> 0) & 0x1f) == x,
        x & 0xff == 0 ==> (x >> 0) & 0x1f == 0,
        x & 0xffff == 0 ==> (x >> 10) & 0x1f == 0 && (x >> 5) & 0x1f == 0 && (x >> 0) & 0x1f == 0,
        x & 0xff_ffff == 0 ==> (x >> 15) & 0x1f == 0 && (x >> 10) & 0x1f == 0 && (x >> 5) & 0x1f
            == 0 && (x >> 0) & 0x1f == 0,
        x & 0xffff_ffff == 0 ==> (x >> 25) & 0x1f == 0 && (x >> 20) & 0x1f == 0 && (x >> 15)
            & 0x1f == 0 && (x >> 10) & 0x1f == 0 && (x >> 5) & 0x1f == 0 && (x >> 0) & 0x1f == 0,
{
}

/// A symbol of a group is below 32, and its character stands for it.
proof fn lemma_symbol_round_trip(group: u64, p: int)
    requires
        0 <= p < 8,
    ensures
        group_symbol(group, p) < 32,
        group_symbol(group, p) == (group >> ((35 - 5 * p) as u64)) & 0x1f,
        symbol_value(symbol_char(group_symbol(group, p))) == Some(group_symbol(group, p)),
        symbol_char(group_symbol(group, p)) != PAD,
{
    lemma_symbol_small(group, (35 - 5 * p) as u64);
}

/// The symbols of an encoded text, read as a group, are the bytes' group again.
proof fn lemma_group_restored(data: Seq<u8>, g: int)
    requires
        0 <= g,
        5 * g < data.len(),
    ensures
        symbol_group(symbols(encoded(data).take(symbol_count(data.len()) as int)), g)
            == byte_group(data, g),
{
    let n = data.len() as int;
    let sc = symbol_count(data.len()) as int;
    let vals = symbols(encoded(data).take(sc));
    let x = byte_group(data, g);
    lemma_group_bytes(
        byte_at(data, 5 * g),
        byte_at(data, 5 * g + 1),
        byte_at(data, 5 * g + 2),
        byte_at(data, 5 * g + 3),
        byte_at(data, 5 * g + 4),
    );
    lemma_group_symbols(x);
    assert forall|k: int| 0 <= k < 8 implies #[trigger] symbol_at(vals, 8 * g + k) == (x >> ((35
        - 5 * k) as u64)) & 0x1f by {
        let i = 8 * g + k;
        assert(i / 8 == g && i % 8 == k);
        lemma_symbol_round_trip(x, k);
        if i < sc {
            assert(encoded(data).take(sc)[i] == symbol_char(group_symbol(x, k)));
            assert(vals[i] == group_symbol(x, k));
        } else {
            let m = n - 5 * g;
            assert(1 <= m <= 4);
            assert(k >= (8 * m + 4) / 5);
        }
    }
    assert(symbol_at(vals, 8 * g + 0) == (x >> 35) & 0x1f);
    assert(symbol_at(vals, 8 * g + 1) == (x >> 30) & 0x1f);
    assert(symbol_at(vals, 8 * g + 2) == (x >> 25) & 0x1f);
    assert(symbol_at(vals, 8 * g + 3) == (x >> 20) & 0x1f);
    assert(symbol_at(vals, 8 * g + 4) == (x >> 15) & 0x1f);
    assert(symbol_at(vals, 8 * g + 5) == (x >> 10) & 0x1f);
    assert(symbol_at(vals, 8 * g + 6) == (x >> 5) & 0x1f);
    assert(symbol_at(vals, 8 * g + 7) == (x >> 0) & 0x1f);
}

/// The text of any bytes is a multiple of eight characters long, and a last group of
/// one, two, three or four bytes takes two, four, five or seven alphabet characters.
pub proof fn lemma_encoded_shape(data: Seq<u8>)
    ensures
        encoded(data).len() % 8 == 0,
        encoded(data).len() == 0 <==> data.len() == 0,
        data.len() % 5 == 0 ==> symbol_count(data.len()) == encoded(data).len(),
        data.len() % 5 == 1 ==> symbol_count(data.len()) == encoded(data).len() - 6,
        data.len() % 5 == 2 ==> symbol_count(data.len()) == encoded(data).len() - 4,
        data.len() % 5 == 3 ==> symbol_count(data.len()) == encoded(data).len() - 3,
        data.len() % 5 == 4 ==> symbol_count(data.len()) == encoded(data).len() - 1,
{
}

/// Decoding undoes encoding: the text of any bytes is accepted, and decodes to them.
pub proof fn lemma_decode_encode(data: Seq<u8>)
    ensures
        decoded(encoded(data)) == Ok::<Seq<u8>, ParseError>(data),
{
    let n = data.len() as int;
    let sc = symbol_count(data.len()) as int;
    let text = encoded(data);
    assert forall|i: int| 0 <= i < sc implies symbol_value(#[trigger] text[i]) is Some by {
        lemma_symbol_round_trip(byte_group(data, i / 8), i % 8);
    }
    assert(well_formed(text, sc));
    lemma_well_formed_unique(text, sc, choose|m: int| well_formed(text, m));
    let vals = symbols(text.take(sc));
    let out = unpacked(vals);
    assert(out.len() == n);
    assert forall|j: int| 0 <= j < n implies out[j] == data[j] by {
        let g = j / 5;
        let p = j % 5;
        lemma_group_restored(data, g);
        lemma_group_bytes(
            byte_at(data, 5 * g),
            byte_at(data, 5 * g + 1),
            byte_at(data, 5 * g + 2),
            byte_at(data, 5 * g + 3),
            byte_at(data, 5 * g + 4),
        );
        assert(out[j] == group_byte(byte_group(data, g), p));
        assert(byte_at(data, 5 * g + p) == data[j]);
    }
    assert(out =~= data);
}

} // verus!
