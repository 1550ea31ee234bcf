//! Small tools on text: building strings, comparing them, decimal numbers.

use vstd::prelude::*;
use vstd::std_specs::iter::IteratorSpec;

verus! {

/// Trusted: `String::push` appends the character and changes nothing else, as the
/// standard library documents.
pub assume_specification[ String::push ](s: &mut String, c: char)
    ensures
        final(s)@ == old(s)@.push(c),
;

/// The text whose characters have the given ASCII codes.
pub open spec fn ascii_text(bytes: Seq<u8>) -> Seq<char> {
    Seq::new(bytes.len(), |i: int| bytes[i] as char)
}

/// Every byte is an ASCII code.
pub open spec fn all_ascii(bytes: Seq<u8>) -> bool {
    forall|i: int| 0 <= i < bytes.len() ==> #[trigger] bytes[i] < 128
}

/// ASCII text is its own UTF-8 encoding.
pub proof fn lemma_ascii_text_bytes(bytes: Seq<u8>)
    requires
        all_ascii(bytes),
    ensures
        vstd::utf8::encode_utf8(ascii_text(bytes)) == bytes,
{
    let chars = ascii_text(bytes);
    assert(vstd::utf8::is_ascii_chars(chars)) by {
        assert forall|i: int| 0 <= i < chars.len() implies '\0' <= #[trigger] chars[i]
            <= '\u{7f}' by {
            assert(bytes[i] < 128);
        }
    }
    vstd::utf8::is_ascii_chars_encode_utf8(chars);
    assert forall|i: int| 0 <= i < bytes.len() implies vstd::utf8::encode_utf8(chars)[i]
        == bytes[i] by {
        assert(chars[i] as u8 == vstd::utf8::encode_utf8(chars)[i]);
        assert(bytes[i] < 128);
    }
    assert(vstd::utf8::encode_utf8(chars) =~= bytes);
}

/// The characters of a text.
pub fn chars_of(text: &str) -> (chars: Vec<char>)
    ensures
        chars@ == text@,
{
    let mut chars: Vec<char> = Vec::new();
    let mut rest = text.chars();
    loop
        invariant
            chars@ + rest.remaining() == text@,
            rest.decrease() is Some,
        ensures
            rest.remaining().len() == 0,
        decreases rest.decrease()->0,
    {
        match rest.next() {
            Some(c) => {
                chars.push(c);
            },
            None => {
                break ;
            },
        }
    }
    assert(chars@ =~= chars@ + rest.remaining());
    chars
}

/// The text made of the characters from `from` up to `to`.
pub fn text_of(chars: &Vec<char>, from: usize, to: usize) -> (text: String)
    requires
        from <= to <= chars@.len(),
    ensures
        text@ == chars@.subrange(from as int, to as int),
{
    let mut text = String::new();
    let mut i: usize = from;
    while i < to
        invariant
            from <= i <= to <= chars@.len(),
            text@ == chars@.subrange(from as int, i as int),
        decreases to - i,
    {
        text.push(chars[i]);
        i += 1;
        assert(text@ =~= chars@.subrange(from as int, i as int));
    }
    text
}

/// Whether two texts hold the same characters.
pub fn same_text(a: &str, b: &str) -> (same: bool)
    ensures
        same == (a@ == b@),
{
    let left = a.as_bytes();
    let right = b.as_bytes();
    if left.len() != right.len() {
        return false;
    }
    let mut i: usize = 0;
    while i < left.len()
        invariant
            left@ == vstd::utf8::encode_utf8(a@),
            right@ == vstd::utf8::encode_utf8(b@),
            i <= left@.len() == right@.len(),
            forall|j: int| 0 <= j < i ==> left@[j] == right@[j],
        decreases left@.len() - i,
    {
        if left[i] != right[i] {
            return false;
        }
        i += 1;
    }
    proof {
        assert(left@ =~= right@);
        vstd::utf8::encode_utf8_decode_utf8(a@);
        vstd::utf8::encode_utf8_decode_utf8(b@);
    }
    true
}

/// The value of a decimal digit.
pub open spec fn digit_value(c: char) -> Option<nat> {
    if '0' <= c <= '9' {
        Some((c as nat - '0' as nat) as nat)
    } else {
        None
    }
}

/// The character of a digit below ten.
pub open spec fn digit_char(d: nat) -> char {
    (d + 0x30) as char
}

/// Every character is a decimal digit.
pub open spec fn all_digits(digits: Seq<char>) -> bool {
    forall|i: int| 0 <= i < digits.len() ==> digit_value(#[trigger] digits[i]) is Some
}

/// The number that a run of decimal digits writes, the highest digit first.
pub open spec fn digits_value(digits: Seq<char>) -> nat
    decreases digits.len(),
{
    if digits.len() == 0 {
        0
    } else {
        digits_value(digits.drop_last()) * 10 + digit_value(digits.last()).unwrap_or(0)
    }
}

/// The digits of a decimal number: the text without one leading `+`, if it has one.
pub open spec fn unsigned_part(text: Seq<char>) -> Seq<char> {
    if text.len() > 0 && text[0] == '+' {
        text.drop_first()
    } else {
        text
    }
}

/// The number that a text writes in base ten, if it is at most `max`: an optional
/// `+`, then one digit or more and nothing else. Leading zeros are taken.
pub open spec fn decimal(text: Seq<char>, max: nat) -> Option<nat> {
    let digits = unsigned_part(text);
    if digits.len() > 0 && all_digits(digits) && digits_value(digits) <= max {
        Some(digits_value(digits))
    } else {
        None
    }
}

/// The value of the first digits of a run is at most the value of the run.
proof fn lemma_prefix_value(digits: Seq<char>, k: int)
    requires
        0 <= k <= digits.len(),
    ensures
        digits_value(digits.take(k)) <= digits_value(digits),
    decreases digits.len(),
{
    if k == digits.len() {
        assert(digits.take(k) =~= digits);
    } else {
        lemma_prefix_value(digits.drop_last(), k);
        assert(digits.drop_last().take(k) =~= digits.take(k));
    }
}

/// Reads a decimal number of at most `max`.
pub fn parse_decimal(text: &str, max: u64) -> (value: Option<u64>)
    ensures
        value matches Some(v) ==> decimal(text@, max as nat) == Some(v as nat),
        value is None ==> decimal(text@, max as nat) is None,
{
    let chars = chars_of(text);
    let start: usize = if chars.len() > 0 && chars[0] == '+' {
        1
    } else {
        0
    };
    let ghost digits = unsigned_part(text@);
    assert(digits =~= chars@.subrange(start as int, chars@.len() as int));
    if start == chars.len() {
        return None;
    }
    let mut value: u64 = 0;
    let mut i: usize = start;
    while i < chars.len()
        invariant
            start <= i <= chars@.len(),
            digits == unsigned_part(text@),
            digits == chars@.subrange(start as int, chars@.len() as int),
            all_digits(digits.take(i - start)),
            value == digits_value(digits.take(i - start)),
            value <= max,
        decreases chars@.len() - i,
    {
        let c = chars[i];
        let ghost head = digits.take(i - start + 1);
        assert(head.drop_last() =~= digits.take(i - start));
        assert(head.last() == c);
        if c < '0' || c > '9' {
            assert(digit_value(digits[i - start]) is None);
            return None;
        }
        let d = (c as u32 - '0' as u32) as u64;
        if d > max || value > (max - d) / 10 {
            proof {
                assert(digits_value(head) == value * 10 + d);
                lemma_prefix_value(digits, i - start + 1);
            }
            return None;
        }
        value = value * 10 + d;
        i += 1;
        assert(all_digits(head)) by {
            assert forall|j: int| 0 <= j < head.len() implies digit_value(#[trigger] head[j])
                is Some by {
                if j < head.len() - 1 {
                    assert(head[j] == digits.take(i - 1 - start)[j]);
                }
            }
        }
    }
    assert(digits.take(i - start) =~= digits);
    Some(value)
}

/// The decimal digits of a number, without leading zeros.
pub open spec fn decimal_text(n: nat) -> Seq<char>
    decreases n,
{
    if n < 10 {
        seq![digit_char(n)]
    } else {
        decimal_text(n / 10).push(digit_char(n % 10))
    }
}

/// A text with zeros in front up to `width` characters; a longer text stays whole.
pub open spec fn zero_padded(text: Seq<char>, width: nat) -> Seq<char> {
    if text.len() >= width {
        text
    } else {
        Seq::new((width - text.len()) as nat, |i: int| '0') + text
    }
}

/// One step of writing a number: its last digit goes in front of what is written.
proof fn lemma_decimal_step(rest: nat, tail: Seq<char>)
    ensures
        rest < 10 ==> decimal_text(rest) + tail == seq![digit_char(rest % 10)] + tail,
        rest >= 10 ==> decimal_text(rest) + tail == decimal_text(rest / 10) + (seq![
            digit_char(rest % 10),
        ] + tail),
{
    if rest >= 10 {
        assert(decimal_text(rest) + tail =~= decimal_text(rest / 10) + (seq![
            digit_char(rest % 10),
        ] + tail));
    }
}

/// The character of a digit.
fn digit_letter(d: u64) -> (c: char)
    requires
        d < 10,
    ensures
        c == digit_char(d as nat),
{
    (d as u8 + 0x30) as char
}

/// Writes a number in base ten, with zeros in front up to `width` characters.
pub fn render_padded(n: u64, width: usize) -> (text: String)
    ensures
        text@ == zero_padded(decimal_text(n as nat), width as nat),
{
    let mut low_first: Vec<char> = Vec::new();
    let mut rest: u64 = n;
    let ghost mut written: Seq<char> = Seq::empty();
    assert(decimal_text(n as nat) =~= decimal_text(rest as nat) + written);
    loop
        invariant_except_break
            decimal_text(n as nat) == decimal_text(rest as nat) + written,
        invariant
            written.len() == low_first@.len(),
            forall|j: int|
                0 <= j < written.len() ==> written[j] == low_first@[low_first@.len() - 1 - j],
        ensures
            decimal_text(n as nat) == written,
        decreases rest,
    {
        low_first.push(digit_letter(rest % 10));
        proof {
            lemma_decimal_step(rest as nat, written);
            written = seq![digit_char((rest % 10) as nat)] + written;
        }
        if rest < 10 {
            break ;
        }
        rest = rest / 10;
    }
    let len = low_first.len();
    let mut text = String::new();
    let mut zeros: usize = len;
    while zeros < width
        invariant
            len <= zeros,
            len <= width ==> zeros <= width,
            len > width ==> zeros == len,
            text@ == Seq::new((zeros - len) as nat, |i: int| '0'),
        decreases width - zeros,
    {
        text.push('0');
        zeros += 1;
        assert(text@ =~= Seq::new((zeros - len) as nat, |i: int| '0'));
    }
    let ghost front = text@;
    let mut i: usize = 0;
    while i < len
        invariant
            i <= len == low_first@.len() == written.len(),
            forall|j: int| 0 <= j < len ==> written[j] == low_first@[len - 1 - j],
            text@ == front + written.take(i as int),
            front == Seq::new((zeros - len) as nat, |i: int| '0'),
            width <= zeros,
            len <= width ==> zeros <= width,
            len > width ==> zeros == len,
        decreases len - i,
    {
        text.push(low_first[len - 1 - i]);
        i += 1;
        assert(text@ =~= front + written.take(i as int));
    }
    assert(written.take(len as int) =~= written);
    assert(front + written =~= zero_padded(written, width as nat));
    text
}

/// Writes a number in base ten.
pub fn render_decimal(n: u64) -> (text: String)
    ensures
        text@ == decimal_text(n as nat),
{
    render_padded(n, 0)
}

} // verus!
