//! Calendar timestamps at second granularity, rendered in the
//! fixed-width UTC form `YYYY-MM-DDTHH:MM:SS+00:00`; decoding also
//! accepts the `Z` suffix for the same instant.
use vstd::prelude::*;
use vstd::arithmetic::div_mod::{lemma_fundamental_div_mod, lemma_div_denominator, lemma_small_mod};
use crate::bytes::{B_MINUS, B_COLON, B_PLUS, B_ZERO, B_UPPER_T, B_UPPER_Z};
use crate::num::{is_digit, digit_val};
use crate::bytes::B_NINE;

verus! {

/// A wall-clock instant in UTC, held as plain calendar fields.
#[derive(Clone, Copy, PartialEq, Eq, Structural, Debug)]
pub struct Timestamp {
    pub year: u16,
    pub month: u8,
    pub day: u8,
    pub hour: u8,
    pub minute: u8,
    pub second: u8,
}

impl DeepView for Timestamp {
    type V = Timestamp;

    open spec fn deep_view(&self) -> Timestamp {
        *self
    }
}

/// Shape conformance of the fields: four-digit year, calendar ranges
/// for the rest.
pub open spec fn ts_wf(t: Timestamp) -> bool {
    &&& t.year <= 9999
    &&& 1 <= t.month <= 12
    &&& 1 <= t.day <= 31
    &&& t.hour <= 23
    &&& t.minute <= 59
    &&& t.second <= 59
}

/// The byte at position `i` of the canonical 25-byte rendering.
pub open spec fn ts_char(t: Timestamp, i: int) -> u8 {
    if i == 4 || i == 7 {
        B_MINUS
    } else if i == 10 {
        B_UPPER_T
    } else if i == 13 || i == 16 || i == 22 {
        B_COLON
    } else if i == 19 {
        B_PLUS
    } else if i == 20 || i == 21 || i == 23 || i == 24 {
        B_ZERO
    } else if i == 0 {
        (t.year as int / 1000 % 10 + B_ZERO) as u8
    } else if i == 1 {
        (t.year as int / 100 % 10 + B_ZERO) as u8
    } else if i == 2 {
        (t.year as int / 10 % 10 + B_ZERO) as u8
    } else if i == 3 {
        (t.year as int % 10 + B_ZERO) as u8
    } else if i == 5 {
        (t.month as int / 10 % 10 + B_ZERO) as u8
    } else if i == 6 {
        (t.month as int % 10 + B_ZERO) as u8
    } else if i == 8 {
        (t.day as int / 10 % 10 + B_ZERO) as u8
    } else if i == 9 {
        (t.day as int % 10 + B_ZERO) as u8
    } else if i == 11 {
        (t.hour as int / 10 % 10 + B_ZERO) as u8
    } else if i == 12 {
        (t.hour as int % 10 + B_ZERO) as u8
    } else if i == 14 {
        (t.minute as int / 10 % 10 + B_ZERO) as u8
    } else if i == 15 {
        (t.minute as int % 10 + B_ZERO) as u8
    } else if i == 17 {
        (t.second as int / 10 % 10 + B_ZERO) as u8
    } else {
        (t.second as int % 10 + B_ZERO) as u8
    }
}

/// The canonical rendering, always with the `+00:00` offset.
pub open spec fn ts_bytes(t: Timestamp) -> Seq<u8> {
    Seq::new(25, |i: int| ts_char(t, i))
}

/// The separator and digit layout of a timestamp text.
pub open spec fn ts_shape(s: Seq<u8>) -> bool {
    &&& is_digit(s[0]) && is_digit(s[1]) && is_digit(s[2]) && is_digit(s[3])
    &&& s[4] == B_MINUS
    &&& is_digit(s[5]) && is_digit(s[6])
    &&& s[7] == B_MINUS
    &&& is_digit(s[8]) && is_digit(s[9])
    &&& s[10] == B_UPPER_T
    &&& is_digit(s[11]) && is_digit(s[12])
    &&& s[13] == B_COLON
    &&& is_digit(s[14]) && is_digit(s[15])
    &&& s[16] == B_COLON
    &&& is_digit(s[17]) && is_digit(s[18])
    &&& if s.len() == 25 {
        s[19] == B_PLUS && s[20] == B_ZERO && s[21] == B_ZERO && s[22] == B_COLON && s[23]
            == B_ZERO && s[24] == B_ZERO
    } else {
        s[19] == B_UPPER_Z
    }
}

/// The two-digit number at position `i`.
pub open spec fn d2(s: Seq<u8>, i: int) -> nat {
    digit_val(s[i]) * 10 + digit_val(s[i + 1])
}

/// The fields a well-shaped timestamp text denotes.
pub open spec fn ts_fields(s: Seq<u8>) -> Timestamp {
    Timestamp {
        year: (digit_val(s[0]) * 1000 + digit_val(s[1]) * 100 + digit_val(s[2]) * 10 + digit_val(
            s[3],
        )) as u16,
        month: d2(s, 5) as u8,
        day: d2(s, 8) as u8,
        hour: d2(s, 11) as u8,
        minute: d2(s, 14) as u8,
        second: d2(s, 17) as u8,
    }
}

/// What a timestamp text denotes; `None` on any other shape or on
/// fields out of calendar range.
pub open spec fn ts_of_bytes(s: Seq<u8>) -> Option<Timestamp> {
    if s.len() != 25 && s.len() != 20 {
        None
    } else if !ts_shape(s) {
        None
    } else {
        let t = ts_fields(s);
        if ts_wf(t) {
            Some(t)
        } else {
            None
        }
    }
}

/// Appends the canonical timestamp text.
#[verifier::rlimit(60)]
pub fn encode_timestamp(t: Timestamp, out: &mut Vec<u8>)
    requires
        ts_wf(t),
    ensures
        final(out)@ == old(out)@ + ts_bytes(t),
{
    push_two_digits((t.year / 100) as u8, out);
    push_two_digits((t.year % 100) as u8, out);
    out.push(B_MINUS);
    push_two_digits(t.month, out);
    out.push(B_MINUS);
    push_two_digits(t.day, out);
    out.push(B_UPPER_T);
    push_two_digits(t.hour, out);
    out.push(B_COLON);
    push_two_digits(t.minute, out);
    out.push(B_COLON);
    push_two_digits(t.second, out);
    out.push(B_PLUS);
    out.push(B_ZERO);
    out.push(B_ZERO);
    out.push(B_COLON);
    out.push(B_ZERO);
    out.push(B_ZERO);
    proof {
        lemma_div_denominator(t.year as int, 100, 10);
        lemma_fundamental_div_mod(t.year as int, 100);
        lemma_fundamental_div_mod(t.year as int % 100, 10);
        lemma_fundamental_div_mod(t.year as int, 10);
        lemma_div_denominator(t.year as int, 10, 10);
        assert(out@ =~= old(out)@ + ts_bytes(t));
    }
}

/// Appends a zero-padded two-digit number.
fn push_two_digits(n: u8, out: &mut Vec<u8>)
    requires
        n <= 99,
    ensures
        final(out)@ == old(out)@ + seq![
            (n as int / 10 % 10 + B_ZERO) as u8,
            (n as int % 10 + B_ZERO) as u8,
        ],
{
    out.push(B_ZERO + n / 10);
    out.push(B_ZERO + n % 10);
    proof {
        lemma_small_mod((n / 10) as nat, 10);
        assert(out@ =~= old(out)@ + seq![
            (n as int / 10 % 10 + B_ZERO) as u8,
            (n as int % 10 + B_ZERO) as u8,
        ]);
    }
}

/// Reads the two-digit number at `i`.
fn read_two_digits(s: &[u8], i: usize) -> (r: u8)
    requires
        i + 1 < s@.len(),
        is_digit(s@[i as int]),
        is_digit(s@[i + 1]),
    ensures
        r as nat == d2(s@, i as int),
        r <= 99,
{
    (s[i] - B_ZERO) * 10 + (s[i + 1] - B_ZERO)
}

/// Reads a timestamp text, as [`ts_of_bytes`] describes it.
pub fn decode_timestamp(s: &[u8]) -> (r: Option<Timestamp>)
    ensures
        r == ts_of_bytes(s@),
{
    if s.len() != 25 && s.len() != 20 {
        return None;
    }
    let shape_ok = is_digit_at(s, 0) && is_digit_at(s, 1) && is_digit_at(s, 2) && is_digit_at(s, 3)
        && s[4] == B_MINUS && is_digit_at(s, 5) && is_digit_at(s, 6) && s[7] == B_MINUS
        && is_digit_at(s, 8) && is_digit_at(s, 9) && s[10] == B_UPPER_T && is_digit_at(s, 11)
        && is_digit_at(s, 12) && s[13] == B_COLON && is_digit_at(s, 14) && is_digit_at(s, 15)
        && s[16] == B_COLON && is_digit_at(s, 17) && is_digit_at(s, 18);
    let suffix_ok = if s.len() == 25 {
        s[19] == B_PLUS && s[20] == B_ZERO && s[21] == B_ZERO && s[22] == B_COLON && s[23] == B_ZERO
            && s[24] == B_ZERO
    } else {
        s[19] == B_UPPER_Z
    };
    if !(shape_ok && suffix_ok) {
        return None;
    }
    let year: u16 = (s[0] - B_ZERO) as u16 * 1000 + (s[1] - B_ZERO) as u16 * 100 + (s[2]
        - B_ZERO) as u16 * 10 + (s[3] - B_ZERO) as u16;
    let t = Timestamp {
        year,
        month: read_two_digits(s, 5),
        day: read_two_digits(s, 8),
        hour: read_two_digits(s, 11),
        minute: read_two_digits(s, 14),
        second: read_two_digits(s, 17),
    };
    if 1 <= t.month && t.month <= 12 && 1 <= t.day && t.day <= 31 && t.hour <= 23 && t.minute <= 59
        && t.second <= 59 {
        Some(t)
    } else {
        None
    }
}

/// Whether the byte at `i` is a digit.
fn is_digit_at(s: &[u8], i: usize) -> (r: bool)
    requires
        i < s@.len(),
    ensures
        r == is_digit(s@[i as int]),
{
    B_ZERO <= s[i] && s[i] <= B_NINE
}

/// A number below 10000 is the value of its four printed digits.
proof fn lemma_four_digit_reconstruct(y: int)
    requires
        0 <= y < 10000,
    ensures
        (y / 1000 % 10) * 1000 + (y / 100 % 10) * 100 + (y / 10 % 10) * 10 + y % 10 == y,
{
    lemma_fundamental_div_mod(y, 10);
    lemma_fundamental_div_mod(y / 10, 10);
    lemma_fundamental_div_mod(y / 100, 10);
    lemma_div_denominator(y, 10, 10);
    lemma_div_denominator(y, 100, 10);
    lemma_small_mod((y / 1000) as nat, 10);
}

/// A number below 100 is the value of its two printed digits.
proof fn lemma_two_digit_reconstruct(y: int)
    requires
        0 <= y < 100,
    ensures
        (y / 10 % 10) * 10 + y % 10 == y,
{
    lemma_fundamental_div_mod(y, 10);
    lemma_small_mod((y / 10) as nat, 10);
}

/// Every well-formed timestamp survives the trip through its text.
pub proof fn lemma_timestamp_round_trip(t: Timestamp)
    requires
        ts_wf(t),
    ensures
        ts_of_bytes(ts_bytes(t)) == Some(t),
{
    let s = ts_bytes(t);
    assert(s.len() == 25);
    lemma_four_digit_reconstruct(t.year as int);
    lemma_two_digit_reconstruct(t.month as int);
    lemma_two_digit_reconstruct(t.day as int);
    lemma_two_digit_reconstruct(t.hour as int);
    lemma_two_digit_reconstruct(t.minute as int);
    lemma_two_digit_reconstruct(t.second as int);
    assert(ts_shape(s));
    assert(ts_fields(s) == t);
}

} // verus!
