//! Decimal numerals on byte strings: printing and parsing of unsigned
//! and signed integers, and the fixed-point `Price` amount, with
//! round-trip proofs.
use vstd::prelude::*;
use vstd::arithmetic::div_mod::lemma_fundamental_div_mod;
use crate::bytes::{B_ZERO, B_NINE, B_MINUS, B_DOT};

verus! {

/// A non-negative decimal amount held in hundredths, printed and
/// parsed with one or two fractional digits.
#[derive(Clone, Copy, PartialEq, Eq, Structural, Debug)]
pub struct Price {
    pub cents: u64,
}

impl DeepView for Price {
    type V = Price;

    open spec fn deep_view(&self) -> Price {
        *self
    }
}

pub open spec fn is_digit(b: u8) -> bool {
    B_ZERO <= b <= B_NINE
}

/// Numeric value of one digit byte.
pub open spec fn digit_val(b: u8) -> nat
    recommends
        is_digit(b),
{
    (b - B_ZERO) as nat
}

/// Canonical decimal digits of `n`, most significant first.
pub open spec fn dec_digits(n: nat) -> Seq<u8>
    decreases n,
{
    if n < 10 {
        seq![(n + B_ZERO) as u8]
    } else {
        dec_digits(n / 10) + seq![(n % 10 + B_ZERO) as u8]
    }
}

/// The number denoted by a digit string, most significant first.
pub open spec fn digits_val(s: Seq<u8>) -> nat
    decreases s.len(),
{
    if s.len() == 0 {
        0
    } else {
        digits_val(s.drop_last()) * 10 + digit_val(s.last())
    }
}

pub open spec fn all_digits(s: Seq<u8>) -> bool {
    forall|i: int| 0 <= i < s.len() ==> is_digit(#[trigger] s[i])
}

/// Printing a number and reading the digits back yields the number.
pub proof fn lemma_dec_digits_ok(n: nat)
    ensures
        dec_digits(n).len() >= 1,
        all_digits(dec_digits(n)),
        digits_val(dec_digits(n)) == n,
    decreases n,
{
    if n < 10 {
        let s = dec_digits(n);
        assert(s.drop_last() =~= Seq::<u8>::empty());
        assert(digits_val(Seq::<u8>::empty()) == 0);
        assert(digits_val(s) == digit_val((n + B_ZERO) as u8));
    } else {
        lemma_dec_digits_ok(n / 10);
        let a = dec_digits(n / 10);
        let d = (n % 10 + B_ZERO) as u8;
        let s = dec_digits(n);
        assert(s == a + seq![d]);
        assert(s.drop_last() =~= a);
        assert(s.last() == d);
        lemma_fundamental_div_mod(n as int, 10);
        assert forall|i: int| 0 <= i < s.len() implies is_digit(#[trigger] s[i]) by {
            if i < a.len() {
                assert(s[i] == a[i]);
            } else {
                assert(s[i] == d);
            }
        }
    }
}

/// The value of a digit-string prefix never exceeds the whole string's value.
pub proof fn lemma_digits_val_take(s: Seq<u8>, j: int)
    requires
        0 <= j <= s.len(),
    ensures
        digits_val(s.take(j)) <= digits_val(s),
    decreases s.len() - j,
{
    if j == s.len() {
        assert(s.take(j) =~= s);
    } else {
        assert(s.take(j + 1).drop_last() =~= s.take(j));
        assert(s.take(j + 1).last() == s[j]);
        lemma_digits_val_take(s, j + 1);
    }
}

/// Appends the canonical decimal digits of `n`.
pub fn push_u64_digits(n: u64, out: &mut Vec<u8>)
    ensures
        final(out)@ == old(out)@ + dec_digits(n as nat),
    decreases n,
{
    if n < 10 {
        out.push(B_ZERO + n as u8);
        assert(out@ =~= old(out)@ + dec_digits(n as nat));
    } else {
        push_u64_digits(n / 10, out);
        out.push(B_ZERO + (n % 10) as u8);
        assert(out@ =~= old(out)@ + dec_digits(n as nat));
    }
}

/// Reads the digits `s[start..end]` as a `u64`; `None` exactly when the
/// value does not fit.
pub fn parse_u64_digits(s: &[u8], start: usize, end: usize) -> (r: Option<u64>)
    requires
        start <= end <= s@.len(),
        forall|i: int| start <= i < end ==> is_digit(#[trigger] s@[i]),
    ensures
        match r {
            Some(v) => v as nat == digits_val(s@.subrange(start as int, end as int)),
            None => digits_val(s@.subrange(start as int, end as int)) > u64::MAX,
        },
{
    let ghost whole = s@.subrange(start as int, end as int);
    let mut acc: u64 = 0;
    let mut i: usize = start;
    while i < end
        invariant
            start <= i <= end <= s@.len(),
            forall|k: int| start <= k < end ==> is_digit(#[trigger] s@[k]),
            acc as nat == digits_val(s@.subrange(start as int, i as int)),
            whole == s@.subrange(start as int, end as int),
        decreases end - i,
    {
        let d = s[i] - B_ZERO;
        proof {
            assert(s@.subrange(start as int, i + 1).drop_last() =~= s@.subrange(
                start as int,
                i as int,
            ));
            assert(s@.subrange(start as int, i + 1).last() == s@[i as int]);
            assert(whole.take(i + 1 - start) =~= s@.subrange(start as int, i + 1));
        }
        if acc > u64::MAX / 10 {
            proof {
                lemma_digits_val_take(whole, i + 1 - start);
            }
            return None;
        }
        acc = acc * 10;
        if (d as u64) > u64::MAX - acc {
            proof {
                lemma_digits_val_take(whole, i + 1 - start);
            }
            return None;
        }
        acc = acc + d as u64;
        i = i + 1;
    }
    assert(whole =~= s@.subrange(start as int, i as int));
    Some(acc)
}

/// The bytes of a signed decimal numeral.
pub open spec fn int_bytes(n: int) -> Seq<u8> {
    if n < 0 {
        seq![B_MINUS] + dec_digits((-n) as nat)
    } else {
        dec_digits(n as nat)
    }
}

/// Appends the decimal numeral of `n`, with a sign when negative.
pub fn push_i64_digits(n: i64, out: &mut Vec<u8>)
    ensures
        final(out)@ == old(out)@ + int_bytes(n as int),
{
    if n >= 0 {
        push_u64_digits(n as u64, out);
    } else {
        out.push(B_MINUS);
        let m: u64 = if n == i64::MIN {
            9223372036854775808u64
        } else {
            (-n) as u64
        };
        assert(m as nat == (-(n as int)) as nat);
        push_u64_digits(m, out);
        assert(out@ =~= old(out)@ + int_bytes(n as int));
    }
}

/// Combines a sign and a magnitude into an `i64`; `None` exactly when
/// the signed value is out of range.
pub fn i64_from_parts(neg: bool, m: u64) -> (r: Option<i64>)
    ensures
        match r {
            Some(v) => v as int == if neg {
                -(m as int)
            } else {
                m as int
            },
            None => if neg {
                m > 9223372036854775808u64
            } else {
                m > i64::MAX
            },
        },
{
    if !neg {
        if m <= i64::MAX as u64 {
            Some(m as i64)
        } else {
            None
        }
    } else {
        if m < 9223372036854775808u64 {
            Some(-(m as i64))
        } else if m == 9223372036854775808u64 {
            Some(i64::MIN)
        } else {
            None
        }
    }
}

/// The bytes of a price: units, a dot, then one or two fraction digits,
/// the second only when it is not zero.
pub open spec fn price_bytes(p: Price) -> Seq<u8> {
    let units = p.cents / 100;
    let frac = p.cents % 100;
    if frac % 10 == 0 {
        dec_digits(units as nat) + seq![B_DOT, (frac / 10 + B_ZERO) as u8]
    } else {
        dec_digits(units as nat) + seq![B_DOT, (frac / 10 + B_ZERO) as u8, (frac % 10 + B_ZERO) as u8]
    }
}

/// Appends the canonical decimal form of a price.
pub fn push_price(p: Price, out: &mut Vec<u8>)
    ensures
        final(out)@ == old(out)@ + price_bytes(p),
{
    let units = p.cents / 100;
    let frac = p.cents % 100;
    push_u64_digits(units, out);
    out.push(B_DOT);
    out.push(B_ZERO + (frac / 10) as u8);
    if frac % 10 != 0 {
        out.push(B_ZERO + (frac % 10) as u8);
    }
    assert(out@ =~= old(out)@ + price_bytes(p));
}

/// Combines whole units and a fraction in hundredths into a price;
/// `None` exactly when the amount does not fit.
pub fn price_from_parts(units: u64, frac: u64) -> (r: Option<Price>)
    requires
        frac < 100,
    ensures
        match r {
            Some(p) => p.cents == units * 100 + frac,
            None => units * 100 + frac > u64::MAX,
        },
{
    if units <= (u64::MAX - frac) / 100 {
        proof {
            assert(units * 100 + frac <= u64::MAX) by (nonlinear_arith)
                requires
                    units <= (u64::MAX - frac) / 100,
                    frac < 100,
            ;
        }
        Some(Price { cents: units * 100 + frac })
    } else {
        proof {
            assert(units * 100 + frac > u64::MAX) by (nonlinear_arith)
                requires
                    units > (u64::MAX - frac) / 100,
                    frac < 100,
            ;
        }
        None
    }
}

/// First index at or after `i` that does not hold a digit.
pub open spec fn digit_run_len(s: Seq<u8>, i: int) -> int
    decreases s.len() - i,
{
    if i < 0 || i >= s.len() || !is_digit(s[i]) {
        i
    } else {
        digit_run_len(s, i + 1)
    }
}

/// A digit run ends exactly where the digits end.
pub proof fn lemma_digit_run(s: Seq<u8>, i: int, j: int)
    requires
        0 <= i <= j <= s.len(),
        forall|k: int| i <= k < j ==> is_digit(#[trigger] s[k]),
        j == s.len() || !is_digit(s[j]),
    ensures
        digit_run_len(s, i) == j,
    decreases j - i,
{
    if i < j {
        lemma_digit_run(s, i + 1, j);
    }
}

/// Advances over the digits that start at `i`.
pub fn digit_run_end(s: &[u8], i: usize) -> (r: usize)
    requires
        i <= s@.len(),
    ensures
        r == digit_run_len(s@, i as int),
        i <= r <= s@.len(),
        forall|k: int| i <= k < r ==> is_digit(#[trigger] s@[k]),
        r == s@.len() || !is_digit(s@[r as int]),
{
    let mut j = i;
    while j < s.len() && B_ZERO <= s[j] && s[j] <= B_NINE
        invariant
            i <= j <= s@.len(),
            forall|k: int| i <= k < j ==> is_digit(#[trigger] s@[k]),
        decreases s@.len() - j,
    {
        j = j + 1;
    }
    proof {
        lemma_digit_run(s@, i as int, j as int);
    }
    j
}

} // verus!
