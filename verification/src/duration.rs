//! The human-readable duration grammar: a digit run followed by a unit
//! suffix (`ms`, `s`, `m`, `h`), held in memory at millisecond
//! granularity.
use vstd::prelude::*;
use vstd::arithmetic::div_mod::lemma_fundamental_div_mod;
use crate::bytes::{B_LOWER_M, B_LOWER_S, B_LOWER_H};
use crate::num::{
    dec_digits, digits_val, digit_run_len, digit_run_end, is_digit, all_digits,
    lemma_dec_digits_ok, lemma_digit_run, parse_u64_digits,
};

verus! {

/// A span of time at millisecond granularity.
#[derive(Clone, Copy, PartialEq, Eq, Structural, Debug)]
pub struct Duration {
    pub millis: u64,
}

impl DeepView for Duration {
    type V = Duration;

    open spec fn deep_view(&self) -> Duration {
        *self
    }
}

pub const MILLIS_PER_SECOND: u64 = 1000;

pub const MILLIS_PER_MINUTE: u64 = 60000;

pub const MILLIS_PER_HOUR: u64 = 3600000;

/// The canonical rendering: the largest unit that divides the value
/// exactly, milliseconds when seconds do not.
pub open spec fn duration_bytes(d: Duration) -> Seq<u8> {
    if d.millis % MILLIS_PER_SECOND != 0 {
        dec_digits(d.millis as nat) + seq![B_LOWER_M, B_LOWER_S]
    } else if d.millis % MILLIS_PER_HOUR == 0 {
        dec_digits((d.millis / MILLIS_PER_HOUR) as nat) + seq![B_LOWER_H]
    } else if d.millis % MILLIS_PER_MINUTE == 0 {
        dec_digits((d.millis / MILLIS_PER_MINUTE) as nat) + seq![B_LOWER_M]
    } else {
        dec_digits((d.millis / MILLIS_PER_SECOND) as nat) + seq![B_LOWER_S]
    }
}

/// Milliseconds per unit suffix; `None` for an unknown suffix.
pub open spec fn unit_millis(unit: Seq<u8>) -> Option<int> {
    if unit == seq![B_LOWER_M, B_LOWER_S] {
        Some(1int)
    } else if unit == seq![B_LOWER_S] {
        Some(MILLIS_PER_SECOND as int)
    } else if unit == seq![B_LOWER_M] {
        Some(MILLIS_PER_MINUTE as int)
    } else if unit == seq![B_LOWER_H] {
        Some(MILLIS_PER_HOUR as int)
    } else {
        None
    }
}

/// What a duration text denotes: digits, then a unit; `None` on any
/// other shape and on overflow.
pub open spec fn duration_of_bytes(s: Seq<u8>) -> Option<Duration> {
    let dlen = digit_run_len(s, 0);
    if dlen == 0 {
        None
    } else {
        match unit_millis(s.subrange(dlen, s.len() as int)) {
            Some(m) => {
                let v = digits_val(s.subrange(0, dlen)) * m;
                if v <= u64::MAX {
                    Some(Duration { millis: v as u64 })
                } else {
                    None
                }
            },
            None => None,
        }
    }
}

/// Appends the canonical duration text.
pub fn encode_duration(d: Duration, out: &mut Vec<u8>)
    ensures
        final(out)@ == old(out)@ + duration_bytes(d),
{
    if d.millis % MILLIS_PER_SECOND != 0 {
        crate::num::push_u64_digits(d.millis, out);
        out.push(B_LOWER_M);
        out.push(B_LOWER_S);
    } else if d.millis % MILLIS_PER_HOUR == 0 {
        crate::num::push_u64_digits(d.millis / MILLIS_PER_HOUR, out);
        out.push(B_LOWER_H);
    } else if d.millis % MILLIS_PER_MINUTE == 0 {
        crate::num::push_u64_digits(d.millis / MILLIS_PER_MINUTE, out);
        out.push(B_LOWER_M);
    } else {
        crate::num::push_u64_digits(d.millis / MILLIS_PER_SECOND, out);
        out.push(B_LOWER_S);
    }
    assert(out@ =~= old(out)@ + duration_bytes(d));
}

/// Reads a duration text, as [`duration_of_bytes`] describes it.
pub fn decode_duration(s: &[u8]) -> (r: Option<Duration>)
    ensures
        r == duration_of_bytes(s@),
{
    proof {
        lemma_unit_millis_values();
    }
    let e = digit_run_end(s, 0);
    if e == 0 {
        return None;
    }
    let ghost unit = s@.subrange(e as int, s@.len() as int);
    let ulen = s.len() - e;
    let mult: u64 = if ulen == 2 && s[e] == B_LOWER_M && s[e + 1] == B_LOWER_S {
        proof {
            assert(unit =~= seq![B_LOWER_M, B_LOWER_S]);
        }
        1
    } else if ulen == 1 && s[e] == B_LOWER_S {
        proof {
            assert(unit =~= seq![B_LOWER_S]);
        }
        MILLIS_PER_SECOND
    } else if ulen == 1 && s[e] == B_LOWER_M {
        proof {
            assert(unit =~= seq![B_LOWER_M]);
        }
        MILLIS_PER_MINUTE
    } else if ulen == 1 && s[e] == B_LOWER_H {
        proof {
            assert(unit =~= seq![B_LOWER_H]);
        }
        MILLIS_PER_HOUR
    } else {
        proof {
            lemma_unit_not_matched(unit, s@, e as int);
        }
        return None;
    };
    let v = match parse_u64_digits(s, 0, e) {
        Some(v) => v,
        None => {
            proof {
                let dv = digits_val(s@.subrange(0, e as int));
                assert(dv * mult >= dv * 1) by (nonlinear_arith)
                    requires
                        mult >= 1,
                        dv >= 0,
                ;
            }
            return None;
        },
    };
    if v <= u64::MAX / mult {
        proof {
            assert(v * mult <= u64::MAX) by (nonlinear_arith)
                requires
                    1 <= mult <= MILLIS_PER_HOUR,
                    v <= u64::MAX as int / mult as int,
            ;
        }
        Some(Duration { millis: v * mult })
    } else {
        proof {
            assert(v * mult > u64::MAX) by (nonlinear_arith)
                requires
                    1 <= mult <= MILLIS_PER_HOUR,
                    v > u64::MAX as int / mult as int,
            ;
        }
        None
    }
}

/// The multiplier of each of the four unit spellings.
proof fn lemma_unit_millis_values()
    ensures
        unit_millis(seq![B_LOWER_M, B_LOWER_S]) == Some(1int),
        unit_millis(seq![B_LOWER_S]) == Some(MILLIS_PER_SECOND as int),
        unit_millis(seq![B_LOWER_M]) == Some(MILLIS_PER_MINUTE as int),
        unit_millis(seq![B_LOWER_H]) == Some(MILLIS_PER_HOUR as int),
{
    assert(seq![B_LOWER_M, B_LOWER_S].len() == 2);
    assert(seq![B_LOWER_S].len() == 1);
    assert(seq![B_LOWER_M].len() == 1);
    assert(seq![B_LOWER_H].len() == 1);
    assert(seq![B_LOWER_S][0] == B_LOWER_S);
    assert(seq![B_LOWER_M][0] == B_LOWER_M);
    assert(seq![B_LOWER_H][0] == B_LOWER_H);
    assert(seq![B_LOWER_S] != seq![B_LOWER_M]);
    assert(seq![B_LOWER_S] != seq![B_LOWER_H]);
    assert(seq![B_LOWER_M] != seq![B_LOWER_H]);
}

/// A suffix that matches none of the four units denotes no multiplier.
proof fn lemma_unit_not_matched(unit: Seq<u8>, s: Seq<u8>, e: int)
    requires
        0 <= e <= s.len(),
        unit == s.subrange(e, s.len() as int),
        !(unit.len() == 2 && s[e] == B_LOWER_M && s[e + 1] == B_LOWER_S),
        !(unit.len() == 1 && s[e] == B_LOWER_S),
        !(unit.len() == 1 && s[e] == B_LOWER_M),
        !(unit.len() == 1 && s[e] == B_LOWER_H),
    ensures
        unit_millis(unit) is None,
{
    if unit.len() >= 1 {
        assert(unit[0] == s[e]);
    }
    if unit.len() >= 2 {
        assert(unit[1] == s[e + 1]);
    }
    assert(seq![B_LOWER_M, B_LOWER_S].len() == 2);
    assert(seq![B_LOWER_S].len() == 1);
    assert(seq![B_LOWER_M].len() == 1);
    assert(seq![B_LOWER_H].len() == 1);
    if unit == seq![B_LOWER_M, B_LOWER_S] {
        assert(unit[0] == B_LOWER_M && unit[1] == B_LOWER_S);
        assert(false);
    }
    if unit == seq![B_LOWER_S] {
        assert(unit[0] == B_LOWER_S);
        assert(false);
    }
    if unit == seq![B_LOWER_M] {
        assert(unit[0] == B_LOWER_M);
        assert(false);
    }
    if unit == seq![B_LOWER_H] {
        assert(unit[0] == B_LOWER_H);
        assert(false);
    }
}

/// Every duration survives the trip through its text form.
pub proof fn lemma_duration_round_trip(d: Duration)
    ensures
        duration_of_bytes(duration_bytes(d)) == Some(d),
{
    lemma_unit_millis_values();
    if d.millis % MILLIS_PER_SECOND != 0 {
        duration_case(d, d.millis as nat, seq![B_LOWER_M, B_LOWER_S], 1);
    } else if d.millis % MILLIS_PER_HOUR == 0 {
        lemma_fundamental_div_mod(d.millis as int, MILLIS_PER_HOUR as int);
        duration_case(d, (d.millis / MILLIS_PER_HOUR) as nat, seq![B_LOWER_H], MILLIS_PER_HOUR as int);
    } else if d.millis % MILLIS_PER_MINUTE == 0 {
        lemma_fundamental_div_mod(d.millis as int, MILLIS_PER_MINUTE as int);
        duration_case(
            d,
            (d.millis / MILLIS_PER_MINUTE) as nat,
            seq![B_LOWER_M],
            MILLIS_PER_MINUTE as int,
        );
    } else {
        lemma_fundamental_div_mod(d.millis as int, MILLIS_PER_SECOND as int);
        duration_case(
            d,
            (d.millis / MILLIS_PER_SECOND) as nat,
            seq![B_LOWER_S],
            MILLIS_PER_SECOND as int,
        );
    }
}

/// A canonical rendering splits where the digits end and denotes the
/// duration it was printed from.
proof fn duration_case(d: Duration, val: nat, unit: Seq<u8>, m: int)
    requires
        duration_bytes(d) == dec_digits(val) + unit,
        unit_millis(unit) == Some(m),
        m >= 1,
        d.millis as int == val * m,
    ensures
        duration_of_bytes(duration_bytes(d)) == Some(d),
{
    let digits = dec_digits(val);
    let s = duration_bytes(d);
    lemma_dec_digits_ok(val);
    lemma_unit_millis_values();
    assert(seq![B_LOWER_M, B_LOWER_S][0] == B_LOWER_M);
    assert(seq![B_LOWER_S][0] == B_LOWER_S);
    assert(seq![B_LOWER_M][0] == B_LOWER_M);
    assert(seq![B_LOWER_H][0] == B_LOWER_H);
    if unit != seq![B_LOWER_M, B_LOWER_S] && unit != seq![B_LOWER_S] && unit != seq![B_LOWER_M]
        && unit != seq![B_LOWER_H] {
        assert(unit_millis(unit) is None);
        assert(false);
    }
    assert(!is_digit(s[digits.len() as int]));
    assert forall|k: int| 0 <= k < digits.len() implies is_digit(#[trigger] s[k]) by {
        assert(s[k] == digits[k]);
    }
    lemma_digit_run(s, 0, digits.len() as int);
    assert(s.subrange(0, digits.len() as int) =~= digits);
    assert(s.subrange(digits.len() as int, s.len() as int) =~= unit);
    assert(digits_val(s.subrange(0, digits.len() as int)) == val);
    assert(val * m == d.millis as int);
}

} // verus!
