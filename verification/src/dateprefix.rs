//! The custom field transform of the event date: the wire form carries
//! the literal prefix `Date: `, the in-memory value never does.
//! Decoding strips a strict leading prefix only, and fails when the
//! prefix is absent.
use vstd::prelude::*;
use crate::bytes::{B_UPPER_D, B_LOWER_A, B_LOWER_T, B_LOWER_E, B_COLON, B_SPACE};

verus! {

/// The wire prefix, `Date: `.
pub open spec fn date_prefix() -> Seq<u8> {
    seq![B_UPPER_D, B_LOWER_A, B_LOWER_T, B_LOWER_E, B_COLON, B_SPACE]
}

/// The wire form of a date: the prefix, then the raw text.
pub open spec fn date_wrap(raw: Seq<u8>) -> Seq<u8> {
    date_prefix() + raw
}

/// The raw text of a wire form; `None` when the strict leading prefix
/// is absent.
pub open spec fn date_unwrap(s: Seq<u8>) -> Option<Seq<u8>> {
    if s.len() >= 6 && s.subrange(0, 6) == date_prefix() {
        Some(s.subrange(6, s.len() as int))
    } else {
        None
    }
}

/// Unwrapping a wrapped date yields the raw text, for every raw text.
pub proof fn lemma_date_round_trip(raw: Seq<u8>)
    ensures
        date_unwrap(date_wrap(raw)) == Some(raw),
{
    let s = date_wrap(raw);
    assert(s.subrange(0, 6) =~= date_prefix());
    assert(s.subrange(6, s.len() as int) =~= raw);
}

/// Appends each byte of `s`.
pub fn push_all(s: &[u8], out: &mut Vec<u8>)
    ensures
        final(out)@ == old(out)@ + s@,
{
    let mut i: usize = 0;
    while i < s.len()
        invariant
            i <= s@.len(),
            out@ == old(out)@ + s@.take(i as int),
        decreases s@.len() - i,
    {
        out.push(s[i]);
        proof {
            assert(out@ =~= old(out)@ + s@.take(i + 1));
        }
        i = i + 1;
    }
    proof {
        assert(s@.take(s@.len() as int) =~= s@);
    }
}

/// Appends the wire form of a date.
pub fn push_wrapped_date(raw: &[u8], out: &mut Vec<u8>)
    ensures
        final(out)@ == old(out)@ + date_wrap(raw@),
{
    out.push(B_UPPER_D);
    out.push(B_LOWER_A);
    out.push(B_LOWER_T);
    out.push(B_LOWER_E);
    out.push(B_COLON);
    out.push(B_SPACE);
    push_all(raw, out);
    proof {
        assert(out@ =~= old(out)@ + date_wrap(raw@));
    }
}

/// Strips the strict leading prefix, as [`date_unwrap`] describes it.
pub fn unwrap_date(s: &[u8]) -> (r: Option<Vec<u8>>)
    ensures
        match r {
            Some(v) => date_unwrap(s@) == Some(v@),
            None => date_unwrap(s@) is None,
        },
{
    if s.len() < 6 {
        proof {
            if s@.len() >= 6 {
                assert(false);
            }
        }
        return None;
    }
    if s[0] == B_UPPER_D && s[1] == B_LOWER_A && s[2] == B_LOWER_T && s[3] == B_LOWER_E && s[4]
        == B_COLON && s[5] == B_SPACE {
        proof {
            assert(s@.subrange(0, 6) =~= date_prefix());
        }
        let mut rest: Vec<u8> = Vec::new();
        let mut i: usize = 6;
        while i < s.len()
            invariant
                6 <= i <= s@.len(),
                rest@ == s@.subrange(6, i as int),
            decreases s@.len() - i,
        {
            rest.push(s[i]);
            proof {
                assert(rest@ =~= s@.subrange(6, i + 1));
            }
            i = i + 1;
        }
        Some(rest)
    } else {
        proof {
            if s@.subrange(0, 6) == date_prefix() {
                assert(s@[0] == date_prefix()[0] && s@[1] == date_prefix()[1] && s@[2]
                    == date_prefix()[2] && s@[3] == date_prefix()[3] && s@[4] == date_prefix()[4]
                    && s@[5] == date_prefix()[5]);
            }
        }
        None
    }
}

} // verus!
