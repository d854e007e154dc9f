//! Quoted strings on the wire: a shared escaping scheme for all three
//! formats, a parser for it, and the proof that parsing undoes
//! printing.
use vstd::prelude::*;
use crate::bytes::{B_QUOTE, B_BACKSLASH, B_NEWLINE, B_LOWER_N};

verus! {

/// Bytes that the quoted-string grammar escapes.
pub open spec fn needs_escape(b: u8) -> bool {
    b == B_QUOTE || b == B_BACKSLASH || b == B_NEWLINE
}

/// The escaped form of one byte.
pub open spec fn escape_byte(b: u8) -> Seq<u8> {
    if b == B_NEWLINE {
        seq![B_BACKSLASH, B_LOWER_N]
    } else if needs_escape(b) {
        seq![B_BACKSLASH, b]
    } else {
        seq![b]
    }
}

/// The escaped form of a byte string.
pub open spec fn escape(s: Seq<u8>) -> Seq<u8>
    decreases s.len(),
{
    if s.len() == 0 {
        seq![]
    } else {
        escape_byte(s[0]) + escape(s.drop_first())
    }
}

/// A quoted scalar: the escaped bytes between two quote bytes.
pub open spec fn quoted_bytes(raw: Seq<u8>) -> Seq<u8> {
    seq![B_QUOTE] + escape(raw) + seq![B_QUOTE]
}

pub proof fn lemma_escape_append(a: Seq<u8>, b: Seq<u8>)
    ensures
        escape(a + b) == escape(a) + escape(b),
    decreases a.len(),
{
    if a.len() == 0 {
        assert(a + b =~= b);
        assert(escape(a) + escape(b) =~= escape(b));
    } else {
        assert((a + b).drop_first() =~= a.drop_first() + b);
        lemma_escape_append(a.drop_first(), b);
        assert(escape(a + b) =~= escape(a) + escape(b));
    }
}

/// Whether `e` may follow a backslash, and what the pair stands for.
pub open spec fn unescape_ok(e: u8) -> bool {
    e == B_QUOTE || e == B_BACKSLASH || e == B_LOWER_N
}

pub open spec fn unescape_byte(e: u8) -> u8
    recommends
        unescape_ok(e),
{
    if e == B_LOWER_N {
        B_NEWLINE
    } else {
        e
    }
}

/// Reads a quoted scalar's body starting at `i` (just after the opening
/// quote): the raw bytes and the index just past the closing quote.
pub open spec fn parse_quoted(s: Seq<u8>, i: int) -> Option<(Seq<u8>, int)>
    decreases s.len() - i,
{
    if i < 0 || i >= s.len() {
        None
    } else if s[i] == B_QUOTE {
        Some((seq![], i + 1))
    } else if s[i] == B_NEWLINE {
        None
    } else if s[i] == B_BACKSLASH {
        if i + 1 < s.len() && unescape_ok(s[i + 1]) {
            match parse_quoted(s, i + 2) {
                Some((t, j)) => Some((seq![unescape_byte(s[i + 1])] + t, j)),
                None => None,
            }
        } else {
            None
        }
    } else {
        match parse_quoted(s, i + 1) {
            Some((t, j)) => Some((seq![s[i]] + t, j)),
            None => None,
        }
    }
}

/// Parsing a printed quoted body yields the raw bytes back.
pub proof fn lemma_parse_quoted_of_escaped(s: Seq<u8>, i: int, raw: Seq<u8>)
    requires
        0 <= i,
        i + escape(raw).len() + 1 <= s.len(),
        s.subrange(i, i + escape(raw).len() as int) == escape(raw),
        s[i + escape(raw).len() as int] == B_QUOTE,
    ensures
        parse_quoted(s, i) == Some((raw, i + escape(raw).len() + 1)),
    decreases raw.len(),
{
    let e = escape(raw);
    if raw.len() == 0 {
        assert(s[i] == B_QUOTE);
    } else {
        let e0 = escape_byte(raw[0]);
        let erest = escape(raw.drop_first());
        assert(e == e0 + erest);
        assert forall|k: int| 0 <= k < e.len() implies s[i + k] == e[k] by {
            assert(s.subrange(i, i + e.len() as int)[k] == s[i + k]);
        }
        let i2 = i + e0.len();
        assert forall|k: int| 0 <= k < erest.len() implies s.subrange(
            i2,
            i2 + erest.len() as int,
        )[k] == erest[k] by {
            assert(s[i + (e0.len() + k)] == e[e0.len() + k]);
            assert(e[e0.len() + k] == erest[k]);
        }
        assert(s.subrange(i2, i2 + erest.len() as int) =~= erest);
        assert(s[i] == e[0] && e[0] == e0[0]);
        if e0.len() > 1 {
            assert(s[i + 1] == e[1] && e[1] == e0[1]);
        }
        lemma_parse_quoted_of_escaped(s, i2, raw.drop_first());
        if raw[0] == B_NEWLINE {
            assert(s[i] == B_BACKSLASH && s[i + 1] == B_LOWER_N);
            assert(seq![unescape_byte(s[i + 1])] + raw.drop_first() =~= raw);
        } else if needs_escape(raw[0]) {
            assert(s[i] == B_BACKSLASH && s[i + 1] == raw[0]);
            assert(seq![unescape_byte(s[i + 1])] + raw.drop_first() =~= raw);
        } else {
            assert(s[i] == raw[0]);
            assert(seq![s[i]] + raw.drop_first() =~= raw);
        }
    }
}

/// Prepends already-read raw bytes to a parse result.
pub open spec fn prepend_parsed(pre: Seq<u8>, o: Option<(Seq<u8>, int)>) -> Option<(Seq<u8>, int)> {
    match o {
        Some((t, e)) => Some((pre + t, e)),
        None => None,
    }
}

/// Appends the quoted form of `raw`.
pub fn push_quoted(raw: &[u8], out: &mut Vec<u8>)
    ensures
        final(out)@ == old(out)@ + quoted_bytes(raw@),
{
    out.push(B_QUOTE);
    let mut i: usize = 0;
    while i < raw.len()
        invariant
            i <= raw@.len(),
            out@ == old(out)@ + seq![B_QUOTE] + escape(raw@.take(i as int)),
        decreases raw@.len() - i,
    {
        let b = raw[i];
        if b == B_NEWLINE {
            out.push(B_BACKSLASH);
            out.push(B_LOWER_N);
        } else if b == B_QUOTE || b == B_BACKSLASH {
            out.push(B_BACKSLASH);
            out.push(b);
        } else {
            out.push(b);
        }
        proof {
            assert(raw@.take(i + 1) =~= raw@.take(i as int) + seq![raw@[i as int]]);
            lemma_escape_append(raw@.take(i as int), seq![raw@[i as int]]);
            assert(seq![raw@[i as int]].drop_first() =~= Seq::<u8>::empty());
            assert(escape(Seq::<u8>::empty()) =~= Seq::<u8>::empty());
            assert(escape(seq![raw@[i as int]]) =~= escape_byte(raw@[i as int]));
            assert(out@ =~= old(out)@ + seq![B_QUOTE] + escape(raw@.take(i + 1)));
        }
        i = i + 1;
    }
    out.push(B_QUOTE);
    proof {
        assert(raw@.take(raw@.len() as int) =~= raw@);
        assert(out@ =~= old(out)@ + quoted_bytes(raw@));
    }
}

/// Reads a quoted scalar's body, as [`parse_quoted`] describes it.
pub fn read_quoted(s: &[u8], i: usize) -> (r: Option<(Vec<u8>, usize)>)
    requires
        i <= s@.len(),
    ensures
        match r {
            Some(p) => parse_quoted(s@, i as int) == Some((p.0@, p.1 as int)) && i < p.1
                <= s@.len(),
            None => parse_quoted(s@, i as int) is None,
        },
{
    let mut acc: Vec<u8> = Vec::new();
    let mut j = i;
    loop
        invariant
            i <= j <= s@.len(),
            parse_quoted(s@, i as int) == prepend_parsed(acc@, parse_quoted(s@, j as int)),
        decreases s@.len() - j,
    {
        if j >= s.len() {
            return None;
        }
        let b = s[j];
        if b == B_QUOTE {
            proof {
                assert(acc@ + Seq::<u8>::empty() =~= acc@);
            }
            return Some((acc, j + 1));
        } else if b == B_NEWLINE {
            return None;
        } else if b == B_BACKSLASH {
            if j + 1 >= s.len() {
                return None;
            }
            let e = s[j + 1];
            if e == B_LOWER_N {
                acc.push(B_NEWLINE);
            } else if e == B_QUOTE || e == B_BACKSLASH {
                acc.push(e);
            } else {
                return None;
            }
            proof {
                assert forall|t: Seq<u8>, en: int|
                    parse_quoted(s@, j + 2) == Some::<(Seq<u8>, int)>((t, en)) implies acc@ + t
                    =~= (acc@.drop_last()) + (seq![unescape_byte(s@[j + 1])] + t) by {}
            }
            j = j + 2;
        } else {
            acc.push(b);
            proof {
                assert forall|t: Seq<u8>, en: int|
                    parse_quoted(s@, j + 1) == Some::<(Seq<u8>, int)>((t, en)) implies acc@ + t
                    =~= (acc@.drop_last()) + (seq![s@[j as int]] + t) by {}
            }
            j = j + 1;
        }
    }
}

/// Relies on `String::from_utf8`: it returns `Ok` exactly on valid
/// UTF-8 input, and the returned string holds those bytes.
#[verifier::external_body]
pub fn bytes_to_string(v: Vec<u8>) -> (r: Option<String>)
    ensures
        r is Some <==> vstd::utf8::valid_utf8(v@),
        r matches Some(s) ==> vstd::utf8::encode_utf8(s@) == v@,
{
    String::from_utf8(v).ok()
}

} // verus!
