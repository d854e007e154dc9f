//! The JSON-like format adapter: compact objects, lists and scalars
//! over the generic value tree; decoding tolerates blanks between
//! tokens and any key order.
use vstd::prelude::*;
use vstd::string::StrSliceExecFns;
use vstd::utf8::{valid_utf8, decode_utf8, encode_utf8};
use crate::bytes::{B_QUOTE, B_COMMA, B_COLON, B_LBRACE, B_RBRACE, B_LBRACKET, B_RBRACKET,
    B_MINUS, B_DOT, B_SPACE, B_NEWLINE, B_TAB, B_CR, B_LOWER_T, B_LOWER_R, B_LOWER_U, B_LOWER_E,
    B_LOWER_F, B_LOWER_A, B_LOWER_L, B_LOWER_S};
use crate::num::{Price, is_digit, digits_val, digit_val, digit_run_len, digit_run_end, dec_digits,
    int_bytes, price_bytes, push_i64_digits, push_price, parse_u64_digits, i64_from_parts,
    price_from_parts};
use crate::text::{quoted_bytes, parse_quoted, push_quoted, read_quoted};
use crate::value::{Value, ValueV, entries_view, items_view};
use crate::errors::{DecodeError, DecodeErrorV, res_v};
use crate::records::{Request, RequestV, Event, EventV};
use crate::schema::{encode_request, decode_request, decode_request_v, encode_request_v,
    encode_event, decode_event, decode_event_v, encode_event_v};

verus! {

broadcast use vstd::std_specs::vec::group_vec_axioms, vstd::seq::group_seq_axioms,
    vstd::string::group_string_axioms, vstd::utf8::encode_utf8_valid_utf8,
    vstd::utf8::encode_utf8_decode_utf8;

pub open spec fn true_bytes() -> Seq<u8> {
    seq![B_LOWER_T, B_LOWER_R, B_LOWER_U, B_LOWER_E]
}

pub open spec fn false_bytes() -> Seq<u8> {
    seq![B_LOWER_F, B_LOWER_A, B_LOWER_L, B_LOWER_S, B_LOWER_E]
}

/// Blank bytes that may stand between tokens.
pub open spec fn is_ws(b: u8) -> bool {
    b == B_SPACE || b == B_NEWLINE || b == B_TAB || b == B_CR
}

/// First index at or after `i` that does not hold a blank.
pub open spec fn ws_end(s: Seq<u8>, i: int) -> int
    decreases s.len() - i,
{
    if i < 0 || i >= s.len() || !is_ws(s[i]) {
        i
    } else {
        ws_end(s, i + 1)
    }
}

/// Advances over the blanks that start at `i`.
pub fn skip_ws(s: &[u8], i: usize) -> (r: usize)
    requires
        i <= s@.len(),
    ensures
        r == ws_end(s@, i as int),
        i <= r <= s@.len(),
{
    let mut j = i;
    while j < s.len() && (s[j] == B_SPACE || s[j] == B_NEWLINE || s[j] == B_TAB || s[j] == B_CR)
        invariant
            i <= j <= s@.len(),
            ws_end(s@, i as int) == ws_end(s@, j as int),
        decreases s@.len() - j,
    {
        j = j + 1;
    }
    j
}

/// The compact rendering of a tree.
pub open spec fn json_bytes(v: ValueV) -> Seq<u8>
    decreases v,
{
    match v {
        ValueV::Bool(b) => if b {
            true_bytes()
        } else {
            false_bytes()
        },
        ValueV::Int(n) => int_bytes(n as int),
        ValueV::Dec(p) => price_bytes(p),
        ValueV::Text(t) => quoted_bytes(t),
        ValueV::List(items) => seq![B_LBRACKET] + json_items(items) + seq![B_RBRACKET],
        ValueV::Obj(es) => seq![B_LBRACE] + json_entries(es) + seq![B_RBRACE],
    }
}

/// List items joined by commas.
pub open spec fn json_items(items: Seq<ValueV>) -> Seq<u8>
    decreases items,
{
    if items.len() == 0 {
        seq![]
    } else {
        json_bytes(items[0]) + json_items_rest(items.drop_first())
    }
}

pub open spec fn json_items_rest(items: Seq<ValueV>) -> Seq<u8>
    decreases items,
{
    if items.len() == 0 {
        seq![]
    } else {
        seq![B_COMMA] + json_bytes(items[0]) + json_items_rest(items.drop_first())
    }
}

/// One object entry: the quoted key, a colon, the value.
pub open spec fn json_entry_bytes(e: (Seq<char>, ValueV)) -> Seq<u8>
    decreases e,
{
    quoted_bytes(encode_utf8(e.0)) + seq![B_COLON] + json_bytes(e.1)
}

/// Object entries joined by commas, in declaration order.
pub open spec fn json_entries(es: Seq<(Seq<char>, ValueV)>) -> Seq<u8>
    decreases es,
{
    if es.len() == 0 {
        seq![]
    } else {
        json_entry_bytes(es[0]) + json_entries_rest(es.drop_first())
    }
}

pub open spec fn json_entries_rest(es: Seq<(Seq<char>, ValueV)>) -> Seq<u8>
    decreases es,
{
    if es.len() == 0 {
        seq![]
    } else {
        seq![B_COMMA] + json_entry_bytes(es[0]) + json_entries_rest(es.drop_first())
    }
}

/// What a numeral starting at `i` denotes: an integer, or a decimal
/// with one or two fraction digits; `None` on overflow or a stray
/// sign.
pub open spec fn parse_number(s: Seq<u8>, i: int) -> Option<(ValueV, int)> {
    let neg = s[i] == B_MINUS;
    let d0 = if neg {
        i + 1
    } else {
        i
    };
    let de = digit_run_len(s, d0);
    if de == d0 {
        None
    } else {
        let m = digits_val(s.subrange(d0, de));
        if de < s.len() && s[de] == B_DOT {
            if neg {
                None
            } else {
                let fe = digit_run_len(s, de + 1);
                if fe - (de + 1) == 1 {
                    let frac = digit_val(s[de + 1]) * 10;
                    if m * 100 + frac <= u64::MAX {
                        Some((ValueV::Dec(Price { cents: (m * 100 + frac) as u64 }), fe))
                    } else {
                        None
                    }
                } else if fe - (de + 1) == 2 {
                    let frac = digit_val(s[de + 1]) * 10 + digit_val(s[de + 2]);
                    if m * 100 + frac <= u64::MAX {
                        Some((ValueV::Dec(Price { cents: (m * 100 + frac) as u64 }), fe))
                    } else {
                        None
                    }
                } else {
                    None
                }
            }
        } else {
            if neg {
                if m <= 9223372036854775808u64 {
                    Some((ValueV::Int((-(m as int)) as i64), de))
                } else {
                    None
                }
            } else {
                if m <= i64::MAX {
                    Some((ValueV::Int(m as i64), de))
                } else {
                    None
                }
            }
        }
    }
}

/// What the text denotes as a value starting at `i`; the fuel bounds
/// the recursion and never runs out on real input.
pub open spec fn parse_value(s: Seq<u8>, i: int, fuel: nat) -> Option<(ValueV, int)>
    decreases fuel,
{
    if fuel == 0 {
        None
    } else {
        let j = ws_end(s, i);
        if j >= s.len() {
            None
        } else if s[j] == B_LBRACE {
            let k = ws_end(s, j + 1);
            if k < s.len() && s[k] == B_RBRACE {
                Some((ValueV::Obj(seq![]), k + 1))
            } else {
                match parse_entries(s, j + 1, (fuel - 1) as nat) {
                    Some((es, e)) => Some((ValueV::Obj(es), e)),
                    None => None,
                }
            }
        } else if s[j] == B_LBRACKET {
            let k = ws_end(s, j + 1);
            if k < s.len() && s[k] == B_RBRACKET {
                Some((ValueV::List(seq![]), k + 1))
            } else {
                match parse_items(s, j + 1, (fuel - 1) as nat) {
                    Some((its, e)) => Some((ValueV::List(its), e)),
                    None => None,
                }
            }
        } else if s[j] == B_QUOTE {
            match parse_quoted(s, j + 1) {
                Some((t, e)) => Some((ValueV::Text(t), e)),
                None => None,
            }
        } else if s[j] == B_LOWER_T {
            if j + 4 <= s.len() && s.subrange(j, j + 4) == true_bytes() {
                Some((ValueV::Bool(true), j + 4))
            } else {
                None
            }
        } else if s[j] == B_LOWER_F {
            if j + 5 <= s.len() && s.subrange(j, j + 5) == false_bytes() {
                Some((ValueV::Bool(false), j + 5))
            } else {
                None
            }
        } else if s[j] == B_MINUS || is_digit(s[j]) {
            parse_number(s, j)
        } else {
            None
        }
    }
}

/// One or more comma-joined entries, then the closing brace.
pub open spec fn parse_entries(s: Seq<u8>, i: int, fuel: nat) -> Option<
    (Seq<(Seq<char>, ValueV)>, int),
>
    decreases fuel,
{
    if fuel == 0 {
        None
    } else {
        let j = ws_end(s, i);
        if j >= s.len() || s[j] != B_QUOTE {
            None
        } else {
            match parse_quoted(s, j + 1) {
                Some((kb, j2)) => if !valid_utf8(kb) {
                    None
                } else {
                    let key = decode_utf8(kb);
                    let j3 = ws_end(s, j2);
                    if j3 >= s.len() || s[j3] != B_COLON {
                        None
                    } else {
                        match parse_value(s, j3 + 1, (fuel - 1) as nat) {
                            Some((v, j4)) => {
                                let j5 = ws_end(s, j4);
                                if j5 < s.len() && s[j5] == B_COMMA {
                                    match parse_entries(s, j5 + 1, (fuel - 1) as nat) {
                                        Some((rest, e)) => Some((seq![(key, v)] + rest, e)),
                                        None => None,
                                    }
                                } else if j5 < s.len() && s[j5] == B_RBRACE {
                                    Some((seq![(key, v)], j5 + 1))
                                } else {
                                    None
                                }
                            },
                            None => None,
                        }
                    }
                },
                None => None,
            }
        }
    }
}

/// One or more comma-joined items, then the closing bracket.
pub open spec fn parse_items(s: Seq<u8>, i: int, fuel: nat) -> Option<(Seq<ValueV>, int)>
    decreases fuel,
{
    if fuel == 0 {
        None
    } else {
        match parse_value(s, i, (fuel - 1) as nat) {
            Some((v, j)) => {
                let j2 = ws_end(s, j);
                if j2 < s.len() && s[j2] == B_COMMA {
                    match parse_items(s, j2 + 1, (fuel - 1) as nat) {
                        Some((rest, e)) => Some((seq![v] + rest, e)),
                        None => None,
                    }
                } else if j2 < s.len() && s[j2] == B_RBRACKET {
                    Some((seq![v], j2 + 1))
                } else {
                    None
                }
            },
            None => None,
        }
    }
}

/// What a whole text denotes: one value, with nothing but blanks
/// after it.
pub open spec fn json_doc(s: Seq<u8>) -> Option<ValueV> {
    match parse_value(s, 0, (2 * s.len() + 2) as nat) {
        Some((v, e)) => if ws_end(s, e) == s.len() {
            Some(v)
        } else {
            None
        },
        None => None,
    }
}

/// Appends the compact rendering of a tree.
#[verifier::loop_isolation(false)]
pub fn json_push(v: &Value, out: &mut Vec<u8>)
    ensures
        final(out)@ == old(out)@ + json_bytes(v.deep_view()),
    decreases v,
{
    match v {
        Value::Bool(b) => {
            if *b {
                out.push(B_LOWER_T);
                out.push(B_LOWER_R);
                out.push(B_LOWER_U);
                out.push(B_LOWER_E);
            } else {
                out.push(B_LOWER_F);
                out.push(B_LOWER_A);
                out.push(B_LOWER_L);
                out.push(B_LOWER_S);
                out.push(B_LOWER_E);
            }
            assert(out@ =~= old(out)@ + json_bytes(v.deep_view()));
        },
        Value::Int(n) => {
            push_i64_digits(*n, out);
        },
        Value::Dec(p) => {
            push_price(*p, out);
        },
        Value::Text(t) => {
            push_quoted(t.as_slice(), out);
        },
        Value::List(vs) => {
            out.push(B_LBRACKET);
            json_push_items(vs, out);
            out.push(B_RBRACKET);
            assert(out@ =~= old(out)@ + json_bytes(v.deep_view()));
        },
        Value::Obj(es) => {
            out.push(B_LBRACE);
            json_push_entries(es, out);
            out.push(B_RBRACE);
            assert(out@ =~= old(out)@ + json_bytes(v.deep_view()));
        },
    }
}

/// Appends the comma-joined items of a list.
#[verifier::loop_isolation(false)]
fn json_push_items(vs: &Vec<Value>, out: &mut Vec<u8>)
    ensures
        final(out)@ == old(out)@ + json_items(items_view(*vs)),
    decreases vs,
{
    let ghost its = items_view(*vs);
    if vs.len() == 0 {
        proof {
            assert(its =~= Seq::<ValueV>::empty());
            assert(out@ =~= old(out)@ + json_items(its));
        }
        return;
    }
    json_push(&vs[0], out);
    proof {
        assert(its[0] == vs@[0].deep_view());
        assert(its.drop_first() =~= its.skip(1));
        assert(out@ + json_items_rest(its.skip(1)) =~= old(out)@ + json_items(its));
    }
    let mut i: usize = 1;
    while i < vs.len()
        invariant
            1 <= i <= vs@.len(),
            out@ + json_items_rest(its.skip(i as int)) == old(out)@ + json_items(its),
        decreases vs@.len() - i,
    {
        proof {
            assert(its.skip(i as int)[0] == its[i as int]);
            assert(its[i as int] == vs@[i as int].deep_view());
            assert(its.skip(i as int).drop_first() =~= its.skip(i + 1));
        }
        let ghost pre = out@;
        out.push(B_COMMA);
        json_push(&vs[i], out);
        proof {
            assert(out@ =~= pre + (seq![B_COMMA] + json_bytes(its[i as int])));
            assert(out@ + json_items_rest(its.skip(i + 1)) =~= old(out)@ + json_items(its));
        }
        i = i + 1;
    }
    proof {
        assert(its.skip(vs@.len() as int) =~= Seq::<ValueV>::empty());
        assert(out@ =~= old(out)@ + json_items(its));
    }
}

/// Appends the comma-joined entries of an object.
#[verifier::loop_isolation(false)]
fn json_push_entries(es: &Vec<(String, Value)>, out: &mut Vec<u8>)
    ensures
        final(out)@ == old(out)@ + json_entries(entries_view(*es)),
    decreases es,
{
    let ghost evs = entries_view(*es);
    if es.len() == 0 {
        proof {
            assert(evs =~= Seq::<(Seq<char>, ValueV)>::empty());
            assert(out@ =~= old(out)@ + json_entries(evs));
        }
        return;
    }
    let kb = es[0].0.as_str().as_bytes_vec();
    push_quoted(kb.as_slice(), out);
    out.push(B_COLON);
    json_push(&es[0].1, out);
    proof {
        assert(evs[0] == (es@[0].0@, es@[0].1.deep_view()));
        assert(evs.drop_first() =~= evs.skip(1));
        assert(out@ =~= old(out)@ + json_entry_bytes(evs[0]));
        assert(out@ + json_entries_rest(evs.skip(1)) =~= old(out)@ + json_entries(evs));
    }
    let mut i: usize = 1;
    while i < es.len()
        invariant
            1 <= i <= es@.len(),
            out@ + json_entries_rest(evs.skip(i as int)) == old(out)@ + json_entries(evs),
        decreases es@.len() - i,
    {
        proof {
            assert(evs.skip(i as int)[0] == evs[i as int]);
            assert(evs[i as int] == (es@[i as int].0@, es@[i as int].1.deep_view()));
            assert(evs.skip(i as int).drop_first() =~= evs.skip(i + 1));
        }
        let ghost pre = out@;
        out.push(B_COMMA);
        let kb2 = es[i].0.as_str().as_bytes_vec();
        push_quoted(kb2.as_slice(), out);
        out.push(B_COLON);
        json_push(&es[i].1, out);
        proof {
            assert(out@ =~= pre + (seq![B_COMMA] + json_entry_bytes(evs[i as int])));
            assert(out@ + json_entries_rest(evs.skip(i + 1)) =~= old(out)@ + json_entries(evs));
        }
        i = i + 1;
    }
    proof {
        assert(evs.skip(es@.len() as int) =~= Seq::<(Seq<char>, ValueV)>::empty());
        assert(out@ =~= old(out)@ + json_entries(evs));
    }
}

/// The compact text of a tree.
pub fn encode_json(v: &Value) -> (r: Vec<u8>)
    ensures
        r@ == json_bytes(v.deep_view()),
{
    let mut out: Vec<u8> = Vec::new();
    json_push(v, &mut out);
    proof {
        assert(out@ =~= json_bytes(v.deep_view()));
    }
    out
}

/// Reads the numeral at `i`, as [`parse_number`] describes it.
pub fn read_number(s: &[u8], i: usize) -> (r: Option<(Value, usize)>)
    requires
        i < s@.len(),
        s@[i as int] == B_MINUS || is_digit(s@[i as int]),
    ensures
        match r {
            Some(p) => parse_number(s@, i as int) == Some((p.0.deep_view(), p.1 as int)) && p.1
                <= s@.len(),
            None => parse_number(s@, i as int) is None,
        },
{
    let neg = s[i] == B_MINUS;
    let d0 = if neg {
        i + 1
    } else {
        i
    };
    if d0 > s.len() {
        return None;
    }
    let de = digit_run_end(s, d0);
    if de == d0 {
        return None;
    }
    let m = match parse_u64_digits(s, d0, de) {
        Some(m) => m,
        None => {
            proof {
                let mv = digits_val(s@.subrange(d0 as int, de as int));
                assert(mv * 100 + digit_val(s@[de + 1]) * 10 >= mv) by (nonlinear_arith)
                    requires
                        mv >= 0,
                ;
                assert(mv * 100 + (digit_val(s@[de + 1]) * 10 + digit_val(s@[de + 2])) >= mv)
                    by (nonlinear_arith)
                    requires
                        mv >= 0,
                ;
            }
            return None;
        },
    };
    if de < s.len() && s[de] == B_DOT {
        if neg {
            return None;
        }
        let fe = digit_run_end(s, de + 1);
        let flen = fe - (de + 1);
        if flen == 1 {
            let frac = (s[de + 1] - 48) * 10;
            match price_from_parts(m, frac as u64) {
                Some(p) => Some((Value::Dec(p), fe)),
                None => None,
            }
        } else if flen == 2 {
            let frac = (s[de + 1] - 48) * 10 + (s[de + 2] - 48);
            match price_from_parts(m, frac as u64) {
                Some(p) => Some((Value::Dec(p), fe)),
                None => None,
            }
        } else {
            None
        }
    } else {
        match i64_from_parts(neg, m) {
            Some(n) => Some((Value::Int(n), de)),
            None => None,
        }
    }
}

/// Reads the value at `i`, as [`parse_value`] describes it.
pub fn read_value(s: &[u8], i: usize, fuel: usize) -> (r: Option<(Value, usize)>)
    requires
        i <= s@.len(),
    ensures
        match r {
            Some(p) => parse_value(s@, i as int, fuel as nat) == Some(
                (p.0.deep_view(), p.1 as int),
            ) && p.1 <= s@.len(),
            None => parse_value(s@, i as int, fuel as nat) is None,
        },
    decreases fuel,
{
    if fuel == 0 {
        return None;
    }
    let j = skip_ws(s, i);
    if j >= s.len() {
        return None;
    }
    let b = s[j];
    if b == B_LBRACE {
        let k = skip_ws(s, j + 1);
        if k < s.len() && s[k] == B_RBRACE {
            let es: Vec<(String, Value)> = Vec::new();
            proof {
                assert(entries_view(es) =~= Seq::<(Seq<char>, ValueV)>::empty());
            }
            Some((Value::Obj(es), k + 1))
        } else {
            match read_entries(s, j + 1, fuel - 1) {
                Some((es, e)) => Some((Value::Obj(es), e)),
                None => None,
            }
        }
    } else if b == B_LBRACKET {
        let k = skip_ws(s, j + 1);
        if k < s.len() && s[k] == B_RBRACKET {
            let its: Vec<Value> = Vec::new();
            proof {
                assert(items_view(its) =~= Seq::<ValueV>::empty());
            }
            Some((Value::List(its), k + 1))
        } else {
            match read_items(s, j + 1, fuel - 1) {
                Some((its, e)) => Some((Value::List(its), e)),
                None => None,
            }
        }
    } else if b == B_QUOTE {
        match read_quoted(s, j + 1) {
            Some((t, e)) => Some((Value::Text(t), e)),
            None => None,
        }
    } else if b == B_LOWER_T {
        if s.len() - j >= 4 && s[j + 1] == B_LOWER_R && s[j + 2] == B_LOWER_U && s[j + 3]
            == B_LOWER_E {
            proof {
                assert(s@.subrange(j as int, j + 4) =~= true_bytes());
            }
            Some((Value::Bool(true), j + 4))
        } else {
            proof {
                if j + 4 <= s@.len() && s@.subrange(j as int, j + 4) == true_bytes() {
                    assert(s@[j + 1] == true_bytes()[1] && s@[j + 2] == true_bytes()[2] && s@[j + 3]
                        == true_bytes()[3]);
                }
            }
            None
        }
    } else if b == B_LOWER_F {
        if s.len() - j >= 5 && s[j + 1] == B_LOWER_A && s[j + 2] == B_LOWER_L && s[j + 3]
            == B_LOWER_S && s[j + 4] == B_LOWER_E {
            proof {
                assert(s@.subrange(j as int, j + 5) =~= false_bytes());
            }
            Some((Value::Bool(false), j + 5))
        } else {
            proof {
                if j + 5 <= s@.len() && s@.subrange(j as int, j + 5) == false_bytes() {
                    assert(s@[j + 1] == false_bytes()[1] && s@[j + 2] == false_bytes()[2] && s@[j
                        + 3] == false_bytes()[3] && s@[j + 4] == false_bytes()[4]);
                }
            }
            None
        }
    } else if b == B_MINUS || (48 <= b && b <= 57) {
        read_number(s, j)
    } else {
        None
    }
}

/// Reads object entries, as [`parse_entries`] describes them.
pub fn read_entries(s: &[u8], i: usize, fuel: usize) -> (r: Option<(Vec<(String, Value)>, usize)>)
    requires
        i <= s@.len(),
    ensures
        match r {
            Some(p) => parse_entries(s@, i as int, fuel as nat) == Some(
                (entries_view(p.0), p.1 as int),
            ) && p.1 <= s@.len(),
            None => parse_entries(s@, i as int, fuel as nat) is None,
        },
    decreases fuel,
{
    if fuel == 0 {
        return None;
    }
    let j = skip_ws(s, i);
    if j >= s.len() {
        return None;
    }
    if s[j] != B_QUOTE {
        return None;
    }
    let (kb, j2) = match read_quoted(s, j + 1) {
        Some(p) => p,
        None => {
            return None;
        },
    };
    let key = match crate::text::bytes_to_string(kb) {
        Some(k) => k,
        None => {
            return None;
        },
    };
    proof {
        assert(decode_utf8(encode_utf8(key@)) == key@);
    }
    let j3 = skip_ws(s, j2);
    if j3 >= s.len() {
        return None;
    }
    if s[j3] != B_COLON {
        return None;
    }
    let (v, j4) = match read_value(s, j3 + 1, fuel - 1) {
        Some(p) => p,
        None => {
            return None;
        },
    };
    let j5 = skip_ws(s, j4);
    if j5 < s.len() && s[j5] == B_COMMA {
        match read_entries(s, j5 + 1, fuel - 1) {
            Some((rest, e)) => {
                let ghost restv = entries_view(rest);
                let ghost keyv = key@;
                let ghost vv = v.deep_view();
                let mut es: Vec<(String, Value)> = Vec::new();
                es.push((key, v));
                proof {
                    assert(entries_view(es) =~= seq![(keyv, vv)] + restv.take(0));
                }
                let mut k: usize = 0;
                while k < rest.len()
                    invariant
                        k <= rest@.len(),
                        restv == entries_view(rest),
                        restv.len() == rest@.len(),
                        es@.len() == k + 1,
                        entries_view(es) == seq![(keyv, vv)] + restv.take(k as int),
                    decreases rest@.len() - k,
                {
                    let pair = &rest[k];
                    let ghost oldes = entries_view(es);
                    let ghost oldraw = es@;
                    es.push((pair.0.clone(), clone_value(&pair.1)));
                    proof {
                        assert forall|m: int| 0 <= m < es@.len() implies entries_view(es)[m] == (
                        seq![(keyv, vv)] + restv.take(k + 1))[m] by {
                            if m < es@.len() - 1 {
                                assert(es@[m] == oldraw[m]);
                                assert(entries_view(es)[m] == oldes[m]);
                            } else {
                                assert(restv.take(k + 1)[k as int] == restv[k as int]);
                                let ki = k as int;
                                assert(restv[ki] == (rest@[ki].0@, rest@[ki].1.deep_view()));
                            }
                        }
                        assert(entries_view(es) =~= seq![(keyv, vv)] + restv.take(k + 1));
                    }
                    k = k + 1;
                }
                proof {
                    assert(restv.take(rest@.len() as int) =~= restv);
                }
                Some((es, e))
            },
            None => None,
        }
    } else if j5 < s.len() && s[j5] == B_RBRACE {
        let mut es: Vec<(String, Value)> = Vec::new();
        es.push((key, v));
        proof {
            assert(entries_view(es) =~= seq![(key@, v.deep_view())]);
        }
        Some((es, j5 + 1))
    } else {
        None
    }
}

/// Reads list items, as [`parse_items`] describes them.
pub fn read_items(s: &[u8], i: usize, fuel: usize) -> (r: Option<(Vec<Value>, usize)>)
    requires
        i <= s@.len(),
    ensures
        match r {
            Some(p) => parse_items(s@, i as int, fuel as nat) == Some(
                (items_view(p.0), p.1 as int),
            ) && p.1 <= s@.len(),
            None => parse_items(s@, i as int, fuel as nat) is None,
        },
    decreases fuel,
{
    if fuel == 0 {
        return None;
    }
    let (v, j) = match read_value(s, i, fuel - 1) {
        Some(p) => p,
        None => {
            return None;
        },
    };
    let j2 = skip_ws(s, j);
    if j2 < s.len() && s[j2] == B_COMMA {
        match read_items(s, j2 + 1, fuel - 1) {
            Some((rest, e)) => {
                let ghost restv = items_view(rest);
                let ghost vv = v.deep_view();
                let mut its: Vec<Value> = Vec::new();
                its.push(v);
                proof {
                    assert(items_view(its) =~= seq![vv] + restv.take(0));
                }
                let mut k: usize = 0;
                while k < rest.len()
                    invariant
                        k <= rest@.len(),
                        restv == items_view(rest),
                        restv.len() == rest@.len(),
                        its@.len() == k + 1,
                        items_view(its) == seq![vv] + restv.take(k as int),
                    decreases rest@.len() - k,
                {
                    let ghost oldits = items_view(its);
                    let ghost oldraw = its@;
                    its.push(clone_value(&rest[k]));
                    proof {
                        assert forall|m: int| 0 <= m < its@.len() implies items_view(its)[m] == (
                        seq![vv] + restv.take(k + 1))[m] by {
                            if m < its@.len() - 1 {
                                assert(its@[m] == oldraw[m]);
                                assert(items_view(its)[m] == oldits[m]);
                            } else {
                                assert(restv.take(k + 1)[k as int] == restv[k as int]);
                                assert(restv[k as int] == rest@[k as int].deep_view());
                            }
                        }
                        assert(items_view(its) =~= seq![vv] + restv.take(k + 1));
                    }
                    k = k + 1;
                }
                proof {
                    assert(restv.take(rest@.len() as int) =~= restv);
                }
                Some((its, e))
            },
            None => None,
        }
    } else if j2 < s.len() && s[j2] == B_RBRACKET {
        let mut its: Vec<Value> = Vec::new();
        let ghost vv = v.deep_view();
        its.push(v);
        proof {
            assert(items_view(its) =~= seq![vv]);
        }
        Some((its, j2 + 1))
    } else {
        None
    }
}

/// A structural copy of a tree with the same model.
#[verifier::loop_isolation(false)]
pub fn clone_value(v: &Value) -> (r: Value)
    ensures
        r.deep_view() == v.deep_view(),
    decreases v,
{
    match v {
        Value::Bool(b) => Value::Bool(*b),
        Value::Int(n) => Value::Int(*n),
        Value::Dec(p) => Value::Dec(*p),
        Value::Text(t) => Value::Text(vstd::slice::slice_to_vec(t.as_slice())),
        Value::List(vs) => {
            let mut its: Vec<Value> = Vec::new();
            let mut k: usize = 0;
            while k < vs.len()
                invariant
                    k <= vs@.len(),
                    its@.len() == k,
                    forall|m: int|
                        0 <= m < k ==> (#[trigger] its@[m]).deep_view() == vs@[m].deep_view(),
                decreases vs@.len() - k,
            {
                its.push(clone_value(&vs[k]));
                k = k + 1;
            }
            proof {
                assert(items_view(its) =~= items_view(*vs));
            }
            Value::List(its)
        },
        Value::Obj(es) => {
            let mut out: Vec<(String, Value)> = Vec::new();
            let mut k: usize = 0;
            while k < es.len()
                invariant
                    k <= es@.len(),
                    out@.len() == k,
                    forall|m: int|
                        0 <= m < k ==> (#[trigger] out@[m]).0@ == es@[m].0@ && out@[m].1.deep_view()
                            == es@[m].1.deep_view(),
                decreases es@.len() - k,
            {
                let pair = &es[k];
                out.push((pair.0.clone(), clone_value(&pair.1)));
                k = k + 1;
            }
            proof {
                assert(entries_view(out) =~= entries_view(*es));
            }
            Value::Obj(out)
        },
    }
}

/// Reads a whole text as one tree, as [`json_doc`] describes it;
/// anything else is malformed.
pub fn decode_json(s: &[u8]) -> (r: Result<Value, DecodeError>)
    requires
        s@.len() < usize::MAX / 2,
    ensures
        match r {
            Ok(v) => json_doc(s@) == Some(v.deep_view()),
            Err(e) => json_doc(s@) is None && e == DecodeError::MalformedText,
        },
{
    match read_value(s, 0, 2 * s.len() + 2) {
        Some((v, e)) => {
            let e2 = skip_ws(s, e);
            if e2 == s.len() {
                Ok(v)
            } else {
                Err(DecodeError::MalformedText)
            }
        },
        None => Err(DecodeError::MalformedText),
    }
}


/// What a JSON-like text denotes as a request.
pub open spec fn request_from_json(s: Seq<u8>) -> Result<RequestV, DecodeErrorV> {
    match json_doc(s) {
        Some(v) => decode_request_v(v, ""@),
        None => Err(DecodeErrorV::MalformedText),
    }
}

/// What a JSON-like text denotes as an event.
pub open spec fn event_from_json(s: Seq<u8>) -> Result<EventV, DecodeErrorV> {
    match json_doc(s) {
        Some(v) => decode_event_v(v, ""@),
        None => Err(DecodeErrorV::MalformedText),
    }
}

/// The JSON-like text of a request.
pub fn encode_request_json(r: &Request) -> (out: Vec<u8>)
    requires
        r.stream.user_id.wf(),
        crate::timestamp::ts_wf(r.debug.at),
    ensures
        out@ == json_bytes(encode_request_v(r.deep_view())),
{
    let v = encode_request(r);
    encode_json(&v)
}

/// Reads a request from a JSON-like text, as [`request_from_json`]
/// describes it.
pub fn decode_request_json(s: &[u8]) -> (r: Result<Request, DecodeError>)
    requires
        s@.len() < usize::MAX / 2,
    ensures
        res_v(r) == request_from_json(s@),
{
    match decode_json(s) {
        Ok(v) => decode_request(&v),
        Err(e) => Err(e),
    }
}

/// The JSON-like text of an event.
pub fn encode_event_json(e: &Event) -> (out: Vec<u8>)
    ensures
        out@ == json_bytes(encode_event_v(e.deep_view())),
{
    let v = encode_event(e);
    encode_json(&v)
}

/// Reads an event from a JSON-like text, as [`event_from_json`]
/// describes it.
pub fn decode_event_json(s: &[u8]) -> (r: Result<Event, DecodeError>)
    requires
        s@.len() < usize::MAX / 2,
    ensures
        res_v(r) == event_from_json(s@),
{
    match decode_json(s) {
        Ok(v) => decode_event(&v),
        Err(e) => Err(e),
    }
}


/// A byte that may follow a printed value inside a document.
pub open spec fn is_value_end(b: u8) -> bool {
    b == B_COMMA || b == B_RBRACE || b == B_RBRACKET
}

/// The first byte of a printed value, by variant.
proof fn lemma_json_first(v: ValueV)
    ensures
        json_bytes(v).len() >= 1,
        !is_ws(json_bytes(v)[0]),
        v is Obj ==> json_bytes(v)[0] == B_LBRACE,
        v is List ==> json_bytes(v)[0] == B_LBRACKET,
        v is Text ==> json_bytes(v)[0] == B_QUOTE,
        v matches ValueV::Bool(true) ==> json_bytes(v)[0] == B_LOWER_T,
        v matches ValueV::Bool(false) ==> json_bytes(v)[0] == B_LOWER_F,
        v is Int ==> (json_bytes(v)[0] == B_MINUS || is_digit(json_bytes(v)[0])),
        v is Dec ==> is_digit(json_bytes(v)[0]),
{
    match v {
        ValueV::Int(n) => {
            crate::num::lemma_dec_digits_ok((if n < 0 {
                -(n as int)
            } else {
                n as int
            }) as nat);
        },
        ValueV::Dec(p) => {
            crate::num::lemma_dec_digits_ok((p.cents / 100) as nat);
        },
        _ => {},
    }
}

/// Reading a printed integer numeral yields the integer.
proof fn lemma_parse_int(s: Seq<u8>, i: int, n: i64)
    requires
        0 <= i,
        i + int_bytes(n as int).len() <= s.len(),
        s.subrange(i, i + int_bytes(n as int).len() as int) == int_bytes(n as int),
        i + int_bytes(n as int).len() == s.len() || (!is_digit(
            s[i + int_bytes(n as int).len() as int],
        ) && s[i + int_bytes(n as int).len() as int] != B_DOT),
    ensures
        parse_number(s, i) == Some((ValueV::Int(n as i64), i + int_bytes(n as int).len() as int)),
{
    let b = int_bytes(n as int);
    let m: nat = if n < 0 {
        (-(n as int)) as nat
    } else {
        n as nat
    };
    let d = dec_digits(m);
    crate::num::lemma_dec_digits_ok(m);
    assert forall|k: int| i <= k < i + b.len() implies #[trigger] s[k] == b[k - i] by {
        assert(s.subrange(i, i + b.len() as int)[k - i] == s[k]);
    }
    if n < 0 {
        assert(b == seq![B_MINUS] + d);
        assert(s[i] == B_MINUS);
        assert(!is_digit(B_MINUS));
        assert forall|k: int| i + 1 <= k < i + b.len() implies is_digit(#[trigger] s[k]) by {
            assert(s[k] == b[k - i]);
            assert(b[k - i] == d[k - i - 1]);
        }
        crate::num::lemma_digit_run(s, i + 1, i + b.len());
        assert(s.subrange(i + 1, i + b.len() as int) =~= d);
    } else {
        assert(b == d);
        assert(s[i] == d[0]);
        assert forall|k: int| i <= k < i + b.len() implies is_digit(#[trigger] s[k]) by {
            assert(s[k] == b[k - i]);
        }
        crate::num::lemma_digit_run(s, i, i + b.len());
        assert(s.subrange(i, i + b.len() as int) =~= d);
    }
}

/// Reading a printed decimal numeral yields the amount.
proof fn lemma_parse_price(s: Seq<u8>, i: int, p: Price)
    requires
        0 <= i,
        i + price_bytes(p).len() <= s.len(),
        s.subrange(i, i + price_bytes(p).len() as int) == price_bytes(p),
        i + price_bytes(p).len() == s.len() || !is_digit(s[i + price_bytes(p).len() as int]),
    ensures
        parse_number(s, i) == Some((ValueV::Dec(p), i + price_bytes(p).len() as int)),
{
    let b = price_bytes(p);
    let units = p.cents / 100;
    let frac = p.cents % 100;
    let d = dec_digits(units as nat);
    crate::num::lemma_dec_digits_ok(units as nat);
    vstd::arithmetic::div_mod::lemma_fundamental_div_mod(p.cents as int, 100);
    assert forall|k: int| i <= k < i + b.len() implies #[trigger] s[k] == b[k - i] by {
        assert(s.subrange(i, i + b.len() as int)[k - i] == s[k]);
    }
    assert forall|k: int| i <= k < i + d.len() implies is_digit(#[trigger] s[k]) by {
        assert(s[k] == b[k - i]);
        assert(b[k - i] == d[k - i]);
    }
    assert(s[i + d.len()] == B_DOT);
    assert(!is_digit(B_DOT));
    crate::num::lemma_digit_run(s, i, i + d.len());
    assert(s.subrange(i, i + d.len() as int) =~= d);
    let de = i + d.len();
    if frac % 10 == 0 {
        assert(b.len() == d.len() + 2);
        assert(s[de + 1] == (frac / 10 + 48) as u8);
        assert(is_digit(s[de + 1]));
        crate::num::lemma_digit_run(s, de + 1, de + 2);
        assert(digit_val(s[de + 1]) == frac / 10);
        vstd::arithmetic::div_mod::lemma_fundamental_div_mod(frac as int, 10);
    } else {
        assert(b.len() == d.len() + 3);
        assert(s[de + 1] == (frac / 10 + 48) as u8);
        assert(s[de + 2] == (frac % 10 + 48) as u8);
        assert(is_digit(s[de + 1]) && is_digit(s[de + 2]));
        crate::num::lemma_digit_run(s, de + 1, de + 3);
        assert(digit_val(s[de + 1]) == frac / 10);
        assert(digit_val(s[de + 2]) == frac % 10);
        vstd::arithmetic::div_mod::lemma_fundamental_div_mod(frac as int, 10);
    }
}

/// Reading a printed value yields it back, wherever it stands in a
/// document, as long as enough fuel is at hand.
#[verifier::rlimit(100)]
proof fn lemma_parse_print_value(v: ValueV, s: Seq<u8>, i: int, fuel: nat)
    requires
        0 <= i,
        i + json_bytes(v).len() <= s.len(),
        s.subrange(i, i + json_bytes(v).len() as int) == json_bytes(v),
        fuel >= 2 * (s.len() - i) + 1,
        i + json_bytes(v).len() == s.len() || is_value_end(s[i + json_bytes(v).len() as int]),
    ensures
        parse_value(s, i, fuel) == Some((v, i + json_bytes(v).len() as int)),
    decreases v,
{
    let b = json_bytes(v);
    lemma_json_first(v);
    assert forall|k: int| i <= k < i + b.len() implies #[trigger] s[k] == b[k - i] by {
        assert(s.subrange(i, i + b.len() as int)[k - i] == s[k]);
    }
    assert(s[i] == b[0]);
    assert(ws_end(s, i) == i);
    match v {
        ValueV::Bool(t) => {
            if t {
                assert(s[i] == B_LOWER_T);
                assert(s[i] != B_LBRACE && s[i] != B_LBRACKET && s[i] != B_QUOTE);
                assert(i + 4 <= s.len());
                assert(s.subrange(i, i + 4) =~= true_bytes());
                assert(json_bytes(v).len() == 4);
                assert(parse_value(s, i, fuel) == Some((ValueV::Bool(true), i + 4)));
            } else {
                assert(s[i] == B_LOWER_F);
                assert(s[i] != B_LBRACE && s[i] != B_LBRACKET && s[i] != B_QUOTE && s[i]
                    != B_LOWER_T);
                assert(i + 5 <= s.len());
                assert(s.subrange(i, i + 5) =~= false_bytes());
                assert(json_bytes(v).len() == 5);
                assert(parse_value(s, i, fuel) == Some((ValueV::Bool(false), i + 5)));
            }
        },
        ValueV::Int(n) => {
            assert(i + b.len() == s.len() || (!is_digit(s[i + b.len()]) && s[i + b.len()]
                != B_DOT));
            lemma_parse_int(s, i, n);
        },
        ValueV::Dec(p) => {
            assert(i + b.len() == s.len() || !is_digit(s[i + b.len()]));
            lemma_parse_price(s, i, p);
        },
        ValueV::Text(t) => {
            let eb = crate::text::escape(t);
            assert(b == seq![B_QUOTE] + eb + seq![B_QUOTE]);
            assert forall|k: int| 0 <= k < eb.len() implies s.subrange(
                i + 1,
                i + 1 + eb.len() as int,
            )[k] == eb[k] by {
                assert(s[i + 1 + k] == b[i + 1 + k - i]);
                assert(b[1 + k] == eb[k]);
            }
            assert(s.subrange(i + 1, i + 1 + eb.len() as int) =~= eb);
            assert(s[i + 1 + eb.len()] == b[1 + eb.len() as int]);
            crate::text::lemma_parse_quoted_of_escaped(s, i + 1, t);
        },
        ValueV::List(items) => {
            if items.len() == 0 {
                assert(items =~= Seq::<ValueV>::empty());
                assert(b =~= seq![B_LBRACKET, B_RBRACKET]);
                assert(s[i + 1] == B_RBRACKET);
                assert(ws_end(s, i + 1) == i + 1);
            } else {
                let ib = json_items(items);
                assert(b == seq![B_LBRACKET] + ib + seq![B_RBRACKET]);
                assert forall|k: int| 0 <= k < ib.len() implies s.subrange(
                    i + 1,
                    i + 1 + ib.len() as int,
                )[k] == ib[k] by {
                    assert(s[i + 1 + k] == b[i + 1 + k - i]);
                    assert(b[1 + k] == ib[k]);
                }
                assert(s.subrange(i + 1, i + 1 + ib.len() as int) =~= ib);
                assert(s[i + 1 + ib.len()] == b[1 + ib.len() as int]);
                assert(s[i + 1 + ib.len()] == B_RBRACKET);
                lemma_json_first(items[0]);
                assert(ib[0] == json_bytes(items[0])[0]);
                assert(s[i + 1] == ib[0]);
                assert(ws_end(s, i + 1) == i + 1);
                assert(s[i + 1] != B_RBRACKET);
                lemma_parse_print_items(items, s, i + 1, (fuel - 1) as nat);
            }
        },
        ValueV::Obj(es) => {
            if es.len() == 0 {
                assert(es =~= Seq::<(Seq<char>, ValueV)>::empty());
                assert(b =~= seq![B_LBRACE, B_RBRACE]);
                assert(s[i + 1] == B_RBRACE);
                assert(ws_end(s, i + 1) == i + 1);
            } else {
                let eb = json_entries(es);
                assert(b == seq![B_LBRACE] + eb + seq![B_RBRACE]);
                assert forall|k: int| 0 <= k < eb.len() implies s.subrange(
                    i + 1,
                    i + 1 + eb.len() as int,
                )[k] == eb[k] by {
                    assert(s[i + 1 + k] == b[i + 1 + k - i]);
                    assert(b[1 + k] == eb[k]);
                }
                assert(s.subrange(i + 1, i + 1 + eb.len() as int) =~= eb);
                assert(s[i + 1 + eb.len()] == b[1 + eb.len() as int]);
                assert(s[i + 1 + eb.len()] == B_RBRACE);
                assert(eb[0] == json_entry_bytes(es[0])[0]);
                assert(json_entry_bytes(es[0])[0] == B_QUOTE);
                assert(s[i + 1] == B_QUOTE);
                assert(ws_end(s, i + 1) == i + 1);
                assert(s[i + 1] != B_RBRACE);
                lemma_parse_print_entries(es, s, i + 1, (fuel - 1) as nat);
            }
        },
    }
}

/// Reading printed entries, up to their closing brace, yields them
/// back.
#[verifier::rlimit(100)]
proof fn lemma_parse_print_entries(es: Seq<(Seq<char>, ValueV)>, s: Seq<u8>, i: int, fuel: nat)
    requires
        es.len() >= 1,
        0 <= i,
        i + json_entries(es).len() + 1 <= s.len(),
        s.subrange(i, i + json_entries(es).len() as int) == json_entries(es),
        s[i + json_entries(es).len() as int] == B_RBRACE,
        fuel >= 2 * (s.len() - i) + 2,
    ensures
        parse_entries(s, i, fuel) == Some((es, i + json_entries(es).len() + 1)),
    decreases es,
{
    let whole = json_entries(es);
    let kb = encode_utf8(es[0].0);
    let ek = crate::text::escape(kb);
    let vb = json_bytes(es[0].1);
    let rest = json_entries_rest(es.drop_first());
    assert(json_entry_bytes(es[0]) == crate::text::quoted_bytes(kb) + seq![B_COLON] + vb);
    assert(whole == json_entry_bytes(es[0]) + rest);
    assert forall|k: int| i <= k < i + whole.len() implies #[trigger] s[k] == whole[k - i] by {
        assert(s.subrange(i, i + whole.len() as int)[k - i] == s[k]);
    }
    // layout: [Q] ek [Q] [:] vb rest [}]
    let o1 = i + 1;
    let o2 = o1 + ek.len();
    let o3 = o2 + 1;
    let o4 = o3 + 1;
    let o5 = o4 + vb.len();
    assert forall|k: int| 0 <= k < whole.len() implies whole[k] == flat_entry(
        kb,
        vb,
        rest,
    )[k] by {
        flat_entry_index(kb, vb, rest, k);
    }
    assert(whole =~= flat_entry(kb, vb, rest));
    assert(s[i] == B_QUOTE);
    assert(ws_end(s, i) == i);
    assert forall|k: int| 0 <= k < ek.len() implies s.subrange(o1, o1 + ek.len() as int)[k]
        == ek[k] by {
        assert(s[o1 + k] == whole[o1 + k - i]);
        assert(whole[1 + k] == ek[k]);
    }
    assert(s.subrange(o1, o1 + ek.len() as int) =~= ek);
    assert(s[o2] == whole[o2 - i]);
    assert(s[o2] == B_QUOTE);
    crate::text::lemma_parse_quoted_of_escaped(s, o1, kb);
    assert(parse_quoted(s, o1) == Some((kb, o3)));
    assert(valid_utf8(kb));
    assert(decode_utf8(kb) == es[0].0);
    assert(s[o3] == whole[o3 - i]);
    assert(s[o3] == B_COLON);
    assert(ws_end(s, o3) == o3);
    assert forall|k: int| 0 <= k < vb.len() implies s.subrange(o4, o4 + vb.len() as int)[k]
        == vb[k] by {
        assert(s[o4 + k] == whole[o4 + k - i]);
        assert(whole[o4 - i + k] == vb[k]);
    }
    assert(s.subrange(o4, o4 + vb.len() as int) =~= vb);
    if es.len() == 1 {
        assert(rest.len() == 0);
        assert(o5 == i + whole.len());
        assert(s[o5] == B_RBRACE);
        lemma_parse_print_value(es[0].1, s, o4, (fuel - 1) as nat);
        assert(ws_end(s, o5) == o5);
        assert(seq![(es[0].0, es[0].1)] =~= es);
    } else {
        let d = es.drop_first();
        assert(d.len() >= 1);
        assert(rest == seq![B_COMMA] + json_entry_bytes(d[0]) + json_entries_rest(d.drop_first()));
        assert(s[o5] == whole[o5 - i]);
        assert(whole[o5 - i] == rest[0]);
        assert(s[o5] == B_COMMA);
        lemma_parse_print_value(es[0].1, s, o4, (fuel - 1) as nat);
        assert(ws_end(s, o5) == o5);
        let db = json_entries(d);
        assert forall|k: int| 0 <= k < db.len() implies db[k] == rest[1 + k] by {
            entries_rest_index(d, k);
        }
        assert forall|k: int| 0 <= k < db.len() implies s.subrange(o5 + 1, o5 + 1 + db.len())[k]
            == db[k] by {
            assert(s[o5 + 1 + k] == whole[o5 + 1 + k - i]);
            assert(whole[o5 + 1 - i + k] == rest[1 + k]);
        }
        assert(s.subrange(o5 + 1, o5 + 1 + db.len() as int) =~= db);
        assert(rest.len() == 1 + db.len());
        assert(s[o5 + 1 + db.len()] == B_RBRACE);
        lemma_parse_print_entries(d, s, o5 + 1, (fuel - 1) as nat);
        assert(seq![(es[0].0, es[0].1)] + d =~= es);
    }
}

/// The flattened byte layout of one entry followed by the remaining
/// rendered entries.
spec fn flat_entry(kb: Seq<u8>, vb: Seq<u8>, rest: Seq<u8>) -> Seq<u8> {
    seq![B_QUOTE] + crate::text::escape(kb) + seq![B_QUOTE] + seq![B_COLON] + vb + rest
}

proof fn flat_entry_index(kb: Seq<u8>, vb: Seq<u8>, rest: Seq<u8>, k: int)
    requires
        0 <= k < ((crate::text::quoted_bytes(kb) + seq![B_COLON] + vb) + rest).len(),
    ensures
        ((crate::text::quoted_bytes(kb) + seq![B_COLON] + vb) + rest)[k] == flat_entry(
            kb,
            vb,
            rest,
        )[k],
{
}

/// The rendered remaining entries are a comma and the rendering of the
/// remaining entries on their own.
proof fn entries_rest_index(d: Seq<(Seq<char>, ValueV)>, k: int)
    requires
        d.len() >= 1,
        0 <= k < json_entries(d).len(),
    ensures
        json_entries(d)[k] == json_entries_rest(d)[1 + k],
{
    assert(json_entries_rest(d) == seq![B_COMMA] + json_entry_bytes(d[0]) + json_entries_rest(
        d.drop_first(),
    ));
    assert(json_entries(d) == json_entry_bytes(d[0]) + json_entries_rest(d.drop_first()));
}

/// Reading printed items, up to their closing bracket, yields them
/// back.
proof fn lemma_parse_print_items(items: Seq<ValueV>, s: Seq<u8>, i: int, fuel: nat)
    requires
        items.len() >= 1,
        0 <= i,
        i + json_items(items).len() + 1 <= s.len(),
        s.subrange(i, i + json_items(items).len() as int) == json_items(items),
        s[i + json_items(items).len() as int] == B_RBRACKET,
        fuel >= 2 * (s.len() - i) + 2,
    ensures
        parse_items(s, i, fuel) == Some((items, i + json_items(items).len() + 1)),
    decreases items,
{
    let whole = json_items(items);
    let vb = json_bytes(items[0]);
    let rest = json_items_rest(items.drop_first());
    assert(whole == vb + rest);
    assert forall|k: int| i <= k < i + whole.len() implies #[trigger] s[k] == whole[k - i] by {
        assert(s.subrange(i, i + whole.len() as int)[k - i] == s[k]);
    }
    assert forall|k: int| 0 <= k < vb.len() implies s.subrange(i, i + vb.len() as int)[k]
        == vb[k] by {
        assert(s[i + k] == whole[i + k - i]);
        assert(whole[k] == vb[k]);
    }
    assert(s.subrange(i, i + vb.len() as int) =~= vb);
    let o = i + vb.len();
    if items.len() == 1 {
        assert(rest.len() == 0);
        assert(o == i + whole.len());
        assert(s[o] == B_RBRACKET);
        lemma_parse_print_value(items[0], s, i, (fuel - 1) as nat);
        assert(ws_end(s, o) == o);
        assert(seq![items[0]] =~= items);
    } else {
        let d = items.drop_first();
        assert(d.len() >= 1);
        assert(rest == seq![B_COMMA] + json_bytes(d[0]) + json_items_rest(d.drop_first()));
        assert(s[o] == whole[o - i]);
        assert(whole[o - i] == rest[0]);
        assert(s[o] == B_COMMA);
        lemma_parse_print_value(items[0], s, i, (fuel - 1) as nat);
        assert(ws_end(s, o) == o);
        let db = json_items(d);
        assert forall|k: int| 0 <= k < db.len() implies db[k] == rest[1 + k] by {
            items_rest_index(d, k);
        }
        assert forall|k: int| 0 <= k < db.len() implies s.subrange(o + 1, o + 1 + db.len())[k]
            == db[k] by {
            assert(s[o + 1 + k] == whole[o + 1 + k - i]);
            assert(whole[o + 1 - i + k] == rest[1 + k]);
        }
        assert(s.subrange(o + 1, o + 1 + db.len() as int) =~= db);
        assert(rest.len() == 1 + db.len());
        assert(s[o + 1 + db.len()] == B_RBRACKET);
        lemma_parse_print_items(d, s, o + 1, (fuel - 1) as nat);
        assert(seq![items[0]] + d =~= items);
    }
}

proof fn items_rest_index(d: Seq<ValueV>, k: int)
    requires
        d.len() >= 1,
        0 <= k < json_items(d).len(),
    ensures
        json_items(d)[k] == json_items_rest(d)[1 + k],
{
    assert(json_items_rest(d) == seq![B_COMMA] + json_bytes(d[0]) + json_items_rest(
        d.drop_first(),
    ));
    assert(json_items(d) == json_bytes(d[0]) + json_items_rest(d.drop_first()));
}

/// Reading a printed document yields the tree back: the JSON-like
/// adapter round-trips every tree.
pub proof fn lemma_json_round_trip(v: ValueV)
    ensures
        json_doc(json_bytes(v)) == Some(v),
{
    let s = json_bytes(v);
    assert(s.subrange(0, s.len() as int) =~= s);
    lemma_parse_print_value(v, s, 0, (2 * s.len() + 2) as nat);
    assert(ws_end(s, s.len() as int) == s.len());
}

/// Decoding an encoded request text yields the request back, for every
/// well-formed request.
pub proof fn lemma_request_json_round_trip(r: RequestV)
    requires
        crate::records::request_v_wf(r),
    ensures
        request_from_json(json_bytes(encode_request_v(r))) == Ok::<RequestV, DecodeErrorV>(r),
{
    lemma_json_round_trip(encode_request_v(r));
    crate::schema::lemma_request_round_trip(r, ""@);
}

/// Decoding an encoded event text yields the event back, for every
/// event.
pub proof fn lemma_event_json_round_trip(e: EventV)
    ensures
        event_from_json(json_bytes(encode_event_v(e))) == Ok::<EventV, DecodeErrorV>(e),
{
    lemma_json_round_trip(encode_event_v(e));
    crate::schema::lemma_event_round_trip(e, ""@);
}

} // verus!
