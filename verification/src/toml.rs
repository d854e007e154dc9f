//! The TOML-like format adapter: `key = value` lines, nested tables
//! under dotted `[headers]`, arrays of tables under `[[headers]]`.
//! The format has no marker for absence: an absent optional field is
//! simply not written.
use vstd::prelude::*;
use vstd::utf8::{valid_utf8, decode_utf8, encode_utf8};
use crate::bytes::{B_SPACE, B_NEWLINE, B_EQUALS, B_DOT, B_LBRACKET, B_RBRACKET};
use crate::scalar::{is_inline, scalar_bytes, parse_scalar, push_scalar, read_scalar};
use crate::value::{Value, ValueV, entries_view, items_view};
use crate::errors::{DecodeError, DecodeErrorV, res_v};
use crate::records::{Request, RequestV};
use crate::schema::{decode_request, decode_request_v};
use crate::json::clone_value;
use crate::yaml::{is_key_char, key_run, skip_key, copy_range};

verus! {

broadcast use vstd::std_specs::vec::group_vec_axioms, vstd::seq::group_seq_axioms,
    vstd::string::group_string_axioms, vstd::utf8::encode_utf8_valid_utf8,
    vstd::utf8::encode_utf8_decode_utf8;

/// The dotted path of a child table.
pub open spec fn child_path(pp: Seq<u8>, k: Seq<char>) -> Seq<u8> {
    if pp.len() == 0 {
        encode_utf8(k)
    } else {
        pp + seq![B_DOT] + encode_utf8(k)
    }
}

/// The table body written directly under the given path: scalar lines
/// first, as the format demands, then the headed sections.
pub open spec fn toml_table(es: Seq<(Seq<char>, ValueV)>, pp: Seq<u8>) -> Seq<u8>
    decreases es, 1int,
{
    toml_scalars_out(es) + toml_subs_out(es, pp)
}

/// The `key = value` lines of the inline entries, in order.
pub open spec fn toml_scalars_out(es: Seq<(Seq<char>, ValueV)>) -> Seq<u8>
    decreases es,
{
    if es.len() == 0 {
        seq![]
    } else {
        (if is_inline(es[0].1) {
            encode_utf8(es[0].0) + seq![B_SPACE, B_EQUALS, B_SPACE] + scalar_bytes(es[0].1) + seq![
                B_NEWLINE,
            ]
        } else {
            seq![]
        }) + toml_scalars_out(es.drop_first())
    }
}

/// The headed sections of the container entries, in order.
pub open spec fn toml_subs_out(es: Seq<(Seq<char>, ValueV)>, pp: Seq<u8>) -> Seq<u8>
    decreases es, 0int,
{
    if es.len() == 0 {
        seq![]
    } else {
        (if is_inline(es[0].1) {
            seq![]
        } else {
            match es[0].1 {
                ValueV::Obj(sub) => seq![B_LBRACKET] + child_path(pp, es[0].0) + seq![
                    B_RBRACKET,
                    B_NEWLINE,
                ] + toml_table(sub, child_path(pp, es[0].0)),
                ValueV::List(items) => toml_array(items, child_path(pp, es[0].0)),
                _ => seq![],
            }
        }) + toml_subs_out(es.drop_first(), pp)
    }
}

pub open spec fn toml_array(items: Seq<ValueV>, cp: Seq<u8>) -> Seq<u8>
    decreases items, 1int,
{
    if items.len() == 0 {
        seq![]
    } else {
        seq![B_LBRACKET, B_LBRACKET] + cp + seq![B_RBRACKET, B_RBRACKET, B_NEWLINE] + (
        match items[0] {
            ValueV::Obj(es) => toml_table(es, cp),
            _ => seq![],
        }) + toml_array(items.drop_first(), cp)
    }
}

/// The whole text of a document: the top table under the empty path.
pub open spec fn toml_bytes(v: ValueV) -> Seq<u8> {
    match v {
        ValueV::Obj(es) => toml_table(es, seq![]),
        _ => seq![],
    }
}

pub open spec fn all_key_chars(b: Seq<u8>) -> bool {
    forall|j: int| 0 <= j < b.len() ==> is_key_char(#[trigger] b[j])
}

/// First index at or after `i` that holds neither a key character nor
/// a dot.
pub open spec fn path_run(s: Seq<u8>, i: int) -> int
    decreases s.len() - i,
{
    if i < 0 || i >= s.len() || !(is_key_char(s[i]) || s[i] == B_DOT) {
        i
    } else {
        path_run(s, i + 1)
    }
}

/// The key a header names directly under `pp`, if it does.
pub open spec fn match_child(pp: Seq<u8>, hb: Seq<u8>) -> Option<Seq<u8>> {
    if pp.len() == 0 {
        if hb.len() >= 1 && all_key_chars(hb) {
            Some(hb)
        } else {
            None
        }
    } else {
        if hb.len() >= pp.len() + 2 && hb.subrange(0, pp.len() as int) == pp && hb[pp.len() as int]
            == B_DOT && all_key_chars(hb.subrange(pp.len() as int + 1, hb.len() as int)) {
            Some(hb.subrange(pp.len() as int + 1, hb.len() as int))
        } else {
            None
        }
    }
}

/// The `key = value` lines at the head of a table body.
pub open spec fn parse_tscalars(s: Seq<u8>, i: int, fuel: nat) -> Option<
    (Seq<(Seq<char>, ValueV)>, int),
>
    decreases fuel,
{
    if fuel == 0 {
        None
    } else if i < 0 || i >= s.len() || !is_key_char(s[i]) {
        Some((seq![], i))
    } else {
        let ke = key_run(s, i);
        let kb = s.subrange(i, ke);
        if !valid_utf8(kb) {
            None
        } else if ke + 3 > s.len() || s[ke] != B_SPACE || s[ke + 1] != B_EQUALS || s[ke + 2]
            != B_SPACE {
            None
        } else {
            match parse_scalar(s, ke + 3) {
                Some((v, e)) => if e < s.len() && s[e] == B_NEWLINE {
                    match parse_tscalars(s, e + 1, (fuel - 1) as nat) {
                        Some((rest, e2)) => Some((seq![(decode_utf8(kb), v)] + rest, e2)),
                        None => None,
                    }
                } else {
                    None
                },
                None => None,
            }
        }
    }
}

/// The bytes of a header line at `i`: whether it is doubled, its path,
/// and the index past its newline; `None` when no well-formed header
/// starts here.
pub open spec fn parse_header(s: Seq<u8>, i: int) -> Option<(bool, Seq<u8>, int)> {
    if i < 0 || i >= s.len() || s[i] != B_LBRACKET {
        None
    } else if i + 1 < s.len() && s[i + 1] == B_LBRACKET {
        let pe = path_run(s, i + 2);
        let hb = s.subrange(i + 2, pe);
        if pe + 3 <= s.len() && s[pe] == B_RBRACKET && s[pe + 1] == B_RBRACKET && s[pe + 2]
            == B_NEWLINE {
            Some((true, hb, pe + 3))
        } else {
            None
        }
    } else {
        let pe = path_run(s, i + 1);
        let hb = s.subrange(i + 1, pe);
        if pe + 2 <= s.len() && s[pe] == B_RBRACKET && s[pe + 1] == B_NEWLINE {
            Some((false, hb, pe + 2))
        } else {
            None
        }
    }
}

/// The headed sections directly under `pp`: nested tables and arrays
/// of tables, until a header that does not extend `pp`.
pub open spec fn parse_tsubs(s: Seq<u8>, i: int, pp: Seq<u8>, fuel: nat) -> Option<
    (Seq<(Seq<char>, ValueV)>, int),
>
    decreases fuel,
{
    if fuel == 0 {
        None
    } else {
        match parse_header(s, i) {
            Some((double, hb, hstart)) => match match_child(pp, hb) {
                Some(kb) => if !valid_utf8(kb) {
                    None
                } else {
                    let key = decode_utf8(kb);
                    if double {
                        match parse_tarray(s, i, hb, (fuel - 1) as nat) {
                            Some((items, e)) => match parse_tsubs(s, e, pp, (fuel - 1) as nat) {
                                Some((rest, e2)) => Some(
                                    (seq![(key, ValueV::List(items))] + rest, e2),
                                ),
                                None => None,
                            },
                            None => None,
                        }
                    } else {
                        match parse_ttable(s, hstart, hb, (fuel - 1) as nat) {
                            Some((sub, e)) => match parse_tsubs(s, e, pp, (fuel - 1) as nat) {
                                Some((rest, e2)) => Some(
                                    (seq![(key, ValueV::Obj(sub))] + rest, e2),
                                ),
                                None => None,
                            },
                            None => None,
                        }
                    }
                },
                None => Some((seq![], i)),
            },
            None => Some((seq![], i)),
        }
    }
}

/// Consecutive `[[cp]]` sections: the items of one array of tables.
pub open spec fn parse_tarray(s: Seq<u8>, i: int, cp: Seq<u8>, fuel: nat) -> Option<
    (Seq<ValueV>, int),
>
    decreases fuel,
{
    if fuel == 0 {
        None
    } else {
        match parse_header(s, i) {
            Some((true, hb, hstart)) => if hb == cp {
                match parse_ttable(s, hstart, cp, (fuel - 1) as nat) {
                    Some((es, e)) => match parse_tarray(s, e, cp, (fuel - 1) as nat) {
                        Some((rest, e2)) => Some((seq![ValueV::Obj(es)] + rest, e2)),
                        None => None,
                    },
                    None => None,
                }
            } else {
                Some((seq![], i))
            },
            _ => Some((seq![], i)),
        }
    }
}

/// A table body: scalar lines, then headed sections.
pub open spec fn parse_ttable(s: Seq<u8>, i: int, pp: Seq<u8>, fuel: nat) -> Option<
    (Seq<(Seq<char>, ValueV)>, int),
>
    decreases fuel,
{
    if fuel == 0 {
        None
    } else {
        match parse_tscalars(s, i, (fuel - 1) as nat) {
            Some((sc, e)) => match parse_tsubs(s, e, pp, (fuel - 1) as nat) {
                Some((subs, e2)) => Some((sc + subs, e2)),
                None => None,
            },
            None => None,
        }
    }
}

/// What a whole text denotes: the top-level table covering the entire
/// input.
pub open spec fn toml_doc(s: Seq<u8>) -> Option<ValueV> {
    match parse_ttable(s, 0, seq![], (s.len() + 2) as nat) {
        Some((es, e)) => if e == s.len() {
            Some(ValueV::Obj(es))
        } else {
            None
        },
        None => None,
    }
}

/// Appends the table body of an object's entries: scalar lines, then
/// headed sections.
#[verifier::loop_isolation(false)]
#[verifier::rlimit(60)]
pub fn toml_push_table(es: &Vec<(String, Value)>, pp: &Vec<u8>, out: &mut Vec<u8>)
    ensures
        final(out)@ == old(out)@ + toml_table(entries_view(*es), pp@),
    decreases es,
{
    let ghost evs = entries_view(*es);
    let mut i: usize = 0;
    proof {
        assert(evs.skip(0) =~= evs);
    }
    while i < es.len()
        invariant
            i <= es@.len(),
            out@ + toml_scalars_out(evs.skip(i as int)) == old(out)@ + toml_scalars_out(evs),
        decreases es@.len() - i,
    {
        proof {
            assert(evs.skip(i as int)[0] == evs[i as int]);
            assert(evs[i as int] == (es@[i as int].0@, es@[i as int].1.deep_view()));
            assert(evs.skip(i as int).drop_first() =~= evs.skip(i + 1));
        }
        let ghost pre = out@;
        let v = &es[i].1;
        let inline = match v {
            Value::Bool(_) => true,
            Value::Int(_) => true,
            Value::Dec(_) => true,
            Value::Text(_) => true,
            Value::List(items) => items.len() == 0,
            Value::Obj(sub) => sub.len() == 0,
        };
        proof {
            let dv = evs[i as int].1;
            assert(dv == es@[i as int].1.deep_view());
            match v {
                Value::List(items) => {
                    assert(dv == ValueV::List(items_view(*items)));
                    assert(items_view(*items).len() == items@.len());
                },
                Value::Obj(sub) => {
                    assert(dv == ValueV::Obj(entries_view(*sub)));
                    assert(entries_view(*sub).len() == sub@.len());
                },
                _ => {},
            }
            assert(inline == is_inline(dv));
        }
        if inline {
            let kb = es[i].0.as_str().as_bytes_vec();
            crate::dateprefix::push_all(kb.as_slice(), out);
            out.push(B_SPACE);
            out.push(B_EQUALS);
            out.push(B_SPACE);
            push_scalar(v, out);
            out.push(B_NEWLINE);
            proof {
                assert(out@ =~= pre + (encode_utf8(evs[i as int].0) + seq![
                    B_SPACE,
                    B_EQUALS,
                    B_SPACE,
                ] + scalar_bytes(evs[i as int].1) + seq![B_NEWLINE]));
            }
        }
        proof {
            assert(out@ + toml_scalars_out(evs.skip(i + 1)) =~= old(out)@ + toml_scalars_out(evs));
        }
        i = i + 1;
    }
    proof {
        assert(evs.skip(es@.len() as int) =~= Seq::<(Seq<char>, ValueV)>::empty());
        assert(out@ =~= old(out)@ + toml_scalars_out(evs));
    }
    let mut j: usize = 0;
    let ghost mid = out@;
    while j < es.len()
        invariant
            j <= es@.len(),
            out@ + toml_subs_out(evs.skip(j as int), pp@) == mid + toml_subs_out(evs, pp@),
        decreases es@.len() - j,
    {
        proof {
            assert(evs.skip(j as int)[0] == evs[j as int]);
            assert(evs[j as int] == (es@[j as int].0@, es@[j as int].1.deep_view()));
            assert(evs.skip(j as int).drop_first() =~= evs.skip(j + 1));
        }
        let v = &es[j].1;
        let inline = match v {
            Value::Bool(_) => true,
            Value::Int(_) => true,
            Value::Dec(_) => true,
            Value::Text(_) => true,
            Value::List(items) => items.len() == 0,
            Value::Obj(sub) => sub.len() == 0,
        };
        if !inline {
            let kb = es[j].0.as_str().as_bytes_vec();
            match v {
                Value::Obj(sub) => {
                    let cp = child(pp, kb.as_slice());
                    out.push(B_LBRACKET);
                    crate::dateprefix::push_all(cp.as_slice(), out);
                    out.push(B_RBRACKET);
                    out.push(B_NEWLINE);
                    toml_push_table(sub, &cp, out);
                },
                Value::List(items) => {
                    let cp = child(pp, kb.as_slice());
                    toml_push_array(items, &cp, out);
                },
                _ => {},
            }
        }
        proof {
            assert(out@ + toml_subs_out(evs.skip(j + 1), pp@) =~= mid + toml_subs_out(evs, pp@));
        }
        j = j + 1;
    }
    proof {
        assert(evs.skip(es@.len() as int) =~= Seq::<(Seq<char>, ValueV)>::empty());
        assert(out@ =~= old(out)@ + toml_table(evs, pp@));
    }
}

/// The dotted path of a child table.
fn child(pp: &Vec<u8>, kb: &[u8]) -> (r: Vec<u8>)
    ensures
        r@ == child_path(pp@, decode_utf8(kb@)) || (!valid_utf8(kb@) && r@ == if pp@.len() == 0 {
            kb@
        } else {
            pp@ + seq![B_DOT] + kb@
        }),
        valid_utf8(kb@) ==> r@ == child_path(pp@, decode_utf8(kb@)),
{
    let mut r = copy_range(pp.as_slice(), 0, pp.len());
    if pp.len() > 0 {
        r.push(B_DOT);
    }
    crate::dateprefix::push_all(kb, &mut r);
    proof {
        if valid_utf8(kb@) {
            vstd::utf8::decode_utf8_encode_utf8(kb@);
            assert(encode_utf8(decode_utf8(kb@)) == kb@);
            if pp@.len() == 0 {
                assert(r@ =~= child_path(pp@, decode_utf8(kb@)));
            } else {
                assert(r@ =~= child_path(pp@, decode_utf8(kb@)));
            }
        } else {
            if pp@.len() == 0 {
                assert(r@ =~= kb@);
            } else {
                assert(r@ =~= pp@ + seq![B_DOT] + kb@);
            }
        }
    }
    r
}

/// Appends the `[[..]]` sections of an array of tables.
#[verifier::loop_isolation(false)]
pub fn toml_push_array(items: &Vec<Value>, cp: &Vec<u8>, out: &mut Vec<u8>)
    ensures
        final(out)@ == old(out)@ + toml_array(items_view(*items), cp@),
    decreases items,
{
    let ghost its = items_view(*items);
    let mut i: usize = 0;
    proof {
        assert(its.skip(0) =~= its);
    }
    while i < items.len()
        invariant
            i <= items@.len(),
            out@ + toml_array(its.skip(i as int), cp@) == old(out)@ + toml_array(its, cp@),
        decreases items@.len() - i,
    {
        proof {
            assert(its.skip(i as int)[0] == its[i as int]);
            assert(its[i as int] == items@[i as int].deep_view());
            assert(its.skip(i as int).drop_first() =~= its.skip(i + 1));
        }
        let ghost pre = out@;
        out.push(B_LBRACKET);
        out.push(B_LBRACKET);
        crate::dateprefix::push_all(cp.as_slice(), out);
        out.push(B_RBRACKET);
        out.push(B_RBRACKET);
        out.push(B_NEWLINE);
        match &items[i] {
            Value::Obj(sub) => {
                toml_push_table(sub, cp, out);
            },
            _ => {},
        }
        proof {
            assert(out@ + toml_array(its.skip(i + 1), cp@) =~= old(out)@ + toml_array(its, cp@));
        }
        i = i + 1;
    }
    proof {
        assert(its.skip(items@.len() as int) =~= Seq::<ValueV>::empty());
        assert(out@ =~= old(out)@ + toml_array(its, cp@));
    }
}

/// The table text of a document.
pub fn encode_toml(v: &Value) -> (r: Vec<u8>)
    ensures
        r@ == toml_bytes(v.deep_view()),
{
    let mut out: Vec<u8> = Vec::new();
    match v {
        Value::Obj(es) => {
            let pp: Vec<u8> = Vec::new();
            proof {
                assert(pp@ =~= Seq::<u8>::empty());
            }
            toml_push_table(es, &pp, &mut out);
        },
        _ => {},
    }
    proof {
        assert(out@ =~= toml_bytes(v.deep_view()));
    }
    out
}

/// Advances over the path characters that start at `i`.
fn skip_path(s: &[u8], i: usize) -> (r: usize)
    requires
        i <= s@.len(),
    ensures
        r == path_run(s@, i as int),
        i <= r <= s@.len(),
{
    let mut j = i;
    while j < s.len() && ((97 <= s[j] && s[j] <= 122) || (48 <= s[j] && s[j] <= 57) || s[j] == 95
        || s[j] == B_DOT)
        invariant
            i <= j <= s@.len(),
            path_run(s@, i as int) == path_run(s@, j as int),
        decreases s@.len() - j,
    {
        j = j + 1;
    }
    j
}

/// Reads a header line, as [`parse_header`] describes it.
fn read_header(s: &[u8], i: usize) -> (r: Option<(bool, Vec<u8>, usize)>)
    requires
        i <= s@.len(),
    ensures
        match r {
            Some(p) => parse_header(s@, i as int) == Some((p.0, p.1@, p.2 as int)) && p.2
                <= s@.len(),
            None => parse_header(s@, i as int) is None,
        },
{
    if i >= s.len() || s[i] != B_LBRACKET {
        return None;
    }
    if i + 1 < s.len() && s[i + 1] == B_LBRACKET {
        let pe = skip_path(s, i + 2);
        if s.len() - pe >= 3 && s[pe] == B_RBRACKET && s[pe + 1] == B_RBRACKET && s[pe + 2]
            == B_NEWLINE {
            let hb = copy_range(s, i + 2, pe);
            Some((true, hb, pe + 3))
        } else {
            None
        }
    } else {
        let pe = skip_path(s, i + 1);
        if s.len() - pe >= 2 && s[pe] == B_RBRACKET && s[pe + 1] == B_NEWLINE {
            let hb = copy_range(s, i + 1, pe);
            Some((false, hb, pe + 2))
        } else {
            None
        }
    }
}

/// Decides whether `hb` names a child of `pp`, as [`match_child`]
/// describes it.
fn check_child(pp: &Vec<u8>, hb: &Vec<u8>) -> (r: Option<Vec<u8>>)
    ensures
        match r {
            Some(kb) => match_child(pp@, hb@) == Some(kb@),
            None => match_child(pp@, hb@) is None,
        },
{
    if pp.len() == 0 {
        proof {
            assert(hb@.subrange(0, hb@.len() as int) =~= hb@);
        }
        if hb.len() >= 1 && all_keys(hb.as_slice(), 0, hb.len()) {
            Some(copy_range(hb.as_slice(), 0, hb.len()))
        } else {
            None
        }
    } else {
        if hb.len() >= 2 && hb.len() - 2 >= pp.len() {
            let mut same = true;
            let mut j: usize = 0;
            proof {
                assert(hb@.subrange(0, 0) =~= pp@.subrange(0, 0));
            }
            while j < pp.len()
                invariant
                    j <= pp@.len() <= hb@.len(),
                    same == (hb@.subrange(0, j as int) == pp@.subrange(0, j as int)),
                decreases pp@.len() - j,
            {
                proof {
                    assert(hb@.subrange(0, j + 1).drop_last() =~= hb@.subrange(0, j as int));
                    assert(pp@.subrange(0, j + 1).drop_last() =~= pp@.subrange(0, j as int));
                }
                if hb[j] != pp[j] {
                    proof {
                        let ji = j as int;
                        if hb@.subrange(0, ji + 1) == pp@.subrange(0, ji + 1) {
                            assert(hb@.subrange(0, ji + 1)[ji] == pp@.subrange(0, ji + 1)[ji]);
                        }
                    }
                    same = false;
                } else {
                    proof {
                        if same {
                            assert(hb@.subrange(0, j + 1) =~= pp@.subrange(0, j + 1));
                        } else {
                            if hb@.subrange(0, j + 1) == pp@.subrange(0, j + 1) {
                                assert(hb@.subrange(0, j as int) =~= hb@.subrange(
                                    0,
                                    j + 1,
                                ).drop_last());
                                assert(false);
                            }
                        }
                    }
                }
                j = j + 1;
            }
            proof {
                assert(pp@.subrange(0, pp@.len() as int) =~= pp@);
            }
            if same && hb[pp.len()] == B_DOT && all_keys(hb.as_slice(), pp.len() + 1, hb.len()) {
                Some(copy_range(hb.as_slice(), pp.len() + 1, hb.len()))
            } else {
                None
            }
        } else {
            None
        }
    }
}

/// Whether every byte of `s[a..b]` is a key character.
fn all_keys(s: &[u8], a: usize, b: usize) -> (r: bool)
    requires
        a <= b <= s@.len(),
    ensures
        r == all_key_chars(s@.subrange(a as int, b as int)),
{
    let mut j = a;
    while j < b
        invariant
            a <= j <= b <= s@.len(),
            forall|m: int| a <= m < j ==> is_key_char(#[trigger] s@[m]),
        decreases b - j,
    {
        let c = s[j];
        if !((97 <= c && c <= 122) || (48 <= c && c <= 57) || c == 95) {
            proof {
                assert(s@.subrange(a as int, b as int)[j - a] == s@[j as int]);
            }
            return false;
        }
        j = j + 1;
    }
    proof {
        assert forall|m: int|
            0 <= m < b - a implies is_key_char(#[trigger] s@.subrange(a as int, b as int)[m]) by {
            assert(s@.subrange(a as int, b as int)[m] == s@[a + m]);
        }
    }
    true
}

/// Reads scalar lines, as [`parse_tscalars`] describes them.
pub fn read_tscalars(s: &[u8], i: usize, fuel: usize) -> (r: Option<
    (Vec<(String, Value)>, usize),
>)
    requires
        i <= s@.len(),
    ensures
        match r {
            Some(p) => parse_tscalars(s@, i as int, fuel as nat) == Some(
                (entries_view(p.0), p.1 as int),
            ) && p.1 <= s@.len(),
            None => parse_tscalars(s@, i as int, fuel as nat) is None,
        },
    decreases fuel,
{
    if fuel == 0 {
        return None;
    }
    if i >= s.len() || !((97 <= s[i] && s[i] <= 122) || (48 <= s[i] && s[i] <= 57) || s[i] == 95) {
        let es: Vec<(String, Value)> = Vec::new();
        proof {
            assert(entries_view(es) =~= Seq::<(Seq<char>, ValueV)>::empty());
        }
        return Some((es, i));
    }
    let ke = skip_key(s, i);
    let kb = copy_range(s, i, ke);
    let key = match crate::text::bytes_to_string(kb) {
        Some(k) => k,
        None => {
            return None;
        },
    };
    proof {
        assert(decode_utf8(encode_utf8(key@)) == key@);
    }
    if s.len() - ke < 3 || s[ke] != B_SPACE || s[ke + 1] != B_EQUALS || s[ke + 2] != B_SPACE {
        return None;
    }
    let (v, e) = match read_scalar(s, ke + 3) {
        Some(p) => p,
        None => {
            return None;
        },
    };
    if !(e < s.len() && s[e] == B_NEWLINE) {
        return None;
    }
    match read_tscalars(s, e + 1, fuel - 1) {
        Some((rest, e2)) => {
            let ghost restv = entries_view(rest);
            let ghost keyv = key@;
            let ghost vv = v.deep_view();
            let mut es: Vec<(String, Value)> = Vec::new();
            es.push((key, v));
            proof {
                assert(entries_view(es) =~= seq![(keyv, vv)] + restv.take(0));
            }
            let mut k: usize = 0;
            while k < rest.len()
                invariant
                    k <= rest@.len(),
                    restv == entries_view(rest),
                    restv.len() == rest@.len(),
                    es@.len() == k + 1,
                    entries_view(es) == seq![(keyv, vv)] + restv.take(k as int),
                decreases rest@.len() - k,
            {
                let pair = &rest[k];
                let ghost oldes = entries_view(es);
                let ghost oldraw = es@;
                es.push((pair.0.clone(), clone_value(&pair.1)));
                proof {
                    assert forall|m: int| 0 <= m < es@.len() implies entries_view(es)[m] == (
                    seq![(keyv, vv)] + restv.take(k + 1))[m] by {
                        if m < es@.len() - 1 {
                            assert(es@[m] == oldraw[m]);
                            assert(entries_view(es)[m] == oldes[m]);
                        } else {
                            let ki = k as int;
                            assert(restv.take(ki + 1)[ki] == restv[ki]);
                            assert(restv[ki] == (rest@[ki].0@, rest@[ki].1.deep_view()));
                        }
                    }
                    assert(entries_view(es) =~= seq![(keyv, vv)] + restv.take(k + 1));
                }
                k = k + 1;
            }
            proof {
                assert(restv.take(rest@.len() as int) =~= restv);
            }
            Some((es, e2))
        },
        None => None,
    }
}

/// Reads headed sections, as [`parse_tsubs`] describes them.
pub fn read_tsubs(s: &[u8], i: usize, pp: &Vec<u8>, fuel: usize) -> (r: Option<
    (Vec<(String, Value)>, usize),
>)
    requires
        i <= s@.len(),
    ensures
        match r {
            Some(p) => parse_tsubs(s@, i as int, pp@, fuel as nat) == Some(
                (entries_view(p.0), p.1 as int),
            ) && p.1 <= s@.len(),
            None => parse_tsubs(s@, i as int, pp@, fuel as nat) is None,
        },
    decreases fuel,
{
    if fuel == 0 {
        return None;
    }
    let (double, hb, hstart) = match read_header(s, i) {
        Some(p) => p,
        None => {
            let es: Vec<(String, Value)> = Vec::new();
            proof {
                assert(entries_view(es) =~= Seq::<(Seq<char>, ValueV)>::empty());
            }
            return Some((es, i));
        },
    };
    let kb = match check_child(pp, &hb) {
        Some(kb) => kb,
        None => {
            let es: Vec<(String, Value)> = Vec::new();
            proof {
                assert(entries_view(es) =~= Seq::<(Seq<char>, ValueV)>::empty());
            }
            return Some((es, i));
        },
    };
    let key = match crate::text::bytes_to_string(kb) {
        Some(k) => k,
        None => {
            return None;
        },
    };
    proof {
        assert(decode_utf8(encode_utf8(key@)) == key@);
    }
    let (v, e1): (Value, usize) = if double {
        match read_tarray(s, i, &hb, fuel - 1) {
            Some((items, e)) => (Value::List(items), e),
            None => {
                return None;
            },
        }
    } else {
        match read_ttable(s, hstart, &hb, fuel - 1) {
            Some((sub, e)) => (Value::Obj(sub), e),
            None => {
                return None;
            },
        }
    };
    match read_tsubs(s, e1, pp, fuel - 1) {
        Some((rest, e2)) => {
            let ghost restv = entries_view(rest);
            let ghost keyv = key@;
            let ghost vv = v.deep_view();
            let mut es: Vec<(String, Value)> = Vec::new();
            es.push((key, v));
            proof {
                assert(entries_view(es) =~= seq![(keyv, vv)] + restv.take(0));
            }
            let mut k: usize = 0;
            while k < rest.len()
                invariant
                    k <= rest@.len(),
                    restv == entries_view(rest),
                    restv.len() == rest@.len(),
                    es@.len() == k + 1,
                    entries_view(es) == seq![(keyv, vv)] + restv.take(k as int),
                decreases rest@.len() - k,
            {
                let pair = &rest[k];
                let ghost oldes = entries_view(es);
                let ghost oldraw = es@;
                es.push((pair.0.clone(), clone_value(&pair.1)));
                proof {
                    assert forall|m: int| 0 <= m < es@.len() implies entries_view(es)[m] == (
                    seq![(keyv, vv)] + restv.take(k + 1))[m] by {
                        if m < es@.len() - 1 {
                            assert(es@[m] == oldraw[m]);
                            assert(entries_view(es)[m] == oldes[m]);
                        } else {
                            let ki = k as int;
                            assert(restv.take(ki + 1)[ki] == restv[ki]);
                            assert(restv[ki] == (rest@[ki].0@, rest@[ki].1.deep_view()));
                        }
                    }
                    assert(entries_view(es) =~= seq![(keyv, vv)] + restv.take(k + 1));
                }
                k = k + 1;
            }
            proof {
                assert(restv.take(rest@.len() as int) =~= restv);
            }
            Some((es, e2))
        },
        None => None,
    }
}

/// Reads one array of tables, as [`parse_tarray`] describes it.
pub fn read_tarray(s: &[u8], i: usize, cp: &Vec<u8>, fuel: usize) -> (r: Option<
    (Vec<Value>, usize),
>)
    requires
        i <= s@.len(),
    ensures
        match r {
            Some(p) => parse_tarray(s@, i as int, cp@, fuel as nat) == Some(
                (items_view(p.0), p.1 as int),
            ) && p.1 <= s@.len(),
            None => parse_tarray(s@, i as int, cp@, fuel as nat) is None,
        },
    decreases fuel,
{
    if fuel == 0 {
        return None;
    }
    let stop = match read_header(s, i) {
        Some((true, hb, hstart)) => {
            if crate::value::bytes_eq(hb.as_slice(), cp.as_slice()) {
                let es = match read_ttable(s, hstart, cp, fuel - 1) {
                    Some(p) => p,
                    None => {
                        return None;
                    },
                };
                match read_tarray(s, es.1, cp, fuel - 1) {
                    Some((rest, e2)) => {
                        let ghost restv = items_view(rest);
                        let ghost vv = Value::Obj(es.0).deep_view();
                        let mut its: Vec<Value> = Vec::new();
                        its.push(Value::Obj(es.0));
                        proof {
                            assert(items_view(its) =~= seq![vv] + restv.take(0));
                        }
                        let mut k: usize = 0;
                        while k < rest.len()
                            invariant
                                k <= rest@.len(),
                                restv == items_view(rest),
                                restv.len() == rest@.len(),
                                its@.len() == k + 1,
                                items_view(its) == seq![vv] + restv.take(k as int),
                            decreases rest@.len() - k,
                        {
                            let ghost oldits = items_view(its);
                            let ghost oldraw = its@;
                            its.push(clone_value(&rest[k]));
                            proof {
                                assert forall|m: int| 0 <= m < its@.len() implies items_view(
                                    its,
                                )[m] == (seq![vv] + restv.take(k + 1))[m] by {
                                    if m < its@.len() - 1 {
                                        assert(its@[m] == oldraw[m]);
                                        assert(items_view(its)[m] == oldits[m]);
                                    } else {
                                        let ki = k as int;
                                        assert(restv.take(ki + 1)[ki] == restv[ki]);
                                        assert(restv[ki] == rest@[ki].deep_view());
                                    }
                                }
                                assert(items_view(its) =~= seq![vv] + restv.take(k + 1));
                            }
                            k = k + 1;
                        }
                        proof {
                            assert(restv.take(rest@.len() as int) =~= restv);
                        }
                        return Some((its, e2));
                    },
                    None => {
                        return None;
                    },
                }
            } else {
                true
            }
        },
        _ => true,
    };
    if stop {
        let its: Vec<Value> = Vec::new();
        proof {
            assert(items_view(its) =~= Seq::<ValueV>::empty());
        }
        Some((its, i))
    } else {
        None
    }
}

/// Reads a table body, as [`parse_ttable`] describes it.
pub fn read_ttable(s: &[u8], i: usize, pp: &Vec<u8>, fuel: usize) -> (r: Option<
    (Vec<(String, Value)>, usize),
>)
    requires
        i <= s@.len(),
    ensures
        match r {
            Some(p) => parse_ttable(s@, i as int, pp@, fuel as nat) == Some(
                (entries_view(p.0), p.1 as int),
            ) && p.1 <= s@.len(),
            None => parse_ttable(s@, i as int, pp@, fuel as nat) is None,
        },
    decreases fuel,
{
    if fuel == 0 {
        return None;
    }
    let (mut sc, e) = match read_tscalars(s, i, fuel - 1) {
        Some(p) => p,
        None => {
            return None;
        },
    };
    let (subs, e2) = match read_tsubs(s, e, pp, fuel - 1) {
        Some(p) => p,
        None => {
            return None;
        },
    };
    let ghost scv = entries_view(sc);
    let ghost subsv = entries_view(subs);
    let mut k: usize = 0;
    proof {
        assert(entries_view(sc) =~= scv + subsv.take(0));
    }
    while k < subs.len()
        invariant
            k <= subs@.len(),
            subsv == entries_view(subs),
            subsv.len() == subs@.len(),
            sc@.len() == scv.len() + k,
            entries_view(sc) == scv + subsv.take(k as int),
        decreases subs@.len() - k,
    {
        let pair = &subs[k];
        let ghost oldes = entries_view(sc);
        let ghost oldraw = sc@;
        sc.push((pair.0.clone(), clone_value(&pair.1)));
        proof {
            assert forall|m: int| 0 <= m < sc@.len() implies entries_view(sc)[m] == (scv
                + subsv.take(k + 1))[m] by {
                if m < sc@.len() - 1 {
                    assert(sc@[m] == oldraw[m]);
                    assert(entries_view(sc)[m] == oldes[m]);
                } else {
                    let ki = k as int;
                    assert(subsv.take(ki + 1)[ki] == subsv[ki]);
                    assert(subsv[ki] == (subs@[ki].0@, subs@[ki].1.deep_view()));
                }
            }
            assert(entries_view(sc) =~= scv + subsv.take(k + 1));
        }
        k = k + 1;
    }
    proof {
        assert(subsv.take(subs@.len() as int) =~= subsv);
    }
    Some((sc, e2))
}

/// Reads a whole table text as one tree, as [`toml_doc`] describes it.
pub fn decode_toml(s: &[u8]) -> (r: Result<Value, DecodeError>)
    requires
        s@.len() + 2 < usize::MAX,
    ensures
        match r {
            Ok(v) => toml_doc(s@) == Some(v.deep_view()),
            Err(e) => toml_doc(s@) is None && e == DecodeError::MalformedText,
        },
{
    let pp: Vec<u8> = Vec::new();
    proof {
        assert(pp@ =~= Seq::<u8>::empty());
    }
    match read_ttable(s, 0, &pp, s.len() + 2) {
        Some((es, e)) => {
            if e == s.len() {
                Ok(Value::Obj(es))
            } else {
                Err(DecodeError::MalformedText)
            }
        },
        None => Err(DecodeError::MalformedText),
    }
}

/// What a TOML-like text denotes as a request.
pub open spec fn request_from_toml(s: Seq<u8>) -> Result<RequestV, DecodeErrorV> {
    match toml_doc(s) {
        Some(v) => decode_request_v(v, ""@),
        None => Err(DecodeErrorV::MalformedText),
    }
}

/// Reads a request from a TOML-like text, as [`request_from_toml`]
/// describes it.
pub fn decode_request_toml(s: &[u8]) -> (r: Result<Request, DecodeError>)
    requires
        s@.len() + 2 < usize::MAX,
    ensures
        res_v(r) == request_from_toml(s@),
{
    match decode_toml(s) {
        Ok(v) => decode_request(&v),
        Err(e) => Err(e),
    }
}

/// The TOML-like text of a request.
pub fn encode_request_toml(r: &Request) -> (out: Vec<u8>)
    requires
        r.stream.user_id.wf(),
        crate::timestamp::ts_wf(r.debug.at),
    ensures
        out@ == toml_bytes(crate::schema::encode_request_v(r.deep_view())),
{
    let v = crate::schema::encode_request(r);
    encode_toml(&v)
}

} // verus!
