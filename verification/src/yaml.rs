//! The YAML-like format adapter: block style with two-space
//! indentation, bare keys, one entry per line, list items introduced
//! by a dash; absent optional fields are omitted, never written as an
//! explicit empty token.
use vstd::prelude::*;
use vstd::utf8::{valid_utf8, decode_utf8, encode_utf8};
use crate::bytes::{B_SPACE, B_NEWLINE, B_COLON, B_MINUS, B_UNDERSCORE, B_ZERO, B_NINE,
    B_LOWER_A, B_LOWER_Z};
use crate::scalar::{is_inline, scalar_bytes, parse_scalar, push_scalar, read_scalar};
use crate::value::{Value, ValueV, entries_view, items_view};
use crate::errors::{DecodeError, DecodeErrorV, res_v};
use crate::records::{Request, RequestV};
use crate::schema::{decode_request, decode_request_v};
use crate::json::clone_value;

verus! {

broadcast use vstd::std_specs::vec::group_vec_axioms, vstd::seq::group_seq_axioms,
    vstd::string::group_string_axioms, vstd::utf8::encode_utf8_valid_utf8,
    vstd::utf8::encode_utf8_decode_utf8;

/// A bare key character: a small letter, a digit, or an underscore.
pub open spec fn is_key_char(b: u8) -> bool {
    (B_LOWER_A <= b <= B_LOWER_Z) || (B_ZERO <= b <= B_NINE) || b == B_UNDERSCORE
}

/// A key that may stand bare on a line.
pub open spec fn plain_key(k: Seq<char>) -> bool {
    &&& k.len() >= 1
    &&& forall|j: int|
        0 <= j < k.len() ==> is_key_char((#[trigger] k[j]) as u8) && (k[j] as u8) < 128
}

/// Shape a tree must have to print in block style: bare keys, and no
/// empty block (an empty container prints inline, a list holds only
/// non-empty objects).
pub open spec fn yaml_wf_entries(es: Seq<(Seq<char>, ValueV)>) -> bool
    decreases es,
{
    if es.len() == 0 {
        true
    } else {
        plain_key(es[0].0) && yaml_wf_val(es[0].1) && yaml_wf_entries(es.drop_first())
    }
}

pub open spec fn yaml_wf_val(v: ValueV) -> bool
    decreases v,
{
    match v {
        ValueV::Obj(es) => yaml_wf_entries(es),
        ValueV::List(items) => yaml_wf_items(items),
        _ => true,
    }
}

pub open spec fn yaml_wf_items(items: Seq<ValueV>) -> bool
    decreases items,
{
    if items.len() == 0 {
        true
    } else {
        (match items[0] {
            ValueV::Obj(es) => es.len() >= 1 && yaml_wf_entries(es),
            _ => false,
        }) && yaml_wf_items(items.drop_first())
    }
}

/// A whole document: a non-empty object.
pub open spec fn yaml_wf(v: ValueV) -> bool {
    match v {
        ValueV::Obj(es) => es.len() >= 1 && yaml_wf_entries(es),
        _ => false,
    }
}

pub open spec fn spaces(n: nat) -> Seq<u8> {
    Seq::new(n, |i: int| B_SPACE)
}

/// The block rendering of one entry at the given indentation.
pub open spec fn yaml_entry(e: (Seq<char>, ValueV), ind: nat) -> Seq<u8>
    decreases e,
{
    spaces(ind) + encode_utf8(e.0) + seq![B_COLON] + yaml_val(e.1, ind)
}

/// What follows a key: an inline scalar, or a nested block.
pub open spec fn yaml_val(v: ValueV, ind: nat) -> Seq<u8>
    decreases v,
{
    if is_inline(v) {
        seq![B_SPACE] + scalar_bytes(v) + seq![B_NEWLINE]
    } else {
        match v {
            ValueV::Obj(es) => seq![B_NEWLINE] + yaml_entries(es, (ind + 2) as nat),
            ValueV::List(items) => seq![B_NEWLINE] + yaml_items(items, (ind + 2) as nat),
            _ => seq![],
        }
    }
}

pub open spec fn yaml_entries(es: Seq<(Seq<char>, ValueV)>, ind: nat) -> Seq<u8>
    decreases es,
{
    if es.len() == 0 {
        seq![]
    } else {
        yaml_entry(es[0], ind) + yaml_entries(es.drop_first(), ind)
    }
}

pub open spec fn yaml_items(items: Seq<ValueV>, ind: nat) -> Seq<u8>
    decreases items,
{
    if items.len() == 0 {
        seq![]
    } else {
        spaces(ind) + seq![B_MINUS, B_NEWLINE] + (match items[0] {
            ValueV::Obj(es) => yaml_entries(es, (ind + 2) as nat),
            _ => seq![],
        }) + yaml_items(items.drop_first(), ind)
    }
}

/// The block rendering of a document.
pub open spec fn yaml_bytes(v: ValueV) -> Seq<u8> {
    match v {
        ValueV::Obj(es) => yaml_entries(es, 0),
        _ => seq![],
    }
}

/// First index at or after `i` that does not hold a space.
pub open spec fn space_run(s: Seq<u8>, i: int) -> int
    decreases s.len() - i,
{
    if i < 0 || i >= s.len() || s[i] != B_SPACE {
        i
    } else {
        space_run(s, i + 1)
    }
}

/// First index at or after `i` that does not hold a key character.
pub open spec fn key_run(s: Seq<u8>, i: int) -> int
    decreases s.len() - i,
{
    if i < 0 || i >= s.len() || !is_key_char(s[i]) {
        i
    } else {
        key_run(s, i + 1)
    }
}

/// The entries written at exactly the given indentation, ending where
/// another level begins.
pub open spec fn parse_yentries(s: Seq<u8>, i: int, ind: nat, fuel: nat) -> Option<
    (Seq<(Seq<char>, ValueV)>, int),
>
    decreases fuel,
{
    if fuel == 0 {
        None
    } else if i < 0 || i >= s.len() {
        Some((seq![], i))
    } else if space_run(s, i) - i != ind {
        Some((seq![], i))
    } else {
        let ks = i + ind;
        let ke = key_run(s, ks);
        if ke == ks {
            Some((seq![], i))
        } else if !valid_utf8(s.subrange(ks, ke)) {
            None
        } else {
            let key = decode_utf8(s.subrange(ks, ke));
            if ke >= s.len() || s[ke] != B_COLON {
                None
            } else if ke + 1 < s.len() && s[ke + 1] == B_SPACE {
                match parse_scalar(s, ke + 2) {
                    Some((v, e)) => if e < s.len() && s[e] == B_NEWLINE {
                        match parse_yentries(s, e + 1, ind, (fuel - 1) as nat) {
                            Some((rest, e2)) => Some((seq![(key, v)] + rest, e2)),
                            None => None,
                        }
                    } else {
                        None
                    },
                    None => None,
                }
            } else if ke + 1 < s.len() && s[ke + 1] == B_NEWLINE {
                let ls = ke + 2;
                let sp2 = space_run(s, ls);
                if sp2 - ls == ind + 2 && sp2 < s.len() && s[sp2] == B_MINUS {
                    match parse_yitems(s, ls, (ind + 2) as nat, (fuel - 1) as nat) {
                        Some((items, e)) => if items.len() >= 1 {
                            match parse_yentries(s, e, ind, (fuel - 1) as nat) {
                                Some((rest, e2)) => Some(
                                    (seq![(key, ValueV::List(items))] + rest, e2),
                                ),
                                None => None,
                            }
                        } else {
                            None
                        },
                        None => None,
                    }
                } else {
                    match parse_yentries(s, ls, (ind + 2) as nat, (fuel - 1) as nat) {
                        Some((sub, e)) => if sub.len() >= 1 {
                            match parse_yentries(s, e, ind, (fuel - 1) as nat) {
                                Some((rest, e2)) => Some(
                                    (seq![(key, ValueV::Obj(sub))] + rest, e2),
                                ),
                                None => None,
                            }
                        } else {
                            None
                        },
                        None => None,
                    }
                }
            } else {
                None
            }
        }
    }
}

/// The dash-introduced items written at exactly the given indentation.
pub open spec fn parse_yitems(s: Seq<u8>, i: int, ind: nat, fuel: nat) -> Option<
    (Seq<ValueV>, int),
>
    decreases fuel,
{
    if fuel == 0 {
        None
    } else if i < 0 || i >= s.len() {
        Some((seq![], i))
    } else if space_run(s, i) - i != ind {
        Some((seq![], i))
    } else if i + ind >= s.len() {
        Some((seq![], i))
    } else if s[i + ind] != B_MINUS {
        Some((seq![], i))
    } else if i + ind + 1 >= s.len() || s[i + ind + 1] != B_NEWLINE {
        None
    } else {
        match parse_yentries(s, i + ind + 2, (ind + 2) as nat, (fuel - 1) as nat) {
            Some((es, e)) => if es.len() >= 1 {
                match parse_yitems(s, e, ind, (fuel - 1) as nat) {
                    Some((rest, e2)) => Some((seq![ValueV::Obj(es)] + rest, e2)),
                    None => None,
                }
            } else {
                None
            },
            None => None,
        }
    }
}

/// What a whole block text denotes: a non-empty object covering the
/// entire input.
pub open spec fn yaml_doc(s: Seq<u8>) -> Option<ValueV> {
    match parse_yentries(s, 0, 0, (s.len() + 1) as nat) {
        Some((es, e)) => if e == s.len() && es.len() >= 1 {
            Some(ValueV::Obj(es))
        } else {
            None
        },
        None => None,
    }
}

/// A pad two spaces wider.
fn wider(pad: &Vec<u8>) -> (r: Vec<u8>)
    requires
        pad@ == spaces(pad@.len() as nat),
    ensures
        r@ == spaces((pad@.len() + 2) as nat),
        r@.len() == pad@.len() + 2,
{
    let mut r = copy_range(pad.as_slice(), 0, pad.len());
    r.push(B_SPACE);
    r.push(B_SPACE);
    proof {
        assert(r@ =~= spaces((pad@.len() + 2) as nat));
    }
    r
}

/// Appends the block rendering of an object's entries.
#[verifier::loop_isolation(false)]
pub fn yaml_push_entries(es: &Vec<(String, Value)>, pad: &Vec<u8>, out: &mut Vec<u8>)
    requires
        pad@ == spaces(pad@.len() as nat),
    ensures
        final(out)@ == old(out)@ + yaml_entries(entries_view(*es), pad@.len() as nat),
    decreases es,
{
    let ghost ind = pad@.len();
    let ghost evs = entries_view(*es);
    let mut i: usize = 0;
    proof {
        assert(evs.skip(0) =~= evs);
    }
    while i < es.len()
        invariant
            i <= es@.len(),
            out@ + yaml_entries(evs.skip(i as int), ind as nat) == old(out)@ + yaml_entries(
                evs,
                ind as nat,
            ),
        decreases es@.len() - i,
    {
        proof {
            assert(evs.skip(i as int)[0] == evs[i as int]);
            assert(evs[i as int] == (es@[i as int].0@, es@[i as int].1.deep_view()));
            assert(evs.skip(i as int).drop_first() =~= evs.skip(i + 1));
        }
        let ghost pre = out@;
        crate::dateprefix::push_all(pad.as_slice(), out);
        let kb = es[i].0.as_str().as_bytes_vec();
        crate::dateprefix::push_all(kb.as_slice(), out);
        out.push(B_COLON);
        let v = &es[i].1;
        match v {
            Value::Bool(_) => {
                out.push(B_SPACE);
                push_scalar(v, out);
                out.push(B_NEWLINE);
            },
            Value::Int(_) => {
                out.push(B_SPACE);
                push_scalar(v, out);
                out.push(B_NEWLINE);
            },
            Value::Dec(_) => {
                out.push(B_SPACE);
                push_scalar(v, out);
                out.push(B_NEWLINE);
            },
            Value::Text(_) => {
                out.push(B_SPACE);
                push_scalar(v, out);
                out.push(B_NEWLINE);
            },
            Value::List(items) => {
                if items.len() == 0 {
                    out.push(B_SPACE);
                    push_scalar(v, out);
                    out.push(B_NEWLINE);
                } else {
                    out.push(B_NEWLINE);
                    let pad2 = wider(pad);
                    yaml_push_items(items, &pad2, out);
                }
            },
            Value::Obj(sub) => {
                if sub.len() == 0 {
                    out.push(B_SPACE);
                    push_scalar(v, out);
                    out.push(B_NEWLINE);
                } else {
                    out.push(B_NEWLINE);
                    let pad2 = wider(pad);
                    yaml_push_entries(sub, &pad2, out);
                }
            },
        }
        proof {
            assert(out@ =~= pre + yaml_entry(evs[i as int], ind as nat));
            assert(out@ + yaml_entries(evs.skip(i + 1), ind as nat) =~= old(out)@ + yaml_entries(
                evs,
                ind as nat,
            ));
        }
        i = i + 1;
    }
    proof {
        assert(evs.skip(es@.len() as int) =~= Seq::<(Seq<char>, ValueV)>::empty());
        assert(out@ =~= old(out)@ + yaml_entries(evs, ind as nat));
    }
}

/// Appends the block rendering of a list's items.
#[verifier::loop_isolation(false)]
pub fn yaml_push_items(items: &Vec<Value>, pad: &Vec<u8>, out: &mut Vec<u8>)
    requires
        pad@ == spaces(pad@.len() as nat),
    ensures
        final(out)@ == old(out)@ + yaml_items(items_view(*items), pad@.len() as nat),
    decreases items,
{
    let ghost ind = pad@.len();
    let ghost its = items_view(*items);
    let mut i: usize = 0;
    proof {
        assert(its.skip(0) =~= its);
    }
    while i < items.len()
        invariant
            i <= items@.len(),
            out@ + yaml_items(its.skip(i as int), ind as nat) == old(out)@ + yaml_items(
                its,
                ind as nat,
            ),
        decreases items@.len() - i,
    {
        proof {
            assert(its.skip(i as int)[0] == its[i as int]);
            assert(its[i as int] == items@[i as int].deep_view());
            assert(its.skip(i as int).drop_first() =~= its.skip(i + 1));
        }
        let ghost pre = out@;
        crate::dateprefix::push_all(pad.as_slice(), out);
        out.push(B_MINUS);
        out.push(B_NEWLINE);
        match &items[i] {
            Value::Obj(sub) => {
                let pad2 = wider(pad);
                yaml_push_entries(sub, &pad2, out);
            },
            _ => {},
        }
        proof {
            assert(out@ + yaml_items(its.skip(i + 1), ind as nat) =~= old(out)@ + yaml_items(
                its,
                ind as nat,
            ));
        }
        i = i + 1;
    }
    proof {
        assert(its.skip(items@.len() as int) =~= Seq::<ValueV>::empty());
        assert(out@ =~= old(out)@ + yaml_items(its, ind as nat));
    }
}

/// The block text of a document.
pub fn encode_yaml(v: &Value) -> (r: Vec<u8>)
    ensures
        r@ == yaml_bytes(v.deep_view()),
{
    let mut out: Vec<u8> = Vec::new();
    match v {
        Value::Obj(es) => {
            let pad: Vec<u8> = Vec::new();
            proof {
                assert(pad@ =~= spaces(0));
            }
            yaml_push_entries(es, &pad, &mut out);
        },
        _ => {},
    }
    proof {
        assert(out@ =~= yaml_bytes(v.deep_view()));
    }
    out
}

/// Advances over the spaces that start at `i`.
fn skip_spaces(s: &[u8], i: usize) -> (r: usize)
    requires
        i <= s@.len(),
    ensures
        r == space_run(s@, i as int),
        i <= r <= s@.len(),
{
    let mut j = i;
    while j < s.len() && s[j] == B_SPACE
        invariant
            i <= j <= s@.len(),
            space_run(s@, i as int) == space_run(s@, j as int),
        decreases s@.len() - j,
    {
        j = j + 1;
    }
    j
}

/// Advances over the key characters that start at `i`.
pub fn skip_key(s: &[u8], i: usize) -> (r: usize)
    requires
        i <= s@.len(),
    ensures
        r == key_run(s@, i as int),
        i <= r <= s@.len(),
{
    let mut j = i;
    while j < s.len() && ((B_LOWER_A <= s[j] && s[j] <= B_LOWER_Z) || (B_ZERO <= s[j] && s[j]
        <= B_NINE) || s[j] == B_UNDERSCORE)
        invariant
            i <= j <= s@.len(),
            key_run(s@, i as int) == key_run(s@, j as int),
        decreases s@.len() - j,
    {
        j = j + 1;
    }
    j
}

/// Copies the bytes `s[a..b]`.
pub fn copy_range(s: &[u8], a: usize, b: usize) -> (r: Vec<u8>)
    requires
        a <= b <= s@.len(),
    ensures
        r@ == s@.subrange(a as int, b as int),
{
    let mut out: Vec<u8> = Vec::new();
    let mut k = a;
    while k < b
        invariant
            a <= k <= b <= s@.len(),
            out@ == s@.subrange(a as int, k as int),
        decreases b - k,
    {
        out.push(s[k]);
        proof {
            assert(out@ =~= s@.subrange(a as int, k + 1));
        }
        k = k + 1;
    }
    out
}

/// Reads block entries, as [`parse_yentries`] describes them.
pub fn read_yentries(s: &[u8], i: usize, ind: usize, fuel: usize) -> (r: Option<
    (Vec<(String, Value)>, usize),
>)
    requires
        i <= s@.len(),
        ind <= s@.len(),
    ensures
        match r {
            Some(p) => parse_yentries(s@, i as int, ind as nat, fuel as nat) == Some(
                (entries_view(p.0), p.1 as int),
            ) && p.1 <= s@.len(),
            None => parse_yentries(s@, i as int, ind as nat, fuel as nat) is None,
        },
    decreases fuel,
{
    if fuel == 0 {
        return None;
    }
    if i >= s.len() {
        let es: Vec<(String, Value)> = Vec::new();
        proof {
            assert(entries_view(es) =~= Seq::<(Seq<char>, ValueV)>::empty());
        }
        return Some((es, i));
    }
    let sp = skip_spaces(s, i);
    if sp - i != ind {
        let es: Vec<(String, Value)> = Vec::new();
        proof {
            assert(entries_view(es) =~= Seq::<(Seq<char>, ValueV)>::empty());
        }
        return Some((es, i));
    }
    let ks = i + ind;
    let ke = skip_key(s, ks);
    if ke == ks {
        let es: Vec<(String, Value)> = Vec::new();
        proof {
            assert(entries_view(es) =~= Seq::<(Seq<char>, ValueV)>::empty());
        }
        return Some((es, i));
    }
    let kb = copy_range(s, ks, ke);
    let key = match crate::text::bytes_to_string(kb) {
        Some(k) => k,
        None => {
            return None;
        },
    };
    proof {
        assert(decode_utf8(encode_utf8(key@)) == key@);
    }
    if ke >= s.len() {
        return None;
    }
    if s[ke] != B_COLON {
        return None;
    }
    let (v, e1): (Value, usize) = if ke + 1 < s.len() && s[ke + 1] == B_SPACE {
        match read_scalar(s, ke + 2) {
            Some((v, e)) => {
                if e < s.len() && s[e] == B_NEWLINE {
                    (v, e + 1)
                } else {
                    return None;
                }
            },
            None => {
                return None;
            },
        }
    } else if ke + 1 < s.len() && s[ke + 1] == B_NEWLINE {
        let ls = ke + 2;
        let sp2 = skip_spaces(s, ls);
        if sp2 - ls == ind + 2 && sp2 < s.len() && s[sp2] == B_MINUS {
            match read_yitems(s, ls, ind + 2, fuel - 1) {
                Some((items, e)) => {
                    if items.len() >= 1 {
                        (Value::List(items), e)
                    } else {
                        return None;
                    }
                },
                None => {
                    return None;
                },
            }
        } else {
            match read_yentries(s, ls, ind + 2, fuel - 1) {
                Some((sub, e)) => {
                    if sub.len() >= 1 {
                        (Value::Obj(sub), e)
                    } else {
                        return None;
                    }
                },
                None => {
                    return None;
                },
            }
        }
    } else {
        return None;
    };
    match read_yentries(s, e1, ind, fuel - 1) {
        Some((rest, e2)) => {
            let ghost restv = entries_view(rest);
            let ghost keyv = key@;
            let ghost vv = v.deep_view();
            let mut es: Vec<(String, Value)> = Vec::new();
            es.push((key, v));
            proof {
                assert(entries_view(es) =~= seq![(keyv, vv)] + restv.take(0));
            }
            let mut k: usize = 0;
            while k < rest.len()
                invariant
                    k <= rest@.len(),
                    restv == entries_view(rest),
                    restv.len() == rest@.len(),
                    es@.len() == k + 1,
                    entries_view(es) == seq![(keyv, vv)] + restv.take(k as int),
                decreases rest@.len() - k,
            {
                let pair = &rest[k];
                let ghost oldes = entries_view(es);
                let ghost oldraw = es@;
                es.push((pair.0.clone(), clone_value(&pair.1)));
                proof {
                    assert forall|m: int| 0 <= m < es@.len() implies entries_view(es)[m] == (
                    seq![(keyv, vv)] + restv.take(k + 1))[m] by {
                        if m < es@.len() - 1 {
                            assert(es@[m] == oldraw[m]);
                            assert(entries_view(es)[m] == oldes[m]);
                        } else {
                            let ki = k as int;
                            assert(restv.take(ki + 1)[ki] == restv[ki]);
                            assert(restv[ki] == (rest@[ki].0@, rest@[ki].1.deep_view()));
                        }
                    }
                    assert(entries_view(es) =~= seq![(keyv, vv)] + restv.take(k + 1));
                }
                k = k + 1;
            }
            proof {
                assert(restv.take(rest@.len() as int) =~= restv);
            }
            Some((es, e2))
        },
        None => None,
    }
}

/// Reads block items, as [`parse_yitems`] describes them.
pub fn read_yitems(s: &[u8], i: usize, ind: usize, fuel: usize) -> (r: Option<(Vec<Value>, usize)>)
    requires
        i <= s@.len(),
        ind <= s@.len(),
    ensures
        match r {
            Some(p) => parse_yitems(s@, i as int, ind as nat, fuel as nat) == Some(
                (items_view(p.0), p.1 as int),
            ) && p.1 <= s@.len(),
            None => parse_yitems(s@, i as int, ind as nat, fuel as nat) is None,
        },
    decreases fuel,
{
    if fuel == 0 {
        return None;
    }
    if i >= s.len() {
        let its: Vec<Value> = Vec::new();
        proof {
            assert(items_view(its) =~= Seq::<ValueV>::empty());
        }
        return Some((its, i));
    }
    let sp = skip_spaces(s, i);
    if sp - i != ind {
        let its: Vec<Value> = Vec::new();
        proof {
            assert(items_view(its) =~= Seq::<ValueV>::empty());
        }
        return Some((its, i));
    }
    if i + ind >= s.len() {
        let its: Vec<Value> = Vec::new();
        proof {
            assert(items_view(its) =~= Seq::<ValueV>::empty());
        }
        return Some((its, i));
    }
    if s[i + ind] != B_MINUS {
        let its: Vec<Value> = Vec::new();
        proof {
            assert(items_view(its) =~= Seq::<ValueV>::empty());
        }
        return Some((its, i));
    }
    if i + ind + 1 >= s.len() {
        return None;
    }
    if s[i + ind + 1] != B_NEWLINE {
        return None;
    }
    match read_yentries(s, i + ind + 2, ind + 2, fuel - 1) {
        Some((es, e)) => {
            if es.len() == 0 {
                return None;
            }
            match read_yitems(s, e, ind, fuel - 1) {
                Some((rest, e2)) => {
                    let ghost restv = items_view(rest);
                    let ghost vv = Value::Obj(es).deep_view();
                    let mut its: Vec<Value> = Vec::new();
                    its.push(Value::Obj(es));
                    proof {
                        assert(items_view(its) =~= seq![vv] + restv.take(0));
                    }
                    let mut k: usize = 0;
                    while k < rest.len()
                        invariant
                            k <= rest@.len(),
                            restv == items_view(rest),
                            restv.len() == rest@.len(),
                            its@.len() == k + 1,
                            items_view(its) == seq![vv] + restv.take(k as int),
                        decreases rest@.len() - k,
                    {
                        let ghost oldits = items_view(its);
                        let ghost oldraw = its@;
                        its.push(clone_value(&rest[k]));
                        proof {
                            assert forall|m: int| 0 <= m < its@.len() implies items_view(its)[m]
                                == (seq![vv] + restv.take(k + 1))[m] by {
                                if m < its@.len() - 1 {
                                    assert(its@[m] == oldraw[m]);
                                    assert(items_view(its)[m] == oldits[m]);
                                } else {
                                    let ki = k as int;
                                    assert(restv.take(ki + 1)[ki] == restv[ki]);
                                    assert(restv[ki] == rest@[ki].deep_view());
                                }
                            }
                            assert(items_view(its) =~= seq![vv] + restv.take(k + 1));
                        }
                        k = k + 1;
                    }
                    proof {
                        assert(restv.take(rest@.len() as int) =~= restv);
                    }
                    Some((its, e2))
                },
                None => None,
            }
        },
        None => None,
    }
}

/// Reads a whole block text as one tree, as [`yaml_doc`] describes it.
pub fn decode_yaml(s: &[u8]) -> (r: Result<Value, DecodeError>)
    requires
        s@.len() < usize::MAX,
    ensures
        match r {
            Ok(v) => yaml_doc(s@) == Some(v.deep_view()),
            Err(e) => yaml_doc(s@) is None && e == DecodeError::MalformedText,
        },
{
    match read_yentries(s, 0, 0, s.len() + 1) {
        Some((es, e)) => {
            if e == s.len() && es.len() >= 1 {
                Ok(Value::Obj(es))
            } else {
                Err(DecodeError::MalformedText)
            }
        },
        None => Err(DecodeError::MalformedText),
    }
}

/// What a YAML-like text denotes as a request.
pub open spec fn request_from_yaml(s: Seq<u8>) -> Result<RequestV, DecodeErrorV> {
    match yaml_doc(s) {
        Some(v) => decode_request_v(v, ""@),
        None => Err(DecodeErrorV::MalformedText),
    }
}

/// Reads a request from a YAML-like text, as [`request_from_yaml`]
/// describes it.
pub fn decode_request_yaml(s: &[u8]) -> (r: Result<Request, DecodeError>)
    requires
        s@.len() < usize::MAX,
    ensures
        res_v(r) == request_from_yaml(s@),
{
    match decode_yaml(s) {
        Ok(v) => decode_request(&v),
        Err(e) => Err(e),
    }
}

/// The YAML-like text of a request.
pub fn encode_request_yaml(r: &Request) -> (out: Vec<u8>)
    requires
        r.stream.user_id.wf(),
        crate::timestamp::ts_wf(r.debug.at),
    ensures
        out@ == yaml_bytes(crate::schema::encode_request_v(r.deep_view())),
{
    let v = crate::schema::encode_request(r);
    encode_yaml(&v)
}

} // verus!
