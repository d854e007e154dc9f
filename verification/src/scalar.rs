//! Scalar tokens shared by the line-oriented formats: booleans,
//! numerals, quoted texts, and the inline empty containers.
use vstd::prelude::*;
use crate::bytes::{B_QUOTE, B_LBRACE, B_RBRACE, B_LBRACKET, B_RBRACKET, B_MINUS, B_LOWER_T,
    B_LOWER_R, B_LOWER_U, B_LOWER_E, B_LOWER_F, B_LOWER_A, B_LOWER_L, B_LOWER_S};
use crate::num::{is_digit, int_bytes, price_bytes, push_i64_digits, push_price};
use crate::text::{quoted_bytes, parse_quoted, push_quoted, read_quoted};
use crate::value::{Value, ValueV, entries_view, items_view};
use crate::json::{true_bytes, false_bytes, parse_number, read_number};

verus! {

broadcast use vstd::std_specs::vec::group_vec_axioms, vstd::seq::group_seq_axioms;

/// Whether a tree node prints inline: scalars always, containers only
/// when empty.
pub open spec fn is_inline(v: ValueV) -> bool {
    match v {
        ValueV::Bool(_) => true,
        ValueV::Int(_) => true,
        ValueV::Dec(_) => true,
        ValueV::Text(_) => true,
        ValueV::List(items) => items.len() == 0,
        ValueV::Obj(es) => es.len() == 0,
    }
}

/// The inline rendering of such a node.
pub open spec fn scalar_bytes(v: ValueV) -> Seq<u8> {
    match v {
        ValueV::Bool(b) => if b {
            true_bytes()
        } else {
            false_bytes()
        },
        ValueV::Int(n) => int_bytes(n as int),
        ValueV::Dec(p) => price_bytes(p),
        ValueV::Text(t) => quoted_bytes(t),
        ValueV::List(_) => seq![B_LBRACKET, B_RBRACKET],
        ValueV::Obj(_) => seq![B_LBRACE, B_RBRACE],
    }
}

/// What an inline token starting at `i` denotes.
pub open spec fn parse_scalar(s: Seq<u8>, i: int) -> Option<(ValueV, int)> {
    if i < 0 || i >= s.len() {
        None
    } else if s[i] == B_QUOTE {
        match parse_quoted(s, i + 1) {
            Some((t, e)) => Some((ValueV::Text(t), e)),
            None => None,
        }
    } else if s[i] == B_LBRACKET {
        if i + 1 < s.len() && s[i + 1] == B_RBRACKET {
            Some((ValueV::List(seq![]), i + 2))
        } else {
            None
        }
    } else if s[i] == B_LBRACE {
        if i + 1 < s.len() && s[i + 1] == B_RBRACE {
            Some((ValueV::Obj(seq![]), i + 2))
        } else {
            None
        }
    } else if s[i] == B_LOWER_T {
        if i + 4 <= s.len() && s.subrange(i, i + 4) == true_bytes() {
            Some((ValueV::Bool(true), i + 4))
        } else {
            None
        }
    } else if s[i] == B_LOWER_F {
        if i + 5 <= s.len() && s.subrange(i, i + 5) == false_bytes() {
            Some((ValueV::Bool(false), i + 5))
        } else {
            None
        }
    } else if s[i] == B_MINUS || is_digit(s[i]) {
        parse_number(s, i)
    } else {
        None
    }
}

/// Appends the inline rendering of an inline node.
pub fn push_scalar(v: &Value, out: &mut Vec<u8>)
    requires
        is_inline(v.deep_view()),
    ensures
        final(out)@ == old(out)@ + scalar_bytes(v.deep_view()),
{
    match v {
        Value::Bool(b) => {
            if *b {
                out.push(B_LOWER_T);
                out.push(B_LOWER_R);
                out.push(B_LOWER_U);
                out.push(B_LOWER_E);
            } else {
                out.push(B_LOWER_F);
                out.push(B_LOWER_A);
                out.push(B_LOWER_L);
                out.push(B_LOWER_S);
                out.push(B_LOWER_E);
            }
            assert(out@ =~= old(out)@ + scalar_bytes(v.deep_view()));
        },
        Value::Int(n) => {
            push_i64_digits(*n, out);
        },
        Value::Dec(p) => {
            push_price(*p, out);
        },
        Value::Text(t) => {
            push_quoted(t.as_slice(), out);
        },
        Value::List(_) => {
            out.push(B_LBRACKET);
            out.push(B_RBRACKET);
            assert(out@ =~= old(out)@ + scalar_bytes(v.deep_view()));
        },
        Value::Obj(_) => {
            out.push(B_LBRACE);
            out.push(B_RBRACE);
            assert(out@ =~= old(out)@ + scalar_bytes(v.deep_view()));
        },
    }
}

/// Reads the inline token at `i`, as [`parse_scalar`] describes it.
pub fn read_scalar(s: &[u8], i: usize) -> (r: Option<(Value, usize)>)
    requires
        i <= s@.len(),
    ensures
        match r {
            Some(p) => parse_scalar(s@, i as int) == Some((p.0.deep_view(), p.1 as int)) && p.1
                <= s@.len(),
            None => parse_scalar(s@, i as int) is None,
        },
{
    if i >= s.len() {
        return None;
    }
    let b = s[i];
    if b == B_QUOTE {
        match read_quoted(s, i + 1) {
            Some((t, e)) => Some((Value::Text(t), e)),
            None => None,
        }
    } else if b == B_LBRACKET {
        if i + 1 < s.len() && s[i + 1] == B_RBRACKET {
            let its: Vec<Value> = Vec::new();
            proof {
                assert(items_view(its) =~= Seq::<ValueV>::empty());
            }
            Some((Value::List(its), i + 2))
        } else {
            None
        }
    } else if b == B_LBRACE {
        if i + 1 < s.len() && s[i + 1] == B_RBRACE {
            let es: Vec<(String, Value)> = Vec::new();
            proof {
                assert(entries_view(es) =~= Seq::<(Seq<char>, ValueV)>::empty());
            }
            Some((Value::Obj(es), i + 2))
        } else {
            None
        }
    } else if b == B_LOWER_T {
        if s.len() - i >= 4 && s[i + 1] == B_LOWER_R && s[i + 2] == B_LOWER_U && s[i + 3]
            == B_LOWER_E {
            proof {
                assert(s@.subrange(i as int, i + 4) =~= true_bytes());
            }
            Some((Value::Bool(true), i + 4))
        } else {
            proof {
                if i + 4 <= s@.len() && s@.subrange(i as int, i + 4) == true_bytes() {
                    assert(s@[i + 1] == true_bytes()[1] && s@[i + 2] == true_bytes()[2] && s@[i + 3]
                        == true_bytes()[3]);
                }
            }
            None
        }
    } else if b == B_LOWER_F {
        if s.len() - i >= 5 && s[i + 1] == B_LOWER_A && s[i + 2] == B_LOWER_L && s[i + 3]
            == B_LOWER_S && s[i + 4] == B_LOWER_E {
            proof {
                assert(s@.subrange(i as int, i + 5) =~= false_bytes());
            }
            Some((Value::Bool(false), i + 5))
        } else {
            proof {
                if i + 5 <= s@.len() && s@.subrange(i as int, i + 5) == false_bytes() {
                    assert(s@[i + 1] == false_bytes()[1] && s@[i + 2] == false_bytes()[2] && s@[i
                        + 3] == false_bytes()[3] && s@[i + 4] == false_bytes()[4]);
                }
            }
            None
        }
    } else if b == B_MINUS || (48 <= b && b <= 57) {
        read_number(s, i)
    } else {
        None
    }
}

} // verus!
