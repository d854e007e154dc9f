//! The generic value tree that the record schema and every format
//! adapter share: objects, lists and scalars.
use vstd::prelude::*;
use crate::num::Price;
use vstd::string::StringSliceAdditionalSpecFns;

verus! {

broadcast use vstd::std_specs::vec::group_vec_axioms, vstd::seq::group_seq_axioms;

/// One node of the generic value tree.
#[derive(Debug)]
pub enum Value {
    Bool(bool),
    Int(i64),
    Dec(Price),
    Text(Vec<u8>),
    List(Vec<Value>),
    Obj(Vec<(String, Value)>),
}

/// The mathematical model of a tree node.
pub enum ValueV {
    Bool(bool),
    Int(i64),
    Dec(Price),
    Text(Seq<u8>),
    List(Seq<ValueV>),
    Obj(Seq<(Seq<char>, ValueV)>),
}

/// The model of an object's entry list.
pub open spec fn entries_view(es: Vec<(String, Value)>) -> Seq<(Seq<char>, ValueV)>
    decreases es,
{
    Seq::new(
        es@.len() as nat,
        |i: int|
            if 0 <= i < es@.len() {
                (es@[i].0@, es@[i].1.deep_view())
            } else {
                (Seq::empty(), ValueV::Bool(false))
            },
    )
}

/// The model of a list's item vector.
pub open spec fn items_view(vs: Vec<Value>) -> Seq<ValueV>
    decreases vs,
{
    Seq::new(
        vs@.len() as nat,
        |i: int|
            if 0 <= i < vs@.len() {
                vs@[i].deep_view()
            } else {
                ValueV::Bool(false)
            },
    )
}

impl DeepView for Value {
    type V = ValueV;

    open spec fn deep_view(&self) -> ValueV
        decreases self,
    {
        match self {
            Value::Bool(b) => ValueV::Bool(*b),
            Value::Int(n) => ValueV::Int(*n),
            Value::Dec(p) => ValueV::Dec(*p),
            Value::Text(t) => ValueV::Text(t@),
            Value::List(vs) => ValueV::List(items_view(*vs)),
            Value::Obj(es) => ValueV::Obj(entries_view(*es)),
        }
    }
}

/// The first value under `key`, if any; decoding accepts exactly the
/// declared key, in any position.
pub open spec fn obj_get_v(es: Seq<(Seq<char>, ValueV)>, key: Seq<char>) -> Option<ValueV>
    decreases es.len(),
{
    if es.len() == 0 {
        None
    } else if es[0].0 == key {
        Some(es[0].1)
    } else {
        obj_get_v(es.drop_first(), key)
    }
}

/// The value under the key that first carries it.
pub proof fn lemma_obj_get_at(es: Seq<(Seq<char>, ValueV)>, j: int, key: Seq<char>)
    requires
        0 <= j < es.len(),
        es[j].0 == key,
        forall|i: int| 0 <= i < j ==> (#[trigger] es[i]).0 != key,
    ensures
        obj_get_v(es, key) == Some(es[j].1),
    decreases j,
{
    if j > 0 {
        lemma_obj_get_at(es.drop_first(), j - 1, key);
    }
}

/// A key that no entry carries finds nothing.
pub proof fn lemma_obj_get_absent(es: Seq<(Seq<char>, ValueV)>, key: Seq<char>)
    requires
        forall|i: int| 0 <= i < es.len() ==> (#[trigger] es[i]).0 != key,
    ensures
        obj_get_v(es, key) is None,
    decreases es.len(),
{
    if es.len() > 0 {
        lemma_obj_get_absent(es.drop_first(), key);
    }
}

/// Whether two texts are equal, decided byte by byte.
pub fn str_eq(a: &str, b: &str) -> (r: bool)
    ensures
        r == (a@ == b@),
{
    broadcast use vstd::utf8::encode_utf8_decode_utf8;

    let ab = a.as_bytes();
    let bb = b.as_bytes();
    if ab.len() != bb.len() {
        proof {
            if a@ == b@ {
                assert(ab@ == bb@);
            }
        }
        return false;
    }
    let mut i: usize = 0;
    while i < ab.len()
        invariant
            ab@ == a.spec_bytes(),
            bb@ == b.spec_bytes(),
            ab@.len() == bb@.len(),
            i <= ab@.len(),
            forall|k: int| 0 <= k < i ==> ab@[k] == bb@[k],
        decreases ab@.len() - i,
    {
        if ab[i] != bb[i] {
            proof {
                if a@ == b@ {
                    assert(ab@ == bb@);
                }
            }
            return false;
        }
        i = i + 1;
    }
    proof {
        assert(ab@ =~= bb@);
        assert(vstd::utf8::decode_utf8(vstd::utf8::encode_utf8(a@)) == a@);
        assert(vstd::utf8::decode_utf8(vstd::utf8::encode_utf8(b@)) == b@);
    }
    true
}

/// Whether two byte strings are equal.
pub fn bytes_eq(a: &[u8], b: &[u8]) -> (r: bool)
    ensures
        r == (a@ == b@),
{
    if a.len() != b.len() {
        return false;
    }
    let mut i: usize = 0;
    while i < a.len()
        invariant
            a@.len() == b@.len(),
            i <= a@.len(),
            forall|k: int| 0 <= k < i ==> a@[k] == b@[k],
        decreases a@.len() - i,
    {
        if a[i] != b[i] {
            return false;
        }
        i = i + 1;
    }
    proof {
        assert(a@ =~= b@);
    }
    true
}

/// The first value under `key`, if any.
pub fn obj_get<'a>(es: &'a Vec<(String, Value)>, key: &str) -> (r: Option<&'a Value>)
    ensures
        match r {
            Some(v) => obj_get_v(entries_view(*es), key@) == Some(v.deep_view()),
            None => obj_get_v(entries_view(*es), key@) is None,
        },
{
    let ghost full = entries_view(*es);
    proof {
        assert(full.skip(0) =~= full);
    }
    let mut i: usize = 0;
    while i < es.len()
        invariant
            i <= es@.len(),
            full == entries_view(*es),
            full.len() == es@.len(),
            obj_get_v(full, key@) == obj_get_v(full.skip(i as int), key@),
        decreases es@.len() - i,
    {
        proof {
            assert(full.skip(i as int)[0] == full[i as int]);
            assert(full.skip(i as int).drop_first() =~= full.skip(i + 1));
        }
        if str_eq(es[i].0.as_str(), key) {
            return Some(&es[i].1);
        }
        i = i + 1;
    }
    proof {
        assert(full.skip(es@.len() as int) =~= Seq::<(Seq<char>, ValueV)>::empty());
    }
    None
}

} // verus!
