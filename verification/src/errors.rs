//! The decode error taxonomy; every failure is typed and
//! field-qualified, nothing is defaulted.
use vstd::prelude::*;

verus! {

/// Why a decode failed.
#[derive(Debug, Clone, PartialEq, Eq)]
pub enum DecodeError {
    /// The input is not valid syntax for the selected format.
    MalformedText,
    /// A required field is missing, has the wrong shape, or an
    /// enumerated tag is unrecognized; carries the field path.
    SchemaMismatch(String),
    /// A duration field does not fit the duration grammar; carries the
    /// field path and the offending text.
    InvalidDuration(String, Vec<u8>),
    /// A timestamp field does not fit the timestamp form; carries the
    /// field path and the offending text.
    InvalidTimestamp(String, Vec<u8>),
}

/// The mathematical model of a decode error.
pub enum DecodeErrorV {
    MalformedText,
    SchemaMismatch(Seq<char>),
    InvalidDuration(Seq<char>, Seq<u8>),
    InvalidTimestamp(Seq<char>, Seq<u8>),
}

impl DeepView for DecodeError {
    type V = DecodeErrorV;

    open spec fn deep_view(&self) -> DecodeErrorV {
        match self {
            DecodeError::MalformedText => DecodeErrorV::MalformedText,
            DecodeError::SchemaMismatch(p) => DecodeErrorV::SchemaMismatch(p@),
            DecodeError::InvalidDuration(p, t) => DecodeErrorV::InvalidDuration(p@, t@),
            DecodeError::InvalidTimestamp(p, t) => DecodeErrorV::InvalidTimestamp(p@, t@),
        }
    }
}

/// A field path extended by one segment.
pub open spec fn path_join(p: Seq<char>, n: Seq<char>) -> Seq<char> {
    if p.len() == 0 {
        n
    } else {
        p + seq!['.'] + n
    }
}

/// Builds the path of a field under `p`.
pub fn join_path(p: &str, n: &str) -> (r: String)
    ensures
        r@ == path_join(p@, n@),
{
    if p.is_empty() {
        n.to_owned()
    } else {
        let mut s = p.to_owned();
        s.append(".");
        s.append(n);
        proof {
            reveal_strlit(".");
            assert("."@ =~= seq!['.']);
            assert(s@ =~= path_join(p@, n@));
        }
        s
    }
}

/// The result of a decode, seen through the models of both sides.
pub open spec fn res_v<A: DeepView, B: DeepView>(r: Result<A, B>) -> Result<A::V, B::V> {
    match r {
        Ok(a) => Ok(a.deep_view()),
        Err(e) => Err(e.deep_view()),
    }
}

} // verus!
