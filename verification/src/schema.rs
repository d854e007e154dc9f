//! The record schema: field-by-field mapping between typed records and
//! the generic value tree, with the declared renamings, codecs and
//! optionality, and the proofs that decoding undoes encoding.
use vstd::prelude::*;
use vstd::string::{StrSliceExecFns, StringExecFns, StringSliceAdditionalSpecFns};
use vstd::utf8::{valid_utf8, decode_utf8, encode_utf8};
use crate::value::{
    Value, ValueV, entries_view, items_view, obj_get_v, obj_get, lemma_obj_get_at,
    lemma_obj_get_absent, bytes_eq,
};
use crate::errors::{DecodeError, DecodeErrorV, path_join, join_path, res_v};
use crate::records::{
    PublicTariff, PublicTariffV, PrivateTariff, PrivateTariffV, Gift, GiftV, DebugInfo, Stream,
    StreamV, stream_v_wf, Request, RequestV, request_v_wf, RequestType, Event, EventV, gifts_view,
};
use crate::uid::{Uuid, uuid_bytes, uuid_of_bytes, encode_uuid, decode_uuid, lemma_uuid_round_trip};
use crate::shard::{ShardUrl, url_normal};
use crate::dateprefix::{date_wrap, date_unwrap, push_wrapped_date, unwrap_date,
    lemma_date_round_trip};
use crate::num::Price;
use crate::duration::{Duration, duration_bytes, duration_of_bytes, encode_duration,
    decode_duration, lemma_duration_round_trip};
use crate::timestamp::{Timestamp, ts_bytes, ts_of_bytes, ts_wf, encode_timestamp,
    decode_timestamp, lemma_timestamp_round_trip};

verus! {

broadcast use vstd::std_specs::vec::group_vec_axioms, vstd::seq::group_seq_axioms,
    vstd::string::group_string_axioms, vstd::utf8::encode_utf8_valid_utf8,
    vstd::utf8::encode_utf8_decode_utf8;

/// The integer under `key`, required to fit the field's width.
pub open spec fn get_i32_v(es: Seq<(Seq<char>, ValueV)>, key: Seq<char>, path: Seq<char>) -> Result<
    i32,
    DecodeErrorV,
> {
    match obj_get_v(es, key) {
        Some(ValueV::Int(n)) => if i32::MIN <= n <= i32::MAX {
            Ok(n as i32)
        } else {
            Err(DecodeErrorV::SchemaMismatch(path_join(path, key)))
        },
        _ => Err(DecodeErrorV::SchemaMismatch(path_join(path, key))),
    }
}

/// The decimal amount under `key`.
pub open spec fn get_price_v(es: Seq<(Seq<char>, ValueV)>, key: Seq<char>, path: Seq<char>) -> Result<
    Price,
    DecodeErrorV,
> {
    match obj_get_v(es, key) {
        Some(ValueV::Dec(p)) => Ok(p),
        _ => Err(DecodeErrorV::SchemaMismatch(path_join(path, key))),
    }
}

/// The boolean under `key`.
pub open spec fn get_bool_v(es: Seq<(Seq<char>, ValueV)>, key: Seq<char>, path: Seq<char>) -> Result<
    bool,
    DecodeErrorV,
> {
    match obj_get_v(es, key) {
        Some(ValueV::Bool(b)) => Ok(b),
        _ => Err(DecodeErrorV::SchemaMismatch(path_join(path, key))),
    }
}

/// The duration text under `key`, read through the duration grammar.
pub open spec fn get_duration_v(
    es: Seq<(Seq<char>, ValueV)>,
    key: Seq<char>,
    path: Seq<char>,
) -> Result<Duration, DecodeErrorV> {
    match obj_get_v(es, key) {
        Some(ValueV::Text(b)) => match duration_of_bytes(b) {
            Some(d) => Ok(d),
            None => Err(DecodeErrorV::InvalidDuration(path_join(path, key), b)),
        },
        _ => Err(DecodeErrorV::SchemaMismatch(path_join(path, key))),
    }
}

/// The timestamp text under `key`, read through the timestamp form.
pub open spec fn get_timestamp_v(
    es: Seq<(Seq<char>, ValueV)>,
    key: Seq<char>,
    path: Seq<char>,
) -> Result<Timestamp, DecodeErrorV> {
    match obj_get_v(es, key) {
        Some(ValueV::Text(b)) => match ts_of_bytes(b) {
            Some(t) => Ok(t),
            None => Err(DecodeErrorV::InvalidTimestamp(path_join(path, key), b)),
        },
        _ => Err(DecodeErrorV::SchemaMismatch(path_join(path, key))),
    }
}

/// The text under `key`, required to be valid UTF-8.
pub open spec fn get_string_v(
    es: Seq<(Seq<char>, ValueV)>,
    key: Seq<char>,
    path: Seq<char>,
) -> Result<Seq<char>, DecodeErrorV> {
    match obj_get_v(es, key) {
        Some(ValueV::Text(b)) => if valid_utf8(b) {
            Ok(decode_utf8(b))
        } else {
            Err(DecodeErrorV::SchemaMismatch(path_join(path, key)))
        },
        _ => Err(DecodeErrorV::SchemaMismatch(path_join(path, key))),
    }
}

/// Reads the integer under `key`, as [`get_i32_v`] describes it.
pub fn get_i32(es: &Vec<(String, Value)>, key: &str, path: &str) -> (r: Result<i32, DecodeError>)
    ensures
        res_v(r) == get_i32_v(entries_view(*es), key@, path@),
{
    match obj_get(es, key) {
        Some(v) => match v {
            Value::Int(n) => {
                if i32::MIN as i64 <= *n && *n <= i32::MAX as i64 {
                    Ok(*n as i32)
                } else {
                    Err(DecodeError::SchemaMismatch(join_path(path, key)))
                }
            },
            _ => Err(DecodeError::SchemaMismatch(join_path(path, key))),
        },
        None => Err(DecodeError::SchemaMismatch(join_path(path, key))),
    }
}

/// Reads the decimal amount under `key`, as [`get_price_v`] describes
/// it.
pub fn get_price(es: &Vec<(String, Value)>, key: &str, path: &str) -> (r: Result<
    Price,
    DecodeError,
>)
    ensures
        res_v(r) == get_price_v(entries_view(*es), key@, path@),
{
    match obj_get(es, key) {
        Some(v) => match v {
            Value::Dec(p) => Ok(*p),
            _ => Err(DecodeError::SchemaMismatch(join_path(path, key))),
        },
        None => Err(DecodeError::SchemaMismatch(join_path(path, key))),
    }
}

/// Reads the boolean under `key`, as [`get_bool_v`] describes it.
pub fn get_bool(es: &Vec<(String, Value)>, key: &str, path: &str) -> (r: Result<bool, DecodeError>)
    ensures
        res_v(r) == get_bool_v(entries_view(*es), key@, path@),
{
    match obj_get(es, key) {
        Some(v) => match v {
            Value::Bool(b) => Ok(*b),
            _ => Err(DecodeError::SchemaMismatch(join_path(path, key))),
        },
        None => Err(DecodeError::SchemaMismatch(join_path(path, key))),
    }
}

/// Reads the duration under `key`, as [`get_duration_v`] describes it.
pub fn get_duration(es: &Vec<(String, Value)>, key: &str, path: &str) -> (r: Result<
    Duration,
    DecodeError,
>)
    ensures
        res_v(r) == get_duration_v(entries_view(*es), key@, path@),
{
    match obj_get(es, key) {
        Some(v) => match v {
            Value::Text(b) => match decode_duration(b.as_slice()) {
                Some(d) => Ok(d),
                None => Err(
                    DecodeError::InvalidDuration(
                        join_path(path, key),
                        vstd::slice::slice_to_vec(b.as_slice()),
                    ),
                ),
            },
            _ => Err(DecodeError::SchemaMismatch(join_path(path, key))),
        },
        None => Err(DecodeError::SchemaMismatch(join_path(path, key))),
    }
}

/// Reads the timestamp under `key`, as [`get_timestamp_v`] describes
/// it.
pub fn get_timestamp(es: &Vec<(String, Value)>, key: &str, path: &str) -> (r: Result<
    Timestamp,
    DecodeError,
>)
    ensures
        res_v(r) == get_timestamp_v(entries_view(*es), key@, path@),
{
    match obj_get(es, key) {
        Some(v) => match v {
            Value::Text(b) => match decode_timestamp(b.as_slice()) {
                Some(t) => Ok(t),
                None => Err(
                    DecodeError::InvalidTimestamp(
                        join_path(path, key),
                        vstd::slice::slice_to_vec(b.as_slice()),
                    ),
                ),
            },
            _ => Err(DecodeError::SchemaMismatch(join_path(path, key))),
        },
        None => Err(DecodeError::SchemaMismatch(join_path(path, key))),
    }
}

/// Reads the text under `key`, as [`get_string_v`] describes it.
pub fn get_string(es: &Vec<(String, Value)>, key: &str, path: &str) -> (r: Result<
    String,
    DecodeError,
>)
    ensures
        res_v(r) == get_string_v(entries_view(*es), key@, path@),
{
    match obj_get(es, key) {
        Some(v) => match v {
            Value::Text(b) => match crate::text::bytes_to_string(
                vstd::slice::slice_to_vec(b.as_slice()),
            ) {
                Some(s) => {
                    proof {
                        assert(decode_utf8(encode_utf8(s@)) == s@);
                    }
                    Ok(s)
                },
                None => Err(DecodeError::SchemaMismatch(join_path(path, key))),
            },
            _ => Err(DecodeError::SchemaMismatch(join_path(path, key))),
        },
        None => Err(DecodeError::SchemaMismatch(join_path(path, key))),
    }
}

/// The wire form of a tariff available to every viewer.
pub open spec fn encode_public_tariff_v(t: PublicTariffV) -> ValueV {
    ValueV::Obj(
        seq![
            ("id"@, ValueV::Int(t.identifier as i64)),
            ("price"@, ValueV::Dec(t.price)),
            ("duration"@, ValueV::Text(duration_bytes(t.duration))),
            ("description"@, ValueV::Text(encode_utf8(t.description))),
        ],
    )
}

/// What a tree denotes as a public tariff.
pub open spec fn decode_public_tariff_v(v: ValueV, path: Seq<char>) -> Result<
    PublicTariffV,
    DecodeErrorV,
> {
    match v {
        ValueV::Obj(es) => match get_i32_v(es, "id"@, path) {
            Ok(identifier) => match get_price_v(es, "price"@, path) {
                Ok(price) => match get_duration_v(es, "duration"@, path) {
                    Ok(duration) => match get_string_v(es, "description"@, path) {
                        Ok(description) => Ok(
                            PublicTariffV { identifier, price, duration, description },
                        ),
                        Err(e) => Err(e),
                    },
                    Err(e) => Err(e),
                },
                Err(e) => Err(e),
            },
            Err(e) => Err(e),
        },
        _ => Err(DecodeErrorV::SchemaMismatch(path)),
    }
}

/// Builds the wire form of a public tariff.
pub fn encode_public_tariff(t: &PublicTariff) -> (r: Value)
    ensures
        r.deep_view() == encode_public_tariff_v(t.deep_view()),
{
    let mut es: Vec<(String, Value)> = Vec::new();
    es.push((String::from_str("id"), Value::Int(t.identifier as i64)));
    es.push((String::from_str("price"), Value::Dec(t.price)));
    let mut db: Vec<u8> = Vec::new();
    encode_duration(t.duration, &mut db);
    es.push((String::from_str("duration"), Value::Text(db)));
    es.push((String::from_str("description"), Value::Text(t.description.as_str().as_bytes_vec())));
    let r = Value::Obj(es);
    proof {
        assert(entries_view(es) =~= match encode_public_tariff_v(t.deep_view()) {
            ValueV::Obj(x) => x,
            _ => Seq::empty(),
        });
    }
    r
}

/// Reads a public tariff, as [`decode_public_tariff_v`] describes it.
pub fn decode_public_tariff(v: &Value, path: &str) -> (r: Result<PublicTariff, DecodeError>)
    ensures
        res_v(r) == decode_public_tariff_v(v.deep_view(), path@),
{
    match v {
        Value::Obj(es) => {
            let identifier = match get_i32(es, "id", path) {
                Ok(x) => x,
                Err(e) => {
                    return Err(e);
                },
            };
            let price = match get_price(es, "price", path) {
                Ok(x) => x,
                Err(e) => {
                    return Err(e);
                },
            };
            let duration = match get_duration(es, "duration", path) {
                Ok(x) => x,
                Err(e) => {
                    return Err(e);
                },
            };
            let description = match get_string(es, "description", path) {
                Ok(x) => x,
                Err(e) => {
                    return Err(e);
                },
            };
            Ok(PublicTariff { identifier, price, duration, description })
        },
        _ => Err(DecodeError::SchemaMismatch(path.to_owned())),
    }
}

/// The keys of a public tariff are pairwise distinct.
proof fn lemma_public_tariff_keys()
    ensures
        "id"@ != "price"@ && "id"@ != "duration"@ && "id"@ != "description"@,
        "price"@ != "duration"@ && "price"@ != "description"@,
        "duration"@ != "description"@,
{
    reveal_strlit("id");
    reveal_strlit("price");
    reveal_strlit("duration");
    reveal_strlit("description");
    assert("id"@.len() == 2);
    assert("price"@.len() == 5);
    assert("duration"@.len() == 8);
    assert("description"@.len() == 11);
}

/// Decoding an encoded public tariff yields it back.
pub proof fn lemma_public_tariff_round_trip(t: PublicTariffV, path: Seq<char>)
    ensures
        decode_public_tariff_v(encode_public_tariff_v(t), path) == Ok::<PublicTariffV, DecodeErrorV>(t),
{
    lemma_public_tariff_keys();
    let es = match encode_public_tariff_v(t) {
        ValueV::Obj(x) => x,
        _ => Seq::empty(),
    };
    assert(es.len() == 4);
    assert(es[0] == ("id"@, ValueV::Int(t.identifier as i64)));
    assert(es[1] == ("price"@, ValueV::Dec(t.price)));
    assert(es[2] == ("duration"@, ValueV::Text(duration_bytes(t.duration))));
    assert(es[3] == ("description"@, ValueV::Text(encode_utf8(t.description))));
    lemma_obj_get_at(es, 0, "id"@);
    lemma_obj_get_at(es, 1, "price"@);
    lemma_obj_get_at(es, 2, "duration"@);
    lemma_obj_get_at(es, 3, "description"@);
    lemma_duration_round_trip(t.duration);
    assert(decode_utf8(encode_utf8(t.description)) == t.description);
}


/// The wire form of a private-stream tariff; its price travels as
/// `client_price`.
pub open spec fn encode_private_tariff_v(t: PrivateTariffV) -> ValueV {
    ValueV::Obj(
        seq![
            ("client_price"@, ValueV::Dec(t.price)),
            ("duration"@, ValueV::Text(duration_bytes(t.duration))),
            ("description"@, ValueV::Text(encode_utf8(t.description))),
        ],
    )
}

/// What a tree denotes as a private tariff.
pub open spec fn decode_private_tariff_v(v: ValueV, path: Seq<char>) -> Result<
    PrivateTariffV,
    DecodeErrorV,
> {
    match v {
        ValueV::Obj(es) => match get_price_v(es, "client_price"@, path) {
            Ok(price) => match get_duration_v(es, "duration"@, path) {
                Ok(duration) => match get_string_v(es, "description"@, path) {
                    Ok(description) => Ok(PrivateTariffV { price, duration, description }),
                    Err(e) => Err(e),
                },
                Err(e) => Err(e),
            },
            Err(e) => Err(e),
        },
        _ => Err(DecodeErrorV::SchemaMismatch(path)),
    }
}

/// Builds the wire form of a private tariff.
pub fn encode_private_tariff(t: &PrivateTariff) -> (r: Value)
    ensures
        r.deep_view() == encode_private_tariff_v(t.deep_view()),
{
    let mut es: Vec<(String, Value)> = Vec::new();
    es.push((String::from_str("client_price"), Value::Dec(t.price)));
    let mut db: Vec<u8> = Vec::new();
    encode_duration(t.duration, &mut db);
    es.push((String::from_str("duration"), Value::Text(db)));
    es.push((String::from_str("description"), Value::Text(t.description.as_str().as_bytes_vec())));
    let r = Value::Obj(es);
    proof {
        assert(entries_view(es) =~= match encode_private_tariff_v(t.deep_view()) {
            ValueV::Obj(x) => x,
            _ => Seq::empty(),
        });
    }
    r
}

/// Reads a private tariff, as [`decode_private_tariff_v`] describes it.
pub fn decode_private_tariff(v: &Value, path: &str) -> (r: Result<PrivateTariff, DecodeError>)
    ensures
        res_v(r) == decode_private_tariff_v(v.deep_view(), path@),
{
    match v {
        Value::Obj(es) => {
            let price = match get_price(es, "client_price", path) {
                Ok(x) => x,
                Err(e) => {
                    return Err(e);
                },
            };
            let duration = match get_duration(es, "duration", path) {
                Ok(x) => x,
                Err(e) => {
                    return Err(e);
                },
            };
            let description = match get_string(es, "description", path) {
                Ok(x) => x,
                Err(e) => {
                    return Err(e);
                },
            };
            Ok(PrivateTariff { price, duration, description })
        },
        _ => Err(DecodeError::SchemaMismatch(path.to_owned())),
    }
}

/// The keys of a private tariff are pairwise distinct.
proof fn lemma_private_tariff_keys()
    ensures
        "client_price"@ != "duration"@,
        "client_price"@ != "description"@,
        "duration"@ != "description"@,
{
    reveal_strlit("client_price");
    reveal_strlit("duration");
    reveal_strlit("description");
    assert("client_price"@.len() == 12);
    assert("duration"@.len() == 8);
    assert("description"@.len() == 11);
}

/// Decoding an encoded private tariff yields it back.
pub proof fn lemma_private_tariff_round_trip(t: PrivateTariffV, path: Seq<char>)
    ensures
        decode_private_tariff_v(encode_private_tariff_v(t), path) == Ok::<
            PrivateTariffV,
            DecodeErrorV,
        >(t),
{
    lemma_private_tariff_keys();
    let es = match encode_private_tariff_v(t) {
        ValueV::Obj(x) => x,
        _ => Seq::empty(),
    };
    assert(es[0] == ("client_price"@, ValueV::Dec(t.price)));
    assert(es[1] == ("duration"@, ValueV::Text(duration_bytes(t.duration))));
    assert(es[2] == ("description"@, ValueV::Text(encode_utf8(t.description))));
    lemma_obj_get_at(es, 0, "client_price"@);
    lemma_obj_get_at(es, 1, "duration"@);
    lemma_obj_get_at(es, 2, "description"@);
    lemma_duration_round_trip(t.duration);
    assert(decode_utf8(encode_utf8(t.description)) == t.description);
}

/// The wire form of a gift.
pub open spec fn encode_gift_v(g: GiftV) -> ValueV {
    ValueV::Obj(
        seq![
            ("id"@, ValueV::Int(g.identifier as i64)),
            ("price"@, ValueV::Dec(g.price)),
            ("description"@, ValueV::Text(encode_utf8(g.description))),
        ],
    )
}

/// What a tree denotes as a gift.
pub open spec fn decode_gift_v(v: ValueV, path: Seq<char>) -> Result<GiftV, DecodeErrorV> {
    match v {
        ValueV::Obj(es) => match get_i32_v(es, "id"@, path) {
            Ok(identifier) => match get_price_v(es, "price"@, path) {
                Ok(price) => match get_string_v(es, "description"@, path) {
                    Ok(description) => Ok(GiftV { identifier, price, description }),
                    Err(e) => Err(e),
                },
                Err(e) => Err(e),
            },
            Err(e) => Err(e),
        },
        _ => Err(DecodeErrorV::SchemaMismatch(path)),
    }
}

/// Builds the wire form of a gift.
pub fn encode_gift(g: &Gift) -> (r: Value)
    ensures
        r.deep_view() == encode_gift_v(g.deep_view()),
{
    let mut es: Vec<(String, Value)> = Vec::new();
    es.push((String::from_str("id"), Value::Int(g.identifier as i64)));
    es.push((String::from_str("price"), Value::Dec(g.price)));
    es.push((String::from_str("description"), Value::Text(g.description.as_str().as_bytes_vec())));
    let r = Value::Obj(es);
    proof {
        assert(entries_view(es) =~= match encode_gift_v(g.deep_view()) {
            ValueV::Obj(x) => x,
            _ => Seq::empty(),
        });
    }
    r
}

/// Reads a gift, as [`decode_gift_v`] describes it.
pub fn decode_gift(v: &Value, path: &str) -> (r: Result<Gift, DecodeError>)
    ensures
        res_v(r) == decode_gift_v(v.deep_view(), path@),
{
    match v {
        Value::Obj(es) => {
            let identifier = match get_i32(es, "id", path) {
                Ok(x) => x,
                Err(e) => {
                    return Err(e);
                },
            };
            let price = match get_price(es, "price", path) {
                Ok(x) => x,
                Err(e) => {
                    return Err(e);
                },
            };
            let description = match get_string(es, "description", path) {
                Ok(x) => x,
                Err(e) => {
                    return Err(e);
                },
            };
            Ok(Gift { identifier, price, description })
        },
        _ => Err(DecodeError::SchemaMismatch(path.to_owned())),
    }
}

/// Decoding an encoded gift yields it back.
pub proof fn lemma_gift_round_trip(g: GiftV, path: Seq<char>)
    ensures
        decode_gift_v(encode_gift_v(g), path) == Ok::<GiftV, DecodeErrorV>(g),
{
    lemma_public_tariff_keys();
    let es = match encode_gift_v(g) {
        ValueV::Obj(x) => x,
        _ => Seq::empty(),
    };
    assert(es[0] == ("id"@, ValueV::Int(g.identifier as i64)));
    assert(es[1] == ("price"@, ValueV::Dec(g.price)));
    assert(es[2] == ("description"@, ValueV::Text(encode_utf8(g.description))));
    lemma_obj_get_at(es, 0, "id"@);
    lemma_obj_get_at(es, 1, "price"@);
    lemma_obj_get_at(es, 2, "description"@);
    assert(decode_utf8(encode_utf8(g.description)) == g.description);
}

/// The wire form of the debug metadata.
pub open spec fn encode_debug_v(d: DebugInfo) -> ValueV {
    ValueV::Obj(
        seq![
            ("duration"@, ValueV::Text(duration_bytes(d.duration))),
            ("at"@, ValueV::Text(ts_bytes(d.at))),
        ],
    )
}

/// What a tree denotes as debug metadata.
pub open spec fn decode_debug_v(v: ValueV, path: Seq<char>) -> Result<DebugInfo, DecodeErrorV> {
    match v {
        ValueV::Obj(es) => match get_duration_v(es, "duration"@, path) {
            Ok(duration) => match get_timestamp_v(es, "at"@, path) {
                Ok(at) => Ok(DebugInfo { duration, at }),
                Err(e) => Err(e),
            },
            Err(e) => Err(e),
        },
        _ => Err(DecodeErrorV::SchemaMismatch(path)),
    }
}

/// Builds the wire form of the debug metadata.
pub fn encode_debug(d: &DebugInfo) -> (r: Value)
    requires
        ts_wf(d.at),
    ensures
        r.deep_view() == encode_debug_v(*d),
{
    let mut es: Vec<(String, Value)> = Vec::new();
    let mut db: Vec<u8> = Vec::new();
    encode_duration(d.duration, &mut db);
    es.push((String::from_str("duration"), Value::Text(db)));
    let mut tb: Vec<u8> = Vec::new();
    encode_timestamp(d.at, &mut tb);
    es.push((String::from_str("at"), Value::Text(tb)));
    let r = Value::Obj(es);
    proof {
        assert(entries_view(es) =~= match encode_debug_v(*d) {
            ValueV::Obj(x) => x,
            _ => Seq::empty(),
        });
    }
    r
}

/// Reads the debug metadata, as [`decode_debug_v`] describes it.
pub fn decode_debug(v: &Value, path: &str) -> (r: Result<DebugInfo, DecodeError>)
    ensures
        res_v(r) == decode_debug_v(v.deep_view(), path@),
{
    match v {
        Value::Obj(es) => {
            let duration = match get_duration(es, "duration", path) {
                Ok(x) => x,
                Err(e) => {
                    return Err(e);
                },
            };
            let at = match get_timestamp(es, "at", path) {
                Ok(x) => x,
                Err(e) => {
                    return Err(e);
                },
            };
            Ok(DebugInfo { duration, at })
        },
        _ => Err(DecodeError::SchemaMismatch(path.to_owned())),
    }
}

/// Decoding encoded debug metadata yields it back.
pub proof fn lemma_debug_round_trip(d: DebugInfo, path: Seq<char>)
    requires
        ts_wf(d.at),
    ensures
        decode_debug_v(encode_debug_v(d), path) == Ok::<DebugInfo, DecodeErrorV>(d),
{
    reveal_strlit("duration");
    reveal_strlit("at");
    assert("duration"@.len() == 8);
    assert("at"@.len() == 2);
    let es = match encode_debug_v(d) {
        ValueV::Obj(x) => x,
        _ => Seq::empty(),
    };
    assert(es[0] == ("duration"@, ValueV::Text(duration_bytes(d.duration))));
    assert(es[1] == ("at"@, ValueV::Text(ts_bytes(d.at))));
    lemma_obj_get_at(es, 0, "duration"@);
    lemma_obj_get_at(es, 1, "at"@);
    lemma_duration_round_trip(d.duration);
    lemma_timestamp_round_trip(d.at);
}


/// The identifier text under `key`, read through the hyphenated form.
pub open spec fn get_uuid_v(es: Seq<(Seq<char>, ValueV)>, key: Seq<char>, path: Seq<char>) -> Result<
    Seq<u8>,
    DecodeErrorV,
> {
    match obj_get_v(es, key) {
        Some(ValueV::Text(b)) => match uuid_of_bytes(b) {
            Some(u) => Ok(u),
            None => Err(DecodeErrorV::SchemaMismatch(path_join(path, key))),
        },
        _ => Err(DecodeErrorV::SchemaMismatch(path_join(path, key))),
    }
}

/// The URL text under `key`, validated and normalized.
pub open spec fn get_url_v(es: Seq<(Seq<char>, ValueV)>, key: Seq<char>, path: Seq<char>) -> Result<
    Seq<char>,
    DecodeErrorV,
> {
    match obj_get_v(es, key) {
        Some(ValueV::Text(b)) => if valid_utf8(b) {
            match url_normal(decode_utf8(b)) {
                Some(t) => Ok(t),
                None => Err(DecodeErrorV::SchemaMismatch(path_join(path, key))),
            }
        } else {
            Err(DecodeErrorV::SchemaMismatch(path_join(path, key)))
        },
        _ => Err(DecodeErrorV::SchemaMismatch(path_join(path, key))),
    }
}

/// Reads the identifier under `key`, as [`get_uuid_v`] describes it.
pub fn get_uuid(es: &Vec<(String, Value)>, key: &str, path: &str) -> (r: Result<Uuid, DecodeError>)
    ensures
        res_v(r) == get_uuid_v(entries_view(*es), key@, path@),
{
    match obj_get(es, key) {
        Some(v) => match v {
            Value::Text(b) => match decode_uuid(b.as_slice()) {
                Some(u) => Ok(u),
                None => Err(DecodeError::SchemaMismatch(join_path(path, key))),
            },
            _ => Err(DecodeError::SchemaMismatch(join_path(path, key))),
        },
        None => Err(DecodeError::SchemaMismatch(join_path(path, key))),
    }
}

/// Reads the URL under `key`, as [`get_url_v`] describes it.
pub fn get_url(es: &Vec<(String, Value)>, key: &str, path: &str) -> (r: Result<
    ShardUrl,
    DecodeError,
>)
    ensures
        res_v(r) == get_url_v(entries_view(*es), key@, path@),
        r matches Ok(u) ==> u.wf(),
{
    match obj_get(es, key) {
        Some(v) => match v {
            Value::Text(b) => match crate::text::bytes_to_string(
                vstd::slice::slice_to_vec(b.as_slice()),
            ) {
                Some(s) => {
                    proof {
                        assert(decode_utf8(encode_utf8(s@)) == s@);
                    }
                    match ShardUrl::parse(s.as_str()) {
                        Some(u) => Ok(u),
                        None => Err(DecodeError::SchemaMismatch(join_path(path, key))),
                    }
                },
                None => Err(DecodeError::SchemaMismatch(join_path(path, key))),
            },
            _ => Err(DecodeError::SchemaMismatch(join_path(path, key))),
        },
        None => Err(DecodeError::SchemaMismatch(join_path(path, key))),
    }
}

/// The wire entries of a stream; an absent private tariff is omitted,
/// never written as an empty placeholder.
pub open spec fn stream_entries_v(s: StreamV) -> Seq<(Seq<char>, ValueV)> {
    let base = seq![
        ("user_id"@, ValueV::Text(uuid_bytes(s.user_id))),
        ("is_private"@, ValueV::Bool(s.is_private)),
        ("settings"@, ValueV::Int(s.settings as i64)),
        ("shard_url"@, ValueV::Text(encode_utf8(s.shard_url))),
        ("public_tariff"@, encode_public_tariff_v(s.public_tariff)),
    ];
    match s.private_tariff {
        Some(p) => base + seq![("private_tariff"@, encode_private_tariff_v(p))],
        None => base,
    }
}

/// The wire form of a stream.
pub open spec fn encode_stream_v(s: StreamV) -> ValueV {
    ValueV::Obj(stream_entries_v(s))
}

/// What a tree denotes as a stream.
pub open spec fn decode_stream_v(v: ValueV, path: Seq<char>) -> Result<StreamV, DecodeErrorV> {
    match v {
        ValueV::Obj(es) => match get_uuid_v(es, "user_id"@, path) {
            Ok(user_id) => match get_bool_v(es, "is_private"@, path) {
                Ok(is_private) => match get_i32_v(es, "settings"@, path) {
                    Ok(settings) => match get_url_v(es, "shard_url"@, path) {
                        Ok(shard_url) => match obj_get_v(es, "public_tariff"@) {
                            Some(pv) => match decode_public_tariff_v(
                                pv,
                                path_join(path, "public_tariff"@),
                            ) {
                                Ok(public_tariff) => match obj_get_v(es, "private_tariff"@) {
                                    Some(qv) => match decode_private_tariff_v(
                                        qv,
                                        path_join(path, "private_tariff"@),
                                    ) {
                                        Ok(private_tariff) => Ok(
                                            StreamV {
                                                user_id,
                                                is_private,
                                                settings,
                                                shard_url,
                                                public_tariff,
                                                private_tariff: Some(private_tariff),
                                            },
                                        ),
                                        Err(e) => Err(e),
                                    },
                                    None => Ok(
                                        StreamV {
                                            user_id,
                                            is_private,
                                            settings,
                                            shard_url,
                                            public_tariff,
                                            private_tariff: None,
                                        },
                                    ),
                                },
                                Err(e) => Err(e),
                            },
                            None => Err(
                                DecodeErrorV::SchemaMismatch(path_join(path, "public_tariff"@)),
                            ),
                        },
                        Err(e) => Err(e),
                    },
                    Err(e) => Err(e),
                },
                Err(e) => Err(e),
            },
            Err(e) => Err(e),
        },
        _ => Err(DecodeErrorV::SchemaMismatch(path)),
    }
}

/// Builds the wire form of a stream.
pub fn encode_stream(st: &Stream) -> (r: Value)
    requires
        st.user_id.wf(),
    ensures
        r.deep_view() == encode_stream_v(st.deep_view()),
{
    let mut es: Vec<(String, Value)> = Vec::new();
    let mut ub: Vec<u8> = Vec::new();
    encode_uuid(&st.user_id, &mut ub);
    es.push((String::from_str("user_id"), Value::Text(ub)));
    es.push((String::from_str("is_private"), Value::Bool(st.is_private)));
    es.push((String::from_str("settings"), Value::Int(st.settings as i64)));
    es.push((String::from_str("shard_url"), Value::Text(st.shard_url.as_str().as_bytes_vec())));
    es.push((String::from_str("public_tariff"), encode_public_tariff(&st.public_tariff)));
    match &st.private_tariff {
        Some(pt) => {
            es.push((String::from_str("private_tariff"), encode_private_tariff(pt)));
        },
        None => {},
    }
    let r = Value::Obj(es);
    proof {
        if st.private_tariff is Some {
            assert(entries_view(es) =~= stream_entries_v(st.deep_view()));
        } else {
            assert(entries_view(es) =~= stream_entries_v(st.deep_view()));
        }
    }
    r
}

/// Reads a stream, as [`decode_stream_v`] describes it.
pub fn decode_stream(v: &Value, path: &str) -> (r: Result<Stream, DecodeError>)
    ensures
        res_v(r) == decode_stream_v(v.deep_view(), path@),
{
    match v {
        Value::Obj(es) => {
            let user_id = match get_uuid(es, "user_id", path) {
                Ok(x) => x,
                Err(e) => {
                    return Err(e);
                },
            };
            let is_private = match get_bool(es, "is_private", path) {
                Ok(x) => x,
                Err(e) => {
                    return Err(e);
                },
            };
            let settings = match get_i32(es, "settings", path) {
                Ok(x) => x,
                Err(e) => {
                    return Err(e);
                },
            };
            let shard_url = match get_url(es, "shard_url", path) {
                Ok(x) => x,
                Err(e) => {
                    return Err(e);
                },
            };
            let public_tariff = match obj_get(es, "public_tariff") {
                Some(pv) => {
                    let sub = join_path(path, "public_tariff");
                    match decode_public_tariff(pv, sub.as_str()) {
                        Ok(x) => x,
                        Err(e) => {
                            return Err(e);
                        },
                    }
                },
                None => {
                    return Err(DecodeError::SchemaMismatch(join_path(path, "public_tariff")));
                },
            };
            let private_tariff = match obj_get(es, "private_tariff") {
                Some(qv) => {
                    let sub = join_path(path, "private_tariff");
                    match decode_private_tariff(qv, sub.as_str()) {
                        Ok(x) => Some(x),
                        Err(e) => {
                            return Err(e);
                        },
                    }
                },
                None => None,
            };
            Ok(Stream { user_id, is_private, settings, shard_url, public_tariff, private_tariff })
        },
        _ => Err(DecodeError::SchemaMismatch(path.to_owned())),
    }
}

/// The keys of a stream are pairwise distinct.
proof fn lemma_stream_keys()
    ensures
        "user_id"@.len() == 7,
        "is_private"@.len() == 10,
        "settings"@.len() == 8,
        "shard_url"@.len() == 9,
        "public_tariff"@.len() == 13,
        "private_tariff"@.len() == 14,
{
    reveal_strlit("user_id");
    reveal_strlit("is_private");
    reveal_strlit("settings");
    reveal_strlit("shard_url");
    reveal_strlit("public_tariff");
    reveal_strlit("private_tariff");
}

/// Decoding an encoded stream yields it back.
pub proof fn lemma_stream_round_trip(s: StreamV, path: Seq<char>)
    requires
        stream_v_wf(s),
    ensures
        decode_stream_v(encode_stream_v(s), path) == Ok::<StreamV, DecodeErrorV>(s),
{
    lemma_stream_keys();
    let es = stream_entries_v(s);
    assert(es[0] == ("user_id"@, ValueV::Text(uuid_bytes(s.user_id))));
    assert(es[1] == ("is_private"@, ValueV::Bool(s.is_private)));
    assert(es[2] == ("settings"@, ValueV::Int(s.settings as i64)));
    assert(es[3] == ("shard_url"@, ValueV::Text(encode_utf8(s.shard_url))));
    assert(es[4] == ("public_tariff"@, encode_public_tariff_v(s.public_tariff)));
    lemma_obj_get_at(es, 0, "user_id"@);
    lemma_obj_get_at(es, 1, "is_private"@);
    lemma_obj_get_at(es, 2, "settings"@);
    lemma_obj_get_at(es, 3, "shard_url"@);
    lemma_obj_get_at(es, 4, "public_tariff"@);
    lemma_uuid_round_trip(s.user_id);
    assert(decode_utf8(encode_utf8(s.shard_url)) == s.shard_url);
    lemma_public_tariff_round_trip(s.public_tariff, path_join(path, "public_tariff"@));
    match s.private_tariff {
        Some(p) => {
            assert(es[5] == ("private_tariff"@, encode_private_tariff_v(p)));
            lemma_obj_get_at(es, 5, "private_tariff"@);
            lemma_private_tariff_round_trip(p, path_join(path, "private_tariff"@));
        },
        None => {
            lemma_obj_get_absent(es, "private_tariff"@);
        },
    }
}

/// An absent private tariff is omitted from the wire entries entirely.
pub proof fn lemma_absent_private_tariff_omitted(s: StreamV)
    requires
        s.private_tariff is None,
    ensures
        obj_get_v(stream_entries_v(s), "private_tariff"@) is None,
        stream_entries_v(s).len() == 5,
{
    lemma_stream_keys();
    lemma_obj_get_absent(stream_entries_v(s), "private_tariff"@);
}

/// A tree without the private-tariff key decodes to absence, never to
/// an empty tariff.
pub proof fn lemma_missing_key_decodes_absent(
    es: Seq<(Seq<char>, ValueV)>,
    path: Seq<char>,
    s: StreamV,
)
    requires
        decode_stream_v(ValueV::Obj(es), path) == Ok::<StreamV, DecodeErrorV>(s),
        obj_get_v(es, "private_tariff"@) is None,
    ensures
        s.private_tariff is None,
{
}

/// The wire spelling of the request tag.
pub open spec fn tag_bytes(t: RequestType) -> Seq<u8> {
    match t {
        RequestType::Success => encode_utf8("success"@),
        RequestType::Failure => encode_utf8("failure"@),
    }
}

/// The tag under `type`: only the two closed spellings are accepted.
pub open spec fn get_req_type_v(es: Seq<(Seq<char>, ValueV)>, path: Seq<char>) -> Result<
    RequestType,
    DecodeErrorV,
> {
    match obj_get_v(es, "type"@) {
        Some(ValueV::Text(b)) => if b == encode_utf8("success"@) {
            Ok(RequestType::Success)
        } else if b == encode_utf8("failure"@) {
            Ok(RequestType::Failure)
        } else {
            Err(DecodeErrorV::SchemaMismatch(path_join(path, "type"@)))
        },
        _ => Err(DecodeErrorV::SchemaMismatch(path_join(path, "type"@))),
    }
}

/// Reads the request tag, as [`get_req_type_v`] describes it.
pub fn get_req_type(es: &Vec<(String, Value)>, path: &str) -> (r: Result<RequestType, DecodeError>)
    ensures
        res_v(r) == get_req_type_v(entries_view(*es), path@),
{
    match obj_get(es, "type") {
        Some(v) => match v {
            Value::Text(b) => {
                if bytes_eq(b.as_slice(), "success".as_bytes()) {
                    Ok(RequestType::Success)
                } else if bytes_eq(b.as_slice(), "failure".as_bytes()) {
                    Ok(RequestType::Failure)
                } else {
                    Err(DecodeError::SchemaMismatch(join_path(path, "type")))
                }
            },
            _ => Err(DecodeError::SchemaMismatch(join_path(path, "type"))),
        },
        None => Err(DecodeError::SchemaMismatch(join_path(path, "type"))),
    }
}

/// The wire forms of the gifts, in order.
pub open spec fn encode_gifts_v(gs: Seq<GiftV>) -> Seq<ValueV> {
    Seq::new(gs.len(), |i: int| encode_gift_v(gs[i]))
}

/// What a list of trees denotes as gifts: all of them, in order, or
/// the first failure.
pub open spec fn decode_gifts_v(items: Seq<ValueV>, path: Seq<char>) -> Result<
    Seq<GiftV>,
    DecodeErrorV,
>
    decreases items.len(),
{
    if items.len() == 0 {
        Ok(Seq::empty())
    } else {
        match decode_gift_v(items[0], path) {
            Ok(g) => match decode_gifts_v(items.drop_first(), path) {
                Ok(rest) => Ok(seq![g] + rest),
                Err(e) => Err(e),
            },
            Err(e) => Err(e),
        }
    }
}

/// Already-read gifts prepended to a decode result.
pub open spec fn prepend_gifts(pre: Seq<GiftV>, r: Result<Seq<GiftV>, DecodeErrorV>) -> Result<
    Seq<GiftV>,
    DecodeErrorV,
> {
    match r {
        Ok(t) => Ok(pre + t),
        Err(e) => Err(e),
    }
}

/// Reads a gift list, as [`decode_gifts_v`] describes it.
pub fn decode_gifts(items: &Vec<Value>, path: &str) -> (r: Result<Vec<Gift>, DecodeError>)
    ensures
        res_v(r) == decode_gifts_v(items_view(*items), path@),
{
    let ghost full = items_view(*items);
    let mut acc: Vec<Gift> = Vec::new();
    proof {
        assert(full.skip(0) =~= full);
        assert(gifts_view(acc) =~= Seq::<GiftV>::empty());
    }
    let mut i: usize = 0;
    while i < items.len()
        invariant
            i <= items@.len(),
            full == items_view(*items),
            full.len() == items@.len(),
            decode_gifts_v(full, path@) == prepend_gifts(
                gifts_view(acc),
                decode_gifts_v(full.skip(i as int), path@),
            ),
        decreases items@.len() - i,
    {
        proof {
            assert(full.skip(i as int)[0] == full[i as int]);
            assert(full.skip(i as int).drop_first() =~= full.skip(i + 1));
        }
        let g = match decode_gift(&items[i], path) {
            Ok(g) => g,
            Err(e) => {
                return Err(e);
            },
        };
        let ghost pre = gifts_view(acc);
        acc.push(g);
        proof {
            assert(gifts_view(acc) =~= pre + seq![g.deep_view()]);
            if decode_gifts_v(full.skip(i + 1), path@) is Ok {
                let rest = decode_gifts_v(full.skip(i + 1), path@)->Ok_0;
                assert((pre + seq![g.deep_view()]) + rest =~= pre + (seq![g.deep_view()] + rest));
            }
        }
        i = i + 1;
    }
    proof {
        assert(full.skip(items@.len() as int) =~= Seq::<ValueV>::empty());
        assert(gifts_view(acc) + Seq::<GiftV>::empty() =~= gifts_view(acc));
    }
    Ok(acc)
}

/// Decoding encoded gifts yields them back, in order.
pub proof fn lemma_gifts_round_trip(gs: Seq<GiftV>, path: Seq<char>)
    ensures
        decode_gifts_v(encode_gifts_v(gs), path) == Ok::<Seq<GiftV>, DecodeErrorV>(gs),
    decreases gs.len(),
{
    let items = encode_gifts_v(gs);
    if gs.len() == 0 {
        assert(Seq::<GiftV>::empty() =~= gs);
    } else {
        assert(items[0] == encode_gift_v(gs[0]));
        assert(items.drop_first() =~= encode_gifts_v(gs.drop_first()));
        lemma_gift_round_trip(gs[0], path);
        lemma_gifts_round_trip(gs.drop_first(), path);
        assert(seq![gs[0]] + gs.drop_first() =~= gs);
    }
}

/// The wire form of a whole request.
pub open spec fn encode_request_v(r: RequestV) -> ValueV {
    ValueV::Obj(
        seq![
            ("type"@, ValueV::Text(tag_bytes(r.req_type))),
            ("stream"@, encode_stream_v(r.stream)),
            ("gifts"@, ValueV::List(encode_gifts_v(r.gifts))),
            ("debug"@, encode_debug_v(r.debug)),
        ],
    )
}

/// What a tree denotes as a request.
pub open spec fn decode_request_v(v: ValueV, path: Seq<char>) -> Result<RequestV, DecodeErrorV> {
    match v {
        ValueV::Obj(es) => match get_req_type_v(es, path) {
            Ok(req_type) => match obj_get_v(es, "stream"@) {
                Some(sv) => match decode_stream_v(sv, path_join(path, "stream"@)) {
                    Ok(stream) => match obj_get_v(es, "gifts"@) {
                        Some(ValueV::List(items)) => match decode_gifts_v(
                            items,
                            path_join(path, "gifts"@),
                        ) {
                            Ok(gifts) => match obj_get_v(es, "debug"@) {
                                Some(dv) => match decode_debug_v(dv, path_join(path, "debug"@)) {
                                    Ok(debug) => Ok(RequestV { req_type, stream, gifts, debug }),
                                    Err(e) => Err(e),
                                },
                                None => Err(
                                    DecodeErrorV::SchemaMismatch(path_join(path, "debug"@)),
                                ),
                            },
                            Err(e) => Err(e),
                        },
                        _ => Err(DecodeErrorV::SchemaMismatch(path_join(path, "gifts"@))),
                    },
                    Err(e) => Err(e),
                },
                None => Err(DecodeErrorV::SchemaMismatch(path_join(path, "stream"@))),
            },
            Err(e) => Err(e),
        },
        _ => Err(DecodeErrorV::SchemaMismatch(path)),
    }
}

/// Builds the wire form of a request.
pub fn encode_request(r: &Request) -> (t: Value)
    requires
        r.stream.user_id.wf(),
        ts_wf(r.debug.at),
    ensures
        t.deep_view() == encode_request_v(r.deep_view()),
{
    let mut es: Vec<(String, Value)> = Vec::new();
    let tag: &str = match r.req_type {
        RequestType::Success => "success",
        RequestType::Failure => "failure",
    };
    es.push((String::from_str("type"), Value::Text(tag.as_bytes_vec())));
    es.push((String::from_str("stream"), encode_stream(&r.stream)));
    let mut items: Vec<Value> = Vec::new();
    let mut i: usize = 0;
    while i < r.gifts.len()
        invariant
            i <= r.gifts@.len(),
            items@.len() == i,
            forall|k: int|
                0 <= k < i ==> (#[trigger] items@[k]).deep_view() == encode_gift_v(
                    r.gifts@[k].deep_view(),
                ),
        decreases r.gifts@.len() - i,
    {
        let g = encode_gift(&r.gifts[i]);
        items.push(g);
        i = i + 1;
    }
    proof {
        assert(items_view(items) =~= encode_gifts_v(gifts_view(r.gifts)));
    }
    es.push((String::from_str("gifts"), Value::List(items)));
    es.push((String::from_str("debug"), encode_debug(&r.debug)));
    let t = Value::Obj(es);
    proof {
        assert(entries_view(es) =~= match encode_request_v(r.deep_view()) {
            ValueV::Obj(x) => x,
            _ => Seq::empty(),
        });
    }
    t
}

/// Reads a request from a tree, as [`decode_request_v`] describes it,
/// starting from the empty field path.
pub fn decode_request(v: &Value) -> (r: Result<Request, DecodeError>)
    ensures
        res_v(r) == decode_request_v(v.deep_view(), ""@),
{
    decode_request_at(v, "")
}

/// Reads a request from a tree under the given field path.
pub fn decode_request_at(v: &Value, path: &str) -> (r: Result<Request, DecodeError>)
    ensures
        res_v(r) == decode_request_v(v.deep_view(), path@),
{
    match v {
        Value::Obj(es) => {
            let req_type = match get_req_type(es, path) {
                Ok(x) => x,
                Err(e) => {
                    return Err(e);
                },
            };
            let stream = match obj_get(es, "stream") {
                Some(sv) => {
                    let sub = join_path(path, "stream");
                    match decode_stream(sv, sub.as_str()) {
                        Ok(x) => x,
                        Err(e) => {
                            return Err(e);
                        },
                    }
                },
                None => {
                    return Err(DecodeError::SchemaMismatch(join_path(path, "stream")));
                },
            };
            let gifts = match obj_get(es, "gifts") {
                Some(gv) => match gv {
                    Value::List(items) => {
                        let sub = join_path(path, "gifts");
                        match decode_gifts(items, sub.as_str()) {
                            Ok(x) => x,
                            Err(e) => {
                                return Err(e);
                            },
                        }
                    },
                    _ => {
                        return Err(DecodeError::SchemaMismatch(join_path(path, "gifts")));
                    },
                },
                None => {
                    return Err(DecodeError::SchemaMismatch(join_path(path, "gifts")));
                },
            };
            let debug = match obj_get(es, "debug") {
                Some(dv) => {
                    let sub = join_path(path, "debug");
                    match decode_debug(dv, sub.as_str()) {
                        Ok(x) => x,
                        Err(e) => {
                            return Err(e);
                        },
                    }
                },
                None => {
                    return Err(DecodeError::SchemaMismatch(join_path(path, "debug")));
                },
            };
            Ok(Request { req_type, stream, gifts, debug })
        },
        _ => Err(DecodeError::SchemaMismatch(path.to_owned())),
    }
}

/// The keys of a request are pairwise distinct, and the two tag
/// spellings differ.
proof fn lemma_request_keys()
    ensures
        "type"@.len() == 4,
        "stream"@.len() == 6,
        "gifts"@.len() == 5,
        "debug"@.len() == 5,
        "gifts"@ != "debug"@,
        encode_utf8("success"@) != encode_utf8("failure"@),
{
    broadcast use vstd::utf8::encode_utf8_decode_utf8;

    reveal_strlit("type");
    reveal_strlit("stream");
    reveal_strlit("gifts");
    reveal_strlit("debug");
    reveal_strlit("success");
    reveal_strlit("failure");
    assert("gifts"@[0] == 'g' && "debug"@[0] == 'd');
    if encode_utf8("success"@) == encode_utf8("failure"@) {
        assert(decode_utf8(encode_utf8("success"@)) == "success"@);
        assert(decode_utf8(encode_utf8("failure"@)) == "failure"@);
        assert("success"@[0] == 's' && "failure"@[0] == 'f');
        assert(false);
    }
}

/// Decoding an encoded request yields it back.
pub proof fn lemma_request_round_trip(r: RequestV, path: Seq<char>)
    requires
        request_v_wf(r),
    ensures
        decode_request_v(encode_request_v(r), path) == Ok::<RequestV, DecodeErrorV>(r),
{
    lemma_request_keys();
    let es = match encode_request_v(r) {
        ValueV::Obj(x) => x,
        _ => Seq::empty(),
    };
    assert(es[0] == ("type"@, ValueV::Text(tag_bytes(r.req_type))));
    assert(es[1] == ("stream"@, encode_stream_v(r.stream)));
    assert(es[2] == ("gifts"@, ValueV::List(encode_gifts_v(r.gifts))));
    assert(es[3] == ("debug"@, encode_debug_v(r.debug)));
    lemma_obj_get_at(es, 0, "type"@);
    lemma_obj_get_at(es, 1, "stream"@);
    lemma_obj_get_at(es, 2, "gifts"@);
    lemma_obj_get_at(es, 3, "debug"@);
    lemma_stream_round_trip(r.stream, path_join(path, "stream"@));
    lemma_gifts_round_trip(r.gifts, path_join(path, "gifts"@));
    lemma_debug_round_trip(r.debug, path_join(path, "debug"@));
}

/// A third tag spelling is a schema mismatch on the `type` field,
/// never a silent default.
pub proof fn lemma_unknown_tag_rejected(
    es: Seq<(Seq<char>, ValueV)>,
    b: Seq<u8>,
    path: Seq<char>,
)
    requires
        obj_get_v(es, "type"@) == Some(ValueV::Text(b)),
        b != encode_utf8("success"@),
        b != encode_utf8("failure"@),
    ensures
        decode_request_v(ValueV::Obj(es), path) == Err::<RequestV, DecodeErrorV>(
            DecodeErrorV::SchemaMismatch(path_join(path, "type"@)),
        ),
{
}

/// The wire form of an event; the date carries the `Date: ` prefix.
pub open spec fn encode_event_v(e: EventV) -> ValueV {
    ValueV::Obj(
        seq![
            ("name"@, ValueV::Text(encode_utf8(e.name))),
            ("date"@, ValueV::Text(date_wrap(encode_utf8(e.date)))),
        ],
    )
}

/// What a tree denotes as an event; the prefix is stripped only as a
/// strict leading match.
pub open spec fn decode_event_v(v: ValueV, path: Seq<char>) -> Result<EventV, DecodeErrorV> {
    match v {
        ValueV::Obj(es) => match get_string_v(es, "name"@, path) {
            Ok(name) => match obj_get_v(es, "date"@) {
                Some(ValueV::Text(b)) => match date_unwrap(b) {
                    Some(raw) => if valid_utf8(raw) {
                        Ok(EventV { name, date: decode_utf8(raw) })
                    } else {
                        Err(DecodeErrorV::SchemaMismatch(path_join(path, "date"@)))
                    },
                    None => Err(DecodeErrorV::SchemaMismatch(path_join(path, "date"@))),
                },
                _ => Err(DecodeErrorV::SchemaMismatch(path_join(path, "date"@))),
            },
            Err(e) => Err(e),
        },
        _ => Err(DecodeErrorV::SchemaMismatch(path)),
    }
}

/// Builds the wire form of an event.
pub fn encode_event(e: &Event) -> (r: Value)
    ensures
        r.deep_view() == encode_event_v(e.deep_view()),
{
    let mut es: Vec<(String, Value)> = Vec::new();
    es.push((String::from_str("name"), Value::Text(e.name.as_str().as_bytes_vec())));
    let raw = e.date.as_str().as_bytes_vec();
    let mut db: Vec<u8> = Vec::new();
    push_wrapped_date(raw.as_slice(), &mut db);
    es.push((String::from_str("date"), Value::Text(db)));
    let r = Value::Obj(es);
    proof {
        assert(entries_view(es) =~= match encode_event_v(e.deep_view()) {
            ValueV::Obj(x) => x,
            _ => Seq::empty(),
        });
    }
    r
}

/// Reads an event from a tree, as [`decode_event_v`] describes it,
/// starting from the empty field path.
pub fn decode_event(v: &Value) -> (r: Result<Event, DecodeError>)
    ensures
        res_v(r) == decode_event_v(v.deep_view(), ""@),
{
    decode_event_at(v, "")
}

/// Reads an event from a tree under the given field path.
pub fn decode_event_at(v: &Value, path: &str) -> (r: Result<Event, DecodeError>)
    ensures
        res_v(r) == decode_event_v(v.deep_view(), path@),
{
    match v {
        Value::Obj(es) => {
            let name = match get_string(es, "name", path) {
                Ok(x) => x,
                Err(e) => {
                    return Err(e);
                },
            };
            match obj_get(es, "date") {
                Some(dv) => match dv {
                    Value::Text(b) => match unwrap_date(b.as_slice()) {
                        Some(raw) => match crate::text::bytes_to_string(raw) {
                            Some(date) => {
                                proof {
                                    assert(decode_utf8(encode_utf8(date@)) == date@);
                                }
                                Ok(Event { name, date })
                            },
                            None => Err(DecodeError::SchemaMismatch(join_path(path, "date"))),
                        },
                        None => Err(DecodeError::SchemaMismatch(join_path(path, "date"))),
                    },
                    _ => Err(DecodeError::SchemaMismatch(join_path(path, "date"))),
                },
                None => Err(DecodeError::SchemaMismatch(join_path(path, "date"))),
            }
        },
        _ => Err(DecodeError::SchemaMismatch(path.to_owned())),
    }
}

/// Decoding an encoded event yields it back: the prefix never reaches
/// the in-memory value.
pub proof fn lemma_event_round_trip(e: EventV, path: Seq<char>)
    ensures
        decode_event_v(encode_event_v(e), path) == Ok::<EventV, DecodeErrorV>(e),
{
    reveal_strlit("name");
    reveal_strlit("date");
    assert("name"@[0] == 'n' && "date"@[0] == 'd');
    let es = match encode_event_v(e) {
        ValueV::Obj(x) => x,
        _ => Seq::empty(),
    };
    assert(es[0] == ("name"@, ValueV::Text(encode_utf8(e.name))));
    assert(es[1] == ("date"@, ValueV::Text(date_wrap(encode_utf8(e.date)))));
    lemma_obj_get_at(es, 0, "name"@);
    lemma_obj_get_at(es, 1, "date"@);
    lemma_date_round_trip(encode_utf8(e.date));
    assert(decode_utf8(encode_utf8(e.name)) == e.name);
    assert(decode_utf8(encode_utf8(e.date)) == e.date);
}

} // verus!
