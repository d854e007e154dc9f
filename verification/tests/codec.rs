use stream_request_codec::dateprefix::{unwrap_date, push_wrapped_date};
use stream_request_codec::duration::{Duration, encode_duration, decode_duration};
use stream_request_codec::errors::DecodeError;
use stream_request_codec::json::{encode_event_json, decode_event_json, encode_request_json,
    decode_request_json, decode_json, encode_json};
use stream_request_codec::num::Price;
use stream_request_codec::records::{Event, RequestType};
use stream_request_codec::timestamp::{Timestamp, encode_timestamp, decode_timestamp};
use stream_request_codec::uid::{Uuid, encode_uuid, decode_uuid};
use stream_request_codec::value::Value;

fn dur(text: &str) -> Option<Duration> {
    decode_duration(text.as_bytes())
}

fn enc_dur(millis: u64) -> String {
    let mut out: Vec<u8> = Vec::new();
    encode_duration(Duration { millis }, &mut out);
    String::from_utf8(out).unwrap()
}

#[test]
fn duration_encodes_largest_exact_unit() {
    assert_eq!(enc_dur(234), "234ms");
    assert_eq!(enc_dur(3600000), "1h");
    assert_eq!(enc_dur(60000), "1m");
    assert_eq!(enc_dur(90000), "90s");
    assert_eq!(enc_dur(1000), "1s");
    assert_eq!(enc_dur(7200000), "2h");
}

#[test]
fn duration_decodes_each_unit() {
    assert_eq!(dur("1h"), Some(Duration { millis: 3600000 }));
    assert_eq!(dur("60s"), Some(Duration { millis: 60000 }));
    assert_eq!(dur("234ms"), Some(Duration { millis: 234 }));
    assert_eq!(dur("2m"), Some(Duration { millis: 120000 }));
}

#[test]
fn duration_rejects_bad_text() {
    assert_eq!(dur(""), None);
    assert_eq!(dur("12"), None);
    assert_eq!(dur("h"), None);
    assert_eq!(dur("12x"), None);
    assert_eq!(dur("12 s"), None);
    assert_eq!(dur("999999999999999999999h"), None);
}

#[test]
fn duration_round_trips() {
    for millis in [0u64, 1, 234, 999, 1000, 59999, 60000, 3600000, 86400000, 12345678] {
        let text = enc_dur(millis);
        assert_eq!(dur(&text), Some(Duration { millis }));
    }
}

#[test]
fn timestamp_round_trips() {
    let t = Timestamp { year: 2019, month: 6, day: 28, hour: 8, minute: 35, second: 46 };
    let mut out: Vec<u8> = Vec::new();
    encode_timestamp(t, &mut out);
    assert_eq!(String::from_utf8(out.clone()).unwrap(), "2019-06-28T08:35:46+00:00");
    assert_eq!(decode_timestamp(&out), Some(t));
    assert_eq!(decode_timestamp(b"2019-06-28T08:35:46Z"), Some(t));
}

#[test]
fn timestamp_rejects_bad_text() {
    assert_eq!(decode_timestamp(b"2019-13-28T08:35:46Z"), None);
    assert_eq!(decode_timestamp(b"2019-06-28 08:35:46Z"), None);
    assert_eq!(decode_timestamp(b"2019-06-28T08:35:46+01:00"), None);
    assert_eq!(decode_timestamp(b"nonsense"), None);
}

#[test]
fn uuid_round_trips() {
    let text = b"8d234120-0bda-49b2-b7e0-fbd3912f6cbf";
    let u = decode_uuid(text).unwrap();
    let mut out: Vec<u8> = Vec::new();
    encode_uuid(&u, &mut out);
    assert_eq!(&out, text);
    let upper = b"8D234120-0BDA-49B2-B7E0-FBD3912F6CBF";
    assert_eq!(decode_uuid(upper), Some(u));
}

#[test]
fn uuid_rejects_bad_text() {
    assert_eq!(decode_uuid(b"8d234120-0bda-49b2-b7e0-fbd3912f6cb"), None);
    assert_eq!(decode_uuid(b"8d2341200bda-49b2-b7e0-fbd3912f6cbff"), None);
    assert_eq!(decode_uuid(b"8d234120-0bda-49b2-b7e0-fbd3912f6cbg"), None);
}

#[test]
fn price_text_forms() {
    let v = decode_json(b"100.0").unwrap();
    assert_eq!(
        String::from_utf8(encode_json(&v)).unwrap(),
        "100.0"
    );
    match v {
        Value::Dec(p) => assert_eq!(p, Price { cents: 10000 }),
        _ => panic!("expected a decimal"),
    }
    match decode_json(b"2.25").unwrap() {
        Value::Dec(p) => assert_eq!(p, Price { cents: 225 }),
        _ => panic!("expected a decimal"),
    }
    match decode_json(b"100.00").unwrap() {
        Value::Dec(p) => assert_eq!(p, Price { cents: 10000 }),
        _ => panic!("expected a decimal"),
    }
}

#[test]
fn date_prefix_is_strict() {
    assert_eq!(unwrap_date(b"Date: 2024-11-14").unwrap(), b"2024-11-14".to_vec());
    assert_eq!(unwrap_date(b"2024-11-14"), None);
    assert_eq!(unwrap_date(b"Event Date: 2024"), None);
    let mut out: Vec<u8> = Vec::new();
    push_wrapped_date(b"x", &mut out);
    assert_eq!(out, b"Date: x".to_vec());
}

#[test]
fn event_wire_form_carries_prefix() {
    let event = Event { name: String::from("EventName"), date: String::from("2024-11-14") };
    let json = encode_event_json(&event);
    assert_eq!(
        String::from_utf8(json.clone()).unwrap(),
        "{\"name\":\"EventName\",\"date\":\"Date: 2024-11-14\"}"
    );
    let back = decode_event_json(&json).unwrap();
    assert_eq!(back.name, "EventName");
    assert_eq!(back.date, "2024-11-14");
}

#[test]
fn event_without_prefix_is_rejected() {
    let text = b"{\"name\":\"EventName\",\"date\":\"2024-11-14\"}";
    assert_eq!(
        decode_event_json(text),
        Err(DecodeError::SchemaMismatch(String::from("date")))
    );
}

fn req_json() -> &'static str {
    "{\n  \"type\": \"success\",\n  \"stream\": {\n    \"user_id\": \"8d234120-0bda-49b2-b7e0-fbd3912f6cbf\",\n    \"is_private\": false,\n    \"settings\": 45345,\n    \"shard_url\": \"https://n3.example.com/sapi\",\n    \"public_tariff\": {\n      \"id\": 1,\n      \"price\": 100.0,\n      \"duration\": \"1h\",\n      \"description\": \"test public tariff\"\n    },\n    \"private_tariff\": {\n      \"client_price\": 250.0,\n      \"duration\": \"60s\",\n      \"description\": \"test private tariff\"\n    }\n  },\n  \"gifts\": [\n    {\n      \"id\": 1,\n      \"price\": 2.0,\n      \"description\": \"Gift 1\"\n    },\n    {\n      \"id\": 2,\n      \"price\": 3.0,\n      \"description\": \"Gift 2\"\n    }\n  ],\n  \"debug\": {\n    \"duration\": \"234ms\",\n    \"at\": \"2019-06-28T08:35:46+00:00\"\n  }\n}"
}

#[test]
fn request_decodes_from_json_text() {
    let request = decode_request_json(req_json().as_bytes()).unwrap();
    assert_eq!(request.req_type, RequestType::Success);
    assert_eq!(
        request.stream.user_id,
        decode_uuid(b"8d234120-0bda-49b2-b7e0-fbd3912f6cbf").unwrap()
    );
    assert_eq!(request.stream.public_tariff.price, Price { cents: 10000 });
    assert_eq!(request.gifts[0].price, Price { cents: 200 });
    assert_eq!(request.gifts.len(), 2);
    assert_eq!(request.debug.duration, Duration { millis: 234 });
    assert_eq!(request.stream.public_tariff.duration, Duration { millis: 3600000 });
    assert_eq!(
        request.stream.private_tariff.unwrap().duration,
        Duration { millis: 60000 }
    );
}

#[test]
fn request_round_trips_through_json() {
    let request = decode_request_json(req_json().as_bytes()).unwrap();
    let json = encode_request_json(&request);
    let back = decode_request_json(&json).unwrap();
    assert_eq!(back, request);
}

#[test]
fn absent_private_tariff_is_omitted() {
    let text = "{\"type\":\"failure\",\"stream\":{\"user_id\":\"8d234120-0bda-49b2-b7e0-fbd3912f6cbf\",\"is_private\":false,\"settings\":1,\"shard_url\":\"https://n3.example.com/sapi\",\"public_tariff\":{\"id\":1,\"price\":1.5,\"duration\":\"1h\",\"description\":\"t\"}},\"gifts\":[],\"debug\":{\"duration\":\"1s\",\"at\":\"2019-06-28T08:35:46Z\"}}";
    let request = decode_request_json(text.as_bytes()).unwrap();
    assert!(request.stream.private_tariff.is_none());
    let json = String::from_utf8(encode_request_json(&request)).unwrap();
    assert!(!json.contains("private_tariff"));
    let back = decode_request_json(json.as_bytes()).unwrap();
    assert!(back.stream.private_tariff.is_none());
}

#[test]
fn unknown_tag_is_rejected() {
    let text = req_json().replace("\"success\"", "\"pending\"");
    assert_eq!(
        decode_request_json(text.as_bytes()),
        Err(DecodeError::SchemaMismatch(String::from("type")))
    );
}

#[test]
fn bad_duration_is_field_qualified() {
    let text = req_json().replace("\"1h\"", "\"12x\"");
    assert_eq!(
        decode_request_json(text.as_bytes()),
        Err(DecodeError::InvalidDuration(
            String::from("stream.public_tariff.duration"),
            b"12x".to_vec()
        ))
    );
}

#[test]
fn bad_timestamp_is_field_qualified() {
    let text = req_json().replace("2019-06-28T08:35:46+00:00", "yesterday");
    assert_eq!(
        decode_request_json(text.as_bytes()),
        Err(DecodeError::InvalidTimestamp(
            String::from("debug.at"),
            b"yesterday".to_vec()
        ))
    );
}

#[test]
fn missing_field_is_field_qualified() {
    let text = req_json().replace("\"settings\": 45345,", "");
    assert_eq!(
        decode_request_json(text.as_bytes()),
        Err(DecodeError::SchemaMismatch(String::from("stream.settings")))
    );
}

#[test]
fn broken_syntax_is_malformed() {
    assert_eq!(
        decode_request_json(b"{\"type\": "),
        Err(DecodeError::MalformedText)
    );
    assert_eq!(decode_request_json(b""), Err(DecodeError::MalformedText));
}

#[test]
fn bad_shard_url_is_rejected() {
    let text = req_json().replace("https://n3.example.com/sapi", "not a url");
    assert_eq!(
        decode_request_json(text.as_bytes()),
        Err(DecodeError::SchemaMismatch(String::from("stream.shard_url")))
    );
}

#[test]
fn string_escapes_round_trip() {
    let event = Event {
        name: String::from("a \"quoted\" name\\with backslash\nand newline"),
        date: String::from("2024-01-02"),
    };
    let json = encode_event_json(&event);
    let back = decode_event_json(&json).unwrap();
    assert_eq!(back, event);
}

#[test]
fn uuid_wire_form_is_canonical() {
    let u = Uuid { bytes: vec![0u8, 1, 2, 3, 4, 5, 6, 7, 8, 9, 10, 11, 12, 13, 14, 255] };
    let mut out: Vec<u8> = Vec::new();
    encode_uuid(&u, &mut out);
    assert_eq!(
        String::from_utf8(out).unwrap(),
        "00010203-0405-0607-0809-0a0b0c0d0eff"
    );
}
