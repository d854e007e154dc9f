use stream_request_codec::json::decode_request_json;
use stream_request_codec::toml::{encode_request_toml, decode_request_toml};
use stream_request_codec::yaml::{encode_request_yaml, decode_request_yaml};

fn req_json() -> &'static str {
    "{\"type\":\"success\",\"stream\":{\"user_id\":\"8d234120-0bda-49b2-b7e0-fbd3912f6cbf\",\"is_private\":true,\"settings\":45345,\"shard_url\":\"https://n3.example.com/sapi\",\"public_tariff\":{\"id\":1,\"price\":100.0,\"duration\":\"1h\",\"description\":\"test public tariff\"},\"private_tariff\":{\"client_price\":250.0,\"duration\":\"60s\",\"description\":\"test private tariff\"}},\"gifts\":[{\"id\":1,\"price\":2.0,\"description\":\"Gift 1\"},{\"id\":2,\"price\":3.0,\"description\":\"Gift 2\"}],\"debug\":{\"duration\":\"234ms\",\"at\":\"2019-06-28T08:35:46+00:00\"}}"
}

fn small_json() -> &'static str {
    "{\"type\":\"failure\",\"stream\":{\"user_id\":\"8d234120-0bda-49b2-b7e0-fbd3912f6cbf\",\"is_private\":false,\"settings\":1,\"shard_url\":\"https://n3.example.com/sapi\",\"public_tariff\":{\"id\":1,\"price\":1.5,\"duration\":\"1h\",\"description\":\"t\"}},\"gifts\":[],\"debug\":{\"duration\":\"1s\",\"at\":\"2019-06-28T08:35:46Z\"}}"
}

#[test]
fn yaml_wire_form_is_block_style() {
    let request = decode_request_json(small_json().as_bytes()).unwrap();
    let yaml = String::from_utf8(encode_request_yaml(&request)).unwrap();
    let expected = "type: \"failure\"\nstream:\n  user_id: \"8d234120-0bda-49b2-b7e0-fbd3912f6cbf\"\n  is_private: false\n  settings: 1\n  shard_url: \"https://n3.example.com/sapi\"\n  public_tariff:\n    id: 1\n    price: 1.5\n    duration: \"1h\"\n    description: \"t\"\ngifts: []\ndebug:\n  duration: \"1s\"\n  at: \"2019-06-28T08:35:46+00:00\"\n";
    assert_eq!(yaml, expected);
}

#[test]
fn toml_wire_form_uses_tables() {
    let request = decode_request_json(small_json().as_bytes()).unwrap();
    let toml = String::from_utf8(encode_request_toml(&request)).unwrap();
    let expected = "type = \"failure\"\ngifts = []\n[stream]\nuser_id = \"8d234120-0bda-49b2-b7e0-fbd3912f6cbf\"\nis_private = false\nsettings = 1\nshard_url = \"https://n3.example.com/sapi\"\n[stream.public_tariff]\nid = 1\nprice = 1.5\nduration = \"1h\"\ndescription = \"t\"\n[debug]\nduration = \"1s\"\nat = \"2019-06-28T08:35:46+00:00\"\n";
    assert_eq!(toml, expected);
}

#[test]
fn yaml_round_trips_a_request() {
    let request = decode_request_json(req_json().as_bytes()).unwrap();
    let yaml = encode_request_yaml(&request);
    let back = decode_request_yaml(&yaml).unwrap();
    assert_eq!(back, request);
}

#[test]
fn toml_round_trips_a_request() {
    let request = decode_request_json(req_json().as_bytes()).unwrap();
    let toml = encode_request_toml(&request);
    let back = decode_request_toml(&toml).unwrap();
    assert_eq!(back, request);
}

#[test]
fn toml_uses_array_tables_for_gifts() {
    let request = decode_request_json(req_json().as_bytes()).unwrap();
    let toml = String::from_utf8(encode_request_toml(&request)).unwrap();
    assert!(toml.contains("[[gifts]]\nid = 1\n"));
    assert!(toml.contains("[[gifts]]\nid = 2\n"));
    assert!(toml.contains("[stream.private_tariff]\nclient_price = 250.0\n"));
}

#[test]
fn cross_format_round_trip() {
    let request = decode_request_json(req_json().as_bytes()).unwrap();
    let yaml = encode_request_yaml(&request);
    let from_yaml = decode_request_yaml(&yaml).unwrap();
    assert_eq!(from_yaml, request);
    let toml = encode_request_toml(&from_yaml);
    let from_toml = decode_request_toml(&toml).unwrap();
    assert_eq!(from_toml, request);
}

#[test]
fn absent_tariff_is_omitted_in_every_format() {
    let request = decode_request_json(small_json().as_bytes()).unwrap();
    assert!(request.stream.private_tariff.is_none());
    let yaml = String::from_utf8(encode_request_yaml(&request)).unwrap();
    let toml = String::from_utf8(encode_request_toml(&request)).unwrap();
    assert!(!yaml.contains("private_tariff"));
    assert!(!toml.contains("private_tariff"));
    let back = decode_request_yaml(yaml.as_bytes()).unwrap();
    assert!(back.stream.private_tariff.is_none());
    let back2 = decode_request_toml(toml.as_bytes()).unwrap();
    assert!(back2.stream.private_tariff.is_none());
}
