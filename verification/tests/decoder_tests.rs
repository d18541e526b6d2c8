use discotech::decoder::decode_member;
use discotech::record::DecodeError;

#[test]
fn decodes_alive_member() {
    let raw = br#"{"serviceEndpoint": {"host": "h1", "port": 1}, "additionalEndpoints": {}, "status": "ALIVE"}"#;
    let m = decode_member(raw).unwrap();
    assert_eq!(m.service_endpoint.host, "h1");
    assert_eq!(m.service_endpoint.port, 1);
    assert_eq!(m.status, "ALIVE");
    assert_eq!(m.additional_endpoints.len(), 0);
}

#[test]
fn decodes_fields_in_any_order() {
    let raw = br#"{ "status" : "ALIVE" , "additionalEndpoints" : {} , "serviceEndpoint" : { "port" : 8080 , "host" : "node.example" } }"#;
    let m = decode_member(raw).unwrap();
    assert_eq!(m.service_endpoint.host, "node.example");
    assert_eq!(m.service_endpoint.port, 8080);
    assert_eq!(m.status, "ALIVE");
}

#[test]
fn decodes_additional_endpoints() {
    let raw = br#"{"serviceEndpoint": {"host": "h", "port": 1}, "additionalEndpoints": {"admin": {"host": "a", "port": 2}, "metrics": {"host": "m", "port": 3}}, "status": "ALIVE"}"#;
    let m = decode_member(raw).unwrap();
    assert_eq!(m.additional_endpoints.len(), 2);
    assert_eq!(m.additional_endpoints[0].0, "admin");
    assert_eq!(m.additional_endpoints[0].1.host, "a");
    assert_eq!(m.additional_endpoints[0].1.port, 2);
    assert_eq!(m.additional_endpoints[1].0, "metrics");
    assert_eq!(m.additional_endpoints[1].1.host, "m");
    assert_eq!(m.additional_endpoints[1].1.port, 3);
}

#[test]
fn decodes_string_escapes() {
    let raw = br#"{"serviceEndpoint": {"host": "a\"b\\c\/d\te", "port": 9}, "additionalEndpoints": {}, "status": "ALIVE"}"#;
    let m = decode_member(raw).unwrap();
    assert_eq!(m.service_endpoint.host, "a\"b\\c/d\te");
}

#[test]
fn decodes_multibyte_utf8_host() {
    let raw = "{\"serviceEndpoint\": {\"host\": \"h\u{e9}te\", \"port\": 4}, \"additionalEndpoints\": {}, \"status\": \"ALIVE\"}".as_bytes();
    let m = decode_member(raw).unwrap();
    assert_eq!(m.service_endpoint.host, "h\u{e9}te");
}

#[test]
fn decodes_non_alive_status() {
    let raw = br#"{"serviceEndpoint": {"host": "h2", "port": 2}, "additionalEndpoints": {}, "status": "DEAD"}"#;
    let m = decode_member(raw).unwrap();
    assert_eq!(m.status, "DEAD");
}

#[test]
fn rejects_bad_utf8_as_utf8_error() {
    let raw: &[u8] = &[0xff, 0xfe, 0x7b, 0x7d];
    assert!(matches!(decode_member(raw), Err(DecodeError::Utf8)));
}

#[test]
fn rejects_non_json_as_malformed() {
    assert!(matches!(decode_member(b"not a record"), Err(DecodeError::Malformed)));
}

#[test]
fn rejects_missing_field() {
    let raw = br#"{"serviceEndpoint": {"host": "h", "port": 1}, "status": "ALIVE"}"#;
    assert!(matches!(decode_member(raw), Err(DecodeError::Malformed)));
}

#[test]
fn repeated_member_field_keeps_last_value() {
    let raw = br#"{"serviceEndpoint": {"host": "h", "port": 1}, "additionalEndpoints": {}, "status": "DEAD", "status": "ALIVE"}"#;
    let m = decode_member(raw).unwrap();
    assert_eq!(m.status, "ALIVE");
}

#[test]
fn repeated_endpoint_field_keeps_last_value() {
    let raw = br#"{"serviceEndpoint": {"host": "h", "port": 1, "port": 7}, "additionalEndpoints": {}, "status": "ALIVE"}"#;
    let m = decode_member(raw).unwrap();
    assert_eq!(m.service_endpoint.port, 7);
}

#[test]
fn unknown_member_fields_ignored() {
    let raw = br#"{"shard": 3, "serviceEndpoint": {"host": "h", "port": 1}, "weight": -1.5e+3, "additionalEndpoints": {}, "status": "ALIVE", "meta": {"a": [1, true, null, "x", {}], "b": []}, "draining": false}"#;
    let m = decode_member(raw).unwrap();
    assert_eq!(m.service_endpoint.host, "h");
    assert_eq!(m.status, "ALIVE");
}

#[test]
fn unknown_endpoint_field_ignored() {
    let raw = br#"{"serviceEndpoint": {"host": "h", "zone": "east", "port": 1}, "additionalEndpoints": {}, "status": "ALIVE"}"#;
    let m = decode_member(raw).unwrap();
    assert_eq!(m.service_endpoint.host, "h");
    assert_eq!(m.service_endpoint.port, 1);
}

#[test]
fn unknown_field_with_bad_value_rejected() {
    let raw = br#"{"serviceEndpoint": {"host": "h", "port": 1}, "x": 01, "additionalEndpoints": {}, "status": "ALIVE"}"#;
    assert!(matches!(decode_member(raw), Err(DecodeError::Malformed)));
}

#[test]
fn decodes_u_escapes() {
    let raw = br#"{"serviceEndpoint": {"host": "h\u00e9te\u0041", "port": 1}, "additionalEndpoints": {}, "status": "ALIVE"}"#;
    let m = decode_member(raw).unwrap();
    assert_eq!(m.service_endpoint.host, "h\u{e9}teA");
    assert_eq!(m.status, "ALIVE");
}

#[test]
fn decodes_surrogate_pair_escape() {
    let raw = br#"{"serviceEndpoint": {"host": "h-\uD834\uDD1E", "port": 1}, "additionalEndpoints": {}, "status": "ALIVE"}"#;
    let m = decode_member(raw).unwrap();
    assert_eq!(m.service_endpoint.host, "h-\u{1D11E}");
}

#[test]
fn rejects_lone_surrogate_escape() {
    let raw = br#"{"serviceEndpoint": {"host": "h\uD834", "port": 1}, "additionalEndpoints": {}, "status": "ALIVE"}"#;
    assert!(matches!(decode_member(raw), Err(DecodeError::Malformed)));
    let raw2 = br#"{"serviceEndpoint": {"host": "h\uDD1Ex", "port": 1}, "additionalEndpoints": {}, "status": "ALIVE"}"#;
    assert!(matches!(decode_member(raw2), Err(DecodeError::Malformed)));
}

#[test]
fn rejects_repeated_role() {
    let raw = br#"{"serviceEndpoint": {"host": "h", "port": 1}, "additionalEndpoints": {"x": {"host": "a", "port": 2}, "x": {"host": "b", "port": 3}}, "status": "ALIVE"}"#;
    assert!(matches!(decode_member(raw), Err(DecodeError::Malformed)));
}

#[test]
fn accepts_largest_port() {
    let raw = br#"{"serviceEndpoint": {"host": "h", "port": 65535}, "additionalEndpoints": {}, "status": "ALIVE"}"#;
    let m = decode_member(raw).unwrap();
    assert_eq!(m.service_endpoint.port, 65535);
}

#[test]
fn rejects_port_too_large() {
    let raw = br#"{"serviceEndpoint": {"host": "h", "port": 65536}, "additionalEndpoints": {}, "status": "ALIVE"}"#;
    assert!(matches!(decode_member(raw), Err(DecodeError::Malformed)));
}

#[test]
fn rejects_port_with_leading_zero() {
    let raw = br#"{"serviceEndpoint": {"host": "h", "port": 080}, "additionalEndpoints": {}, "status": "ALIVE"}"#;
    assert!(matches!(decode_member(raw), Err(DecodeError::Malformed)));
}

#[test]
fn accepts_port_zero() {
    let raw = br#"{"serviceEndpoint": {"host": "h", "port": 0}, "additionalEndpoints": {}, "status": "ALIVE"}"#;
    let m = decode_member(raw).unwrap();
    assert_eq!(m.service_endpoint.port, 0);
}

#[test]
fn rejects_trailing_content() {
    let raw = br#"{"serviceEndpoint": {"host": "h", "port": 1}, "additionalEndpoints": {}, "status": "ALIVE"} x"#;
    assert!(matches!(decode_member(raw), Err(DecodeError::Malformed)));
}

#[test]
fn rejects_empty_payload() {
    assert!(matches!(decode_member(b""), Err(DecodeError::Malformed)));
    assert!(matches!(decode_member(b"   "), Err(DecodeError::Malformed)));
}

#[test]
fn rejects_unescaped_control_byte() {
    let raw = b"{\"serviceEndpoint\": {\"host\": \"h\x01\", \"port\": 1}, \"additionalEndpoints\": {}, \"status\": \"ALIVE\"}";
    assert!(matches!(decode_member(raw), Err(DecodeError::Malformed)));
}
