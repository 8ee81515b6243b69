use frameclient::codec::{
    extract_payload, message_delim, message_to_bytes, metadata_delim, parse_message, Message,
};
use frameclient::errors::DecodeError;

fn message(request_id: &str, method_name: &str, error: &str, body: &[u8]) -> Message {
    Message {
        request_id: request_id.to_string(),
        method_name: method_name.to_string(),
        error: error.to_string(),
        body: body.to_vec(),
    }
}

#[test]
fn delimiter_values() {
    assert_eq!(metadata_delim(), &[0x1E]);
    assert_eq!(message_delim(), 0x1F);
}

#[test]
fn encode_exact_layout() {
    let frame = message_to_bytes(&message("id", "ping", "", b"xy"));
    let expected = b"id\x1Eping\x1E\x1Exy\x1F".to_vec();
    assert_eq!(frame, expected);
}

#[test]
fn round_trip_basic() {
    let original = message("abc-123", "ping", "", &[1, 2, 3]);
    let frame = message_to_bytes(&original);
    let payload = extract_payload(&frame).expect("frame must carry its payload");
    let decoded = parse_message(&payload).expect("payload must decode");
    assert_eq!(decoded.request_id, "abc-123");
    assert_eq!(decoded.method_name, "ping");
    assert_eq!(decoded.error, "");
    assert_eq!(decoded.body, vec![1, 2, 3]);
}

#[test]
fn round_trip_empty_fields() {
    let original = message("", "", "", b"");
    let frame = message_to_bytes(&original);
    assert_eq!(frame, vec![0x1E, 0x1E, 0x1E, 0x1F]);
    let payload = extract_payload(&frame).expect("frame must carry its payload");
    let decoded = parse_message(&payload).expect("payload must decode");
    assert_eq!(decoded.request_id, "");
    assert_eq!(decoded.method_name, "");
    assert_eq!(decoded.error, "");
    assert_eq!(decoded.body, Vec::<u8>::new());
}

#[test]
fn round_trip_non_ascii_text() {
    let original = message("id-1", "gr\u{00fc}ssen", "d\u{00e9}tail", b"\x00\xFF");
    let frame = message_to_bytes(&original);
    let payload = extract_payload(&frame).expect("frame must carry its payload");
    let decoded = parse_message(&payload).expect("payload must decode");
    assert_eq!(decoded.request_id, "id-1");
    assert_eq!(decoded.method_name, "gr\u{00fc}ssen");
    assert_eq!(decoded.error, "d\u{00e9}tail");
    assert_eq!(decoded.body, vec![0x00, 0xFF]);
}

#[test]
fn too_few_fields_rejected() {
    let r = parse_message(b"a\x1Eb\x1Ec");
    assert_eq!(r.unwrap_err(), DecodeError::WrongFieldCount { parts: 3 });
}

#[test]
fn too_many_fields_rejected() {
    let r = parse_message(b"a\x1Eb\x1Ec\x1Ed\x1Ee");
    assert_eq!(r.unwrap_err(), DecodeError::WrongFieldCount { parts: 5 });
}

#[test]
fn empty_payload_is_one_field() {
    let r = parse_message(b"");
    assert_eq!(r.unwrap_err(), DecodeError::WrongFieldCount { parts: 1 });
}

#[test]
fn separator_in_body_breaks_decoding() {
    let original = message("id", "m", "", b"a\x1Eb");
    let frame = message_to_bytes(&original);
    let payload = extract_payload(&frame).expect("frame must carry its payload");
    let r = parse_message(&payload);
    assert_eq!(r.unwrap_err(), DecodeError::WrongFieldCount { parts: 5 });
}

#[test]
fn invalid_text_first_field_rejected() {
    let r = parse_message(b"\xFF\x1Em\x1E\x1Ebody");
    assert_eq!(r.unwrap_err(), DecodeError::InvalidText { field: 0 });
}

#[test]
fn invalid_text_second_field_rejected() {
    let r = parse_message(b"id\x1E\xC0\x28\x1E\x1Ebody");
    assert_eq!(r.unwrap_err(), DecodeError::InvalidText { field: 1 });
}

#[test]
fn invalid_text_third_field_rejected() {
    let r = parse_message(b"id\x1Em\x1E\x80\x1Ebody");
    assert_eq!(r.unwrap_err(), DecodeError::InvalidText { field: 2 });
}

#[test]
fn invalid_body_bytes_are_fine() {
    let r = parse_message(b"id\x1Em\x1E\x1E\xFF\xFE");
    let decoded = r.expect("body bytes are opaque");
    assert_eq!(decoded.body, vec![0xFF, 0xFE]);
}

#[test]
fn extract_without_terminator_yields_nothing() {
    assert!(extract_payload(b"id\x1Em\x1E\x1Ebody").is_none());
    assert!(extract_payload(b"").is_none());
}

#[test]
fn extract_stops_at_first_terminator() {
    let payload = extract_payload(b"ab\x1Fcd\x1F").expect("terminator present");
    assert_eq!(payload, b"ab".to_vec());
}
