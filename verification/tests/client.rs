use frameclient::client::{
    build_request, handle_read_event, process_response, validate_response, FrameReader, ReadEvent,
};
use frameclient::codec::{extract_payload, message_to_bytes, parse_message, Message};
use frameclient::errors::RequestError;

fn message(request_id: &str, method_name: &str, error: &str, body: &[u8]) -> Message {
    Message {
        request_id: request_id.to_string(),
        method_name: method_name.to_string(),
        error: error.to_string(),
        body: body.to_vec(),
    }
}

/// Runs the response bytes through the byte-at-a-time client path and
/// hands the accumulated payload to `process_response`.
fn receive(expected_id: &str, response_frame: &[u8]) -> Result<Vec<u8>, RequestError> {
    let mut reader = FrameReader::new();
    let mut complete = false;
    for &b in response_frame {
        if handle_read_event(&mut reader, ReadEvent::Byte(b)).unwrap() {
            complete = true;
            break;
        }
    }
    assert!(complete, "response frame must end in the terminator");
    process_response(expected_id, &reader.into_payload())
}

#[test]
fn build_request_produces_a_decodable_frame() {
    let (request, frame) = build_request("getnssusers", b"payload");
    assert_eq!(frame, message_to_bytes(&request));
    assert_eq!(*frame.last().unwrap(), 0x1F);
    let payload = extract_payload(&frame).expect("frame must carry its payload");
    let decoded = parse_message(&payload).expect("a request frame must decode");
    assert_eq!(decoded.request_id, request.request_id);
    assert_eq!(decoded.method_name, "getnssusers");
    assert_eq!(decoded.error, "");
    assert_eq!(decoded.body, b"payload".to_vec());
}

#[test]
fn correlation_ids_are_fresh_and_well_formed() {
    let (first, _) = build_request("m", b"");
    let (second, _) = build_request("m", b"");
    assert_ne!(first.request_id, second.request_id);
    for id in [&first.request_id, &second.request_id] {
        assert_eq!(id.len(), 36);
        assert!(id
            .chars()
            .all(|c| c == '-' || c.is_ascii_digit() || ('a'..='f').contains(&c)));
    }
}

#[test]
fn frame_reader_accumulates_until_terminator() {
    let mut reader = FrameReader::new();
    assert!(!reader.is_done());
    assert!(!reader.push_byte(b'h'));
    assert!(!reader.push_byte(b'i'));
    assert!(reader.push_byte(0x1F));
    assert!(reader.is_done());
    assert_eq!(reader.into_payload(), b"hi".to_vec());
}

#[test]
fn timeout_event_fails_with_timeout() {
    let mut reader = FrameReader::new();
    let r = handle_read_event(&mut reader, ReadEvent::TimedOut);
    assert!(matches!(r, Err(RequestError::Timeout)));
}

#[test]
fn end_of_stream_fails_with_connection_error() {
    let mut reader = FrameReader::new();
    let r = handle_read_event(&mut reader, ReadEvent::EndOfStream);
    assert!(matches!(r, Err(RequestError::Connection)));
}

#[test]
fn read_failure_fails_with_connection_error() {
    let mut reader = FrameReader::new();
    let r = handle_read_event(&mut reader, ReadEvent::Failed);
    assert!(matches!(r, Err(RequestError::Connection)));
}

#[test]
fn correlation_mismatch_discards_the_body() {
    let response = message("other-id", "", "", b"secret");
    let r = validate_response("sent-id", response);
    match r {
        Err(RequestError::CorrelationMismatch { sent, received }) => {
            assert_eq!(sent, "sent-id");
            assert_eq!(received, "other-id");
        },
        other => panic!("expected a correlation mismatch, got {:?}", other),
    }
}

#[test]
fn matching_id_returns_the_body() {
    let response = message("sent-id", "", "", b"result");
    let r = validate_response("sent-id", response);
    assert_eq!(r.unwrap(), b"result".to_vec());
}

#[test]
fn application_error_wins_over_matching_id() {
    let response = message("sent-id", "", "boom", b"ignored");
    let r = validate_response("sent-id", response);
    match r {
        Err(RequestError::Application { message }) => assert_eq!(message, "boom"),
        other => panic!("expected an application error, got {:?}", other),
    }
}

#[test]
fn application_error_wins_over_mismatched_id() {
    let response = message("other-id", "", "boom", b"ignored");
    let r = validate_response("sent-id", response);
    match r {
        Err(RequestError::Application { message }) => assert_eq!(message, "boom"),
        other => panic!("expected an application error, got {:?}", other),
    }
}

#[test]
fn malformed_response_is_a_protocol_error() {
    let r = process_response("sent-id", b"only\x1Etwo");
    assert!(matches!(r, Err(RequestError::Protocol { .. })));
}

#[test]
fn ping_pong_exchange_returns_the_response_body() {
    let (request, frame) = build_request("ping", b"");
    // A correct peer decodes the request and echoes the identifier back.
    let request_seen = parse_message(&extract_payload(&frame).unwrap()).unwrap();
    assert_eq!(request_seen.method_name, "ping");
    assert_eq!(request_seen.body, b"".to_vec());
    let reply = message(&request_seen.request_id, "", "", b"pong");
    let r = receive(&request.request_id, &message_to_bytes(&reply));
    assert_eq!(r.unwrap(), b"pong".to_vec());
}

#[test]
fn peer_error_surfaces_its_text() {
    let (request, _) = build_request("lookup", b"missing");
    let reply = message(&request.request_id, "", "not found", b"");
    let r = receive(&request.request_id, &message_to_bytes(&reply));
    match r {
        Err(e) => {
            let text = e.describe();
            assert!(text.contains("not found"), "unexpected text: {}", text);
        },
        Ok(_) => panic!("an application error must fail the exchange"),
    }
}
