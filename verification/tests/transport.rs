use pathfinder::transport::{encode_frame, parse_frame, FrameError, FrameResult};

fn frame_of(body: &[u8]) -> Vec<u8> {
    encode_frame(&body.to_vec())
}

#[test]
fn round_trip_json_payload() {
    let payload = br#"{"jsonrpc": "2.0", "id": 1, "method": "test"}"#.to_vec();
    let wire = encode_frame(&payload);
    match parse_frame(&wire, false) {
        FrameResult::Frame { body, consumed } => {
            assert_eq!(body, payload);
            assert_eq!(consumed, wire.len());
        }
        _ => panic!("expected a complete frame"),
    }
}

#[test]
fn eof_returns_none() {
    match parse_frame(&Vec::new(), true) {
        FrameResult::NoMessage => {}
        _ => panic!("a cleanly closed empty stream must yield no message, not an error"),
    }
}

#[test]
fn encode_writes_exact_header() {
    let wire = encode_frame(&b"hello".to_vec());
    assert_eq!(wire, b"Content-Length: 5\r\n\r\nhello".to_vec());
}

#[test]
fn round_trip_leaves_later_bytes() {
    let mut wire = frame_of(b"{}");
    let second = frame_of(b"[1,2]");
    wire.extend_from_slice(&second);
    match parse_frame(&wire, false) {
        FrameResult::Frame { body, consumed } => {
            assert_eq!(body, b"{}".to_vec());
            assert_eq!(&wire[consumed..], &second[..]);
        }
        _ => panic!("expected the first frame"),
    }
}

#[test]
fn header_name_is_case_insensitive() {
    let wire = b"CONTENT-LENGTH: 2\r\n\r\nok".to_vec();
    match parse_frame(&wire, false) {
        FrameResult::Frame { body, .. } => assert_eq!(body, b"ok".to_vec()),
        _ => panic!("uppercase header name must be accepted"),
    }
}

#[test]
fn non_header_line_is_ignored() {
    let wire = b"garbage line\r\nContent-Length: 2\r\n\r\nok".to_vec();
    match parse_frame(&wire, false) {
        FrameResult::Frame { body, .. } => assert_eq!(body, b"ok".to_vec()),
        _ => panic!("a line without a colon is discarded, not fatal"),
    }
}

#[test]
fn missing_content_length_is_fatal() {
    let wire = b"Content-Type: text\r\n\r\nxx".to_vec();
    match parse_frame(&wire, false) {
        FrameResult::Fail(e) => assert_eq!(e, FrameError::MissingContentLength),
        _ => panic!("a block without content-length must fail"),
    }
}

#[test]
fn unparsable_content_length_is_fatal() {
    let wire = b"Content-Length: abc\r\n\r\nxx".to_vec();
    match parse_frame(&wire, false) {
        FrameResult::Fail(e) => assert_eq!(e, FrameError::InvalidContentLength),
        _ => panic!("a non-numeric length must fail"),
    }
}

#[test]
fn eof_inside_headers_is_fatal() {
    let wire = b"Content-Length: 5\r\n".to_vec();
    match parse_frame(&wire, true) {
        FrameResult::Fail(e) => assert_eq!(e, FrameError::TruncatedHeaders),
        _ => panic!("end of stream after a header line must fail"),
    }
}

#[test]
fn eof_inside_body_is_fatal() {
    let wire = b"Content-Length: 5\r\n\r\nab".to_vec();
    match parse_frame(&wire, true) {
        FrameResult::Fail(e) => assert_eq!(e, FrameError::TruncatedBody),
        _ => panic!("end of stream before the full body must fail"),
    }
}

#[test]
fn short_input_asks_for_more() {
    let wire = b"Content-Length: 5\r\n\r\nab".to_vec();
    assert!(matches!(parse_frame(&wire, false), FrameResult::Incomplete));
    let partial_header = b"Content-Len".to_vec();
    assert!(matches!(parse_frame(&partial_header, false), FrameResult::Incomplete));
}

#[test]
fn blank_lines_before_frame_are_skipped() {
    let wire = b"\r\n\r\nContent-Length: 2\r\n\r\nok".to_vec();
    match parse_frame(&wire, false) {
        FrameResult::Frame { body, .. } => assert_eq!(body, b"ok".to_vec()),
        _ => panic!("leading blank lines are skipped"),
    }
}

#[test]
fn last_content_length_wins() {
    let wire = b"Content-Length: 9\r\nContent-Length: 2\r\n\r\nok".to_vec();
    match parse_frame(&wire, false) {
        FrameResult::Frame { body, .. } => assert_eq!(body, b"ok".to_vec()),
        _ => panic!("the last content-length header is the one used"),
    }
}
