//! Framing: length-prefixed frames on a byte stream.

use dazeus::{Handler, MemoryConnection, Message, Request};

/// Split a buffer of back-to-back frames into their JSON payloads,
/// mirroring the wire format by hand: decimal digits (with newline
/// noise allowed), then that many payload bytes.
fn split_frames(mut bytes: &[u8]) -> Vec<serde_json::Value> {
    let mut out = Vec::new();
    while !bytes.is_empty() {
        let mut len: usize = 0;
        let mut offset: usize = 0;
        while offset < bytes.len() {
            let b = bytes[offset];
            if b.is_ascii_digit() {
                len = len * 10 + usize::from(b - b'0');
                offset += 1;
            } else if b == b'\n' || b == b'\r' {
                offset += 1;
            } else {
                break;
            }
        }
        assert!(len > 0 && offset + len <= bytes.len(), "incomplete frame");
        let payload = &bytes[offset..offset + len];
        out.push(serde_json::from_slice(payload).expect("payload must be JSON"));
        bytes = &bytes[offset + len..];
    }
    out
}

fn written_request_bytes(request: Request) -> Vec<u8> {
    let mut handler = Handler::new(MemoryConnection::new(Vec::new()));
    handler.write(request).expect("write to memory cannot fail");
    handler.socket_ref().output.clone()
}

#[test]
fn encode_produces_length_prefixed_json() {
    let bytes = written_request_bytes(Request::Join("net".to_string(), "#chan".to_string()));
    let expected: serde_json::Value =
        serde_json::from_str("{\"do\":\"join\",\"params\":[\"net\",\"#chan\"]}").unwrap();
    let frames = split_frames(&bytes);
    assert_eq!(frames.len(), 1);
    assert_eq!(frames[0], expected);
    // The prefix is the decimal byte length of the payload, no separators.
    let payload_len = serde_json::to_vec(&frames[0]).unwrap().len();
    assert!(bytes.starts_with(payload_len.to_string().as_bytes()));
    assert_eq!(bytes.len(), payload_len.to_string().len() + payload_len);
}

#[test]
fn round_trip_all_at_once() {
    let bytes = written_request_bytes(Request::Join("net".to_string(), "#chan".to_string()));
    let mut reader = Handler::new(MemoryConnection::new(bytes));
    match reader.read() {
        Ok(Message::Response(resp)) => {
            // A request document has no "event" key, so it classifies as
            // a response; its fields must survive the round trip.
            assert_eq!(resp.get_str("do"), Some("join"));
        },
        other => panic!("expected a decoded frame, got {:?}", other.is_ok()),
    }
}

#[test]
fn round_trip_byte_at_a_time() {
    let bytes = written_request_bytes(Request::Nick("net".to_string()));
    let mut reader = Handler::new(MemoryConnection::with_chunk(bytes, 1));
    match reader.read() {
        Ok(Message::Response(resp)) => {
            assert_eq!(resp.get_str("get"), Some("nick"));
        },
        other => panic!("expected a decoded frame, got {:?}", other.is_ok()),
    }
}

#[test]
fn partial_frame_yields_nothing() {
    // 11 bytes promised, fewer delivered: the read must not produce a
    // frame; it runs out of input instead.
    let input = b"11{\"ab\":\"cd".to_vec();
    let mut reader = Handler::new(MemoryConnection::new(input));
    assert!(reader.read().is_err());
    // The full frame afterwards decodes to exactly one result.
    let input = b"11{\"ab\":\"cd\"}".to_vec();
    let mut reader = Handler::new(MemoryConnection::new(input));
    match reader.read() {
        Ok(Message::Response(resp)) => {
            assert_eq!(resp.get_str("ab"), Some("cd"));
        },
        other => panic!("expected a decoded frame, got {:?}", other.is_ok()),
    }
    // And nothing more is left.
    let input = b"11{\"ab\":\"cd\"}".to_vec();
    let mut reader = Handler::new(MemoryConnection::new(input));
    reader.read().unwrap();
    assert!(reader.read().is_err());
}

#[test]
fn two_back_to_back_frames_decode_in_order() {
    let mut input = b"10{\"id\":100}".to_vec();
    input.extend_from_slice(b"10{\"id\":200}");
    let mut reader = Handler::new(MemoryConnection::new(input));
    match reader.read() {
        Ok(Message::Response(first)) => match first.get("id") {
            Some(dazeus::JsonValue::Num(n)) => assert_eq!(*n, 100),
            other => panic!("wrong id field: {:?}", other),
        },
        _ => panic!("expected first frame"),
    }
    match reader.read() {
        Ok(Message::Response(second)) => match second.get("id") {
            Some(dazeus::JsonValue::Num(n)) => assert_eq!(*n, 200),
            other => panic!("wrong id field: {:?}", other),
        },
        _ => panic!("expected second frame"),
    }
}

#[test]
fn newline_noise_around_length_is_tolerated() {
    let noisy = b"\r\n7\r\n{\"a\":1}".to_vec();
    let plain = b"7{\"a\":1}".to_vec();
    for input in [noisy, plain] {
        let mut reader = Handler::new(MemoryConnection::new(input));
        match reader.read() {
            Ok(Message::Response(resp)) => match resp.get("a") {
                Some(dazeus::JsonValue::Num(n)) => assert_eq!(*n, 1),
                other => panic!("wrong field: {:?}", other),
            },
            _ => panic!("expected a decoded frame"),
        }
    }
}

#[test]
fn newline_interleaved_with_digits_is_tolerated() {
    // 11 split as 1 \n 1: the digits accumulate across the noise.
    let input = b"1\n1{\"ab\":\"cd\"}".to_vec();
    let mut reader = Handler::new(MemoryConnection::new(input));
    match reader.read() {
        Ok(Message::Response(resp)) => assert_eq!(resp.get_str("ab"), Some("cd")),
        _ => panic!("expected a decoded frame"),
    }
}

#[test]
fn invalid_json_payload_is_a_parser_error() {
    let input = b"3{\"a".to_vec();
    let mut reader = Handler::new(MemoryConnection::new(input));
    match reader.read() {
        Err(dazeus::Error::JsonParserError(_)) => {},
        other => panic!("expected a parser error, got ok={}", other.is_ok()),
    }
}

#[test]
fn end_of_stream_is_an_io_error() {
    let mut reader = Handler::new(MemoryConnection::new(Vec::new()));
    match reader.read() {
        Err(dazeus::Error::IoError(_)) => {},
        other => panic!("expected an I/O error, got ok={}", other.is_ok()),
    }
}

#[test]
fn three_digit_lengths_frame_correctly() {
    let long_text = "x".repeat(150);
    let bytes = written_request_bytes(Request::Message(
        "net".to_string(),
        "#chan".to_string(),
        long_text.clone(),
    ));
    // The length prefix has three digits now.
    assert!(bytes[0].is_ascii_digit() && bytes[1].is_ascii_digit() && bytes[2].is_ascii_digit());
    let mut reader = Handler::new(MemoryConnection::new(bytes));
    match reader.read() {
        Ok(Message::Response(resp)) => match resp.get("params") {
            Some(dazeus::JsonValue::Arr(params)) => match &params[2] {
                dazeus::JsonValue::Str(s) => assert_eq!(s, &long_text),
                other => panic!("wrong message param: {:?}", other),
            },
            other => panic!("wrong params field: {:?}", other),
        },
        _ => panic!("expected a decoded frame"),
    }
}
