//! Session behavior: request/response correlation and dispatch.

use dazeus::{DaZeus, EventType, JsonValue, MemoryConnection, Request};

/// Split a buffer of back-to-back frames into their JSON payloads.
fn split_frames(mut bytes: &[u8]) -> Vec<serde_json::Value> {
    let mut out = Vec::new();
    while !bytes.is_empty() {
        let mut len: usize = 0;
        let mut offset: usize = 0;
        while offset < bytes.len() {
            let b = bytes[offset];
            if b.is_ascii_digit() {
                len = len * 10 + usize::from(b - b'0');
                offset += 1;
            } else if b == b'\n' || b == b'\r' {
                offset += 1;
            } else {
                break;
            }
        }
        assert!(len > 0 && offset + len <= bytes.len(), "incomplete frame");
        let payload = &bytes[offset..offset + len];
        out.push(serde_json::from_slice(payload).expect("payload must be JSON"));
        bytes = &bytes[offset + len..];
    }
    out
}

fn frame(payload: &str) -> Vec<u8> {
    let mut out = payload.len().to_string().into_bytes();
    out.extend_from_slice(payload.as_bytes());
    out
}

#[test]
fn end_to_end_join_over_memory_buffer() {
    let input = frame("{\"ok\":1}");
    let mut dz = DaZeus::new(MemoryConnection::new(input));
    let resp = dz
        .join("net", "#chan")
        .expect("a response frame is waiting");
    // The request on the wire is the framed JSON document for join.
    let frames = split_frames(&dz.transport_ref().output);
    assert_eq!(frames.len(), 1);
    let expected: serde_json::Value =
        serde_json::from_str("{\"do\":\"join\",\"params\":[\"net\",\"#chan\"]}").unwrap();
    assert_eq!(frames[0], expected);
    // The response wraps the injected document.
    match resp.get("ok") {
        Some(JsonValue::Num(n)) => assert_eq!(*n, 1),
        other => panic!("wrong response field: {:?}", other),
    }
}

#[test]
fn responses_resolve_requests_in_fifo_order() {
    let mut input = frame("{\"id\":1}");
    input.extend_from_slice(&frame("{\"id\":2}"));
    let mut dz = DaZeus::new(MemoryConnection::new(input));
    dz.send_request(Request::Networks).unwrap();
    dz.send_request(Request::Nick("net".to_string())).unwrap();
    let first = dz.recv_response().unwrap();
    let second = dz.recv_response().unwrap();
    match (first.get("id"), second.get("id")) {
        (Some(JsonValue::Num(a)), Some(JsonValue::Num(b))) => {
            assert_eq!(*a, 1);
            assert_eq!(*b, 2);
        },
        other => panic!("responses out of order: {:?}", other),
    }
}

#[test]
fn events_seen_while_waiting_are_queued() {
    let mut input = frame("{\"event\":\"JOIN\",\"params\":[\"net\",\"chan\",\"user\"]}");
    input.extend_from_slice(&frame("{\"success\":true}"));
    let mut dz = DaZeus::new(MemoryConnection::new(input));
    let resp = dz.networks().unwrap();
    assert!(resp.has_success());
    let events = dz.take_queued_events();
    assert_eq!(events.len(), 1);
    assert_eq!(events[0].event, EventType::Join);
    assert_eq!(events[0].param(2), "user");
    assert!(dz.take_queued_events().is_empty());
}

#[test]
fn try_next_event_returns_events() {
    let input = frame("{\"event\":\"PART\",\"params\":[\"net\",\"chan\",\"user\"]}");
    let mut dz = DaZeus::new(MemoryConnection::new(input));
    let event = dz.try_next_event().unwrap();
    assert_eq!(event.event, EventType::Part);
}

#[test]
fn orphan_response_is_a_protocol_violation() {
    let input = frame("{\"success\":true}");
    let mut dz = DaZeus::new(MemoryConnection::new(input));
    match dz.try_next_event() {
        Err(dazeus::Error::ReceiveError(_)) => {},
        other => panic!("expected a receive error, got ok={}", other.is_ok()),
    }
    // The violation closes the session: further operations fail locally.
    assert!(dz.closed());
    match dz.networks() {
        Err(dazeus::Error::ConnectionClosed) => {},
        other => panic!("expected the closed error, got ok={}", other.is_ok()),
    }
}

#[test]
fn recv_without_pending_request_is_a_receive_error() {
    let input = frame("{\"success\":true}");
    let mut dz = DaZeus::new(MemoryConnection::new(input));
    match dz.recv_response() {
        Err(dazeus::Error::ReceiveError(_)) => {},
        other => panic!("expected a receive error, got ok={}", other.is_ok()),
    }
}

#[test]
fn transport_failure_closes_the_session() {
    let mut dz = DaZeus::new(MemoryConnection::new(Vec::new()));
    match dz.networks() {
        Err(dazeus::Error::IoError(_)) => {},
        other => panic!("expected an I/O error, got ok={}", other.is_ok()),
    }
    match dz.networks() {
        Err(dazeus::Error::ConnectionClosed) => {},
        other => panic!("expected the closed error, got ok={}", other.is_ok()),
    }
}

#[test]
fn whois_waits_for_the_matching_event() {
    // A whois needs: a response to the temporary subscribe, a response
    // to the whois request, an unrelated event to skip, and the
    // matching whois event.
    let mut input = frame("{\"success\":true}");
    input.extend_from_slice(&frame("{\"success\":true}"));
    input.extend_from_slice(&frame(
        "{\"event\":\"WHOIS\",\"params\":[\"other\",\"x\",\"someone\"]}",
    ));
    input.extend_from_slice(&frame(
        "{\"event\":\"WHOIS\",\"params\":[\"net\",\"x\",\"target\",\"yes\"]}",
    ));
    // ... and a response to the temporary unsubscribe.
    input.extend_from_slice(&frame("{\"success\":true}"));
    let mut dz = DaZeus::new(MemoryConnection::new(input));
    let event = dz.whois("net", "target").expect("the matching event arrives");
    assert_eq!(event.event, EventType::Whois);
    assert_eq!(event.param(0), "net");
    assert_eq!(event.param(2), "target");
    // The skipped event was queued for dispatch, not lost.
    let queued = dz.take_queued_events();
    assert_eq!(queued.len(), 1);
    assert_eq!(queued[0].param(2), "someone");
}

#[test]
fn reply_answers_into_the_channel() {
    // One response for the nick query, one for the message.
    let mut input = frame("{\"nick\":\"botname\"}");
    input.extend_from_slice(&frame("{\"success\":true}"));
    let mut dz = DaZeus::new(MemoryConnection::new(input));
    let event = dazeus::Event::new(
        EventType::PrivMsg,
        vec![
            "net".to_string(),
            "user".to_string(),
            "#chan".to_string(),
            "hello".to_string(),
        ],
    );
    let resp = dz.reply(&event, "hi there", true).unwrap();
    assert!(resp.has_success());
    let frames = split_frames(&dz.transport_ref().output);
    assert_eq!(frames.len(), 2);
    let nick_doc: serde_json::Value =
        serde_json::from_str("{\"get\":\"nick\",\"params\":[\"net\"]}").unwrap();
    assert_eq!(frames[0], nick_doc);
    // The channel is not the bot's nick, and highlighting is on: the
    // message goes to the channel, prefixed with the sender's nick.
    let msg_doc: serde_json::Value = serde_json::from_str(
        "{\"do\":\"message\",\"params\":[\"net\",\"#chan\",\"user: hi there\"]}",
    )
    .unwrap();
    assert_eq!(frames[1], msg_doc);
}

#[test]
fn reply_to_a_non_repliable_event_fails_locally() {
    let mut dz = DaZeus::new(MemoryConnection::new(Vec::new()));
    let event = dazeus::Event::new(EventType::Quit, vec!["net".to_string()]);
    let resp = dz.reply(&event, "hi", false).unwrap();
    assert!(!resp.has_success());
    assert_eq!(resp.get_str("reason"), Some("Not an event to reply to"));
    assert!(dz.transport_ref().output.is_empty());
}
