//! The subscription registry: handles, dispatch order, wire suppression.

use dazeus::{DaZeus, Event, EventType, MemoryConnection};

/// Split a buffer of back-to-back frames into their JSON payloads.
fn split_frames(mut bytes: &[u8]) -> Vec<serde_json::Value> {
    let mut out = Vec::new();
    while !bytes.is_empty() {
        let mut len: usize = 0;
        let mut offset: usize = 0;
        while offset < bytes.len() {
            let b = bytes[offset];
            if b.is_ascii_digit() {
                len = len * 10 + usize::from(b - b'0');
                offset += 1;
            } else if b == b'\n' || b == b'\r' {
                offset += 1;
            } else {
                break;
            }
        }
        assert!(len > 0 && offset + len <= bytes.len(), "incomplete frame");
        let payload = &bytes[offset..offset + len];
        out.push(serde_json::from_slice(payload).expect("payload must be JSON"));
        bytes = &bytes[offset + len..];
    }
    out
}

fn frame(payload: &str) -> Vec<u8> {
    let mut out = payload.len().to_string().into_bytes();
    out.extend_from_slice(payload.as_bytes());
    out
}

fn success_frames(n: usize) -> Vec<u8> {
    let mut out = Vec::new();
    for _ in 0..n {
        out.extend_from_slice(&frame("{\"success\":true}"));
    }
    out
}

#[test]
fn unsubscribe_suppresses_the_wire_until_the_last_listener() {
    // Only two wire round trips happen: the first subscribe and the
    // final unsubscribe.
    let mut dz = DaZeus::new(MemoryConnection::new(success_frames(2)));
    let (h1, _) = dz.subscribe(EventType::Join).unwrap();
    let frames_after_first = split_frames(&dz.transport_ref().output).len();
    assert_eq!(frames_after_first, 1);
    let (h2, resp) = dz.subscribe(EventType::Join).unwrap();
    assert!(resp.has_success());
    assert_ne!(h1, h2);
    // The second subscription was registered locally, without a frame.
    assert_eq!(split_frames(&dz.transport_ref().output).len(), 1);
    // Removing the first listener leaves one behind: no wire message.
    let resp = dz.unsubscribe(h1).unwrap();
    assert!(resp.has_success());
    assert_eq!(split_frames(&dz.transport_ref().output).len(), 1);
    assert!(dz.has_any_subscription(EventType::Join));
    // Removing the last listener sends exactly one wire unsubscription.
    dz.unsubscribe(h2).unwrap();
    let frames = split_frames(&dz.transport_ref().output);
    assert_eq!(frames.len(), 2);
    let expected: serde_json::Value =
        serde_json::from_str("{\"do\":\"unsubscribe\",\"params\":[\"JOIN\"]}").unwrap();
    assert_eq!(frames[1], expected);
    assert!(!dz.has_any_subscription(EventType::Join));
}

#[test]
fn subscribe_sends_the_wire_subscription_first() {
    let mut dz = DaZeus::new(MemoryConnection::new(success_frames(1)));
    dz.subscribe(EventType::PrivMsg).unwrap();
    let frames = split_frames(&dz.transport_ref().output);
    let expected: serde_json::Value =
        serde_json::from_str("{\"do\":\"subscribe\",\"params\":[\"PRIVMSG\"]}").unwrap();
    assert_eq!(frames, vec![expected]);
}

#[test]
fn command_unsubscribe_is_always_local() {
    let mut dz = DaZeus::new(MemoryConnection::new(success_frames(1)));
    let (handle, _) = dz.subscribe_command("greet").unwrap();
    let frames_after_subscribe = split_frames(&dz.transport_ref().output);
    let expected: serde_json::Value =
        serde_json::from_str("{\"do\":\"command\",\"params\":[\"greet\"]}").unwrap();
    assert_eq!(frames_after_subscribe, vec![expected]);
    // Unsubscribing the only command listener sends nothing and succeeds.
    let resp = dz.unsubscribe(handle).unwrap();
    assert!(resp.has_success());
    assert_eq!(split_frames(&dz.transport_ref().output).len(), 1);
}

#[test]
fn unknown_handle_yields_a_failure_response() {
    let mut dz = DaZeus::new(MemoryConnection::new(Vec::new()));
    let resp = dz.unsubscribe(42).unwrap();
    assert!(!resp.has_success());
    assert_eq!(
        resp.get_str("reason"),
        Some("Could not find listener with given handle")
    );
    // The session is unharmed and usable.
    assert!(dz.transport_ref().output.is_empty());
    assert!(!dz.has_any_subscription(EventType::Join));
}

#[test]
fn unsubscribe_all_removes_every_listener_of_the_kind() {
    let mut dz = DaZeus::new(MemoryConnection::new(success_frames(2)));
    dz.subscribe(EventType::Join).unwrap();
    dz.subscribe(EventType::Join).unwrap();
    let resp = dz.unsubscribe_all(EventType::Join).unwrap();
    assert!(resp.has_success());
    assert!(!dz.has_any_subscription(EventType::Join));
    // One subscribe frame, one unsubscribe frame.
    assert_eq!(split_frames(&dz.transport_ref().output).len(), 2);
}

#[test]
fn unsubscribe_all_for_a_command_kind_is_local() {
    let mut dz = DaZeus::new(MemoryConnection::new(success_frames(1)));
    dz.subscribe_command("greet").unwrap();
    let resp = dz
        .unsubscribe_all(EventType::Command("greet".to_string()))
        .unwrap();
    assert!(resp.has_success());
    assert!(!dz.has_any_subscription(EventType::Command("greet".to_string())));
    assert_eq!(split_frames(&dz.transport_ref().output).len(), 1);
}

#[test]
fn dispatch_targets_follow_registration_order() {
    let mut dz = DaZeus::new(MemoryConnection::new(success_frames(2)));
    let (h1, _) = dz.subscribe(EventType::Join).unwrap();
    let (h2, _) = dz.subscribe(EventType::Part).unwrap();
    let (h3, _) = dz.subscribe(EventType::Join).unwrap();
    let join_event = Event::new(
        EventType::Join,
        vec!["net".to_string(), "user".to_string(), "chan".to_string()],
    );
    assert_eq!(dz.dispatch_targets(&join_event), vec![h1, h3]);
    let part_event = Event::new(
        EventType::Part,
        vec!["net".to_string(), "user".to_string(), "chan".to_string()],
    );
    assert_eq!(dz.dispatch_targets(&part_event), vec![h2]);
}

#[test]
fn command_listeners_match_on_the_command_name() {
    let mut dz = DaZeus::new(MemoryConnection::new(success_frames(2)));
    let (h_greet, _) = dz.subscribe_command("greet").unwrap();
    let (_h_other, _) = dz.subscribe_command("other").unwrap();
    let event = Event::new(
        EventType::Command("greet".to_string()),
        vec![
            "net".to_string(),
            "user".to_string(),
            "chan".to_string(),
            "greet".to_string(),
        ],
    );
    assert_eq!(dz.dispatch_targets(&event), vec![h_greet]);
}

#[test]
fn handles_are_issued_in_increasing_order() {
    let mut dz = DaZeus::new(MemoryConnection::new(success_frames(3)));
    let (h1, _) = dz.subscribe(EventType::Join).unwrap();
    let (h2, _) = dz.subscribe(EventType::Part).unwrap();
    let (h3, _) = dz.subscribe(EventType::Quit).unwrap();
    assert!(h1 < h2 && h2 < h3);
}
