//! Classification and event parsing.

use dazeus::{is_event_json, Event, EventType, JsonValue};

fn obj(fields: Vec<(&str, JsonValue)>) -> JsonValue {
    JsonValue::Obj(fields.into_iter().map(|(k, v)| (k.to_string(), v)).collect())
}

fn strings(items: Vec<&str>) -> JsonValue {
    JsonValue::Arr(items.into_iter().map(|s| JsonValue::Str(s.to_string())).collect())
}

#[test]
fn join_event_classifies_as_event() {
    let doc = obj(vec![
        ("event", JsonValue::Str("JOIN".to_string())),
        ("params", strings(vec!["net", "chan", "user"])),
    ]);
    assert!(is_event_json(&doc));
    let event = Event::from_json(&doc).expect("a JOIN event parses");
    assert_eq!(event.event, EventType::Join);
    assert_eq!(event.len(), 3);
    assert_eq!(event.param(0), "net");
    assert_eq!(event.param(1), "chan");
    assert_eq!(event.param(2), "user");
}

#[test]
fn success_object_classifies_as_response() {
    let doc = obj(vec![("success", JsonValue::Bool(true))]);
    assert!(!is_event_json(&doc));
}

#[test]
fn command_event_takes_its_name_from_the_fourth_param() {
    let doc = obj(vec![
        ("event", JsonValue::Str("COMMAND".to_string())),
        ("params", strings(vec!["net", "chan", "user", "greet"])),
    ]);
    assert!(is_event_json(&doc));
    let event = Event::from_json(&doc).expect("a COMMAND event parses");
    assert_eq!(event.event, EventType::Command("greet".to_string()));
    assert_eq!(event.len(), 4);
    assert_eq!(event.param(3), "greet");
}

#[test]
fn command_event_with_three_params_is_invalid() {
    let doc = obj(vec![
        ("event", JsonValue::Str("COMMAND".to_string())),
        ("params", strings(vec!["net", "chan", "user"])),
    ]);
    assert!(Event::from_json(&doc).is_err());
}

#[test]
fn unknown_event_name_is_invalid() {
    let doc = obj(vec![
        ("event", JsonValue::Str("NO_SUCH_EVENT".to_string())),
        ("params", strings(vec![])),
    ]);
    assert!(Event::from_json(&doc).is_err());
}

#[test]
fn event_without_params_is_invalid() {
    let doc = obj(vec![("event", JsonValue::Str("JOIN".to_string()))]);
    assert!(Event::from_json(&doc).is_err());
}

#[test]
fn non_string_params_are_skipped() {
    let doc = obj(vec![
        ("event", JsonValue::Str("JOIN".to_string())),
        (
            "params",
            JsonValue::Arr(vec![
                JsonValue::Str("net".to_string()),
                JsonValue::Num(5),
                JsonValue::Str("chan".to_string()),
            ]),
        ),
    ]);
    let event = Event::from_json(&doc).expect("parses");
    assert_eq!(event.len(), 2);
    assert_eq!(event.param(0), "net");
    assert_eq!(event.param(1), "chan");
}

#[test]
fn event_names_parse_case_insensitively() {
    assert_eq!(EventType::from_str("join"), Ok(EventType::Join));
    assert_eq!(EventType::from_str("Join"), Ok(EventType::Join));
    assert_eq!(EventType::from_str("PRIVMSG"), Ok(EventType::PrivMsg));
    assert_eq!(EventType::from_str("ctcp_rep"), Ok(EventType::CtcpReply));
    assert!(EventType::from_str("bogus").is_err());
}

#[test]
fn command_names_parse_from_their_prefix() {
    // The whole string is uppercased first, the prefix is checked, and
    // what follows the eighth character becomes the command's name.
    assert_eq!(
        EventType::from_str("COMMAND_greet"),
        Ok(EventType::Command("GREET".to_string()))
    );
    // Eight characters or fewer leave nothing to name a command with.
    assert!(EventType::from_str("COMMAND_").is_err());
    assert!(EventType::from_str("COMMAND").is_err());
}

#[test]
fn event_names_print_in_wire_form() {
    assert_eq!(EventType::Join.to_string(), "JOIN");
    assert_eq!(EventType::CtcpReply.to_string(), "CTCP_REP");
    assert_eq!(EventType::PrivMsgMe.to_string(), "PRIVMSG_ME");
    assert_eq!(
        EventType::Command("greet".to_string()).to_string(),
        "COMMAND_greet"
    );
}

#[test]
fn event_kinds_compare_by_kind_and_command_name() {
    assert_eq!(EventType::Join, EventType::Join);
    assert_ne!(EventType::Join, EventType::Part);
    assert_eq!(
        EventType::Command("a".to_string()),
        EventType::Command("a".to_string())
    );
    assert_ne!(
        EventType::Command("a".to_string()),
        EventType::Command("b".to_string())
    );
}

#[test]
fn events_compare_by_kind_and_params() {
    let a = Event::new(EventType::Join, vec!["x".to_string()]);
    let b = Event::new(EventType::Join, vec!["x".to_string()]);
    let c = Event::new(EventType::Join, vec!["y".to_string()]);
    assert_eq!(a, b);
    assert_ne!(a, c);
}
