//! Value types: scopes, responses, requests, errors.

use dazeus::{
    ConfigGroup, DaZeus, Error, InvalidJsonError, JsonValue, MemoryConnection,
    ParseConfigGroupError, ParseEventTypeError, ReceiveError, Request, Response, Scope,
};

fn scope_as_serde(scope: &Scope) -> serde_json::Value {
    let bytes = dazeus::json::json_to_bytes(&scope.to_json());
    serde_json::from_slice(&bytes).unwrap()
}

fn request_as_serde(request: &Request) -> serde_json::Value {
    let bytes = dazeus::json::json_to_bytes(&request.to_json());
    serde_json::from_slice(&bytes).unwrap()
}

fn parsed(text: &str) -> serde_json::Value {
    serde_json::from_str(text).unwrap()
}

#[test]
fn scope_constructors_fill_the_right_elements() {
    assert!(Scope::any().is_any());
    let network = Scope::network("net");
    assert!(!network.is_any());
    assert_eq!(network.network.as_deref(), Some("net"));
    assert_eq!(network.sender, None);
    assert_eq!(network.receiver, None);
    let sender = Scope::sender("net", "chan");
    assert_eq!(sender.sender.as_deref(), Some("chan"));
    assert_eq!(sender.receiver, None);
    let receiver = Scope::receiver("net", "user");
    assert_eq!(receiver.sender, None);
    assert_eq!(receiver.receiver.as_deref(), Some("user"));
    let full = Scope::to("net", "chan", "user");
    assert_eq!(full.network.as_deref(), Some("net"));
    assert_eq!(full.sender.as_deref(), Some("chan"));
    assert_eq!(full.receiver.as_deref(), Some("user"));
}

#[test]
fn scope_serializes_to_the_shortest_array() {
    assert_eq!(scope_as_serde(&Scope::any()), parsed("[]"));
    assert_eq!(scope_as_serde(&Scope::network("net")), parsed("[\"net\"]"));
    assert_eq!(
        scope_as_serde(&Scope::sender("net", "chan")),
        parsed("[\"net\",\"chan\"]")
    );
    assert_eq!(
        scope_as_serde(&Scope::receiver("net", "user")),
        parsed("[\"net\",null,\"user\"]")
    );
    assert_eq!(
        scope_as_serde(&Scope::to("net", "chan", "user")),
        parsed("[\"net\",\"chan\",\"user\"]")
    );
}

#[test]
fn requests_serialize_with_verb_scope_and_params() {
    assert_eq!(request_as_serde(&Request::Networks), parsed("{\"get\":\"networks\"}"));
    assert_eq!(
        request_as_serde(&Request::GetProperty("key".to_string(), Scope::any())),
        parsed("{\"do\":\"property\",\"params\":[\"get\",\"key\"]}")
    );
    assert_eq!(
        request_as_serde(&Request::GetProperty("key".to_string(), Scope::network("net"))),
        parsed("{\"do\":\"property\",\"scope\":[\"net\"],\"params\":[\"get\",\"key\"]}")
    );
    assert_eq!(
        request_as_serde(&Request::SetPermission(
            "edit".to_string(),
            true,
            Scope::sender("net", "chan"),
        )),
        parsed(
            "{\"do\":\"permission\",\"scope\":[\"net\",\"chan\"],\"params\":[\"set\",\"edit\",true]}"
        )
    );
    assert_eq!(
        request_as_serde(&Request::Handshake(
            "plug".to_string(),
            "0.1".to_string(),
            None,
        )),
        parsed("{\"do\":\"handshake\",\"params\":[\"plug\",\"0.1\",\"1\",\"plug\"]}")
    );
    assert_eq!(
        request_as_serde(&Request::Config("highlight".to_string(), ConfigGroup::Core)),
        parsed("{\"get\":\"config\",\"params\":[\"core\",\"highlight\"]}")
    );
}

#[test]
fn config_groups_parse_and_print() {
    assert_eq!(ConfigGroup::from_str("plugin"), Ok(ConfigGroup::Plugin));
    assert_eq!(ConfigGroup::from_str("CORE"), Ok(ConfigGroup::Core));
    assert_eq!(ConfigGroup::from_str("bogus"), Err(ParseConfigGroupError::new()));
    assert_eq!(ConfigGroup::Plugin.to_string(), "plugin");
    assert_eq!(ConfigGroup::Core.to_string(), "core");
}

#[test]
fn response_sentinels_carry_success_and_reason() {
    let ok = Response::for_success();
    assert!(ok.has_success());
    let fail = Response::for_fail("went wrong");
    assert!(!fail.has_success());
    assert_eq!(fail.get_str("reason"), Some("went wrong"));
    assert_eq!(fail.get_str_or("reason", "other"), "went wrong");
    assert_eq!(fail.get_str_or("missing", "other"), "other");
    assert!(fail.has("reason"));
    assert!(!fail.has("missing"));
    // `has` asks for string fields specifically.
    assert!(!fail.has("success"));
}

#[test]
fn response_get_or_falls_back_to_the_default() {
    let resp = Response::for_fail("x");
    let default = JsonValue::Num(7);
    match resp.get_or("missing", &default) {
        JsonValue::Num(n) => assert_eq!(*n, 7),
        other => panic!("wrong default: {:?}", other),
    }
    match resp.get_or("success", &default) {
        JsonValue::Bool(b) => assert!(!*b),
        other => panic!("wrong field: {:?}", other),
    }
}

#[test]
fn error_values_compare_by_content() {
    assert_eq!(
        Error::InvalidJsonError(InvalidJsonError::new("x")),
        Error::InvalidJsonError(InvalidJsonError::new("x"))
    );
    assert_eq!(
        Error::ReceiveError(ReceiveError::new()),
        Error::ReceiveError(ReceiveError::new())
    );
    assert_eq!(Error::ConnectionClosed, Error::ConnectionClosed);
    assert_ne!(Error::ConnectionClosed, Error::ReceiveError(ReceiveError::new()));
    assert_eq!(InvalidJsonError::new("msg").message(), "msg");
    assert_eq!(ParseEventTypeError::new(), ParseEventTypeError::new());
}

#[test]
fn invalid_event_structure_is_an_invalid_json_error() {
    // An object with an "event" key classifies as an event, but an
    // unknown name makes it structurally invalid.
    let payload = "{\"event\":\"NO_SUCH\",\"params\":[]}";
    let mut input = payload.len().to_string().into_bytes();
    input.extend_from_slice(payload.as_bytes());
    let mut dz = DaZeus::new(MemoryConnection::new(input));
    match dz.try_next_event() {
        Err(Error::InvalidJsonError(_)) => {},
        other => panic!("expected invalid JSON, got ok={}", other.is_ok()),
    }
}

#[test]
fn scope_with_only_later_elements_pads_with_null() {
    let scope = Scope::new(None, Some("chan".to_string()), None);
    assert!(!scope.is_any());
    assert_eq!(scope_as_serde(&scope), parsed("[null,\"chan\"]"));
}

#[test]
fn scopes_compare_by_elements() {
    assert_eq!(Scope::network("net"), Scope::network("net"));
    assert_ne!(Scope::network("net"), Scope::network("other"));
    assert_ne!(Scope::network("net"), Scope::any());
    assert_eq!(Scope::to("a", "b", "c"), Scope::to("a", "b", "c"));
}

#[test]
fn cloned_values_keep_their_content() {
    let resp = Response::for_fail("why");
    let copy = resp.clone();
    assert_eq!(copy.get_str("reason"), Some("why"));
    let req = Request::Join("net".to_string(), "#chan".to_string());
    let twin = req.clone();
    assert_eq!(request_as_serde(&twin), request_as_serde(&req));
}

#[test]
fn requests_compare_by_operation_and_values() {
    assert_eq!(
        Request::Join("net".to_string(), "#chan".to_string()),
        Request::Join("net".to_string(), "#chan".to_string())
    );
    assert_ne!(
        Request::Join("net".to_string(), "#chan".to_string()),
        Request::Part("net".to_string(), "#chan".to_string())
    );
    assert_ne!(
        Request::Nick("net".to_string()),
        Request::Nick("other".to_string())
    );
    assert_eq!(
        Request::GetProperty("k".to_string(), Scope::network("net")),
        Request::GetProperty("k".to_string(), Scope::network("net"))
    );
    assert_ne!(
        Request::GetProperty("k".to_string(), Scope::network("net")),
        Request::GetProperty("k".to_string(), Scope::any())
    );
}

#[test]
fn responses_compare_by_document() {
    assert_eq!(Response::for_success(), Response::for_success());
    assert_ne!(Response::for_success(), Response::for_fail("no"));
    assert_eq!(Response::for_fail("no"), Response::for_fail("no"));
    assert_ne!(Response::for_fail("no"), Response::for_fail("other"));
}
