//! Tests of the wire protocol.

use resurreccion::proto::capability::{CapabilityRequest, CapabilityResponse};
use resurreccion::proto::envelope::Envelope;
use resurreccion::proto::verbs;
use resurreccion::proto::{escape_json_string, default_socket_path, escape_json, Request, Response, PROTO_VERSION};

#[test]
fn parses_health_request() {
    assert_eq!(Request::parse("health").unwrap(), Request::Health);
    assert_eq!(Request::parse("health\n").unwrap(), Request::Health);
}

#[test]
fn serializes_health_response_to_json() {
    let json = Response::health("/tmp/example.sock").to_json();
    assert_eq!(
        json,
        "{\"ok\":true,\"data\":{\"service\":\"resurreccion-daemon\",\"status\":\"ok\",\"socket_path\":\"/tmp/example.sock\"}}"
    );
}

#[test]
fn default_socket_path_is_stable() {
    assert_eq!(
        std::path::PathBuf::from(default_socket_path()).display().to_string(),
        "/tmp/resurreccion.sock"
    );
}

#[test]
fn capability_negotiate_verb_nonempty() {
    assert!(!verbs::CAPABILITY_NEGOTIATE.is_empty());
}

#[test]
fn proto_version_is_nonzero() {
    assert!(PROTO_VERSION > 0);
}

#[test]
fn verb_constants_are_nonempty() {
    assert!(!verbs::DOCTOR_PING.is_empty());
    assert!(!verbs::WORKSPACE_OPEN.is_empty());
    assert!(!verbs::SNAPSHOT_CREATE.is_empty());
}

#[test]
fn events_subscribe_verb_nonempty() {
    assert!(!verbs::EVENTS_SUBSCRIBE.is_empty());
}

#[test]
fn events_push_verb_nonempty() {
    assert!(!verbs::EVENTS_PUSH.is_empty());
}

#[test]
fn parse_trims_unicode_white_space() {
    assert_eq!(Request::parse(" \t health \r\n").unwrap(), Request::Health);
    assert_eq!(Request::parse("\u{a0}health\u{3000}").unwrap(), Request::Health);
}

#[test]
fn parse_refuses_unknown_request_with_its_trimmed_text() {
    assert_eq!(Request::parse("  status \n").unwrap_err(), "unknown request: status");
    assert_eq!(Request::parse("").unwrap_err(), "unknown request: ");
    assert_eq!(Request::parse("Health").unwrap_err(), "unknown request: Health");
}

#[test]
fn health_request_on_the_wire() {
    assert_eq!(Request::Health.as_wire(), "health\n");
}

#[test]
fn error_response_escapes_its_text() {
    let json = Response::error("bad \"code\"", "line\none\ttab\\").to_json();
    assert_eq!(
        json,
        "{\"ok\":false,\"error\":{\"code\":\"bad \\\"code\\\"\",\"message\":\"line\\none\\ttab\\\\\"}}"
    );
}

#[test]
fn escape_json_escapes_five_characters() {
    assert_eq!(escape_json("a\"b\\c\nd\re\tf"), "a\\\"b\\\\c\\nd\\re\\tf");
    assert_eq!(escape_json("plain ünïcode"), "plain ünïcode");
    assert_eq!(escape_json(""), "");
}

#[test]
fn health_response_escapes_socket_path() {
    let json = Response::health("/tmp/a\"b.sock").to_json();
    assert!(json.contains("\"socket_path\":\"/tmp/a\\\"b.sock\""));
}

#[test]
fn envelope_ok_keeps_its_fields() {
    let env = Envelope::ok("id-1", "doctor.ping", "{\"proto\":1}".to_string());
    assert_eq!(env.id, "id-1");
    assert_eq!(env.verb, "doctor.ping");
    assert!(env.ok);
    assert_eq!(env.body, "{\"proto\":1}");
}

#[test]
fn envelope_error_body_is_json() {
    let env = Envelope::err("id-2", "workspace.get", "not_found", "workspace \"x\" missing");
    assert!(!env.ok);
    let body: serde_json::Value = serde_json::from_str(&env.body).unwrap();
    assert_eq!(body["code"], "not_found");
    assert_eq!(body["message"], "workspace \"x\" missing");
}

#[test]
fn capability_response_json_lists_agreed_capabilities() {
    let resp = CapabilityResponse {
        server_proto: 1,
        agreed_capabilities: vec!["layout.capture".to_string(), "blob.get".to_string()],
    };
    assert_eq!(
        resp.to_json(),
        "{\"server_proto\":1,\"agreed_capabilities\":[\"layout.capture\",\"blob.get\"]}"
    );
    let empty = CapabilityResponse { server_proto: 42, agreed_capabilities: vec![] };
    assert_eq!(empty.to_json(), "{\"server_proto\":42,\"agreed_capabilities\":[]}");
    let req = CapabilityRequest { client_proto: 1, client_capabilities: vec!["x".to_string()] };
    assert_eq!(req.client_capabilities.len(), 1);
}

#[test]
fn json_strings_are_escaped_as_serde_json_escapes_them() {
    assert_eq!(escape_json_string("a\u{1}b\u{8}\u{c}\"\\\n\u{1f}"), "a\\u0001b\\b\\f\\\"\\\\\\n\\u001f");
    let mut all = String::new();
    for code in 0u32..0x80 {
        all.push(char::from_u32(code).unwrap());
    }
    all.push_str("é→😀");
    assert_eq!(format!("\"{}\"", escape_json_string(&all)), serde_json::to_string(&all).unwrap());
    assert_eq!(escape_json("tab\there\u{1}"), "tab\\there\u{1}");
}
