//! Tests of the daemon's verified parts.

use std::sync::Arc;

use resurreccion::dag::completeness::check_completeness;
use resurreccion::dag::termination::check_termination;
use resurreccion::daemon::capability::{agree_capabilities, server_capabilities, CapabilityHandler};
use resurreccion::daemon::runtime::{drain_step, single_instance_verdict, DrainStep, SocketProbe};
use resurreccion::daemon::clock::{chrono_now, chrono_stamp, format_timestamp_ms, iso_now, iso_stamp};
use resurreccion::daemon::bus::{event_row_at, record_of, Recorded};
use resurreccion::daemon::dispatch::{Dispatcher, Handler};
use resurreccion::domain::events::{LayoutChanged, PaneOpened, SnapshotCreated, WorkspaceOpened};
use resurreccion::domain::ids::{PaneId, RuntimeId, SnapshotId, WorkspaceId};
use resurreccion::daemon::records::{
    display_name_of, events_for_subscriber, latest_shell_capture, new_snapshot_row, new_workspace_row,
    require_snapshot_id, require_workspace_id, shell_capture_event, shell_capture_reply, shell_restore_reply,
    snapshot_restore_reply, EventRow,
};
use resurreccion::daemon::wiring::{declared_nodes, edges, verify};
use resurreccion::proto::capability::CapabilityRequest;
use resurreccion::proto::envelope::Envelope;
use resurreccion::proto::verbs;

#[test]
fn edge_count_matches_domain_events() {
    assert_eq!(edges().len(), 10, "one edge per domain event type");
}

#[test]
fn topology_is_acyclic() {
    check_termination(&edges()).expect("event topology must not contain cycles");
}

#[test]
fn all_declared_nodes_are_wired() {
    check_completeness(&declared_nodes(), &edges())
        .expect("every declared node must lie on a source-to-sink path");
}

#[test]
fn daemon_topology_verifies() {
    assert!(verify().is_ok());
}

#[test]
fn handler_map_dispatches_ping() {
    // Create a mock handler for doctor.ping
    #[derive(Clone)]
    struct PingHandler;
    impl Handler for PingHandler {
        fn handle(&self, env: &Envelope) -> Envelope {
            Envelope::ok(&env.id, &env.verb, "{\"proto\":1}".to_string())
        }
    }

    let mut dispatcher = Dispatcher::new();
    dispatcher.register(verbs::DOCTOR_PING, Arc::new(PingHandler));

    let request = Envelope::ok("test-id", verbs::DOCTOR_PING, "null".to_string());
    let response = dispatcher.dispatch(&request);

    assert!(response.ok);
    assert_eq!(response.verb, verbs::DOCTOR_PING);
    assert_eq!(response.id, "test-id");
}

#[test]
fn handler_map_returns_error_for_unknown_verb() {
    let dispatcher: Dispatcher<Arc<dyn Handler>> = Dispatcher::new();

    let request = Envelope::ok("test-id", "unknown.verb", "null".to_string());
    let response = dispatcher.dispatch(&request);

    assert!(!response.ok);
    assert_eq!(response.id, "test-id");
    let body: serde_json::Value = serde_json::from_str(&response.body).unwrap();
    assert_eq!(body.get("code").and_then(|v| v.as_str()), Some("unknown_verb"));
    assert_eq!(body["message"], "no handler for verb: unknown.verb");
}

struct Echo(&'static str);

impl Handler for Echo {
    fn handle(&self, env: &Envelope) -> Envelope {
        Envelope::ok(&env.id, &env.verb, self.0.to_string())
    }
}

#[test]
fn registering_a_verb_again_replaces_its_handler() {
    let mut dispatcher: Dispatcher<Arc<dyn Handler>> = Dispatcher::default();
    dispatcher.register(verbs::DOCTOR_PING, Arc::new(Echo("\"first\"")));
    dispatcher.register(verbs::HANDSHAKE, Arc::new(Echo("\"hello\"")));
    dispatcher.register(verbs::DOCTOR_PING, Arc::new(Echo("\"second\"")));
    let ping = dispatcher.dispatch(&Envelope::ok("1", verbs::DOCTOR_PING, "null".to_string()));
    assert_eq!(ping.body, "\"second\"");
    let hello = dispatcher.dispatch(&Envelope::ok("2", verbs::HANDSHAKE, "null".to_string()));
    assert_eq!(hello.body, "\"hello\"");
}

fn cap_request(client_caps: &[&str]) -> CapabilityRequest {
    CapabilityRequest { client_proto: 1, client_capabilities: client_caps.iter().map(ToString::to_string).collect() }
}

fn negotiate(client_caps: &[&str]) -> (Envelope, serde_json::Value) {
    let env = Envelope::ok("test-id", verbs::CAPABILITY_NEGOTIATE, "{}".to_string());
    let resp = CapabilityHandler.negotiate(&env, Ok(cap_request(client_caps)));
    let body = serde_json::from_str(&resp.body).unwrap();
    (resp, body)
}

#[test]
fn returns_intersection_of_known_capabilities() {
    let (resp, body) = negotiate(&["capture.layout", "shell.capture", "unknown.verb"]);
    assert!(resp.ok, "response should be ok");
    assert_eq!(body["server_proto"], 1);
    let mut agreed: Vec<String> =
        serde_json::from_value(body["agreed_capabilities"].clone()).unwrap();
    agreed.sort();
    assert_eq!(agreed, vec!["capture.layout", "shell.capture"]);
}

#[test]
fn unknown_capabilities_are_excluded() {
    let (resp, body) = negotiate(&["does.not.exist", "also.unknown"]);
    assert!(resp.ok);
    assert!(body["agreed_capabilities"].as_array().unwrap().is_empty(), "no unknown caps should be agreed upon");
}

#[test]
fn all_server_capabilities_agreed_when_client_requests_all() {
    let all = server_capabilities();
    let (resp, body) = negotiate(&all);
    assert!(resp.ok);
    assert_eq!(body["server_proto"], 1);
    let agreed: Vec<String> = serde_json::from_value(body["agreed_capabilities"].clone()).unwrap();
    assert_eq!(agreed, all);
}

#[test]
fn empty_client_capabilities_returns_empty_agreed() {
    let (resp, body) = negotiate(&[]);
    assert!(resp.ok);
    assert!(body["agreed_capabilities"].as_array().unwrap().is_empty());
}

#[test]
fn malformed_body_returns_error_envelope() {
    let env = Envelope::ok("test-id", verbs::CAPABILITY_NEGOTIATE, "{\"not_a_cap_request\":true}".to_string());
    let resp = CapabilityHandler.negotiate(&env, Err("missing field `client_proto`".to_string()));
    assert!(!resp.ok, "malformed body should produce error envelope");
    let body: serde_json::Value = serde_json::from_str(&resp.body).unwrap();
    assert_eq!(body["code"], "bad_request");
    assert_eq!(body["message"], "failed to parse CapabilityRequest: missing field `client_proto`");
}

#[test]
fn correlation_id_is_echoed() {
    let env = Envelope::ok("my-correlation-id", verbs::CAPABILITY_NEGOTIATE, "{}".to_string());
    let resp = CapabilityHandler.negotiate(&env, Ok(cap_request(&["capture.layout"])));
    assert_eq!(resp.id, "my-correlation-id");
}

#[test]
fn agreement_keeps_client_order() {
    let client: Vec<String> = ["blob.get", "x", "capture.layout", "blob.get"].iter().map(|s| s.to_string()).collect();
    assert_eq!(agree_capabilities(&client), vec!["blob.get", "capture.layout", "blob.get"]);
}

#[test]
fn timestamps_are_iso_calendar_dates() {
    assert_eq!(format_timestamp_ms(0), "1970-01-01T00:00:00.000Z");
    assert_eq!(format_timestamp_ms(1_000), "1970-01-01T00:00:01.000Z");
    // 400 days, 1 h, 2 min, 3.045 s
    let ms: i64 = (400 * 86_400 + 3_600 + 120 + 3) * 1_000 + 45;
    assert_eq!(format_timestamp_ms(ms), "1971-02-05T01:02:03.045Z");
    assert_eq!(format_timestamp_ms(946_684_800_000), "2000-01-01T00:00:00.000Z");
    assert_eq!(format_timestamp_ms(951_782_400_000), "2000-02-29T00:00:00.000Z");
    assert_eq!(format_timestamp_ms(-1_500), "1969-12-31T23:59:58.500Z");
    assert_eq!(format_timestamp_ms(-(40 * 86_400_000)), "1969-11-22T00:00:00.000Z");
    assert_eq!(format_timestamp_ms(i64::MAX), "292278994-08-17T07:12:55.807Z");
    assert_eq!(format_timestamp_ms(i64::MIN), "-292275055-05-16T16:47:04.192Z");
}

#[test]
fn stamps_of_the_clock() {
    assert_eq!(chrono_stamp(946_684_800_123), "2000-01-01T00:00:00.123Z");
    assert_eq!(chrono_stamp(61_005), "1970-01-01T00:01:01.005Z");
    assert_eq!(iso_stamp(3_723_456), "1970-01-01T01:02:03.456Z");
    assert_eq!(iso_stamp(25 * 3_600_000), "1970-01-02T01:00:00.000Z");
    assert_eq!(iso_stamp(1_776_556_800_000), "2026-04-19T00:00:00.000Z");
    assert_eq!(chrono_now().unwrap().len(), 24);
    assert_eq!(iso_now().unwrap().len(), 24);
}

fn event(id: &str, ws: Option<&str>, kind: &str, payload: &str) -> EventRow {
    EventRow {
        id: id.to_string(),
        workspace_id: ws.map(|w| w.to_string()),
        kind: kind.to_string(),
        payload_json: payload.to_string(),
        created_at: "1970-01-01T00:00:00.000Z".to_string(),
    }
}

#[test]
fn workspace_id_is_required_and_nonempty() {
    let env = Envelope::ok("r1", "shell.capture", "{}".to_string());
    let missing = require_workspace_id(&env, None).unwrap_err();
    assert!(!missing.ok);
    assert_eq!(missing.id, "r1");
    assert!(missing.body.contains("missing_workspace_id"));
    let empty = require_workspace_id(&env, Some("")).unwrap_err();
    assert!(empty.body.contains("workspace_id required"));
    assert_eq!(require_workspace_id(&env, Some("ws-1")).unwrap(), "ws-1");
    let snap = require_snapshot_id(&env, Some("")).unwrap_err();
    assert!(snap.body.contains("missing_snapshot_id"));
    assert_eq!(require_snapshot_id(&env, Some("s-9")).unwrap(), "s-9");
}

#[test]
fn display_name_is_the_last_component() {
    assert_eq!(display_name_of("/home/me/projects/demo"), "demo");
    assert_eq!(display_name_of("/"), "workspace");
}

#[test]
fn new_rows_carry_their_fields() {
    let row = new_workspace_row("abc", "demo", "/tmp/demo", 1_002);
    assert_eq!(row.id.len(), 26);
    assert_eq!(row.binding_key, "abc");
    assert_eq!(row.display_name, "demo");
    assert_eq!(row.root_path, "/tmp/demo");
    assert_eq!(row.created_at, "1970-01-01T00:00:01.002Z");
    assert!(row.last_opened_at.is_none());
    let snap = new_snapshot_row("ws-1", 59_999);
    assert_eq!(snap.workspace_id, "ws-1");
    assert_eq!(snap.fidelity, "basic");
    assert_eq!(snap.created_at, "1970-01-01T00:00:59.999Z");
    assert_eq!(snap.manifest_json, "{\"captured_at\":\"1970-01-01T00:00:59.999Z\",\"fidelity\":\"basic\"}");
}

#[test]
fn shell_capture_event_is_stamped() {
    let e = shell_capture_event("ws-1", "[]".to_string(), 0);
    assert_eq!(e.kind, "shell.capture");
    assert_eq!(e.workspace_id.as_deref(), Some("ws-1"));
    assert_eq!(e.payload_json, "[]");
    assert_eq!(e.created_at, "1970-01-01T00:00:00.000Z");
    assert_eq!(e.id.len(), 26);
}

#[test]
fn subscribers_get_their_workspace_events_in_order() {
    let events = vec![
        event("1", Some("a"), "shell.capture", "[1]"),
        event("2", Some("b"), "shell.capture", "[2]"),
        event("3", None, "daemon.start", "{}"),
        event("4", Some("a"), "snapshot.created", "{}"),
    ];
    let mine = events_for_subscriber(&events, Some("a"));
    let ids: Vec<&str> = mine.iter().map(|e| e.id.as_str()).collect();
    assert_eq!(ids, vec!["1", "4"]);
    assert_eq!(events_for_subscriber(&events, None).len(), 4);
    assert!(events_for_subscriber(&events, Some("z")).is_empty());
}

#[test]
fn restore_finds_the_latest_capture() {
    let events = vec![
        event("1", Some("a"), "shell.capture", "[1]"),
        event("2", Some("b"), "shell.capture", "[2]"),
        event("3", Some("a"), "shell.capture", "[3]"),
        event("4", Some("a"), "snapshot.created", "{}"),
    ];
    assert_eq!(latest_shell_capture(&events, "a"), Some(2));
    assert_eq!(latest_shell_capture(&events, "b"), Some(1));
    assert_eq!(latest_shell_capture(&events, "c"), None);
}

#[test]
fn shell_and_snapshot_replies() {
    assert_eq!(shell_capture_reply("[]", 0), "{\"captures\":[],\"count\":0}");
    assert_eq!(shell_capture_reply("[{},{}]", 12), "{\"captures\":[{},{}],\"count\":12}");
    assert_eq!(shell_restore_reply("[]", "ws\"1"), "{\"captures\":[],\"workspace_id\":\"ws\\\"1\"}");
    assert_eq!(snapshot_restore_reply("s1"), "{\"snapshot_id\":\"s1\"}");
}

#[test]
fn bus_records_carry_kind_and_identifiers() {
    let ws = WorkspaceId::from_value(1);
    let opened = WorkspaceOpened { workspace_id: ws };
    assert_eq!(opened.kind(), "WorkspaceOpened");
    assert_eq!(opened.payload(), "{\"workspace_id\":\"00000000000000000000000001\"}");
    let created = SnapshotCreated { workspace_id: ws, snapshot_id: SnapshotId::from_value(2) };
    assert_eq!(created.kind(), "SnapshotCreated");
    assert_eq!(
        created.payload(),
        "{\"snapshot_id\":\"00000000000000000000000002\",\"workspace_id\":\"00000000000000000000000001\"}"
    );
    let pane = PaneOpened { runtime_id: RuntimeId::from_value(3), pane_id: PaneId::from_value(4) };
    assert_eq!(
        pane.payload(),
        "{\"pane_id\":\"00000000000000000000000004\",\"runtime_id\":\"00000000000000000000000003\"}"
    );
    let layout = LayoutChanged { runtime_id: RuntimeId::from_value(3) };
    assert_eq!(layout.kind(), "LayoutChanged");
    let row = record_of(&opened).unwrap();
    assert_eq!(row.kind, "WorkspaceOpened");
    assert!(row.workspace_id.is_none());
    assert_eq!(row.id.len(), 26);
    assert_eq!(row.created_at.len(), 24);
    assert!(row.created_at.ends_with('Z'));
}

#[test]
fn bus_rows_are_stamped_with_their_timestamp() {
    let row = event_row_at("SnapshotRestored", "{}".to_string(), 1_776_560_523_004);
    assert_eq!(row.created_at, "2026-04-19T01:02:03.004Z");
    assert_eq!(row.kind, "SnapshotRestored");
    assert_eq!(row.payload_json, "{}");
}

#[test]
fn connection_lines_are_answered() {
    let mut dispatcher: Dispatcher<Arc<dyn Handler>> = Dispatcher::new();
    dispatcher.register(verbs::DOCTOR_PING, Arc::new(Echo("\"pong\"")));
    let ok = dispatcher.answer_line(Ok(Envelope::ok("7", verbs::DOCTOR_PING, "null".to_string())));
    assert_eq!(ok.body, "\"pong\"");
    assert_eq!(ok.id, "7");
    let bad = dispatcher.answer_line(Err("expected value at line 1 column 1".to_string()));
    assert!(!bad.ok);
    assert_eq!(bad.id, "parse-error");
    assert_eq!(bad.verb, "unknown");
    let body: serde_json::Value = serde_json::from_str(&bad.body).unwrap();
    assert_eq!(body["code"], "parse_error");
    assert_eq!(body["message"], "failed to parse JSON: expected value at line 1 column 1");
}

#[test]
fn single_instance_verdicts() {
    assert_eq!(
        single_instance_verdict("/tmp/d.sock", SocketProbe::Connected).unwrap_err(),
        "daemon already running at /tmp/d.sock"
    );
    assert!(single_instance_verdict("/tmp/d.sock", SocketProbe::NotFound).is_ok());
    assert_eq!(
        single_instance_verdict("/tmp/d.sock", SocketProbe::Failed("permission denied".to_string())).unwrap_err(),
        "failed to check socket: permission denied"
    );
}

#[test]
fn drain_waits_two_seconds_at_most() {
    assert_eq!(drain_step(0, 5_000), DrainStep::Done);
    assert_eq!(drain_step(3, 0), DrainStep::Wait);
    assert_eq!(drain_step(3, 2_000), DrainStep::Wait);
    assert_eq!(drain_step(3, 2_001), DrainStep::TimedOut);
}
