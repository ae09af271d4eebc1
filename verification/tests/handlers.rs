//! Tests of the daemon's store verbs, driven against an in-memory store.

use resurreccion::daemon::handlers::{
    events_subscribe_reply, events_subscribe_start, events_tail_call, events_tail_reply, shell_capture_start,
    shell_capture_step, shell_restore_start, shell_restore_step, snapshot_create_start, snapshot_create_step,
    snapshot_get_call, snapshot_get_reply, snapshot_list_reply, snapshot_list_start, snapshot_restore_finish,
    snapshot_restore_start, workspace_create_start, workspace_create_step, workspace_get_call, workspace_get_reply,
    workspace_list_reply, workspace_open_start, workspace_open_step, workspace_resolve_start,
    workspace_resolve_step, Answer, Call, Step,
};
use resurreccion::daemon::records::{EventRow, SnapshotRow, WorkspaceRow};
use resurreccion::mux::{Capability, LayoutCapture, LayoutSpec, Mux, MuxError, PaneSpec, TopologyEvent};
use resurreccion::proto::envelope::Envelope;
use resurreccion::daemon::request::{parse_json_u64, request_str, request_u64s};
use resurreccion::proto::{verbs, SubscribeRequest};
use serde_json::Value;

/// An in-memory store, file system and clock.
#[derive(Default)]
struct FakeWorld {
    workspaces: Vec<WorkspaceRow>,
    snapshots: Vec<SnapshotRow>,
    events: Vec<EventRow>,
    now_ms: i64,
    touched: Vec<String>,
}

impl FakeWorld {
    fn answer(&mut self, call: Call) -> Answer {
        match call {
            Call::Canonicalize { path } => {
                if path.starts_with('/') {
                    Answer::Path(Ok(path))
                } else {
                    Answer::Path(Err("No such file or directory (os error 2)".to_string()))
                }
            }
            Call::DetectGit { .. } => Answer::Git(Ok(None)),
            Call::ReadClock => Answer::Clock(self.now_ms),
            Call::WorkspaceGet { id } => {
                Answer::Workspace(Ok(self.workspaces.iter().find(|w| w.id == id).cloned()))
            }
            Call::WorkspaceByKey { key } => {
                Answer::Workspace(Ok(self.workspaces.iter().find(|w| w.binding_key == key).cloned()))
            }
            Call::WorkspaceInsert { row } => {
                self.workspaces.push(row);
                Answer::Stored(Ok(()))
            }
            Call::WorkspaceTouch { id } => {
                for w in self.workspaces.iter_mut() {
                    if w.id == id {
                        w.last_opened_at = Some("2026-04-18T00:00:01.000Z".to_string());
                    }
                }
                self.touched.push(id);
                Answer::Stored(Ok(()))
            }
            Call::SnapshotInsert { row } => {
                self.snapshots.push(row);
                Answer::Stored(Ok(()))
            }
            Call::SnapshotGet { id } => {
                Answer::Snapshot(Ok(self.snapshots.iter().find(|s| s.id == id).cloned()))
            }
            Call::SnapshotList { .. } => unreachable!("listings are answered by the caller"),
            Call::EventTail { after_id } => Answer::Events(Ok(self.tail(after_id.as_deref()))),
            Call::EventAppend { row } => {
                self.events.push(row);
                Answer::Stored(Ok(()))
            }
            Call::CaptureShells { pids } => {
                let captures: Vec<Value> = pids
                    .iter()
                    .map(|p| {
                        let mut capture = serde_json::Map::new();
                        capture.insert("pid".to_string(), Value::from(*p));
                        capture.insert("shell_name".to_string(), Value::from("bash"));
                        Value::Object(capture)
                    })
                    .collect();
                Answer::Shells(Ok((Value::Array(captures.clone()).to_string(), captures.len())))
            }
            Call::ReadShellCaptures { payload_json } => match serde_json::from_str::<Vec<Value>>(&payload_json) {
                Ok(v) => Answer::ShellCaptures(Ok(Value::Array(v).to_string())),
                Err(e) => Answer::ShellCaptures(Err(e.to_string())),
            },
        }
    }

    fn tail(&self, after_id: Option<&str>) -> Vec<EventRow> {
        match after_id {
            None => self.events.clone(),
            Some(a) => match self.events.iter().position(|e| e.id == a) {
                Some(i) => self.events[i + 1..].to_vec(),
                None => self.events.clone(),
            },
        }
    }

    fn snapshots_of(&self, workspace_id: &str) -> Vec<SnapshotRow> {
        self.snapshots.iter().filter(|s| s.workspace_id == workspace_id).cloned().collect()
    }
}

/// Runs a handler's machine against the world until it replies.
fn drive<S>(world: &mut FakeWorld, first: Step<S>, step: impl Fn(S, Answer) -> Step<S>) -> Envelope {
    let mut next = first;
    loop {
        match next {
            Step::Reply(r) => return r,
            Step::Ask(state, call) => {
                let answer = world.answer(call);
                next = step(state, answer);
            }
        }
    }
}

fn request(id: &str, verb: &str) -> Envelope {
    Envelope::ok(id, verb, "{}".to_string())
}

fn body(env: &Envelope) -> Value {
    serde_json::from_str(&env.body).expect("reply body is JSON")
}

fn create_workspace(world: &mut FakeWorld, id: &str, name: &str, root: &str, key: &str) -> Envelope {
    let env = request(id, verbs::WORKSPACE_CREATE);
    drive(world, workspace_create_start(Some(name), Some(root), Some(key)), |s, a| {
        workspace_create_step(&env, s, a)
    })
}

struct TestMux;

impl Mux for TestMux {
    fn discover(&self) -> Result<Vec<String>, MuxError> {
        Ok(vec!["test-session".to_string()])
    }
    fn create(&self, _session_name: &str, _layout: &LayoutSpec) -> Result<(), MuxError> {
        Ok(())
    }
    fn attach(&self, _session_name: &str) -> Result<(), MuxError> {
        Ok(())
    }
    fn capture(&self, _session_name: &str) -> Result<LayoutCapture, MuxError> {
        Ok(LayoutCapture {
            session_name: "test-session".to_string(),
            panes: vec![PaneSpec {
                id: "pane-1".to_string(),
                cwd: Some("/tmp".to_string()),
                title: Some("shell".to_string()),
            }],
            tabs: vec!["tab-1".to_string()],
            capabilities: Capability::empty(),
        })
    }
    fn apply_layout(&self, _session_name: &str, _layout: &LayoutSpec) -> Result<(), MuxError> {
        Ok(())
    }
    fn send_keys(&self, _session_name: &str, _keys: &str) -> Result<(), MuxError> {
        Ok(())
    }
    fn subscribe_topology(&self, _session_name: &str) -> Result<std::sync::mpsc::Receiver<TopologyEvent>, MuxError> {
        let (_tx, rx) = std::sync::mpsc::channel();
        Ok(rx)
    }
    fn capabilities(&self) -> Capability {
        Capability::empty()
    }
}

fn create_snapshot(world: &mut FakeWorld, workspace_id: &str) -> Envelope {
    let env = request("create-snap", verbs::SNAPSHOT_CREATE);
    let first = snapshot_create_start(&env, Some(workspace_id), &TestMux);
    drive(world, first, |s, a| snapshot_create_step(&env, s, a))
}

fn event(id: &str, ws: Option<&str>, kind: &str, payload: &str) -> EventRow {
    EventRow {
        id: id.to_string(),
        workspace_id: ws.map(|w| w.to_string()),
        kind: kind.to_string(),
        payload_json: payload.to_string(),
        created_at: "2026-04-18T00:00:00.000Z".to_string(),
    }
}

#[test]
fn workspace_list_handler_returns_empty_list() {
    let world = FakeWorld::default();
    let env = Envelope::ok("test-id", verbs::WORKSPACE_LIST, "null".to_string());
    let response = workspace_list_reply(&env, Ok(world.workspaces.clone()));
    assert!(response.ok, "response should be ok");
    assert_eq!(response.verb, verbs::WORKSPACE_LIST);
    assert_eq!(response.id, "test-id");
    let b = body(&response);
    assert!(b.is_array(), "body should be an array, got: {b:?}");
    assert_eq!(b.as_array().unwrap().len(), 0, "empty store should return empty list");
}

#[test]
fn workspace_create_then_get() {
    let mut world = FakeWorld::default();
    let create_resp = create_workspace(&mut world, "test-id-1", "test-ws", "/tmp/test-path", "test-binding-key");
    assert!(create_resp.ok, "create should succeed");
    let created = body(&create_resp);
    let workspace_id = created.get("id").and_then(|v| v.as_str()).expect("should have id in response");

    let get_env = request("test-id-2", verbs::WORKSPACE_GET);
    let call = workspace_get_call(Some(workspace_id));
    let read = match world.answer(call) {
        Answer::Workspace(read) => read,
        _ => unreachable!(),
    };
    let get_resp = workspace_get_reply(&get_env, read);
    assert!(get_resp.ok, "get should succeed");
    let got = body(&get_resp);
    assert_eq!(got.get("display_name").and_then(|v| v.as_str()), Some("test-ws"));
    assert_eq!(got.get("root_path").and_then(|v| v.as_str()), Some("/tmp/test-path"));
}

#[test]
fn workspace_get_of_an_unknown_id_is_not_found() {
    let env = request("g", verbs::WORKSPACE_GET);
    let resp = workspace_get_reply(&env, Ok(None));
    assert!(!resp.ok);
    assert_eq!(body(&resp)["code"], "not_found");
    assert_eq!(body(&resp)["message"], "workspace not found");
    let failed = workspace_get_reply(&env, Err("disk I/O error".to_string()));
    assert_eq!(body(&failed)["code"], "internal");
    assert_eq!(body(&failed)["message"], "disk I/O error");
}

#[test]
fn workspace_create_defaults() {
    let mut world = FakeWorld { now_ms: 61_005, ..FakeWorld::default() };
    let env = request("c", verbs::WORKSPACE_CREATE);
    let resp = drive(&mut world, workspace_create_start(None, None, None), |s, a| workspace_create_step(&env, s, a));
    let row = body(&resp);
    assert_eq!(row["display_name"], "workspace");
    assert_eq!(row["root_path"], "");
    assert_eq!(row["binding_key"], "");
    assert_eq!(row["created_at"], "1970-01-01T00:01:01.005Z");
    assert_eq!(row["last_opened_at"], Value::Null);
    assert_eq!(row["id"].as_str().unwrap().len(), 26);
}

#[test]
fn workspace_resolve_or_create_is_idempotent() {
    let mut world = FakeWorld::default();
    let resolve = |world: &mut FakeWorld, id: &str| {
        let env = request(id, verbs::WORKSPACE_RESOLVE_OR_CREATE);
        let first = workspace_resolve_start(Some("my-binding-key"), Some("/tmp/workspace"), Some("my-workspace"));
        drive(world, first, |s, a| workspace_resolve_step(&env, s, a))
    };
    let resp1 = resolve(&mut world, "test-id-1");
    assert!(resp1.ok);
    let b1 = body(&resp1);
    let ws_id_1 = b1.get("id").and_then(|v| v.as_str()).expect("should have id");
    let resp2 = resolve(&mut world, "test-id-2");
    assert!(resp2.ok);
    let b2 = body(&resp2);
    let ws_id_2 = b2.get("id").and_then(|v| v.as_str()).expect("should have id");
    assert_eq!(ws_id_1, ws_id_2, "should return same workspace id");
    assert_eq!(world.workspaces.len(), 1);
}

#[test]
fn workspace_open_creates_then_reopens() {
    let mut world = FakeWorld::default();
    let open = |world: &mut FakeWorld, path: &str| {
        let env = request("open", verbs::WORKSPACE_OPEN);
        drive(world, workspace_open_start(Some(path)), |s, a| workspace_open_step(&env, s, a))
    };
    let first = open(&mut world, "/home/me/demo");
    assert!(first.ok);
    let row = body(&first);
    assert_eq!(row["display_name"], "demo");
    assert_eq!(row["root_path"], "/home/me/demo");
    assert_eq!(row["binding_key"].as_str().unwrap().len(), 64);
    assert_eq!(row["last_opened_at"], "2026-04-18T00:00:01.000Z");
    let again = open(&mut world, "/home/me/demo");
    assert_eq!(body(&again)["id"], row["id"]);
    assert_eq!(world.workspaces.len(), 1);
    assert_eq!(world.touched.len(), 2);
    let bad = open(&mut world, "relative/path");
    assert!(!bad.ok);
    assert_eq!(body(&bad)["code"], "invalid_path");
}

#[test]
fn snapshot_create_and_list() {
    let mut world = FakeWorld::default();
    let create_ws_resp = create_workspace(&mut world, "create-ws", "test-workspace", "/tmp/test", "test-key");
    assert!(create_ws_resp.ok, "workspace creation failed");
    let ws = body(&create_ws_resp);
    let workspace_id = ws.get("id").and_then(|v| v.as_str()).expect("should have workspace id");

    let create_snap_resp = create_snapshot(&mut world, workspace_id);
    assert!(create_snap_resp.ok, "snapshot creation failed: {}", create_snap_resp.body);
    let snap = body(&create_snap_resp);
    let snapshot_id = snap.get("id").and_then(|v| v.as_str()).expect("should have snapshot id");

    let list_env = request("list-snaps", verbs::SNAPSHOT_LIST);
    let call = snapshot_list_start(&list_env, Some(workspace_id)).expect("workspace given");
    assert!(matches!(call, Call::SnapshotList { .. }));
    let list_resp = snapshot_list_reply(&list_env, Ok(world.snapshots_of(workspace_id)));
    assert!(list_resp.ok, "snapshot list failed");
    let listed = body(&list_resp);
    let snapshots = listed.as_array().expect("body should be array");
    assert_eq!(snapshots.len(), 1, "should have one snapshot");
    assert_eq!(snapshots[0].get("id").and_then(|v| v.as_str()).expect("snapshot should have id"), snapshot_id);
}

#[test]
fn snapshot_get_returns_row() {
    let mut world = FakeWorld::default();
    let create_ws_resp = create_workspace(&mut world, "create-ws", "test-workspace", "/tmp/test", "test-key");
    assert!(create_ws_resp.ok);
    let ws = body(&create_ws_resp);
    let workspace_id = ws.get("id").and_then(|v| v.as_str()).expect("should have workspace id");
    let create_snap_resp = create_snapshot(&mut world, workspace_id);
    assert!(create_snap_resp.ok);
    let snap = body(&create_snap_resp);
    let snapshot_id = snap.get("id").and_then(|v| v.as_str()).expect("should have snapshot id");

    let get_env = request("get-snap", verbs::SNAPSHOT_GET);
    let read = match world.answer(snapshot_get_call(Some(snapshot_id))) {
        Answer::Snapshot(read) => read,
        _ => unreachable!(),
    };
    let get_resp = snapshot_get_reply(&get_env, read);
    assert!(get_resp.ok, "get snapshot failed");
    let got = body(&get_resp);
    assert_eq!(got.get("id").and_then(|v| v.as_str()).expect("should have id"), snapshot_id);
    assert_eq!(got.get("workspace_id").and_then(|v| v.as_str()).expect("should have workspace_id"), workspace_id);
    assert_eq!(got.get("fidelity").and_then(|v| v.as_str()).expect("should have fidelity"), "basic");
    let manifest: Value = serde_json::from_str(got["manifest_json"].as_str().unwrap()).unwrap();
    assert_eq!(manifest["fidelity"], "basic");
}

#[test]
fn snapshot_verbs_require_their_ids() {
    let env = request("s", verbs::SNAPSHOT_CREATE);
    let mut world = FakeWorld::default();
    let resp = drive(&mut world, snapshot_create_start(&env, None, &TestMux), |s, a| snapshot_create_step(&env, s, a));
    assert_eq!(body(&resp)["code"], "missing_workspace_id");
    let list = snapshot_list_start(&env, Some("")).err().expect("refused");
    assert_eq!(body(&list)["code"], "missing_workspace_id");
    let restore = snapshot_restore_start(&env, None).err().expect("refused");
    assert_eq!(body(&restore)["code"], "missing_snapshot_id");
    assert_eq!(body(&restore)["message"], "snapshot_id required");
}

#[test]
fn snapshot_restore_replays_the_layout() {
    let mut world = FakeWorld::default();
    let snap = body(&create_snapshot(&mut world, "ws-1"));
    let snapshot_id = snap["id"].as_str().unwrap();
    let env = request("restore", verbs::SNAPSHOT_RESTORE);
    let read = match world.answer(snapshot_restore_start(&env, Some(snapshot_id)).expect("given")) {
        Answer::Snapshot(read) => read,
        _ => unreachable!(),
    };
    let resp = snapshot_restore_finish(&env, snapshot_id, read, &TestMux);
    assert!(resp.ok);
    assert_eq!(body(&resp)["snapshot_id"], snapshot_id);
    let missing = snapshot_restore_finish(&env, "nope", Ok(None), &TestMux);
    assert_eq!(body(&missing)["code"], "not_found");
    let mut broken = world.snapshots[0].clone();
    broken.manifest_json = "{not json".to_string();
    let invalid = snapshot_restore_finish(&env, snapshot_id, Ok(Some(broken)), &TestMux);
    assert_eq!(body(&invalid)["code"], "invalid_manifest");
}

#[test]
fn events_tail_returns_events() {
    let mut world = FakeWorld::default();
    let mut row = event("01J0000000000000000000000A", Some("test-ws"), "test-event", "{\"test\":\"data\"}");
    row.created_at = "2026-04-18T00:00:00Z".to_string();
    world.events.push(row);
    let tail_env = request("tail-events", verbs::EVENTS_TAIL);
    let rows = match world.answer(events_tail_call(None)) {
        Answer::Events(rows) => rows,
        _ => unreachable!(),
    };
    let tail_resp = events_tail_reply(&tail_env, rows);
    assert!(tail_resp.ok, "events.tail failed");
    let listed = body(&tail_resp);
    let events = listed.as_array().expect("body should be array");
    assert_eq!(events.len(), 1, "should have one event");
    assert_eq!(events[0].get("kind").and_then(|v| v.as_str()).expect("should have kind"), "test-event");
}

fn subscribe(world: &mut FakeWorld, req: SubscribeRequest) -> Envelope {
    let env = request("test-id", verbs::EVENTS_SUBSCRIBE);
    let parsed: Result<SubscribeRequest, String> = Ok(req.clone());
    let call = events_subscribe_start(&env, &parsed).expect("readable");
    let events = match world.answer(call) {
        Answer::Events(events) => events,
        _ => unreachable!(),
    };
    events_subscribe_reply(&env, &req, events)
}

#[test]
fn empty_store_returns_empty_array() {
    let mut world = FakeWorld::default();
    let resp = subscribe(&mut world, SubscribeRequest { workspace_id: None, after_id: None });
    assert!(resp.ok, "expected ok response");
    assert_eq!(resp.verb, verbs::EVENTS_PUSH);
    assert!(body(&resp).as_array().expect("body is array").is_empty());
}

#[test]
fn returns_all_events_when_no_after_id() {
    let mut world = FakeWorld::default();
    world.events.push(event("evt-001", None, "Kind1", "{}"));
    world.events.push(event("evt-002", None, "Kind2", "{}"));
    let resp = subscribe(&mut world, SubscribeRequest { workspace_id: None, after_id: None });
    assert!(resp.ok);
    assert_eq!(resp.verb, verbs::EVENTS_PUSH);
    assert_eq!(body(&resp).as_array().expect("array").len(), 2);
}

#[test]
fn returns_events_after_given_id() {
    let mut world = FakeWorld::default();
    world.events.push(event("evt-001", None, "Old", "{}"));
    world.events.push(event("evt-002", None, "New", "{}"));
    let resp = subscribe(&mut world, SubscribeRequest { workspace_id: None, after_id: Some("evt-001".to_string()) });
    assert!(resp.ok);
    let arr = body(&resp);
    assert_eq!(arr.as_array().expect("array").len(), 1);
    assert_eq!(arr[0]["kind"], "New");
}

#[test]
fn filters_by_workspace_id() {
    let mut world = FakeWorld::default();
    world.events.push(event("evt-001", Some("ws-aaa"), "MatchingKind", "{}"));
    world.events.push(event("evt-002", Some("ws-bbb"), "OtherKind", "{}"));
    let resp = subscribe(&mut world, SubscribeRequest { workspace_id: Some("ws-aaa".to_string()), after_id: None });
    assert!(resp.ok);
    let arr = body(&resp);
    assert_eq!(arr.as_array().expect("array").len(), 1);
    assert_eq!(arr[0]["kind"], "MatchingKind");
}

#[test]
fn invalid_body_returns_error() {
    let env = Envelope::ok("bad-id", verbs::EVENTS_SUBSCRIBE, "[1,2,3]".to_string());
    let parsed: Result<SubscribeRequest, String> =
        Err("invalid type: sequence, expected struct SubscribeRequest".to_string());
    let resp = events_subscribe_start(&env, &parsed).err().expect("refused");
    assert!(!resp.ok);
    assert_eq!(body(&resp)["code"].as_str().unwrap_or(""), "invalid_request");
}

#[test]
fn reply_verb_is_events_push() {
    let mut world = FakeWorld::default();
    let resp = subscribe(&mut world, SubscribeRequest { workspace_id: None, after_id: None });
    assert_eq!(resp.verb, verbs::EVENTS_PUSH);
}

#[test]
fn shell_capture_stores_event() {
    let mut world = FakeWorld::default();
    let env = request("capture-1", verbs::SHELL_CAPTURE);
    let first = shell_capture_start(&env, Some("test-workspace-1"), vec![]);
    let capture_resp = drive(&mut world, first, |s, a| shell_capture_step(&env, s, a));
    assert!(capture_resp.ok, "shell capture failed");
    assert_eq!(body(&capture_resp).get("count").and_then(|v| v.as_u64()).unwrap_or(999), 0, "should have captured 0 shells");
    let shell_event = world
        .events
        .iter()
        .find(|e| e.kind == "shell.capture" && e.workspace_id.as_deref() == Some("test-workspace-1"))
        .expect("should have stored a shell.capture event");
    assert_eq!(shell_event.kind, "shell.capture");
    assert_eq!(shell_event.workspace_id, Some("test-workspace-1".to_string()));
    let _captures: Vec<Value> = serde_json::from_str(&shell_event.payload_json).expect("payload should be valid JSON");
}

#[test]
fn shell_restore_returns_captures() {
    let mut world = FakeWorld::default();
    world.events.push(event(
        "test-event-1",
        Some("test-workspace-2"),
        "shell.capture",
        "[{\"pid\":12345,\"shell_name\":\"bash\"}]",
    ));
    let env = request("restore-1", verbs::SHELL_RESTORE);
    let first = shell_restore_start(&env, Some("test-workspace-2"));
    let restore_resp = drive(&mut world, first, |s, a| shell_restore_step(&env, s, a));
    assert!(restore_resp.ok, "shell restore failed");
    let b = body(&restore_resp);
    let captures_array = b.get("captures").expect("should have captures in response").as_array().expect("captures should be an array");
    assert_eq!(captures_array.len(), 1, "should have one capture");
    let first_capture = captures_array.first().expect("should have first capture");
    assert_eq!(first_capture.get("pid").and_then(|v| v.as_u64()).unwrap_or(0), 12345);
    assert_eq!(first_capture.get("shell_name").and_then(|v| v.as_str()).unwrap_or(""), "bash");
    assert_eq!(b.get("workspace_id").and_then(|v| v.as_str()).unwrap_or(""), "test-workspace-2");
}

#[test]
fn shell_restore_returns_empty_if_no_captures() {
    let mut world = FakeWorld::default();
    let env = request("restore-empty", verbs::SHELL_RESTORE);
    let first = shell_restore_start(&env, Some("non-existent-workspace"));
    let restore_resp = drive(&mut world, first, |s, a| shell_restore_step(&env, s, a));
    assert!(restore_resp.ok, "shell restore should succeed even with no captures");
    let b = body(&restore_resp);
    let captures_array = b.get("captures").expect("should have captures in response").as_array().expect("captures should be an array");
    assert!(captures_array.is_empty(), "should have no captures");
}

#[test]
fn shell_capture_requires_workspace_id() {
    let mut world = FakeWorld::default();
    let env = request("bad-capture", verbs::SHELL_CAPTURE);
    let capture_resp = drive(&mut world, shell_capture_start(&env, None, vec![]), |s, a| shell_capture_step(&env, s, a));
    assert!(!capture_resp.ok, "should fail without workspace_id");
    assert_eq!(body(&capture_resp).get("code").and_then(|v| v.as_str()).unwrap_or(""), "missing_workspace_id");
}

#[test]
fn shell_restore_requires_workspace_id() {
    let mut world = FakeWorld::default();
    let env = request("bad-restore", verbs::SHELL_RESTORE);
    let restore_resp = drive(&mut world, shell_restore_start(&env, None), |s, a| shell_restore_step(&env, s, a));
    assert!(!restore_resp.ok, "should fail without workspace_id");
    assert_eq!(body(&restore_resp).get("code").and_then(|v| v.as_str()).unwrap_or(""), "missing_workspace_id");
}

#[test]
fn shell_restore_takes_the_latest_capture_and_reports_bad_payloads() {
    let mut world = FakeWorld::default();
    world.events.push(event("1", Some("w"), "shell.capture", "[{\"pid\":1}]"));
    world.events.push(event("2", Some("w"), "shell.capture", "[{\"pid\":2}]"));
    world.events.push(event("3", Some("x"), "shell.capture", "not json"));
    let env = request("r", verbs::SHELL_RESTORE);
    let resp = drive(&mut world, shell_restore_start(&env, Some("w")), |s, a| shell_restore_step(&env, s, a));
    assert_eq!(body(&resp)["captures"][0]["pid"], 2);
    let bad = drive(&mut world, shell_restore_start(&env, Some("x")), |s, a| shell_restore_step(&env, s, a));
    assert_eq!(body(&bad)["code"], "invalid_payload");
}

#[test]
fn shell_capture_counts_what_was_captured() {
    let mut world = FakeWorld { now_ms: 0, ..FakeWorld::default() };
    let env = request("c", verbs::SHELL_CAPTURE);
    let resp = drive(&mut world, shell_capture_start(&env, Some("w"), vec![10, 20]), |s, a| {
        shell_capture_step(&env, s, a)
    });
    assert_eq!(body(&resp)["count"], 2);
    assert_eq!(body(&resp)["captures"][1]["pid"], 20);
    assert_eq!(world.events[0].created_at, "1970-01-01T00:00:00.000Z");
}

#[test]
fn request_fields_are_read_from_the_body() {
    let env = Envelope::ok(
        "1",
        "shell.capture",
        "{\"workspace_id\":\"ws-1\",\"pids\":[1,\"x\",-2,3.5,18446744073709551615,18446744073709551616,7]}".to_string(),
    );
    assert_eq!(request_str(&env, "workspace_id"), Some("ws-1".to_string()));
    assert_eq!(request_str(&env, "pids"), None);
    assert_eq!(request_str(&env, "missing"), None);
    assert_eq!(request_u64s(&env, "pids"), vec![1, 18446744073709551615, 7]);
    assert_eq!(request_u64s(&env, "workspace_id"), Vec::<u64>::new());
    let broken = Envelope::ok("2", "shell.capture", "not json".to_string());
    assert_eq!(request_str(&broken, "workspace_id"), None);
    assert_eq!(request_u64s(&broken, "pids"), Vec::<u64>::new());
    assert_eq!(parse_json_u64("42"), Some(42));
    assert_eq!(parse_json_u64("-1"), None);
    assert_eq!(parse_json_u64(""), None);
}
