//! Tests of bundles and headless batches.

use resurreccion::bundles::Bundle;
use resurreccion::cli::doctor::health_outcome;
use resurreccion::daemon::clock::seconds_stamp;
use resurreccion::headless::{answer_without_store, execute_batch, results_to_ndjson, HeadlessBatch, HeadlessCommand};

#[test]
fn new_bundle_has_version_1() {
    let bundle = Bundle::new("ws-001").unwrap();
    assert_eq!(bundle.version, 1);
    assert_eq!(bundle.workspace_id, "ws-001");
    assert!(bundle.artifacts.is_empty());
}

#[test]
fn add_artifact_appends() {
    let mut bundle = Bundle::new("ws-002").unwrap();
    bundle.add_artifact("layout", "main layout", "{\"panes\":2}".to_string());
    bundle.add_artifact("shell", "bash capture", "{\"rows\":24}".to_string());

    assert_eq!(bundle.artifacts.len(), 2);
    assert_eq!(bundle.artifacts[0].kind, "layout");
    assert_eq!(bundle.artifacts[0].label, "main layout");
    assert_eq!(bundle.artifacts[1].kind, "shell");
    assert!(bundle.artifacts[0].blob_hash.is_none());
}

#[test]
fn bundles_are_stamped_in_seconds() {
    let bundle = Bundle::new_at("ws-003", 1_713_398_400);
    assert_eq!(bundle.created_at, "1713398400Z");
    assert!(Bundle::new("ws-004").unwrap().created_at.ends_with('Z'));
    let mut chained = Bundle::new_at("ws-005", 0);
    chained.add_artifact("layout", "a", "1".to_string()).add_artifact("editor", "b", "2".to_string());
    assert_eq!(chained.artifacts[1].content, "2");
}

#[test]
fn seconds_stamps() {
    assert_eq!(seconds_stamp(1_713_398_400), "1713398400Z");
    assert_eq!(seconds_stamp(0), "0Z");
}

#[test]
fn headless_answers_unsupported_verbs_itself() {
    let batch = HeadlessBatch::from_single("doctor.ping", "{}".to_string());
    assert_eq!(batch.commands.len(), 1);
    let res = answer_without_store(&batch.commands[0]).unwrap();
    assert!(!res.success);
    assert_eq!(res.body, "null");
    assert_eq!(res.error.as_deref(), Some("verb not supported in headless mode: doctor.ping"));
    let list = HeadlessCommand { verb: "workspace.list".to_string(), body: "{}".to_string() };
    assert!(answer_without_store(&list).is_none());
}

#[test]
fn ndjson_joins_lines() {
    let lines = vec!["{\"a\":1}".to_string(), "{\"b\":2}".to_string()];
    assert_eq!(results_to_ndjson(&lines), "{\"a\":1}\n{\"b\":2}");
    assert_eq!(results_to_ndjson(&[]), "");
}

#[test]
fn health_outcomes() {
    assert_eq!(health_outcome("  {\"ok\":true}\n").unwrap(), "{\"ok\":true}");
    assert_eq!(
        health_outcome("{\"ok\":false}\n").unwrap_err(),
        "daemon returned unexpected response: {\"ok\":false}"
    );
}

#[test]
fn unknown_verb_returns_error_result() {
    let listing: Result<String, String> = Ok("[]".to_string());
    let batch = HeadlessBatch::from_single("workspace.nope", "{}".to_string());
    let results = execute_batch(&batch, &listing);
    assert_eq!(results.len(), 1);
    assert!(!results[0].success);
    assert!(results[0].error.as_deref().unwrap_or("").contains("not supported"));
}

#[test]
fn workspace_list_on_empty_store_returns_success_with_empty_list() {
    let listing: Result<String, String> = Ok("[]".to_string());
    let batch = HeadlessBatch::from_single("workspace.list", "{}".to_string());
    let results = execute_batch(&batch, &listing);
    assert_eq!(results.len(), 1);
    assert!(results[0].success);
    assert_eq!(results[0].body, "[]");
    assert!(results[0].error.is_none());
}

#[test]
fn a_failed_listing_fails_each_workspace_list() {
    let listing: Result<String, String> = Err("database is locked".to_string());
    let batch = HeadlessBatch {
        commands: vec![
            HeadlessCommand { verb: "workspace.list".to_string(), body: "{}".to_string() },
            HeadlessCommand { verb: "snapshot.list".to_string(), body: "{}".to_string() },
        ],
    };
    let results = execute_batch(&batch, &listing);
    assert_eq!(results.len(), 2);
    assert_eq!(results[0].verb, "workspace.list");
    assert!(!results[0].success);
    assert_eq!(results[0].body, "null");
    assert_eq!(results[0].error.as_deref(), Some("database is locked"));
    assert_eq!(results[1].error.as_deref(), Some("verb not supported in headless mode: snapshot.list"));
}
