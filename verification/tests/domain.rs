//! Tests of the shared domain types.

use resurreccion::domain::error::ErrorCode;
use resurreccion::domain::events::{
    DaemonEvent, FocusChanged, LayoutChanged, PaneClosed, PaneOpened, RuntimeAttached, RuntimeDetached,
    SnapshotCreated, SnapshotRestored, WorkspaceClosed, WorkspaceOpened,
};
use resurreccion::domain::fidelity::{PartialRestore, RestoreFidelity};
use resurreccion::domain::ids::{
    BindingKey, BlobId, EventId, IdParseError, PaneId, RuntimeId, SessionId, SnapshotId, TabId, WorkspaceId,
};

#[test]
fn all_id_types_are_distinct() {
    let w = WorkspaceId::new();
    let r = RuntimeId::new();
    let s = SnapshotId::new();
    // IDs are time-sortable ULIDs
    assert!(w.to_string().len() == 26);
    assert!(r.to_string().len() == 26);
    assert!(s.to_string().len() == 26);
}

#[test]
fn binding_key_is_deterministic() {
    let key1 = BindingKey::from_bytes([0u8; 32]);
    let key2 = BindingKey::from_bytes([0u8; 32]);
    assert_eq!(key1, key2);
}

#[test]
fn restore_fidelity_ordering() {
    assert!(RestoreFidelity::Exact > RestoreFidelity::Stateful);
    assert!(RestoreFidelity::Stateful > RestoreFidelity::Structured);
    assert!(RestoreFidelity::Structured > RestoreFidelity::Historical);
}

#[test]
fn fidelity_ranks_follow_the_chain() {
    assert_eq!(RestoreFidelity::Historical.rank(), 0);
    assert_eq!(RestoreFidelity::Structured.rank(), 1);
    assert_eq!(RestoreFidelity::Stateful.rank(), 2);
    assert_eq!(RestoreFidelity::Exact.rank(), 3);
    assert!(RestoreFidelity::Historical < RestoreFidelity::Exact);
    assert!(RestoreFidelity::Stateful <= RestoreFidelity::Stateful);
    let p = PartialRestore { fidelity: RestoreFidelity::Structured, failures: vec![] };
    assert!(p.failures.is_empty());
}

#[test]
fn error_codes_have_snake_case_names() {
    assert_eq!(ErrorCode::NotReady.as_str(), "not_ready");
    assert_eq!(ErrorCode::VersionMismatch.as_str(), "version_mismatch");
    assert_eq!(ErrorCode::Busy.as_str(), "busy");
}

#[test]
fn ids_round_trip_through_text() {
    let w = WorkspaceId::new();
    let text = w.to_string();
    let back: WorkspaceId = text.parse().unwrap();
    assert_eq!(back, w);
    assert_eq!(WorkspaceId::parse("short"), Err(IdParseError::InvalidLength));
    assert_eq!(WorkspaceId::parse("01ARZ3NDEKTSV4RRFFQ69G5FA!"), Err(IdParseError::InvalidChar));
    let known = SessionId::from_value(0);
    assert_eq!(known.to_string(), "00000000000000000000000000");
    let _ = (PaneId::new(), TabId::new(), EventId::new(), BlobId::default());
}

#[test]
fn binding_key_renders_lower_case_hex() {
    let mut bytes = [0u8; 32];
    bytes[0] = 0xab;
    bytes[31] = 0x0f;
    let key = BindingKey::from_bytes(bytes);
    let text = key.to_string();
    assert_eq!(text.len(), 64);
    assert!(text.starts_with("ab00"));
    assert!(text.ends_with("0f"));
    assert_eq!(key.as_bytes(), &bytes);
}

#[test]
fn binding_key_hashes_path_then_remote_then_worktree() {
    let plain = BindingKey::compute("/home/u/proj", None, None);
    assert_eq!(plain.as_bytes(), blake3::hash(b"/home/u/proj").as_bytes());
    let full = BindingKey::compute("/home/u/proj", Some("git@host:r.git"), Some("proj"));
    assert_eq!(full.as_bytes(), blake3::hash(b"/home/u/proj\x00git@host:r.git\x00proj").as_bytes());
    assert_ne!(plain, full);
}

fn assert_event<E: DaemonEvent>(_: &E) {}

#[test]
fn events_are_daemon_events() {
    let w = WorkspaceId::new();
    let r = RuntimeId::new();
    let p = PaneId::new();
    let s = SnapshotId::new();
    assert_event(&WorkspaceOpened { workspace_id: w });
    assert_event(&WorkspaceClosed { workspace_id: w });
    assert_event(&RuntimeAttached { workspace_id: w, runtime_id: r });
    assert_event(&RuntimeDetached { workspace_id: w, runtime_id: r });
    assert_event(&PaneOpened { runtime_id: r, pane_id: p });
    assert_event(&PaneClosed { runtime_id: r, pane_id: p });
    assert_event(&FocusChanged { runtime_id: r, pane_id: p });
    assert_event(&LayoutChanged { runtime_id: r });
    assert_event(&SnapshotCreated { workspace_id: w, snapshot_id: s });
    assert_event(&SnapshotRestored { workspace_id: w, snapshot_id: s });
}

#[test]
fn id_text_reads_back_for_extreme_values() {
    for v in [0u128, 1, 0x41414141414141414141414141414141, u128::MAX] {
        let id = WorkspaceId::from_value(v);
        let text = id.to_string();
        assert_eq!(WorkspaceId::parse(&text).unwrap().value(), v);
    }
    assert_eq!(WorkspaceId::from_value(0x41414141414141414141414141414141).to_string(), "21850M2GA1850M2GA1850M2GA1");
}

#[test]
fn ulid_texts_read_in_either_case() {
    let v: u128 = 0x41414141414141414141414141414141;
    assert_eq!(WorkspaceId::from_value(v).to_string(), "21850M2GA1850M2GA1850M2GA1");
    assert_eq!(WorkspaceId::parse("21850M2GA1850M2GA1850M2GA1").unwrap().value(), v);
    assert_eq!(WorkspaceId::parse("21850m2ga1850m2ga1850m2ga1").unwrap().value(), v);
    assert_eq!(WorkspaceId::parse("21850M2GA1850M2GA1850M2GAI"), Err(IdParseError::InvalidChar));
    assert_eq!(WorkspaceId::parse("21850M2GA1850M2GA1850M2GA\u{e9}"), Err(IdParseError::InvalidLength));
}
