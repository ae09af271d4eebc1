//! The daemon's verbs that read and write the store.
//!
//! A verb's handler alternates asking the store (or the file system, the
//! clock, the shell) and deciding what to do with the answer. The asking is
//! done by the caller; each handler here is a machine that, from its state
//! and the last answer, either asks the next question or gives the reply.

use vstd::prelude::*;
use vstd::string::StringExecFns;
use vstd::utf8::encode_utf8;
use crate::daemon::clock::{chrono_text, timestamp_text};
use crate::daemon::records::{
    copy_snapshot_row, copy_workspace_row, display_name_of, events_for_subscriber, events_of, is_shell_capture_of,
    json_array, jsons, latest_shell_capture, manifest_text, new_snapshot_row, new_workspace_row,
    require_snapshot_id, require_workspace_id, rows_json, shell_capture_event, shell_capture_reply,
    shell_capture_reply_text, shell_restore_reply, shell_restore_reply_text, snapshot_restore_reply,
    snapshot_restore_reply_text, utf8_file_name, EventRow, JsonRecord, SnapshotRow, WorkspaceRow,
};
use crate::dir::{compose_binding_key, key_message, GitInfo, Scope};
use crate::domain::ids::{blake3_digest, hex_text};
use crate::mux::{Capability, Mux};
use crate::planner::{capture_args_text, execute, executes, plan_capture, plan_restore, restore_args_text, NodeResult, PlanNode, SnapshotManifest};
use crate::proto::envelope::{error_body_text, Envelope};
use crate::proto::{verbs, SubscribeRequest};

verus! {

/// What a handler asks before it can go on.
pub enum Call {
    /// The canonical form of a path (the file system).
    Canonicalize { path: String },
    /// The git repository of a canonical path, where there is one.
    DetectGit { canonical: String },
    /// Milliseconds since the epoch (the clock).
    ReadClock,
    /// The workspace of an id.
    WorkspaceGet { id: String },
    /// The workspace of a binding key.
    WorkspaceByKey { key: String },
    /// Store a new workspace.
    WorkspaceInsert { row: WorkspaceRow },
    /// Mark a workspace opened now.
    WorkspaceTouch { id: String },
    /// Store a new snapshot.
    SnapshotInsert { row: SnapshotRow },
    /// The snapshot of an id.
    SnapshotGet { id: String },
    /// The snapshots of a workspace.
    SnapshotList { workspace_id: String },
    /// The events after an id (all of them where none is given), in order.
    EventTail { after_id: Option<String> },
    /// Append an event.
    EventAppend { row: EventRow },
    /// Capture the shells of the processes, skipping those that cannot be
    /// captured.
    CaptureShells { pids: Vec<u64> },
    /// Read the shell captures of an event's payload.
    ReadShellCaptures { payload_json: String },
}

/// What came back.
pub enum Answer {
    /// The canonical path, or why there is none.
    Path(Result<String, String>),
    /// The repository, or why it could not be read.
    Git(Result<Option<GitInfo>, String>),
    /// Milliseconds since the epoch.
    Clock(i64),
    /// A workspace, or the store's error.
    Workspace(Result<Option<WorkspaceRow>, String>),
    /// A snapshot, or the store's error.
    Snapshot(Result<Option<SnapshotRow>, String>),
    /// Events, or the store's error.
    Events(Result<Vec<EventRow>, String>),
    /// Whether a write succeeded, or the store's error.
    Stored(Result<(), String>),
    /// The captures as JSON text and their number, or why they could not be
    /// written as JSON.
    Shells(Result<(String, usize), String>),
    /// The captures read from a payload, as JSON text, or why the payload is
    /// not a list of captures.
    ShellCaptures(Result<String, String>),
}

/// A handler's next move: ask and wait in a state, or reply.
pub enum Step<S> {
    Ask(S, Call),
    Reply(Envelope),
}

/// `r` is the reply to `env` with success `ok` and body `body`.
pub open spec fn is_reply(r: Envelope, env: Envelope, ok: bool, body: Seq<char>) -> bool {
    r.id@ == env.id@ && r.verb@ == env.verb@ && r.ok == ok && r.body@ == body
}

/// `r` is the error reply to `env` with code `code` and message `message`.
pub open spec fn is_error(r: Envelope, env: Envelope, code: Seq<char>, message: Seq<char>) -> bool {
    is_reply(r, env, false, error_body_text(code, message))
}

/// The step replies with success `ok` and body `body`.
pub open spec fn replies<S>(s: Step<S>, env: Envelope, ok: bool, body: Seq<char>) -> bool {
    s matches Step::Reply(r) && is_reply(r, env, ok, body)
}

/// The step replies with the error `code`, `message`.
pub open spec fn fails<S>(s: Step<S>, env: Envelope, code: Seq<char>, message: Seq<char>) -> bool {
    s matches Step::Reply(r) && is_error(r, env, code, message)
}

/// A request field's text, or `default` where the request has none.
pub open spec fn field_or(field: Option<&str>, default: Seq<char>) -> Seq<char> {
    match field {
        Some(f) => f@,
        None => default,
    }
}

/// A request field's text, or the empty text.
fn field_text(field: Option<&str>) -> (r: String)
    ensures
        r@ == field_or(field, Seq::empty()),
{
    match field {
        Some(f) => f.to_owned(),
        None => String::new(),
    }
}

/// The success reply to `env` with body `body`.
fn ok_reply(env: &Envelope, body: String) -> (r: Envelope)
    ensures
        is_reply(r, *env, true, body@),
{
    Envelope::ok(env.id.as_str(), env.verb.as_str(), body)
}

/// The error reply to `env`.
fn err_reply(env: &Envelope, code: &str, message: &str) -> (r: Envelope)
    ensures
        is_error(r, *env, code@, message@),
{
    Envelope::err(env.id.as_str(), env.verb.as_str(), code, message)
}

/// The reply to a record read: the record, a `not_found` error with
/// `missing` where there is none, or the store's error as `internal`.
pub open spec fn is_read_reply<T: JsonRecord>(r: Envelope, env: Envelope, read: Result<Option<T>, String>, missing: Seq<char>) -> bool {
    match read {
        Ok(Some(row)) => is_reply(r, env, true, row.json()),
        Ok(None) => is_error(r, env, "not_found"@, missing),
        Err(e) => is_error(r, env, "internal"@, e@),
    }
}

/// The reply to a listing: the records as a JSON array, or the store's
/// error as `internal`.
pub open spec fn is_list_reply<T: JsonRecord>(r: Envelope, env: Envelope, rows: Result<Vec<T>, String>) -> bool {
    match rows {
        Ok(v) => is_reply(r, env, true, json_array(jsons(v@))),
        Err(e) => is_error(r, env, "internal"@, e@),
    }
}

/// The reply to a record read.
fn read_reply<T: JsonRecord>(env: &Envelope, read: Result<Option<T>, String>, missing: &str) -> (r: Envelope)
    ensures
        is_read_reply(r, *env, read, missing@),
{
    match read {
        Ok(Some(row)) => ok_reply(env, row.to_json()),
        Ok(None) => err_reply(env, "not_found", missing),
        Err(e) => err_reply(env, "internal", e.as_str()),
    }
}

/// The reply to a listing.
fn list_reply<T: JsonRecord>(env: &Envelope, rows: Result<Vec<T>, String>) -> (r: Envelope)
    ensures
        is_list_reply(r, *env, rows),
{
    match rows {
        Ok(v) => ok_reply(env, rows_json(v.as_slice())),
        Err(e) => err_reply(env, "internal", e.as_str()),
    }
}

/// `workspace.list`: the store's workspaces.
pub fn workspace_list_reply(env: &Envelope, rows: Result<Vec<WorkspaceRow>, String>) -> (r: Envelope)
    ensures
        is_list_reply(r, *env, rows),
{
    list_reply(env, rows)
}

/// `workspace.get`: the workspace of the request's `id` (the empty id where
/// it has none).
pub fn workspace_get_call(id: Option<&str>) -> (c: Call)
    ensures
        c matches Call::WorkspaceGet { id: i } && i@ == field_or(id, Seq::empty()),
{
    Call::WorkspaceGet { id: field_text(id) }
}

/// `workspace.get`: the reply to the store's answer.
pub fn workspace_get_reply(env: &Envelope, read: Result<Option<WorkspaceRow>, String>) -> (r: Envelope)
    ensures
        is_read_reply(r, *env, read, "workspace not found"@),
{
    read_reply(env, read, "workspace not found")
}

/// The state of `workspace.create`.
pub enum CreateState {
    /// Waiting for the time of creation.
    Stamping { binding_key: String, display_name: String, root_path: String },
    /// Waiting for the store to take the new record.
    Inserting { row: WorkspaceRow },
}

/// `row` is a new workspace record of these fields, created at `ms`.
pub open spec fn is_new_workspace(row: WorkspaceRow, binding_key: Seq<char>, display_name: Seq<char>, root_path: Seq<char>, ms: i64) -> bool {
    &&& row.id@.len() == 26
    &&& row.binding_key@ == binding_key
    &&& row.display_name@ == display_name
    &&& row.root_path@ == root_path
    &&& row.created_at@ == chrono_text(ms as int)
    &&& row.last_opened_at is None
}

/// The state waits for the answer's kind.
pub open spec fn create_expects(st: CreateState, a: Answer) -> bool {
    match st {
        CreateState::Stamping { .. } => a is Clock,
        CreateState::Inserting { .. } => a is Stored,
    }
}

/// `workspace.create`, from the request's `display_name` (default
/// `workspace`), `root_path` and `binding_key` (default empty): first the
/// time of creation.
pub fn workspace_create_start(display_name: Option<&str>, root_path: Option<&str>, binding_key: Option<&str>) -> (r: Step<CreateState>)
    ensures
        r matches Step::Ask(CreateState::Stamping { binding_key: k, display_name: d, root_path: p }, Call::ReadClock)
            && k@ == field_or(binding_key, Seq::empty()) && d@ == field_or(display_name, "workspace"@) && p@
            == field_or(root_path, Seq::empty()),
{
    let d = match display_name {
        Some(n) => n.to_owned(),
        None => "workspace".to_owned(),
    };
    Step::Ask(
        CreateState::Stamping { binding_key: field_text(binding_key), display_name: d, root_path: field_text(root_path) },
        Call::ReadClock,
    )
}

/// `workspace.create`, on an answer: a new record under a fresh id, stored,
/// then replied with.
pub fn workspace_create_step(env: &Envelope, st: CreateState, a: Answer) -> (r: Step<CreateState>)
    requires
        create_expects(st, a),
    ensures
        match (st, a) {
            (CreateState::Stamping { binding_key: k, display_name: d, root_path: p }, Answer::Clock(ms)) => {
                r matches Step::Ask(CreateState::Inserting { row }, Call::WorkspaceInsert { row: stored })
                    && stored == row && is_new_workspace(row, k@, d@, p@, ms)
            },
            (CreateState::Inserting { row }, Answer::Stored(Ok(()))) => replies(r, *env, true, row.json()),
            (CreateState::Inserting { row }, Answer::Stored(Err(e))) => fails(r, *env, "internal"@, e@),
            _ => false,
        },
{
    match st {
        CreateState::Stamping { binding_key, display_name, root_path } => match a {
            Answer::Clock(ms) => {
                let row = new_workspace_row(binding_key.as_str(), display_name.as_str(), root_path.as_str(), ms);
                let stored = copy_workspace_row(&row);
                Step::Ask(CreateState::Inserting { row }, Call::WorkspaceInsert { row: stored })
            },
            _ => vstd::pervasive::unreached(),
        },
        CreateState::Inserting { row } => match a {
            Answer::Stored(Ok(())) => Step::Reply(ok_reply(env, row.to_json())),
            Answer::Stored(Err(e)) => Step::Reply(err_reply(env, "internal", e.as_str())),
            _ => vstd::pervasive::unreached(),
        },
    }
}

/// The state of `workspace.resolve_or_create`.
pub enum ResolveState {
    /// Waiting for the workspace of the binding key.
    LookingUp { binding_key: String, display_name: String, root_path: String },
    /// None was found: waiting for the time of creation.
    Stamping { binding_key: String, display_name: String, root_path: String },
    /// Waiting for the store to take the new record.
    Inserting { row: WorkspaceRow },
}

/// The state waits for the answer's kind.
pub open spec fn resolve_expects(st: ResolveState, a: Answer) -> bool {
    match st {
        ResolveState::LookingUp { .. } => a is Workspace,
        ResolveState::Stamping { .. } => a is Clock,
        ResolveState::Inserting { .. } => a is Stored,
    }
}

/// `workspace.resolve_or_create`, from the request's `binding_key` and
/// `root_path` (default empty) and `display_name` (default `workspace`):
/// first the workspace of the key.
pub fn workspace_resolve_start(binding_key: Option<&str>, root_path: Option<&str>, display_name: Option<&str>) -> (r: Step<ResolveState>)
    ensures
        r matches Step::Ask(
            ResolveState::LookingUp { binding_key: k, display_name: d, root_path: p },
            Call::WorkspaceByKey { key },
        ) && k@ == field_or(binding_key, Seq::empty()) && key@ == k@ && d@ == field_or(display_name, "workspace"@)
            && p@ == field_or(root_path, Seq::empty()),
{
    let d = match display_name {
        Some(n) => n.to_owned(),
        None => "workspace".to_owned(),
    };
    let k = field_text(binding_key);
    let key = k.clone();
    Step::Ask(
        ResolveState::LookingUp { binding_key: k, display_name: d, root_path: field_text(root_path) },
        Call::WorkspaceByKey { key },
    )
}

/// `workspace.resolve_or_create`, on an answer: the workspace of the key
/// where the store has one; otherwise a new record, stored, then replied
/// with. A failed lookup counts as none found.
pub fn workspace_resolve_step(env: &Envelope, st: ResolveState, a: Answer) -> (r: Step<ResolveState>)
    requires
        resolve_expects(st, a),
    ensures
        match (st, a) {
            (ResolveState::LookingUp { .. }, Answer::Workspace(Ok(Some(existing)))) => replies(
                r,
                *env,
                true,
                existing.json(),
            ),
            (ResolveState::LookingUp { binding_key: k, display_name: d, root_path: p }, Answer::Workspace(_)) => {
                r matches Step::Ask(
                    ResolveState::Stamping { binding_key: k2, display_name: d2, root_path: p2 },
                    Call::ReadClock,
                ) && k2 == k && d2 == d && p2 == p
            },
            (ResolveState::Stamping { binding_key: k, display_name: d, root_path: p }, Answer::Clock(ms)) => {
                r matches Step::Ask(ResolveState::Inserting { row }, Call::WorkspaceInsert { row: stored })
                    && stored == row && is_new_workspace(row, k@, d@, p@, ms)
            },
            (ResolveState::Inserting { row }, Answer::Stored(Ok(()))) => replies(r, *env, true, row.json()),
            (ResolveState::Inserting { row }, Answer::Stored(Err(e))) => fails(r, *env, "internal"@, e@),
            _ => false,
        },
{
    match st {
        ResolveState::LookingUp { binding_key, display_name, root_path } => match a {
            Answer::Workspace(Ok(Some(existing))) => Step::Reply(ok_reply(env, existing.to_json())),
            Answer::Workspace(_) => Step::Ask(ResolveState::Stamping { binding_key, display_name, root_path }, Call::ReadClock),
            _ => vstd::pervasive::unreached(),
        },
        ResolveState::Stamping { binding_key, display_name, root_path } => match a {
            Answer::Clock(ms) => {
                let row = new_workspace_row(binding_key.as_str(), display_name.as_str(), root_path.as_str(), ms);
                let stored = copy_workspace_row(&row);
                Step::Ask(ResolveState::Inserting { row }, Call::WorkspaceInsert { row: stored })
            },
            _ => vstd::pervasive::unreached(),
        },
        ResolveState::Inserting { row } => match a {
            Answer::Stored(Ok(())) => Step::Reply(ok_reply(env, row.to_json())),
            Answer::Stored(Err(e)) => Step::Reply(err_reply(env, "internal", e.as_str())),
            _ => vstd::pervasive::unreached(),
        },
    }
}

/// The state of `workspace.open`.
pub enum OpenState {
    /// Waiting for the canonical form of the path.
    Canonicalizing,
    /// Waiting for the repository of the canonical path.
    DetectingGit { canonical: String },
    /// Waiting for the workspace of the binding key.
    LookingUp { canonical: String, binding_key: String },
    /// None was found: waiting for the time of creation.
    Stamping { canonical: String, binding_key: String },
    /// Waiting for the store to take the new record.
    Inserting { row: WorkspaceRow },
    /// The new workspace is being marked opened.
    TouchingNew { row: WorkspaceRow },
    /// Waiting for the new workspace as the store now has it.
    RereadingNew { row: WorkspaceRow },
    /// The found workspace is being marked opened.
    TouchingFound { found: WorkspaceRow },
    /// Waiting for the found workspace as the store now has it.
    RereadingFound { found: WorkspaceRow },
}

/// The state waits for the answer's kind.
pub open spec fn open_expects(st: OpenState, a: Answer) -> bool {
    match st {
        OpenState::Canonicalizing => a is Path,
        OpenState::DetectingGit { .. } => a is Git,
        OpenState::LookingUp { .. } => a is Workspace,
        OpenState::Stamping { .. } => a is Clock,
        OpenState::Inserting { .. } => a is Stored,
        OpenState::TouchingNew { .. } => a is Stored,
        OpenState::RereadingNew { .. } => a is Workspace,
        OpenState::TouchingFound { .. } => a is Stored,
        OpenState::RereadingFound { .. } => a is Workspace,
    }
}

/// The binding key of a canonical path in its repository, scoped to the
/// repository, as hex text.
pub open spec fn repo_binding_text(canonical: Seq<char>, git: Option<GitInfo>) -> Seq<char> {
    hex_text(blake3_digest(key_message(encode_utf8(canonical), git, Scope::RepoScoped)))
}

/// The name a workspace opened at `canonical` gets: its directory's name,
/// or `workspace`.
pub open spec fn open_display_name(canonical: Seq<char>) -> Seq<char> {
    match utf8_file_name(canonical) {
        Some(n) => n,
        None => "workspace"@,
    }
}

/// The record that replies to `workspace.open`: the store's reread where
/// it has the workspace, the record in hand otherwise.
pub open spec fn reread_or(read: Result<Option<WorkspaceRow>, String>, held: WorkspaceRow) -> WorkspaceRow {
    match read {
        Ok(Some(w)) => w,
        _ => held,
    }
}

/// `workspace.open`, from the request's `path` (the empty path where it has
/// none): first its canonical form.
pub fn workspace_open_start(path: Option<&str>) -> (r: Step<OpenState>)
    ensures
        r matches Step::Ask(OpenState::Canonicalizing, Call::Canonicalize { path: p }) && p@ == field_or(
            path,
            Seq::empty(),
        ),
{
    Step::Ask(OpenState::Canonicalizing, Call::Canonicalize { path: field_text(path) })
}

/// `workspace.open`, on an answer. The path is keyed by its repository;
/// the workspace of the key is marked opened and replied with as the store
/// then has it; where there is none, a new one named after the directory
/// is stored, marked opened and replied with.
pub fn workspace_open_step(env: &Envelope, st: OpenState, a: Answer) -> (r: Step<OpenState>)
    requires
        open_expects(st, a),
    ensures
        match (st, a) {
            (OpenState::Canonicalizing, Answer::Path(Err(e))) => fails(r, *env, "invalid_path"@, e@),
            (OpenState::Canonicalizing, Answer::Path(Ok(c))) => r matches Step::Ask(
                OpenState::DetectingGit { canonical },
                Call::DetectGit { canonical: c2 },
            ) && canonical == c && c2 == c,
            (OpenState::DetectingGit { .. }, Answer::Git(Err(e))) => fails(r, *env, "git_error"@, e@),
            (OpenState::DetectingGit { canonical: c }, Answer::Git(Ok(git))) => r matches Step::Ask(
                OpenState::LookingUp { canonical, binding_key },
                Call::WorkspaceByKey { key },
            ) && canonical == c && key == binding_key && binding_key@ == repo_binding_text(c@, git),
            (OpenState::LookingUp { .. }, Answer::Workspace(Ok(Some(found)))) => r matches Step::Ask(
                OpenState::TouchingFound { found: f },
                Call::WorkspaceTouch { id },
            ) && f == found && id == found.id,
            (OpenState::LookingUp { canonical: c, binding_key: k }, Answer::Workspace(_)) => r matches Step::Ask(
                OpenState::Stamping { canonical, binding_key },
                Call::ReadClock,
            ) && canonical == c && binding_key == k,
            (OpenState::Stamping { canonical: c, binding_key: k }, Answer::Clock(ms)) => r matches Step::Ask(
                OpenState::Inserting { row },
                Call::WorkspaceInsert { row: stored },
            ) && stored == row && is_new_workspace(row, k@, open_display_name(c@), c@, ms),
            (OpenState::Inserting { .. }, Answer::Stored(Err(e))) => fails(r, *env, "internal"@, e@),
            (OpenState::Inserting { row }, Answer::Stored(Ok(()))) => r matches Step::Ask(
                OpenState::TouchingNew { row: w },
                Call::WorkspaceTouch { id },
            ) && w == row && id == row.id,
            (OpenState::TouchingNew { row }, Answer::Stored(_)) => r matches Step::Ask(
                OpenState::RereadingNew { row: w },
                Call::WorkspaceGet { id },
            ) && w == row && id == row.id,
            (OpenState::RereadingNew { row }, Answer::Workspace(read)) => replies(
                r,
                *env,
                true,
                reread_or(read, row).json(),
            ),
            (OpenState::TouchingFound { found }, Answer::Stored(Ok(()))) => r matches Step::Ask(
                OpenState::RereadingFound { found: f },
                Call::WorkspaceGet { id },
            ) && f == found && id == found.id,
            (OpenState::TouchingFound { found }, Answer::Stored(Err(_))) => replies(r, *env, true, found.json()),
            (OpenState::RereadingFound { found }, Answer::Workspace(read)) => replies(
                r,
                *env,
                true,
                reread_or(read, found).json(),
            ),
            _ => false,
        },
{
    match st {
        OpenState::Canonicalizing => match a {
            Answer::Path(Err(e)) => Step::Reply(err_reply(env, "invalid_path", e.as_str())),
            Answer::Path(Ok(canonical)) => {
                let c2 = canonical.clone();
                Step::Ask(OpenState::DetectingGit { canonical }, Call::DetectGit { canonical: c2 })
            },
            _ => vstd::pervasive::unreached(),
        },
        OpenState::DetectingGit { canonical } => match a {
            Answer::Git(Err(e)) => Step::Reply(err_reply(env, "git_error", e.as_str())),
            Answer::Git(Ok(git)) => {
                let g = git.as_ref();
                let key = compose_binding_key(canonical.as_str(), g, Scope::RepoScoped);
                let binding_key = key.to_string();
                assert(crate::dir::git_value(g) == git);
                let k2 = binding_key.clone();
                Step::Ask(OpenState::LookingUp { canonical, binding_key }, Call::WorkspaceByKey { key: k2 })
            },
            _ => vstd::pervasive::unreached(),
        },
        OpenState::LookingUp { canonical, binding_key } => match a {
            Answer::Workspace(Ok(Some(found))) => {
                let id = found.id.clone();
                Step::Ask(OpenState::TouchingFound { found }, Call::WorkspaceTouch { id })
            },
            Answer::Workspace(_) => Step::Ask(OpenState::Stamping { canonical, binding_key }, Call::ReadClock),
            _ => vstd::pervasive::unreached(),
        },
        OpenState::Stamping { canonical, binding_key } => match a {
            Answer::Clock(ms) => {
                let name = display_name_of(canonical.as_str());
                let row = new_workspace_row(binding_key.as_str(), name.as_str(), canonical.as_str(), ms);
                let stored = copy_workspace_row(&row);
                Step::Ask(OpenState::Inserting { row }, Call::WorkspaceInsert { row: stored })
            },
            _ => vstd::pervasive::unreached(),
        },
        OpenState::Inserting { row } => match a {
            Answer::Stored(Err(e)) => Step::Reply(err_reply(env, "internal", e.as_str())),
            Answer::Stored(Ok(())) => {
                let id = row.id.clone();
                Step::Ask(OpenState::TouchingNew { row }, Call::WorkspaceTouch { id })
            },
            _ => vstd::pervasive::unreached(),
        },
        OpenState::TouchingNew { row } => match a {
            Answer::Stored(_) => {
                let id = row.id.clone();
                Step::Ask(OpenState::RereadingNew { row }, Call::WorkspaceGet { id })
            },
            _ => vstd::pervasive::unreached(),
        },
        OpenState::RereadingNew { row } => match a {
            Answer::Workspace(Ok(Some(w))) => Step::Reply(ok_reply(env, w.to_json())),
            Answer::Workspace(_) => Step::Reply(ok_reply(env, row.to_json())),
            _ => vstd::pervasive::unreached(),
        },
        OpenState::TouchingFound { found } => match a {
            Answer::Stored(Ok(())) => {
                let id = found.id.clone();
                Step::Ask(OpenState::RereadingFound { found }, Call::WorkspaceGet { id })
            },
            Answer::Stored(Err(_)) => Step::Reply(ok_reply(env, found.to_json())),
            _ => vstd::pervasive::unreached(),
        },
        OpenState::RereadingFound { found } => match a {
            Answer::Workspace(Ok(Some(w))) => Step::Reply(ok_reply(env, w.to_json())),
            Answer::Workspace(_) => Step::Reply(ok_reply(env, found.to_json())),
            _ => vstd::pervasive::unreached(),
        },
    }
}

/// `r` is a new snapshot record of workspace `workspace_id` made at `ms`.
pub open spec fn is_new_snapshot(row: SnapshotRow, workspace_id: Seq<char>, ms: i64) -> bool {
    &&& row.id@.len() == 26
    &&& row.workspace_id@ == workspace_id
    &&& row.runtime_id is None
    &&& row.fidelity@ == "basic"@
    &&& row.manifest_json@ == manifest_text(chrono_text(ms as int))
    &&& row.created_at@ == chrono_text(ms as int)
}

/// The request lacks the field, or gives it empty.
pub open spec fn lacks(field: Option<&str>) -> bool {
    field_or(field, Seq::empty()).len() == 0
}

/// The state of `snapshot.create`.
pub enum SnapshotCreateState {
    /// The layout was captured: waiting for the time of the snapshot.
    Stamping { workspace_id: String },
    /// Waiting for the store to take the new record.
    Inserting { row: SnapshotRow },
}

/// The state waits for the answer's kind.
pub open spec fn snapshot_create_expects(st: SnapshotCreateState, a: Answer) -> bool {
    match st {
        SnapshotCreateState::Stamping { .. } => a is Clock,
        SnapshotCreateState::Inserting { .. } => a is Stored,
    }
}

/// `snapshot.create` for the request's `workspace_id`: the backend's layout
/// is captured by a capture plan of its capabilities, then the time of the
/// snapshot is asked for. A request without a workspace is refused.
pub fn snapshot_create_start<M: Mux>(env: &Envelope, workspace_id: Option<&str>, mux: &M) -> (r: Step<SnapshotCreateState>)
    ensures
        lacks(workspace_id) ==> fails(r, *env, "missing_workspace_id"@, "workspace_id required"@),
        !lacks(workspace_id) ==> (r matches Step::Ask(SnapshotCreateState::Stamping { workspace_id: w }, Call::ReadClock)
            && w@ == field_or(workspace_id, Seq::empty())),
        !lacks(workspace_id) ==> exists|caps: Capability, node: PlanNode, res: NodeResult|
            #![trigger call_ensures(<M as Mux>::capabilities, (mux,), caps), executes(mux, node, res)]
            call_ensures(<M as Mux>::capabilities, (mux,), caps) && node.verb@ == crate::planner::verbs::CAPTURE_LAYOUT@
                && node.args@ == capture_args_text(caps.spec_bits()) && executes(mux, node, res),
{
    let w = match require_workspace_id(env, workspace_id) {
        Ok(w) => w,
        Err(e) => return Step::Reply(e),
    };
    let capabilities = mux.capabilities();
    let ghost caps = capabilities;
    assert(call_ensures(<M as Mux>::capabilities, (mux,), caps));
    let plan = plan_capture(&capabilities);
    match execute(&plan, mux) {
        Ok(res) => {
            assert(executes(mux, plan.nodes@[0], res.node_results@[0]));
            Step::Ask(SnapshotCreateState::Stamping { workspace_id: w }, Call::ReadClock)
        },
        Err(e) => Step::Reply(err_reply(env, "plan_execution_failed", e.as_str())),
    }
}

/// `snapshot.create`, on an answer: a new snapshot record of basic
/// fidelity, stored, then replied with.
pub fn snapshot_create_step(env: &Envelope, st: SnapshotCreateState, a: Answer) -> (r: Step<SnapshotCreateState>)
    requires
        snapshot_create_expects(st, a),
    ensures
        match (st, a) {
            (SnapshotCreateState::Stamping { workspace_id: w }, Answer::Clock(ms)) => r matches Step::Ask(
                SnapshotCreateState::Inserting { row },
                Call::SnapshotInsert { row: stored },
            ) && stored == row && is_new_snapshot(row, w@, ms),
            (SnapshotCreateState::Inserting { row }, Answer::Stored(Ok(()))) => replies(r, *env, true, row.json()),
            (SnapshotCreateState::Inserting { .. }, Answer::Stored(Err(e))) => fails(r, *env, "internal"@, e@),
            _ => false,
        },
{
    match st {
        SnapshotCreateState::Stamping { workspace_id } => match a {
            Answer::Clock(ms) => {
                let row = new_snapshot_row(workspace_id.as_str(), ms);
                let stored = copy_snapshot_row(&row);
                Step::Ask(SnapshotCreateState::Inserting { row }, Call::SnapshotInsert { row: stored })
            },
            _ => vstd::pervasive::unreached(),
        },
        SnapshotCreateState::Inserting { row } => match a {
            Answer::Stored(Ok(())) => Step::Reply(ok_reply(env, row.to_json())),
            Answer::Stored(Err(e)) => Step::Reply(err_reply(env, "internal", e.as_str())),
            _ => vstd::pervasive::unreached(),
        },
    }
}

/// `snapshot.list`: the snapshots of the request's `workspace_id`; a
/// request without one is refused.
pub fn snapshot_list_start(env: &Envelope, workspace_id: Option<&str>) -> (r: Result<Call, Envelope>)
    ensures
        lacks(workspace_id) ==> (r matches Err(e) && is_error(e, *env, "missing_workspace_id"@, "workspace_id required"@)),
        !lacks(workspace_id) ==> (r matches Ok(Call::SnapshotList { workspace_id: w }) && w@ == field_or(
            workspace_id,
            Seq::empty(),
        )),
{
    match require_workspace_id(env, workspace_id) {
        Ok(w) => Ok(Call::SnapshotList { workspace_id: w }),
        Err(e) => Err(e),
    }
}

/// `snapshot.list`: the reply to the store's answer.
pub fn snapshot_list_reply(env: &Envelope, rows: Result<Vec<SnapshotRow>, String>) -> (r: Envelope)
    ensures
        is_list_reply(r, *env, rows),
{
    list_reply(env, rows)
}

/// `snapshot.get`: the snapshot of the request's `id` (the empty id where
/// it has none).
pub fn snapshot_get_call(id: Option<&str>) -> (c: Call)
    ensures
        c matches Call::SnapshotGet { id: i } && i@ == field_or(id, Seq::empty()),
{
    Call::SnapshotGet { id: field_text(id) }
}

/// `snapshot.get`: the reply to the store's answer.
pub fn snapshot_get_reply(env: &Envelope, read: Result<Option<SnapshotRow>, String>) -> (r: Envelope)
    ensures
        is_read_reply(r, *env, read, "snapshot not found"@),
{
    read_reply(env, read, "snapshot not found")
}

/// The member `key` of a JSON text as `serde_json` reads the text, written
/// back as JSON text: `Ok(None)` where the text is JSON without such a
/// member (or not an object), `Err` with `serde_json`'s message where it is
/// no JSON.
pub uninterp spec fn json_member(text: Seq<char>, key: Seq<char>) -> Result<Option<Seq<char>>, Seq<char>>;

/// The text of an optional member, or the reader's message.
pub open spec fn member_view(r: Result<Option<String>, String>) -> Result<Option<Seq<char>>, Seq<char>> {
    match r {
        Ok(Some(l)) => Ok(Some(l@)),
        Ok(None) => Ok(None),
        Err(e) => Err(e@),
    }
}

/// A member of a JSON object.
///
/// Calls `serde_json::from_str` for a `serde_json::Value`, then
/// `Value::get(key)` and `Value::to_string` on what it finds: reading the
/// text, looking the member up and writing it back. The result is named,
/// not spelled out.
#[verifier::external_body]
fn read_json_member(text: &str, key: &str) -> (r: Result<Option<String>, String>)
    ensures
        member_view(r) == json_member(text@, key@),
{
    match serde_json::from_str::<serde_json::Value>(text) {
        Ok(v) => match v.get(key) {
            Some(m) => Ok(Some(m.to_string())),
            None => Ok(None),
        },
        Err(e) => Err(e.to_string()),
    }
}

/// `snapshot.restore`: the snapshot of the request's `snapshot_id`; a
/// request without one is refused.
pub fn snapshot_restore_start(env: &Envelope, snapshot_id: Option<&str>) -> (r: Result<Call, Envelope>)
    ensures
        lacks(snapshot_id) ==> (r matches Err(e) && is_error(e, *env, "missing_snapshot_id"@, "snapshot_id required"@)),
        !lacks(snapshot_id) ==> (r matches Ok(Call::SnapshotGet { id }) && id@ == field_or(snapshot_id, Seq::empty())),
{
    match require_snapshot_id(env, snapshot_id) {
        Ok(id) => Ok(Call::SnapshotGet { id }),
        Err(e) => Err(e),
    }
}

/// `snapshot.restore`, given the store's answer for the snapshot
/// `snapshot_id`: the snapshot's layout (an empty object where its manifest
/// has none) is restored by a restore plan of the backend's capabilities,
/// and the reply names the snapshot.
pub fn snapshot_restore_finish<M: Mux>(env: &Envelope, snapshot_id: &str, read: Result<Option<SnapshotRow>, String>, mux: &M) -> (r: Envelope)
    ensures
        match read {
            Ok(None) => is_error(r, *env, "not_found"@, "snapshot not found"@),
            Err(e) => is_error(r, *env, "internal"@, e@),
            Ok(Some(snap)) => match json_member(snap.manifest_json@, "layout"@) {
                Err(m) => is_error(r, *env, "invalid_manifest"@, m),
                Ok(layout) => {
                    &&& is_reply(r, *env, true, snapshot_restore_reply_text(snapshot_id@))
                    &&& exists|caps: Capability, node: PlanNode, res: NodeResult|
                        #![trigger call_ensures(<M as Mux>::capabilities, (mux,), caps), executes(mux, node, res)]
                        call_ensures(<M as Mux>::capabilities, (mux,), caps) && node.verb@ == crate::planner::verbs::RESTORE_LAYOUT@
                            && node.args@ == restore_args_text(
                            caps.spec_bits(),
                            match layout {
                                Some(l) => l,
                                None => "{}"@,
                            },
                            snap.workspace_id@,
                        ) && executes(mux, node, res)
                },
            },
        },
{
    let snap = match read {
        Ok(Some(s)) => s,
        Ok(None) => return err_reply(env, "not_found", "snapshot not found"),
        Err(e) => return err_reply(env, "internal", e.as_str()),
    };
    let layout = match read_json_member(snap.manifest_json.as_str(), "layout") {
        Ok(Some(l)) => l,
        Ok(None) => {
            proof {
                reveal_strlit("{}");
            }
            "{}".to_owned()
        },
        Err(m) => return err_reply(env, "invalid_manifest", m.as_str()),
    };
    let manifest = SnapshotManifest { workspace_id: snap.workspace_id.clone(), layout };
    let capabilities = mux.capabilities();
    let ghost caps = capabilities;
    assert(call_ensures(<M as Mux>::capabilities, (mux,), caps));
    let plan = plan_restore(&manifest, &capabilities);
    match execute(&plan, mux) {
        Ok(res) => {
            assert(executes(mux, plan.nodes@[0], res.node_results@[0]));
            ok_reply(env, snapshot_restore_reply(snapshot_id))
        },
        Err(e) => err_reply(env, "plan_execution_failed", e.as_str()),
    }
}

/// `events.tail`: the events after the request's `after_id` (all of them
/// where it has none).
pub fn events_tail_call(after_id: Option<&str>) -> (c: Call)
    ensures
        c matches Call::EventTail { after_id: a } && match after_id {
            Some(x) => a matches Some(y) && y@ == x@,
            None => a is None,
        },
{
    match after_id {
        Some(x) => Call::EventTail { after_id: Some(x.to_owned()) },
        None => Call::EventTail { after_id: None },
    }
}

/// `events.tail`: the reply to the store's answer.
pub fn events_tail_reply(env: &Envelope, rows: Result<Vec<EventRow>, String>) -> (r: Envelope)
    ensures
        is_list_reply(r, *env, rows),
{
    list_reply(env, rows)
}

/// The message of a subscription request that could not be read.
pub open spec fn unreadable_subscription(detail: Seq<char>) -> Seq<char> {
    "could not parse SubscribeRequest: "@ + detail
}

/// `events.subscribe`, given the request's body read as a subscription (or
/// what the reader said of it): the events after its `after_id`.
pub fn events_subscribe_start(env: &Envelope, request: &Result<SubscribeRequest, String>) -> (r: Result<Call, Envelope>)
    ensures
        match request {
            Err(m) => r matches Err(e) && is_error(e, *env, "invalid_request"@, unreadable_subscription(m@)),
            Ok(req) => r matches Ok(Call::EventTail { after_id: a }) && a == req.after_id,
        },
{
    match request {
        Err(m) => {
            let mut message = String::from_str("could not parse SubscribeRequest: ");
            message.append(m.as_str());
            Err(err_reply(env, "invalid_request", message.as_str()))
        },
        Ok(req) => {
            let after_id = match &req.after_id {
                Some(a) => Some(a.clone()),
                None => None,
            };
            Ok(Call::EventTail { after_id })
        },
    }
}

/// The workspace a subscription asks for, by its text.
pub open spec fn wanted(req: SubscribeRequest) -> Option<Seq<char>> {
    match req.workspace_id {
        Some(w) => Some(w@),
        None => None,
    }
}

/// `events.subscribe`, given the store's answer: the events of the
/// requested workspace (all of them where it names none), in order, pushed
/// under the `events.push` verb.
pub fn events_subscribe_reply(env: &Envelope, req: &SubscribeRequest, events: Result<Vec<EventRow>, String>) -> (r: Envelope)
    ensures
        match events {
            Ok(v) => r.id@ == env.id@ && r.verb@ == verbs::EVENTS_PUSH@ && r.ok && r.body@ == json_array(
                jsons(events_of(v@, wanted(*req))),
            ),
            Err(e) => is_error(r, *env, "internal"@, e@),
        },
{
    match events {
        Ok(v) => {
            let w = match &req.workspace_id {
                Some(w) => Some(w.as_str()),
                None => None,
            };
            let mine = events_for_subscriber(v.as_slice(), w);
            Envelope::ok(env.id.as_str(), verbs::EVENTS_PUSH, rows_json(mine.as_slice()))
        },
        Err(e) => err_reply(env, "internal", e.as_str()),
    }
}

/// The state of `shell.capture`.
pub enum ShellCaptureState {
    /// Waiting for the captures of the request's processes.
    Capturing { workspace_id: String },
    /// Waiting for the time of the capture.
    Stamping { workspace_id: String, captures_json: String, count: usize },
    /// Waiting for the store to take the capture event.
    Appending { captures_json: String, count: usize },
}

/// The state waits for the answer's kind.
pub open spec fn shell_capture_expects(st: ShellCaptureState, a: Answer) -> bool {
    match st {
        ShellCaptureState::Capturing { .. } => a is Shells,
        ShellCaptureState::Stamping { .. } => a is Clock,
        ShellCaptureState::Appending { .. } => a is Stored,
    }
}

/// `shell.capture` for the request's `workspace_id` and `pids` (none where
/// the request has none): first the processes' shells. A request without a
/// workspace is refused.
pub fn shell_capture_start(env: &Envelope, workspace_id: Option<&str>, pids: Vec<u64>) -> (r: Step<ShellCaptureState>)
    ensures
        lacks(workspace_id) ==> fails(r, *env, "missing_workspace_id"@, "workspace_id required"@),
        !lacks(workspace_id) ==> (r matches Step::Ask(
            ShellCaptureState::Capturing { workspace_id: w },
            Call::CaptureShells { pids: p },
        ) && w@ == field_or(workspace_id, Seq::empty()) && p@ == pids@),
{
    match require_workspace_id(env, workspace_id) {
        Ok(w) => Step::Ask(ShellCaptureState::Capturing { workspace_id: w }, Call::CaptureShells { pids }),
        Err(e) => Step::Reply(e),
    }
}

/// `shell.capture`, on an answer: the captures are recorded as a
/// `shell.capture` event of the workspace, then replied with and counted.
pub fn shell_capture_step(env: &Envelope, st: ShellCaptureState, a: Answer) -> (r: Step<ShellCaptureState>)
    requires
        shell_capture_expects(st, a),
    ensures
        match (st, a) {
            (ShellCaptureState::Capturing { .. }, Answer::Shells(Err(e))) => fails(r, *env, "serialization_error"@, e@),
            (ShellCaptureState::Capturing { workspace_id: w }, Answer::Shells(Ok((j, n)))) => r matches Step::Ask(
                ShellCaptureState::Stamping { workspace_id: w2, captures_json: j2, count: n2 },
                Call::ReadClock,
            ) && w2 == w && j2 == j && n2 == n,
            (ShellCaptureState::Stamping { workspace_id: w, captures_json: j, count: n }, Answer::Clock(ms)) => {
                r matches Step::Ask(
                    ShellCaptureState::Appending { captures_json: j2, count: n2 },
                    Call::EventAppend { row },
                ) && j2 == j && n2 == n && row.id@.len() == 26 && crate::daemon::records::opt_view(row.workspace_id) == Some(w@)
                    && row.kind@ == "shell.capture"@ && row.payload_json@ == j@ && row.created_at@
                    == timestamp_text(ms as int)
            },
            (ShellCaptureState::Appending { captures_json: j, count: n }, Answer::Stored(Ok(()))) => replies(
                r,
                *env,
                true,
                shell_capture_reply_text(j@, crate::decimal::digits(n as nat)),
            ),
            (ShellCaptureState::Appending { .. }, Answer::Stored(Err(e))) => fails(r, *env, "internal"@, e@),
            _ => false,
        },
{
    match st {
        ShellCaptureState::Capturing { workspace_id } => match a {
            Answer::Shells(Err(e)) => Step::Reply(err_reply(env, "serialization_error", e.as_str())),
            Answer::Shells(Ok((captures_json, count))) => Step::Ask(
                ShellCaptureState::Stamping { workspace_id, captures_json, count },
                Call::ReadClock,
            ),
            _ => vstd::pervasive::unreached(),
        },
        ShellCaptureState::Stamping { workspace_id, captures_json, count } => match a {
            Answer::Clock(ms) => {
                let row = shell_capture_event(workspace_id.as_str(), captures_json.clone(), ms);
                Step::Ask(ShellCaptureState::Appending { captures_json, count }, Call::EventAppend { row })
            },
            _ => vstd::pervasive::unreached(),
        },
        ShellCaptureState::Appending { captures_json, count } => match a {
            Answer::Stored(Ok(())) => Step::Reply(ok_reply(env, shell_capture_reply(captures_json.as_str(), count))),
            Answer::Stored(Err(e)) => Step::Reply(err_reply(env, "internal", e.as_str())),
            _ => vstd::pervasive::unreached(),
        },
    }
}

/// The state of `shell.restore`.
pub enum ShellRestoreState {
    /// Waiting for the store's events.
    Reading { workspace_id: String },
    /// Waiting for the captures of the latest capture event's payload.
    Decoding { workspace_id: String },
}

/// The state waits for the answer's kind.
pub open spec fn shell_restore_expects(st: ShellRestoreState, a: Answer) -> bool {
    match st {
        ShellRestoreState::Reading { .. } => a is Events,
        ShellRestoreState::Decoding { .. } => a is ShellCaptures,
    }
}

/// `shell.restore` for the request's `workspace_id`: first the store's
/// events. A request without a workspace is refused.
pub fn shell_restore_start(env: &Envelope, workspace_id: Option<&str>) -> (r: Step<ShellRestoreState>)
    ensures
        lacks(workspace_id) ==> fails(r, *env, "missing_workspace_id"@, "workspace_id required"@),
        !lacks(workspace_id) ==> (r matches Step::Ask(
            ShellRestoreState::Reading { workspace_id: w },
            Call::EventTail { after_id: None },
        ) && w@ == field_or(workspace_id, Seq::empty())),
{
    match require_workspace_id(env, workspace_id) {
        Ok(w) => Step::Ask(ShellRestoreState::Reading { workspace_id: w }, Call::EventTail { after_id: None }),
        Err(e) => Step::Reply(e),
    }
}

/// `k` is the position of the latest shell capture of workspace `w`.
pub open spec fn is_latest_capture(events: Seq<EventRow>, w: Seq<char>, k: int) -> bool {
    &&& 0 <= k < events.len()
    &&& is_shell_capture_of(events[k], w)
    &&& forall|j: int| k < j < events.len() ==> !is_shell_capture_of(#[trigger] events[j], w)
}

/// `shell.restore`, on an answer: the captures of the workspace's latest
/// shell capture (none where it has none) are replied with.
pub fn shell_restore_step(env: &Envelope, st: ShellRestoreState, a: Answer) -> (r: Step<ShellRestoreState>)
    requires
        shell_restore_expects(st, a),
    ensures
        match (st, a) {
            (ShellRestoreState::Reading { .. }, Answer::Events(Err(e))) => fails(r, *env, "internal"@, e@),
            (ShellRestoreState::Reading { workspace_id: w }, Answer::Events(Ok(v))) => {
                &&& (forall|j: int| 0 <= j < v@.len() ==> !is_shell_capture_of(#[trigger] v@[j], w@)) ==> replies(
                    r,
                    *env,
                    true,
                    shell_restore_reply_text("[]"@, w@),
                )
                &&& forall|k: int| #[trigger] is_latest_capture(v@, w@, k) ==> (r matches Step::Ask(
                    ShellRestoreState::Decoding { workspace_id: w2 },
                    Call::ReadShellCaptures { payload_json: p },
                ) && w2 == w && p@ == v@[k].payload_json@)
                &&& (exists|j: int| 0 <= j < v@.len() && #[trigger] is_shell_capture_of(v@[j], w@)) ==> exists|k: int|
                    #[trigger] is_latest_capture(v@, w@, k) && (r matches Step::Ask(
                        ShellRestoreState::Decoding { workspace_id: w2 },
                        Call::ReadShellCaptures { payload_json: p },
                    ) && w2 == w && p@ == v@[k].payload_json@)
            },
            (ShellRestoreState::Decoding { workspace_id: w }, Answer::ShellCaptures(Ok(c))) => replies(
                r,
                *env,
                true,
                shell_restore_reply_text(c@, w@),
            ),
            (ShellRestoreState::Decoding { .. }, Answer::ShellCaptures(Err(e))) => fails(r, *env, "invalid_payload"@, e@),
            _ => false,
        },
{
    match st {
        ShellRestoreState::Reading { workspace_id } => match a {
            Answer::Events(Err(e)) => Step::Reply(err_reply(env, "internal", e.as_str())),
            Answer::Events(Ok(v)) => match latest_shell_capture(v.as_slice(), workspace_id.as_str()) {
                None => Step::Reply(ok_reply(env, shell_restore_reply("[]", workspace_id.as_str()))),
                Some(k) => {
                    let payload_json = v[k].payload_json.clone();
                    proof {
                        assert forall|k2: int| #[trigger] is_latest_capture(v@, workspace_id@, k2) implies k2 == k by {
                            if k2 < k {
                                assert(is_shell_capture_of(v@[k as int], workspace_id@));
                            } else if k2 > k {
                                assert(is_shell_capture_of(v@[k2], workspace_id@));
                            }
                        }
                    }
                    proof {
                        assert(is_latest_capture(v@, workspace_id@, k as int));
                    }
                    Step::Ask(ShellRestoreState::Decoding { workspace_id }, Call::ReadShellCaptures { payload_json })
                },
            },
            _ => vstd::pervasive::unreached(),
        },
        ShellRestoreState::Decoding { workspace_id } => match a {
            Answer::ShellCaptures(Ok(c)) => Step::Reply(ok_reply(env, shell_restore_reply(c.as_str(), workspace_id.as_str()))),
            Answer::ShellCaptures(Err(e)) => Step::Reply(err_reply(env, "invalid_payload", e.as_str())),
            _ => vstd::pervasive::unreached(),
        },
    }
}

} // verus!
