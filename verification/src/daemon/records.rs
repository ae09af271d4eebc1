//! The records the daemon keeps in its store, and the steps of the verbs that
//! read and write them.
//!
//! The store itself is asked by the caller; what the verbs require of a
//! request, the records they make and the replies they give are decided
//! here.

use vstd::prelude::*;
use vstd::string::StringExecFns;
use crate::chars::same_text;
use crate::daemon::clock::{chrono_stamp, chrono_text, format_timestamp_ms, timestamp_text};
use crate::domain::ids::{fresh_ulid, ulid_string};
use crate::proto::envelope::{Envelope, error_body_text};
use crate::proto::{escape_json_string, json_escape_text};

verus! {

/// A workspace as the store keeps it.
#[derive(Debug, Clone)]
pub struct WorkspaceRow {
    pub id: String,
    pub binding_key: String,
    pub display_name: String,
    pub root_path: String,
    pub created_at: String,
    pub last_opened_at: Option<String>,
}

/// A snapshot as the store keeps it.
#[derive(Debug, Clone)]
pub struct SnapshotRow {
    pub id: String,
    pub workspace_id: String,
    pub runtime_id: Option<String>,
    pub fidelity: String,
    pub manifest_json: String,
    pub created_at: String,
}

/// A durable event as the store keeps it.
#[derive(Debug, Clone)]
pub struct EventRow {
    pub id: String,
    pub workspace_id: Option<String>,
    pub kind: String,
    pub payload_json: String,
    pub created_at: String,
}

/// The text of an optional value.
pub open spec fn opt_view(o: Option<String>) -> Option<Seq<char>> {
    match o {
        Some(s) => Some(s@),
        None => None,
    }
}

/// A JSON string of text `s`.
pub open spec fn json_str(s: Seq<char>) -> Seq<char> {
    "\""@ + json_escape_text(s) + "\""@
}

/// A JSON string of an optional text, `null` where there is none.
pub open spec fn json_opt(o: Option<Seq<char>>) -> Seq<char> {
    match o {
        Some(s) => json_str(s),
        None => "null"@,
    }
}

/// JSON values separated by commas.
pub open spec fn comma_joined(items: Seq<Seq<char>>) -> Seq<char>
    decreases items.len(),
{
    if items.len() == 0 {
        Seq::empty()
    } else if items.len() == 1 {
        items[0]
    } else {
        comma_joined(items.drop_last()) + ","@ + items.last()
    }
}

/// A JSON array of the given values.
pub open spec fn json_array(items: Seq<Seq<char>>) -> Seq<char> {
    "["@ + comma_joined(items) + "]"@
}

/// Appends the JSON string of `text` to `s`.
fn push_str(s: &mut String, text: &str)
    ensures
        final(s)@ == old(s)@ + json_str(text@),
{
    s.append("\"");
    s.append(escape_json_string(text).as_str());
    s.append("\"");
}

/// Appends the JSON string of an optional text, or `null`, to `s`.
fn push_opt(s: &mut String, text: &Option<String>)
    ensures
        final(s)@ == old(s)@ + json_opt(opt_view(*text)),
{
    match text {
        Some(t) => push_str(s, t.as_str()),
        None => s.append("null"),
    }
}

/// A record that the daemon replies with as a JSON object, its fields in
/// the order of its declaration.
pub trait JsonRecord {
    /// The JSON text of the record.
    spec fn json(&self) -> Seq<char>;

    /// The record as JSON text.
    fn to_json(&self) -> (r: String)
        ensures
            r@ == self.json(),
    ;
}

impl JsonRecord for WorkspaceRow {
    open spec fn json(&self) -> Seq<char> {
        "{\"id\":"@ + json_str(self.id@) + ",\"binding_key\":"@ + json_str(self.binding_key@)
            + ",\"display_name\":"@ + json_str(self.display_name@) + ",\"root_path\":"@ + json_str(
            self.root_path@,
        ) + ",\"created_at\":"@ + json_str(self.created_at@) + ",\"last_opened_at\":"@ + json_opt(
            opt_view(self.last_opened_at),
        ) + "}"@
    }

    fn to_json(&self) -> (r: String) {
        let mut r = String::from_str("{\"id\":");
        push_str(&mut r, self.id.as_str());
        r.append(",\"binding_key\":");
        push_str(&mut r, self.binding_key.as_str());
        r.append(",\"display_name\":");
        push_str(&mut r, self.display_name.as_str());
        r.append(",\"root_path\":");
        push_str(&mut r, self.root_path.as_str());
        r.append(",\"created_at\":");
        push_str(&mut r, self.created_at.as_str());
        r.append(",\"last_opened_at\":");
        push_opt(&mut r, &self.last_opened_at);
        r.append("}");
        r
    }
}

impl JsonRecord for SnapshotRow {
    open spec fn json(&self) -> Seq<char> {
        "{\"id\":"@ + json_str(self.id@) + ",\"workspace_id\":"@ + json_str(self.workspace_id@)
            + ",\"runtime_id\":"@ + json_opt(opt_view(self.runtime_id)) + ",\"fidelity\":"@ + json_str(
            self.fidelity@,
        ) + ",\"manifest_json\":"@ + json_str(self.manifest_json@) + ",\"created_at\":"@ + json_str(
            self.created_at@,
        ) + "}"@
    }

    fn to_json(&self) -> (r: String) {
        let mut r = String::from_str("{\"id\":");
        push_str(&mut r, self.id.as_str());
        r.append(",\"workspace_id\":");
        push_str(&mut r, self.workspace_id.as_str());
        r.append(",\"runtime_id\":");
        push_opt(&mut r, &self.runtime_id);
        r.append(",\"fidelity\":");
        push_str(&mut r, self.fidelity.as_str());
        r.append(",\"manifest_json\":");
        push_str(&mut r, self.manifest_json.as_str());
        r.append(",\"created_at\":");
        push_str(&mut r, self.created_at.as_str());
        r.append("}");
        r
    }
}

impl JsonRecord for EventRow {
    open spec fn json(&self) -> Seq<char> {
        "{\"id\":"@ + json_str(self.id@) + ",\"workspace_id\":"@ + json_opt(opt_view(self.workspace_id))
            + ",\"kind\":"@ + json_str(self.kind@) + ",\"payload_json\":"@ + json_str(self.payload_json@)
            + ",\"created_at\":"@ + json_str(self.created_at@) + "}"@
    }

    fn to_json(&self) -> (r: String) {
        let mut r = String::from_str("{\"id\":");
        push_str(&mut r, self.id.as_str());
        r.append(",\"workspace_id\":");
        push_opt(&mut r, &self.workspace_id);
        r.append(",\"kind\":");
        push_str(&mut r, self.kind.as_str());
        r.append(",\"payload_json\":");
        push_str(&mut r, self.payload_json.as_str());
        r.append(",\"created_at\":");
        push_str(&mut r, self.created_at.as_str());
        r.append("}");
        r
    }
}

/// The JSON texts of records.
pub open spec fn jsons<T: JsonRecord>(rows: Seq<T>) -> Seq<Seq<char>> {
    rows.map_values(|t: T| t.json())
}

/// Records as a JSON array, in order.
pub fn rows_json<T: JsonRecord>(rows: &[T]) -> (r: String)
    ensures
        r@ == json_array(jsons(rows@)),
{
    let ghost all = jsons(rows@);
    let mut r = String::from_str("[");
    let mut i: usize = 0;
    while i < rows.len()
        invariant
            i <= rows@.len(),
            all == jsons(rows@),
            r@ == "["@ + comma_joined(all.take(i as int)),
        decreases rows@.len() - i,
    {
        if i > 0 {
            r.append(",");
        }
        let item = rows[i].to_json();
        r.append(item.as_str());
        proof {
            let u = all.take(i + 1);
            assert(u.drop_last() =~= all.take(i as int));
            assert(u.last() == rows@[i as int].json());
            if i == 0 {
                assert(comma_joined(u) == u[0]);
                assert(comma_joined(all.take(0)) =~= Seq::<char>::empty());
            }
        }
        i = i + 1;
    }
    r.append("]");
    assert(all.take(i as int) =~= all);
    r
}

/// The request's required `workspace_id`, given as the body's field (`None`
/// where it has none); a `missing_workspace_id` error where it is missing
/// or empty.
pub fn require_workspace_id(env: &Envelope, field: Option<&str>) -> (r: Result<String, Envelope>)
    ensures
        match field {
            Some(w) => w@.len() > 0 ==> (r matches Ok(id) && id@ == w@),
            None => true,
        },
        (field is None || field->0@.len() == 0) ==> (r matches Err(e) && e.id@ == env.id@ && e.verb@
            == env.verb@ && !e.ok && e.body@ == error_body_text(
            "missing_workspace_id"@,
            "workspace_id required"@,
        )),
{
    match field {
        Some(w) => {
            if w.unicode_len() > 0 {
                return Ok(w.to_owned());
            }
        },
        None => {},
    }
    Err(Envelope::err(env.id.as_str(), env.verb.as_str(), "missing_workspace_id", "workspace_id required"))
}

/// The request's required `snapshot_id`, given as the body's field; a
/// `missing_snapshot_id` error where it is missing or empty.
pub fn require_snapshot_id(env: &Envelope, field: Option<&str>) -> (r: Result<String, Envelope>)
    ensures
        match field {
            Some(w) => w@.len() > 0 ==> (r matches Ok(id) && id@ == w@),
            None => true,
        },
        (field is None || field->0@.len() == 0) ==> (r matches Err(e) && e.id@ == env.id@ && e.verb@
            == env.verb@ && !e.ok && e.body@ == error_body_text(
            "missing_snapshot_id"@,
            "snapshot_id required"@,
        )),
{
    match field {
        Some(w) => {
            if w.unicode_len() > 0 {
                return Ok(w.to_owned());
            }
        },
        None => {},
    }
    Err(Envelope::err(env.id.as_str(), env.verb.as_str(), "missing_snapshot_id", "snapshot_id required"))
}

/// The last component of a UTF-8 path, as `camino::Utf8Path::file_name`
/// gives it.
pub uninterp spec fn utf8_file_name(path: Seq<char>) -> Option<Seq<char>>;

/// The last component of a path.
///
/// Calls `camino::Utf8Path::file_name`, which answers `None` for a path that
/// ends in `..` or is the root; which component it answers otherwise is
/// named, not spelled out.
#[verifier::external_body]
fn path_file_name(path: &str) -> (r: Option<String>)
    ensures
        opt_view(r) == utf8_file_name(path@),
{
    match camino::Utf8Path::new(path).file_name() {
        Some(name) => Some(name.to_owned()),
        None => None,
    }
}

/// The display name of a workspace opened at `canonical`: the directory's
/// name, or `workspace` where the path has none.
pub fn display_name_of(canonical: &str) -> (r: String)
    ensures
        r@ == match utf8_file_name(canonical@) {
            Some(n) => n,
            None => "workspace"@,
        },
{
    match path_file_name(canonical) {
        Some(n) => n,
        None => "workspace".to_owned(),
    }
}

/// A new workspace record under a fresh id, created at `now_ms`
/// milliseconds since the epoch and never opened.
pub fn new_workspace_row(binding_key: &str, display_name: &str, root_path: &str, now_ms: i64) -> (r: WorkspaceRow)
    ensures
        r.id@.len() == 26,
        r.binding_key@ == binding_key@,
        r.display_name@ == display_name@,
        r.root_path@ == root_path@,
        r.created_at@ == chrono_text(now_ms as int),
        r.last_opened_at is None,
{
    WorkspaceRow {
        id: ulid_string(fresh_ulid()),
        binding_key: binding_key.to_owned(),
        display_name: display_name.to_owned(),
        root_path: root_path.to_owned(),
        created_at: chrono_stamp(now_ms),
        last_opened_at: None,
    }
}

/// The manifest of a snapshot made at `captured_at`:
/// `{"captured_at":"<stamp>","fidelity":"basic"}`.
pub open spec fn manifest_text(captured_at: Seq<char>) -> Seq<char> {
    "{\"captured_at\":\""@ + json_escape_text(captured_at) + "\",\"fidelity\":\"basic\"}"@
}

/// A new snapshot record of a workspace under a fresh id, of basic
/// fidelity, made at `now_ms` milliseconds since the epoch and its manifest
/// stamped with that time.
pub fn new_snapshot_row(workspace_id: &str, now_ms: i64) -> (r: SnapshotRow)
    ensures
        r.id@.len() == 26,
        r.workspace_id@ == workspace_id@,
        r.runtime_id is None,
        r.fidelity@ == "basic"@,
        r.manifest_json@ == manifest_text(chrono_text(now_ms as int)),
        r.created_at@ == chrono_text(now_ms as int),
{
    let captured_at = chrono_stamp(now_ms);
    let mut manifest_json = String::from_str("{\"captured_at\":\"");
    manifest_json.append(escape_json_string(captured_at.as_str()).as_str());
    manifest_json.append("\",\"fidelity\":\"basic\"}");
    SnapshotRow {
        id: ulid_string(fresh_ulid()),
        workspace_id: workspace_id.to_owned(),
        runtime_id: None,
        fidelity: "basic".to_owned(),
        manifest_json,
        created_at: captured_at,
    }
}

/// The event recording a shell capture of a workspace at `now_ms`
/// milliseconds since the epoch, under a fresh id.
pub fn shell_capture_event(workspace_id: &str, payload_json: String, now_ms: i64) -> (r: EventRow)
    ensures
        r.id@.len() == 26,
        opt_view(r.workspace_id) == Some(workspace_id@),
        r.kind@ == "shell.capture"@,
        r.payload_json@ == payload_json@,
        r.created_at@ == timestamp_text(now_ms as int),
{
    EventRow {
        id: ulid_string(fresh_ulid()),
        workspace_id: Some(workspace_id.to_owned()),
        kind: "shell.capture".to_owned(),
        payload_json,
        created_at: format_timestamp_ms(now_ms),
    }
}

/// Whether an event belongs to workspace `w`.
pub open spec fn of_workspace(e: EventRow, w: Seq<char>) -> bool {
    opt_view(e.workspace_id) == Some(w)
}

/// The events of workspace `w` (all events where none is given), in order.
pub open spec fn events_of(events: Seq<EventRow>, w: Option<Seq<char>>) -> Seq<EventRow>
    decreases events.len(),
{
    if events.len() == 0 {
        Seq::empty()
    } else {
        let rest = events_of(events.drop_last(), w);
        match w {
            Some(ws) => if of_workspace(events.last(), ws) {
                rest.push(events.last())
            } else {
                rest
            },
            None => rest.push(events.last()),
        }
    }
}

/// Whether the optional workspace of an event is `w`.
fn belongs_to(e: &EventRow, w: &str) -> (r: bool)
    ensures
        r == of_workspace(*e, w@),
{
    match &e.workspace_id {
        Some(id) => same_text(id.as_str(), w),
        None => false,
    }
}

/// A copy of an optional text.
fn copy_opt(o: &Option<String>) -> (r: Option<String>)
    ensures
        r == *o,
{
    match o {
        Some(s) => Some(s.clone()),
        None => None,
    }
}

/// A copy of a workspace record, field by field.
pub fn copy_workspace_row(w: &WorkspaceRow) -> (r: WorkspaceRow)
    ensures
        r == *w,
{
    WorkspaceRow {
        id: w.id.clone(),
        binding_key: w.binding_key.clone(),
        display_name: w.display_name.clone(),
        root_path: w.root_path.clone(),
        created_at: w.created_at.clone(),
        last_opened_at: copy_opt(&w.last_opened_at),
    }
}

/// A copy of a snapshot record, field by field.
pub fn copy_snapshot_row(s: &SnapshotRow) -> (r: SnapshotRow)
    ensures
        r == *s,
{
    SnapshotRow {
        id: s.id.clone(),
        workspace_id: s.workspace_id.clone(),
        runtime_id: copy_opt(&s.runtime_id),
        fidelity: s.fidelity.clone(),
        manifest_json: s.manifest_json.clone(),
        created_at: s.created_at.clone(),
    }
}

/// A copy of an event record, field by field.
fn copy_event(e: &EventRow) -> (r: EventRow)
    ensures
        r == *e,
{
    EventRow {
        id: e.id.clone(),
        workspace_id: copy_opt(&e.workspace_id),
        kind: e.kind.clone(),
        payload_json: e.payload_json.clone(),
        created_at: e.created_at.clone(),
    }
}

/// The events pushed to a subscriber: those of the requested workspace, or
/// all of them where the request names none, in order.
pub fn events_for_subscriber(events: &[EventRow], workspace_id: Option<&str>) -> (r: Vec<EventRow>)
    ensures
        r@ == events_of(events@, match workspace_id {
            Some(w) => Some(w@),
            None => None,
        }),
{
    let ghost w = match workspace_id {
        Some(w) => Some(w@),
        None => None::<Seq<char>>,
    };
    let mut r: Vec<EventRow> = Vec::new();
    let mut i: usize = 0;
    while i < events.len()
        invariant
            i <= events@.len(),
            w == match workspace_id {
                Some(x) => Some(x@),
                None => None::<Seq<char>>,
            },
            r@ == events_of(events@.take(i as int), w),
        decreases events@.len() - i,
    {
        let keep = match workspace_id {
            Some(ws) => belongs_to(&events[i], ws),
            None => true,
        };
        if keep {
            r.push(copy_event(&events[i]));
        }
        proof {
            let u = events@.take(i + 1);
            assert(u.drop_last() =~= events@.take(i as int));
            assert(u.last() == events@[i as int]);
        }
        i = i + 1;
    }
    assert(events@.take(i as int) =~= events@);
    r
}

/// Whether an event is a shell capture of workspace `w`.
pub open spec fn is_shell_capture_of(e: EventRow, w: Seq<char>) -> bool {
    e.kind@ == "shell.capture"@ && of_workspace(e, w)
}

/// The position of the latest shell capture of workspace `workspace_id`
/// among the events, where there is one.
pub fn latest_shell_capture(events: &[EventRow], workspace_id: &str) -> (r: Option<usize>)
    ensures
        match r {
            Some(k) => k < events@.len() && is_shell_capture_of(events@[k as int], workspace_id@)
                && forall|j: int| k < j < events@.len() ==> !is_shell_capture_of(#[trigger] events@[j], workspace_id@),
            None => forall|j: int| 0 <= j < events@.len() ==> !is_shell_capture_of(#[trigger] events@[j], workspace_id@),
        },
{
    let mut i: usize = events.len();
    while i > 0
        invariant
            i <= events@.len(),
            forall|j: int| i <= j < events@.len() ==> !is_shell_capture_of(#[trigger] events@[j], workspace_id@),
        decreases i,
    {
        let e = &events[i - 1];
        if same_text(e.kind.as_str(), "shell.capture") && belongs_to(e, workspace_id) {
            return Some(i - 1);
        }
        i = i - 1;
    }
    None
}

/// The reply to a shell capture: `{"captures":<captures>,"count":<n>}`.
pub open spec fn shell_capture_reply_text(captures_json: Seq<char>, count: Seq<char>) -> Seq<char> {
    "{\"captures\":"@ + captures_json + ",\"count\":"@ + count + "}"@
}

/// The reply to a shell capture of `count` captures, written as
/// `captures_json`.
pub fn shell_capture_reply(captures_json: &str, count: usize) -> (r: String)
    ensures
        r@ == shell_capture_reply_text(captures_json@, crate::decimal::digits(count as nat)),
{
    let mut r = String::from_str("{\"captures\":");
    r.append(captures_json);
    r.append(",\"count\":");
    crate::decimal::push_decimal(&mut r, count as u64);
    r.append("}");
    r
}

/// The reply to a shell restore: `{"captures":<captures>,"workspace_id":"<id>"}`.
pub open spec fn shell_restore_reply_text(captures_json: Seq<char>, workspace_id: Seq<char>) -> Seq<char> {
    "{\"captures\":"@ + captures_json + ",\"workspace_id\":\""@ + json_escape_text(workspace_id) + "\"}"@
}

/// The reply to a shell restore of the captures written as
/// `captures_json`.
pub fn shell_restore_reply(captures_json: &str, workspace_id: &str) -> (r: String)
    ensures
        r@ == shell_restore_reply_text(captures_json@, workspace_id@),
{
    let mut r = String::from_str("{\"captures\":");
    r.append(captures_json);
    r.append(",\"workspace_id\":\"");
    r.append(escape_json_string(workspace_id).as_str());
    r.append("\"}");
    r
}

/// The reply to a snapshot restore: `{"snapshot_id":"<id>"}`.
pub open spec fn snapshot_restore_reply_text(snapshot_id: Seq<char>) -> Seq<char> {
    "{\"snapshot_id\":\""@ + json_escape_text(snapshot_id) + "\"}"@
}

/// The reply to a snapshot restore.
pub fn snapshot_restore_reply(snapshot_id: &str) -> (r: String)
    ensures
        r@ == snapshot_restore_reply_text(snapshot_id@),
{
    let mut r = String::from_str("{\"snapshot_id\":\"");
    r.append(escape_json_string(snapshot_id).as_str());
    r.append("\"}");
    r
}

} // verus!
