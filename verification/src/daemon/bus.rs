//! The durable side of the daemon's event bus: the record that the store
//! subscriber writes for each domain event.
//!
//! The bus itself (its thread, its channels, the store writer) is run by the
//! caller; what each event is recorded as is decided here.

use vstd::prelude::*;
use vstd::string::StringExecFns;
use crate::daemon::clock::{iso_stamp, iso_text, timestamp_text, unix_millis};
use crate::daemon::records::EventRow;
use crate::domain::events::{
    FocusChanged, LayoutChanged, PaneClosed, PaneOpened, RuntimeAttached, RuntimeDetached, SnapshotCreated,
    SnapshotRestored, WorkspaceClosed, WorkspaceOpened,
};
use crate::domain::ids::{fresh_ulid, ulid_string, ulid_text};
use crate::proto::{escape_json_string, json_escape_text};

verus! {

/// One member of a JSON object whose value is a string: `"key":"value"`,
/// the value escaped.
pub open spec fn json_member(key: Seq<char>, value: Seq<char>) -> Seq<char> {
    "\""@ + key + "\":\""@ + json_escape_text(value) + "\""@
}

/// A JSON object of one string member.
pub open spec fn json_object1(k: Seq<char>, v: Seq<char>) -> Seq<char> {
    "{"@ + json_member(k, v) + "}"@
}

/// A JSON object of two string members, in the order given (the keys'
/// alphabetical order, as `serde_json` writes its maps).
pub open spec fn json_object2(k1: Seq<char>, v1: Seq<char>, k2: Seq<char>, v2: Seq<char>) -> Seq<char> {
    "{"@ + json_member(k1, v1) + ","@ + json_member(k2, v2) + "}"@
}

/// Appends `"key":"value"` to `s`.
fn push_member(s: &mut String, key: &str, value: &str)
    ensures
        final(s)@ == old(s)@ + json_member(key@, value@),
{
    s.append("\"");
    s.append(key);
    s.append("\":\"");
    s.append(escape_json_string(value).as_str());
    s.append("\"");
}

/// `{"k":"v"}`.
fn object1(k: &str, v: &str) -> (r: String)
    ensures
        r@ == json_object1(k@, v@),
{
    let mut r = String::from_str("{");
    push_member(&mut r, k, v);
    r.append("}");
    r
}

/// `{"k1":"v1","k2":"v2"}`.
fn object2(k1: &str, v1: &str, k2: &str, v2: &str) -> (r: String)
    ensures
        r@ == json_object2(k1@, v1@, k2@, v2@),
{
    let mut r = String::from_str("{");
    push_member(&mut r, k1, v1);
    r.append(",");
    push_member(&mut r, k2, v2);
    r.append("}");
    r
}

/// A domain event as the store records it: its kind and its payload.
pub trait Recorded {
    /// The kind under which the event is recorded.
    spec fn record_kind(&self) -> Seq<char>;

    /// The JSON payload recorded with the event.
    spec fn record_payload(&self) -> Seq<char>;

    /// The kind under which the event is recorded: the event type's name.
    fn kind(&self) -> (r: &'static str)
        ensures
            r@ == self.record_kind(),
    ;

    /// The JSON payload recorded with the event: the identifiers it
    /// carries, in text form.
    fn payload(&self) -> (r: String)
        ensures
            r@ == self.record_payload(),
    ;
}

impl Recorded for WorkspaceOpened {
    open spec fn record_kind(&self) -> Seq<char> {
        "WorkspaceOpened"@
    }

    open spec fn record_payload(&self) -> Seq<char> {
        json_object1("workspace_id"@, ulid_text(self.workspace_id.spec_value()))
    }

    fn kind(&self) -> (r: &'static str) {
        "WorkspaceOpened"
    }

    fn payload(&self) -> (r: String) {
        object1("workspace_id", self.workspace_id.to_string().as_str())
    }
}

impl Recorded for WorkspaceClosed {
    open spec fn record_kind(&self) -> Seq<char> {
        "WorkspaceClosed"@
    }

    open spec fn record_payload(&self) -> Seq<char> {
        json_object1("workspace_id"@, ulid_text(self.workspace_id.spec_value()))
    }

    fn kind(&self) -> (r: &'static str) {
        "WorkspaceClosed"
    }

    fn payload(&self) -> (r: String) {
        object1("workspace_id", self.workspace_id.to_string().as_str())
    }
}

impl Recorded for RuntimeAttached {
    open spec fn record_kind(&self) -> Seq<char> {
        "RuntimeAttached"@
    }

    open spec fn record_payload(&self) -> Seq<char> {
        json_object2(
            "runtime_id"@,
            ulid_text(self.runtime_id.spec_value()),
            "workspace_id"@,
            ulid_text(self.workspace_id.spec_value()),
        )
    }

    fn kind(&self) -> (r: &'static str) {
        "RuntimeAttached"
    }

    fn payload(&self) -> (r: String) {
        object2(
            "runtime_id",
            self.runtime_id.to_string().as_str(),
            "workspace_id",
            self.workspace_id.to_string().as_str(),
        )
    }
}

impl Recorded for RuntimeDetached {
    open spec fn record_kind(&self) -> Seq<char> {
        "RuntimeDetached"@
    }

    open spec fn record_payload(&self) -> Seq<char> {
        json_object2(
            "runtime_id"@,
            ulid_text(self.runtime_id.spec_value()),
            "workspace_id"@,
            ulid_text(self.workspace_id.spec_value()),
        )
    }

    fn kind(&self) -> (r: &'static str) {
        "RuntimeDetached"
    }

    fn payload(&self) -> (r: String) {
        object2(
            "runtime_id",
            self.runtime_id.to_string().as_str(),
            "workspace_id",
            self.workspace_id.to_string().as_str(),
        )
    }
}

impl Recorded for PaneOpened {
    open spec fn record_kind(&self) -> Seq<char> {
        "PaneOpened"@
    }

    open spec fn record_payload(&self) -> Seq<char> {
        json_object2(
            "pane_id"@,
            ulid_text(self.pane_id.spec_value()),
            "runtime_id"@,
            ulid_text(self.runtime_id.spec_value()),
        )
    }

    fn kind(&self) -> (r: &'static str) {
        "PaneOpened"
    }

    fn payload(&self) -> (r: String) {
        object2("pane_id", self.pane_id.to_string().as_str(), "runtime_id", self.runtime_id.to_string().as_str())
    }
}

impl Recorded for PaneClosed {
    open spec fn record_kind(&self) -> Seq<char> {
        "PaneClosed"@
    }

    open spec fn record_payload(&self) -> Seq<char> {
        json_object2(
            "pane_id"@,
            ulid_text(self.pane_id.spec_value()),
            "runtime_id"@,
            ulid_text(self.runtime_id.spec_value()),
        )
    }

    fn kind(&self) -> (r: &'static str) {
        "PaneClosed"
    }

    fn payload(&self) -> (r: String) {
        object2("pane_id", self.pane_id.to_string().as_str(), "runtime_id", self.runtime_id.to_string().as_str())
    }
}

impl Recorded for FocusChanged {
    open spec fn record_kind(&self) -> Seq<char> {
        "FocusChanged"@
    }

    open spec fn record_payload(&self) -> Seq<char> {
        json_object2(
            "pane_id"@,
            ulid_text(self.pane_id.spec_value()),
            "runtime_id"@,
            ulid_text(self.runtime_id.spec_value()),
        )
    }

    fn kind(&self) -> (r: &'static str) {
        "FocusChanged"
    }

    fn payload(&self) -> (r: String) {
        object2("pane_id", self.pane_id.to_string().as_str(), "runtime_id", self.runtime_id.to_string().as_str())
    }
}

impl Recorded for LayoutChanged {
    open spec fn record_kind(&self) -> Seq<char> {
        "LayoutChanged"@
    }

    open spec fn record_payload(&self) -> Seq<char> {
        json_object1("runtime_id"@, ulid_text(self.runtime_id.spec_value()))
    }

    fn kind(&self) -> (r: &'static str) {
        "LayoutChanged"
    }

    fn payload(&self) -> (r: String) {
        object1("runtime_id", self.runtime_id.to_string().as_str())
    }
}

impl Recorded for SnapshotCreated {
    open spec fn record_kind(&self) -> Seq<char> {
        "SnapshotCreated"@
    }

    open spec fn record_payload(&self) -> Seq<char> {
        json_object2(
            "snapshot_id"@,
            ulid_text(self.snapshot_id.spec_value()),
            "workspace_id"@,
            ulid_text(self.workspace_id.spec_value()),
        )
    }

    fn kind(&self) -> (r: &'static str) {
        "SnapshotCreated"
    }

    fn payload(&self) -> (r: String) {
        object2(
            "snapshot_id",
            self.snapshot_id.to_string().as_str(),
            "workspace_id",
            self.workspace_id.to_string().as_str(),
        )
    }
}

impl Recorded for SnapshotRestored {
    open spec fn record_kind(&self) -> Seq<char> {
        "SnapshotRestored"@
    }

    open spec fn record_payload(&self) -> Seq<char> {
        json_object2(
            "snapshot_id"@,
            ulid_text(self.snapshot_id.spec_value()),
            "workspace_id"@,
            ulid_text(self.workspace_id.spec_value()),
        )
    }

    fn kind(&self) -> (r: &'static str) {
        "SnapshotRestored"
    }

    fn payload(&self) -> (r: String) {
        object2(
            "snapshot_id",
            self.snapshot_id.to_string().as_str(),
            "workspace_id",
            self.workspace_id.to_string().as_str(),
        )
    }
}

/// The record of an event of kind `kind` with payload `payload_json`, made
/// at `now_ms` milliseconds since the epoch, under a fresh id and with no
/// workspace.
pub fn event_row_at(kind: &str, payload_json: String, now_ms: i64) -> (r: EventRow)
    ensures
        r.id@.len() == 26,
        r.workspace_id is None,
        r.kind@ == kind@,
        r.payload_json@ == payload_json@,
        r.created_at@ == iso_text(now_ms as int),
{
    EventRow {
        id: ulid_string(fresh_ulid()),
        workspace_id: None,
        kind: kind.to_owned(),
        payload_json,
        created_at: iso_stamp(now_ms),
    }
}

/// The record of an event of kind `kind` with payload `payload_json`, made
/// now; `None` where the clock reads before the epoch, or later than an
/// `i64` of milliseconds reaches.
pub fn event_row(kind: &str, payload_json: String) -> (r: Option<EventRow>)
    ensures
        r matches Some(row) ==> {
            &&& row.id@.len() == 26
            &&& row.workspace_id is None
            &&& row.kind@ == kind@
            &&& row.payload_json@ == payload_json@
            &&& exists|ms: i64| row.created_at@ == iso_text(ms as int)
            &&& exists|ms: u128| #[trigger] call_ensures(unix_millis, (), Some(ms)) && ms <= i64::MAX
                && row.created_at@ == iso_text(ms as int)
        },
        r is None ==> exists|m: Option<u128>| #[trigger] call_ensures(unix_millis, (), m) && match m {
            Some(ms) => ms > i64::MAX,
            None => true,
        },
{
    let reading = unix_millis();
    assert(call_ensures(unix_millis, (), reading));
    match reading {
        Some(ms) => {
            if ms <= i64::MAX as u128 {
                Some(event_row_at(kind, payload_json, ms as i64))
            } else {
                None
            }
        },
        None => None,
    }
}

/// The record that the store subscriber writes for event `e`, made now;
/// `None` where the clock reads before the epoch, or later than an `i64` of
/// milliseconds reaches.
pub fn record_of<E: Recorded>(e: &E) -> (r: Option<EventRow>)
    ensures
        r matches Some(row) ==> {
            &&& row.id@.len() == 26
            &&& row.workspace_id is None
            &&& row.kind@ == e.record_kind()
            &&& row.payload_json@ == e.record_payload()
            &&& exists|ms: i64| row.created_at@ == iso_text(ms as int)
            &&& exists|ms: u128| #[trigger] call_ensures(unix_millis, (), Some(ms)) && ms <= i64::MAX
                && row.created_at@ == iso_text(ms as int)
        },
        r is None ==> exists|m: Option<u128>| #[trigger] call_ensures(unix_millis, (), m) && match m {
            Some(ms) => ms > i64::MAX,
            None => true,
        },
{
    event_row(e.kind(), e.payload())
}

/// A row made by `event_row` is stamped with the clock reading it took: the
/// clock read some `ms` milliseconds after the epoch, and the row's
/// `created_at` is the ISO-8601 timestamp of `ms`; the row is of the kind and
/// payload asked for.
pub proof fn lemma_event_row_is_stamped_with_the_reading(kind: &str, payload_json: String, r: Option<EventRow>)
    requires
        call_ensures(event_row, (kind, payload_json), r),
    ensures
        r matches Some(row) ==> {
            &&& row.kind@ == kind@
            &&& row.payload_json@ == payload_json@
            &&& exists|ms: u128| #[trigger] call_ensures(unix_millis, (), Some(ms))
                && row.created_at@ == timestamp_text(ms as int)
        },
{
}

} // verus!
