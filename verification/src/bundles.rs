//! Snapshot bundles: capture artifacts (layout, shell, editor, blob) grouped
//! into one portable unit.
//!
//! Writing a bundle as JSON and keeping it in the blob store are done by the
//! caller.

use vstd::prelude::*;
use crate::daemon::clock::{seconds_now, seconds_stamp, unix_millis};
use crate::decimal::digits;

verus! {

/// Artifacts grouped into one portable unit.
#[derive(Debug, Clone)]
pub struct Bundle {
    /// Schema version; currently always 1.
    pub version: u32,
    /// The workspace the bundle belongs to.
    pub workspace_id: String,
    /// When the bundle was made: seconds since the epoch and `Z`.
    pub created_at: String,
    /// The artifacts, in the order they were added.
    pub artifacts: Vec<BundleArtifact>,
}

/// One artifact of a bundle.
#[derive(Debug, Clone)]
pub struct BundleArtifact {
    /// What it is: `layout`, `shell`, `editor` or `blob`.
    pub kind: String,
    /// A label for humans.
    pub label: String,
    /// The artifact's data, as JSON text.
    pub content: String,
    /// The BLAKE3 hex hash of the data where it is kept in the blob store.
    pub blob_hash: Option<String>,
}

impl Bundle {
    /// An empty bundle of the given workspace, made `now_secs` seconds after
    /// the epoch.
    pub fn new_at(workspace_id: &str, now_secs: u64) -> (b: Bundle)
        ensures
            b.version == 1,
            b.workspace_id@ == workspace_id@,
            b.artifacts@.len() == 0,
            b.created_at@ == digits(now_secs as nat) + "Z"@,
    {
        Bundle { version: 1, workspace_id: workspace_id.to_owned(), created_at: seconds_stamp(now_secs), artifacts: Vec::new() }
    }

    /// An empty bundle of the given workspace, stamped with the current time;
    /// `None` where the clock reads before the epoch.
    pub fn new(workspace_id: &str) -> (r: Option<Bundle>)
        ensures
            r matches Some(b) ==> {
                &&& b.version == 1
                &&& b.workspace_id@ == workspace_id@
                &&& b.artifacts@.len() == 0
                &&& exists|secs: u64| b.created_at@ == digits(secs as nat) + "Z"@
                &&& exists|ms: u128| #[trigger] call_ensures(unix_millis, (), Some(ms))
                    && b.created_at@ == digits((ms / 1000) as nat) + "Z"@
            },
            r is None ==> exists|m: Option<u128>| #[trigger] call_ensures(unix_millis, (), m) && match m {
                Some(ms) => ms / 1000 > u64::MAX,
                None => true,
            },
    {
        match seconds_now() {
            Some(created_at) => Some(
                Bundle { version: 1, workspace_id: workspace_id.to_owned(), created_at, artifacts: Vec::new() },
            ),
            None => None,
        }
    }

    /// Appends an artifact, not yet in the blob store.
    pub fn add_artifact(&mut self, kind: &str, label: &str, content: String) -> (r: &mut Bundle)
        ensures
            *final(self) == *final(r),
            r.version == old(self).version,
            r.workspace_id == old(self).workspace_id,
            r.created_at == old(self).created_at,
            r.artifacts@.len() == old(self).artifacts@.len() + 1,
            r.artifacts@.drop_last() == old(self).artifacts@,
            r.artifacts@.last().kind@ == kind@,
            r.artifacts@.last().label@ == label@,
            r.artifacts@.last().content@ == content@,
            r.artifacts@.last().blob_hash is None,
    {
        self.artifacts.push(
            BundleArtifact { kind: kind.to_owned(), label: label.to_owned(), content, blob_hash: None },
        );
        assert(self.artifacts@.drop_last() =~= old(self).artifacts@);
        self
    }
}

/// A bundle made by `Bundle::new` is stamped with the clock's reading in
/// whole seconds: the clock read some `ms` milliseconds after the epoch, and
/// `created_at` is the decimal number of whole seconds in `ms`, then `Z`.
pub proof fn lemma_new_bundle_is_stamped_with_the_reading(workspace_id: &str, r: Option<Bundle>)
    requires
        call_ensures(Bundle::new, (workspace_id,), r),
    ensures
        r matches Some(b) ==> {
            &&& b.workspace_id@ == workspace_id@
            &&& b.artifacts@.len() == 0
            &&& exists|ms: u128| #[trigger] call_ensures(unix_millis, (), Some(ms))
                && b.created_at@ == digits((ms / 1000) as nat) + "Z"@
        },
{
}

} // verus!
