//! Editor adapters: the editors whose sessions are captured and restored.
//!
//! Capturing and restoring run the editor's client programs; what an adapter
//! decides (its name, the client's arguments, how the client's answer is
//! read) is here.

pub mod conformance;
pub mod emacs;
pub mod nvim;

use vstd::prelude::*;

verus! {

/// A snapshot of an editor's state.
#[derive(Debug, Clone)]
pub struct EditorCapture {
    /// Name of the editor ("emacs", "neovim", ...).
    pub editor_name: String,
    /// Working directory at the time of capture.
    pub cwd: String,
    /// Open file paths.
    pub open_files: Vec<String>,
    /// Editor-specific state, as JSON text.
    pub raw_state: String,
}

/// An editor adapter.
pub trait Editor: Send + Sync {
    /// The name of the editor ("emacs", "neovim", ...).
    fn editor_name(&self) -> &str;
}

/// The message of a failed conformance check.
pub open spec fn empty_name_message() -> Seq<char> {
    "editor_name must not be empty"@
}


} // verus!
