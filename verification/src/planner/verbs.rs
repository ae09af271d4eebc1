//! The capability verbs that plan nodes invoke: the keys the planner uses to
//! match intent to capability.

use vstd::prelude::*;

verus! {

/// Capture the multiplexer layout (tabs, panes, splits, working directories).
pub const CAPTURE_LAYOUT: &'static str = "capture.layout";

/// Restore the multiplexer layout from a snapshot manifest.
pub const RESTORE_LAYOUT: &'static str = "restore.layout";

/// Capture shell state (working directory, last command, environment).
pub const CAPTURE_SHELL: &'static str = "capture.shell";

/// Restore a shell's working directory and environment in a pane.
pub const RESTORE_SHELL: &'static str = "restore.shell";

/// Capture aigent session metadata (external id, transcript reference).
pub const CAPTURE_AIGENT: &'static str = "capture.aigent";

/// Resume an aigent session from captured metadata.
pub const RESTORE_AIGENT: &'static str = "restore.aigent";

/// Capture editor state (open buffers, cursor positions).
pub const CAPTURE_EDITOR: &'static str = "capture.editor";

/// Restore editor state from a snapshot.
pub const RESTORE_EDITOR: &'static str = "restore.editor";

} // verus!
