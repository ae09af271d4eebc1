//! Verb names: the single source of truth for all daemon verbs.
//!
//! Daemon dispatch, CLI commands and protocol docs all reference these
//! constants. Adding a verb: add a constant here, a handler in the daemon and
//! a subcommand in the CLI.

use vstd::prelude::*;

verus! {

/// Health check. No arguments. Replies `{ "proto": <version> }`.
pub const DOCTOR_PING: &'static str = "doctor.ping";

/// Open or create a workspace bound to a directory.
pub const WORKSPACE_OPEN: &'static str = "workspace.open";

/// Create a workspace without opening it.
pub const WORKSPACE_CREATE: &'static str = "workspace.create";

/// Retrieve a single workspace by id.
pub const WORKSPACE_GET: &'static str = "workspace.get";

/// List all known workspaces.
pub const WORKSPACE_LIST: &'static str = "workspace.list";

/// Resolve a directory to its workspace, creating one if absent.
pub const WORKSPACE_RESOLVE_OR_CREATE: &'static str = "workspace.resolve_or_create";

/// Create a snapshot of the current workspace state.
pub const SNAPSHOT_CREATE: &'static str = "snapshot.create";

/// Restore a workspace from a snapshot.
pub const SNAPSHOT_RESTORE: &'static str = "snapshot.restore";

/// List the snapshots of a workspace.
pub const SNAPSHOT_LIST: &'static str = "snapshot.list";

/// Retrieve a single snapshot by id.
pub const SNAPSHOT_GET: &'static str = "snapshot.get";

/// Read the event stream (long-lived streaming reply).
pub const EVENTS_TAIL: &'static str = "events.tail";

/// Subscribe to the event stream.
pub const EVENTS_SUBSCRIBE: &'static str = "events.subscribe";

/// An event pushed to a subscriber.
pub const EVENTS_PUSH: &'static str = "events.push";

/// Capture the shells of a workspace's processes.
pub const SHELL_CAPTURE: &'static str = "shell.capture";

/// Read back a workspace's latest shell capture.
pub const SHELL_RESTORE: &'static str = "shell.restore";

/// Capability handshake: the client lists what it supports, the daemon
/// answers with what both support.
pub const CAPABILITY_NEGOTIATE: &'static str = "capability.negotiate";

/// Protocol handshake, sent by the daemon on connect.
pub const HANDSHAKE: &'static str = "handshake";

} // verus!
