//! Domain event types.
//!
//! Each type is a distinct subscription channel on the daemon's event bus.

use vstd::prelude::*;
use crate::domain::ids::{PaneId, RuntimeId, SnapshotId, WorkspaceId};

verus! {

/// Marker trait of all daemon event types.
pub trait DaemonEvent: Send + Sync + 'static {}

/// A workspace was opened by a client.
#[derive(Debug, Clone)]
pub struct WorkspaceOpened {
    pub workspace_id: WorkspaceId,
}

/// A workspace was closed (all clients detached).
#[derive(Debug, Clone)]
pub struct WorkspaceClosed {
    pub workspace_id: WorkspaceId,
}

/// A multiplexer runtime was attached to a workspace.
#[derive(Debug, Clone)]
pub struct RuntimeAttached {
    pub workspace_id: WorkspaceId,
    pub runtime_id: RuntimeId,
}

/// A multiplexer runtime was detached from a workspace.
#[derive(Debug, Clone)]
pub struct RuntimeDetached {
    pub workspace_id: WorkspaceId,
    pub runtime_id: RuntimeId,
}

/// A pane was opened in the multiplexer.
#[derive(Debug, Clone)]
pub struct PaneOpened {
    pub runtime_id: RuntimeId,
    pub pane_id: PaneId,
}

/// A pane was closed in the multiplexer.
#[derive(Debug, Clone)]
pub struct PaneClosed {
    pub runtime_id: RuntimeId,
    pub pane_id: PaneId,
}

/// Keyboard focus moved to a different pane.
#[derive(Debug, Clone)]
pub struct FocusChanged {
    pub runtime_id: RuntimeId,
    pub pane_id: PaneId,
}

/// The multiplexer layout changed (tabs or splits added or removed).
#[derive(Debug, Clone)]
pub struct LayoutChanged {
    pub runtime_id: RuntimeId,
}

/// A snapshot was created.
#[derive(Debug, Clone)]
pub struct SnapshotCreated {
    pub workspace_id: WorkspaceId,
    pub snapshot_id: SnapshotId,
}

/// A snapshot was restored.
#[derive(Debug, Clone)]
pub struct SnapshotRestored {
    pub workspace_id: WorkspaceId,
    pub snapshot_id: SnapshotId,
}

impl DaemonEvent for WorkspaceOpened {}

impl DaemonEvent for WorkspaceClosed {}

impl DaemonEvent for RuntimeAttached {}

impl DaemonEvent for RuntimeDetached {}

impl DaemonEvent for PaneOpened {}

impl DaemonEvent for PaneClosed {}

impl DaemonEvent for FocusChanged {}

impl DaemonEvent for LayoutChanged {}

impl DaemonEvent for SnapshotCreated {}

impl DaemonEvent for SnapshotRestored {}

} // verus!
