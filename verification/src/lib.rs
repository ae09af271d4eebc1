//! Resurreccion: capture and restore of terminal workspaces.
//!
//! The verified core of the system: the event-topology checks (acyclicity,
//! termination, wiring completeness), the daemon's wire protocol, verb
//! dispatch and store verbs (as machines that ask the store and decide on
//! its answers), the records of its event bus, the command lines, the editor, multiplexer and aigent adapters'
//! decisions, planning, federation routing and the shared domain types.
//! Whatever touches the outside world (sockets, processes, HTTP, the file
//! system) hands this library plain values and takes plain values back.

pub mod aigents;
pub mod bundles;
pub mod chars;
pub mod cli;
pub mod daemon;
pub mod dag;
pub mod decimal;
pub mod dir;
pub mod domain;
pub mod editor;
pub mod federation;
pub mod headless;
pub mod mux;
pub mod planner;
pub mod proto;
