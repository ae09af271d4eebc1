//! The common multiplexer interface.
//!
//! Every multiplexer backend (Zellij, tmux, kitty) implements [`Mux`]; the
//! rest of the system targets this trait alone.

pub mod conformance;

use vstd::prelude::*;
use vstd::string::StringExecFns;

verus! {

#[verifier::external_type_specification]
#[verifier::external_body]
pub struct ExIoError(std::io::Error);

#[verifier::external_type_specification]
#[verifier::external_body]
#[verifier::reject_recursive_types(T)]
pub struct ExReceiver<T>(std::sync::mpsc::Receiver<T>);

/// Capability flags advertised by a multiplexer backend.
#[derive(Debug, Clone, Copy, PartialEq, Eq, Structural, Hash)]
pub struct Capability {
    bits: u32,
}

impl Capability {
    /// The flag bits.
    pub closed spec fn spec_bits(&self) -> u32 {
        self.bits
    }

    /// The backend embeds plugin UIs inside panes.
    #[allow(non_snake_case)]
    pub fn PLUGIN_EMBEDDING() -> (r: Capability)
        ensures
            r.spec_bits() == 1,
    {
        Capability { bits: 1 }
    }

    /// The backend has a copy mode (scrollback selection).
    #[allow(non_snake_case)]
    pub fn COPY_MODE() -> (r: Capability)
        ensures
            r.spec_bits() == 2,
    {
        Capability { bits: 2 }
    }

    /// The backend exposes raw scrollback as text.
    #[allow(non_snake_case)]
    pub fn SCROLLBACK_TEXT() -> (r: Capability)
        ensures
            r.spec_bits() == 4,
    {
        Capability { bits: 4 }
    }

    /// No capability.
    pub fn empty() -> (r: Capability)
        ensures
            r.spec_bits() == 0,
    {
        Capability { bits: 0 }
    }

    /// The set with exactly the given bits, known or not.
    pub fn from_bits_retain(bits: u32) -> (r: Capability)
        ensures
            r.spec_bits() == bits,
    {
        Capability { bits }
    }

    /// The flag bits.
    pub fn bits(&self) -> (r: u32)
        ensures
            r == self.spec_bits(),
    {
        self.bits
    }

    /// Whether every flag of `other` is in this set.
    pub fn contains(&self, other: Capability) -> (r: bool)
        ensures
            r == (self.spec_bits() & other.spec_bits() == other.spec_bits()),
    {
        self.bits & other.bits == other.bits
    }

    /// The flags of either set.
    pub fn union(self, other: Capability) -> (r: Capability)
        ensures
            r.spec_bits() == self.spec_bits() | other.spec_bits(),
    {
        Capability { bits: self.bits | other.bits }
    }
}

/// A pane within a multiplexer layout.
#[derive(Debug, Clone)]
pub struct PaneSpec {
    /// Stable pane identifier (backend-specific).
    pub id: String,
    /// Working directory of the pane's process, if known.
    pub cwd: Option<String>,
    /// Current command or title shown in the pane.
    pub title: Option<String>,
}

/// The layout to apply.
#[derive(Debug, Clone)]
pub struct LayoutSpec {
    /// Panes to create, in order.
    pub panes: Vec<PaneSpec>,
    /// Tab names, where the backend has tabs.
    pub tabs: Vec<String>,
}

impl Default for LayoutSpec {
    fn default() -> (r: LayoutSpec)
        ensures
            r.panes@.len() == 0,
            r.tabs@.len() == 0,
    {
        LayoutSpec { panes: Vec::new(), tabs: Vec::new() }
    }
}

/// A snapshot of a session's layout.
#[derive(Debug, Clone)]
pub struct LayoutCapture {
    /// Session name in the multiplexer.
    pub session_name: String,
    /// Captured panes.
    pub panes: Vec<PaneSpec>,
    /// Tab names.
    pub tabs: Vec<String>,
    /// Backend capabilities at capture time.
    pub capabilities: Capability,
}

/// A topology change reported by [`Mux::subscribe_topology`].
#[derive(Debug, Clone)]
pub enum TopologyEvent {
    /// A pane was created.
    PaneOpened { pane_id: String },
    /// A pane was closed.
    PaneClosed { pane_id: String },
    /// Keyboard focus moved to another pane.
    FocusChanged { pane_id: String },
    /// Tabs or splits changed.
    LayoutChanged,
}

/// Errors of multiplexer operations.
#[derive(Debug)]
pub enum MuxError {
    /// The multiplexer binary was not found or not runnable.
    NotAvailable(String),
    /// A session with this name already exists.
    SessionExists(String),
    /// The session was not found.
    SessionNotFound(String),
    /// The backend's output could not be parsed.
    ParseError(String),
    /// An I/O error talking to the backend.
    Io(std::io::Error),
    /// A fatal error that cannot be retried.
    Fatal(String),
}

/// The text of an I/O error.
///
/// Calls `std::io::Error`'s `Display`; nothing is claimed of the text.
#[verifier::external_body]
fn io_error_text(e: &std::io::Error) -> (r: String) {
    e.to_string()
}

/// The error's text, for the variants that carry text.
pub open spec fn mux_error_text(e: &MuxError) -> Option<Seq<char>> {
    match e {
        MuxError::NotAvailable(s) => Some("backend not available: "@ + s@),
        MuxError::SessionExists(s) => Some("session already exists: "@ + s@),
        MuxError::SessionNotFound(s) => Some("session not found: "@ + s@),
        MuxError::ParseError(s) => Some("parse error: "@ + s@),
        MuxError::Io(_) => None,
        MuxError::Fatal(s) => Some("fatal: "@ + s@),
    }
}

impl MuxError {
    /// Whether the operation may be retried after a delay: for I/O errors
    /// and an unavailable backend.
    pub fn is_retryable(&self) -> (r: bool)
        ensures
            r <==> (self is Io || self is NotAvailable),
    {
        match self {
            MuxError::Io(_) | MuxError::NotAvailable(_) => true,
            _ => false,
        }
    }

    /// The error as a message.
    pub fn to_string(&self) -> (r: String)
        ensures
            match mux_error_text(self) {
                Some(t) => r@ == t,
                None => r@.take(4) == "io: "@,
            },
    {
        let (prefix, detail) = match self {
            MuxError::NotAvailable(s) => ("backend not available: ", s.clone()),
            MuxError::SessionExists(s) => ("session already exists: ", s.clone()),
            MuxError::SessionNotFound(s) => ("session not found: ", s.clone()),
            MuxError::ParseError(s) => ("parse error: ", s.clone()),
            MuxError::Io(e) => ("io: ", io_error_text(e)),
            MuxError::Fatal(s) => ("fatal: ", s.clone()),
        };
        let mut r = String::from_str(prefix);
        r.append(detail.as_str());
        proof {
            if self is Io {
                reveal_strlit("io: ");
                assert(r@.take(4) =~= "io: "@);
            }
        }
        r
    }
}

impl From<std::io::Error> for MuxError {
    fn from(e: std::io::Error) -> (r: MuxError) {
        MuxError::Io(e)
    }
}

impl vstd::std_specs::convert::FromSpecImpl<std::io::Error> for MuxError {
    open spec fn obeys_from_spec() -> bool {
        true
    }

    open spec fn from_spec(e: std::io::Error) -> MuxError {
        MuxError::Io(e)
    }
}

/// The common multiplexer interface.
pub trait Mux: Send + Sync {
    /// All running sessions of this backend (`NotAvailable` where the backend
    /// is not running).
    fn discover(&self) -> Result<Vec<String>, MuxError>;

    /// Creates a session with the given name and layout (`SessionExists`
    /// where the name is taken).
    fn create(&self, session_name: &str, layout: &LayoutSpec) -> Result<(), MuxError>;

    /// Attaches the current process to a session (`SessionNotFound` where
    /// there is none).
    fn attach(&self, session_name: &str) -> Result<(), MuxError>;

    /// Captures a session's layout (`SessionNotFound` where there is none).
    fn capture(&self, session_name: &str) -> Result<LayoutCapture, MuxError>;

    /// Restructures a session's panes to match a layout.
    fn apply_layout(&self, session_name: &str, layout: &LayoutSpec) -> Result<(), MuxError>;

    /// Sends keys to the focused pane of a session.
    fn send_keys(&self, session_name: &str, keys: &str) -> Result<(), MuxError>;

    /// Starts reporting a session's topology changes on a channel.
    fn subscribe_topology(&self, session_name: &str) -> Result<std::sync::mpsc::Receiver<TopologyEvent>, MuxError>;

    /// The capabilities this backend supports.
    fn capabilities(&self) -> Capability;
}

} // verus!
