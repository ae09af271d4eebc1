//! The decisions of the daemon's start-up and shutdown: whether another
//! daemon already holds the socket, and when to stop waiting for open
//! connections.

use vstd::prelude::*;
use vstd::string::StringExecFns;

verus! {

/// What an attempt to connect to the daemon's socket found.
#[derive(Debug, Clone, PartialEq, Eq)]
pub enum SocketProbe {
    /// Something accepted the connection: a daemon is running there.
    Connected,
    /// No socket exists at the path.
    NotFound,
    /// The attempt failed otherwise, with this message.
    Failed(String),
}

/// The message of a start-up refused because a daemon answers at `path`.
pub open spec fn already_running_message(path: Seq<char>) -> Seq<char> {
    "daemon already running at "@ + path
}

/// The message of a socket check that failed with `e`.
pub open spec fn check_failed_message(e: Seq<char>) -> Seq<char> {
    "failed to check socket: "@ + e
}

/// The single-instance guard: start-up goes on only where no socket exists
/// at `socket_path`; a daemon answering there refuses it, and any other
/// failure of the check is reported.
pub fn single_instance_verdict(socket_path: &str, probe: SocketProbe) -> (r: Result<(), String>)
    ensures
        match probe {
            SocketProbe::Connected => r matches Err(m) && m@ == already_running_message(socket_path@),
            SocketProbe::NotFound => r is Ok,
            SocketProbe::Failed(e) => r matches Err(m) && m@ == check_failed_message(e@),
        },
{
    match probe {
        SocketProbe::Connected => {
            let mut m = String::from_str("daemon already running at ");
            m.append(socket_path);
            Err(m)
        },
        SocketProbe::NotFound => Ok(()),
        SocketProbe::Failed(e) => {
            let mut m = String::from_str("failed to check socket: ");
            m.append(e.as_str());
            Err(m)
        },
    }
}

/// How long shutdown waits for open connections to finish, in milliseconds.
pub const DRAIN_TIMEOUT_MS: u64 = 2000;

/// How long shutdown sleeps between two looks at the open connections, in
/// milliseconds.
pub const DRAIN_POLL_MS: u64 = 100;

/// What shutdown does next while connections drain.
#[derive(Debug, Clone, Copy, PartialEq, Eq, Structural)]
pub enum DrainStep {
    /// No connection is open: shut down.
    Done,
    /// Connections are still open after the drain timeout: shut down
    /// anyway, reporting how many.
    TimedOut,
    /// Sleep for the poll interval and look again.
    Wait,
}

/// The drain decision, with `active` connections open `elapsed_ms`
/// milliseconds after shutdown began.
pub fn drain_step(active: usize, elapsed_ms: u128) -> (r: DrainStep)
    ensures
        active == 0 ==> r == DrainStep::Done,
        active > 0 && elapsed_ms > DRAIN_TIMEOUT_MS ==> r == DrainStep::TimedOut,
        active > 0 && elapsed_ms <= DRAIN_TIMEOUT_MS ==> r == DrainStep::Wait,
{
    if active == 0 {
        DrainStep::Done
    } else if elapsed_ms > DRAIN_TIMEOUT_MS as u128 {
        DrainStep::TimedOut
    } else {
        DrainStep::Wait
    }
}

} // verus!
