//! The daemon's verified parts: verb dispatch, capability negotiation, the
//! event topology, the records it keeps in its store and the verbs that read
//! and write them, the records of its event bus, the timestamps it writes,
//! and its start-up and shutdown decisions.

pub mod dispatch;
pub mod capability;
pub mod wiring;
pub mod clock;
pub mod records;
pub mod bus;
pub mod handlers;
pub mod runtime;
pub mod request;
