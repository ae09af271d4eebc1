//! Domain types shared by every part of the system: identifiers, error
//! codes, events and restoration fidelity levels.

pub mod error;
pub mod fidelity;
pub mod ids;
pub mod events;
