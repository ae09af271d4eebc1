//! DAG topology for event-driven architectures.
//!
//! An edge is an event type: declaring a [`DagEdge`] declares both the data
//! that flows and the arc in the program's execution graph. A valid (acyclic)
//! event DAG can never loop through event propagation.

pub mod graph;
pub mod index;
pub mod marks;
pub mod cycle;
pub mod text;
pub mod reach;
pub mod wiring;
pub mod wiring_laws;
pub mod completeness;
pub mod walk;
pub mod termination;
