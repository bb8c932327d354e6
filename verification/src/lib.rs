//! Core of a dynamic-IP watcher: resolve the current public address, detect
//! changes against the last known value, and decide how to fan the change out
//! to a list of reporters.
//!
//! The crate holds the decision logic only. Transports — the HTTP request
//! that resolves the address, and the destinations a change is reported to —
//! are collaborators that a driver supplies around this crate.

pub mod ip;
pub mod reconciler;
pub mod reporter;
pub mod resolution;
pub mod state;
pub mod stdout;
