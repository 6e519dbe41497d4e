//! Durable workflow coordinator for hierarchical agent-driven sessions.
//!
//! Sessions live in a SQLite-backed store and move through a small state
//! machine (pending, active, sleeping, complete, failed). The tick promotes
//! at most one pending session to active per call and wakes sleepers whose
//! trigger is satisfied; the request handler applies one agent response
//! atomically.

pub mod error;
pub mod jsontext;
pub mod process;
pub mod protocol;
pub mod request;
pub mod session;
pub mod status;
pub mod storage;
pub mod strutil;
pub mod trigger;
pub mod wake;
