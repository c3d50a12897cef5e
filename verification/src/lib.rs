//! Streaming translation library.
//!
//! The crate turns a provider's server-sent-event byte stream into ordered
//! text deltas and a final translated result.  `sse` frames the raw bytes
//! into events, `event` extracts content deltas from one event, `session`
//! carries one translation through request building, streaming and the
//! terminal outcome, and `config` renders and parses the persisted
//! settings document.

pub mod models;
pub mod text;
pub mod json;
pub mod sse;
pub mod event;
pub mod config;
pub mod session;
