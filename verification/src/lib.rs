//! Verified persistence layer for an event-booking backend.
//!
//! Entities (users, venues, packages, events, registrations) are stored in an
//! embedded ordered byte-key store behind a small trusted boundary.  The key
//! scheme, the binary codec, the per-kind repositories and the bulk
//! import/export/statistics operations are verified against a spec-level
//! model of the store: a map from keys to encoded values.

pub mod models;
pub mod ident;
pub mod keys;
pub mod codec;
pub mod store;
pub mod sort;
pub mod database;
pub mod laws;
