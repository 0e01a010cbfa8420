//! One-time bootstrap of a track dataset into a relational store.
//!
//! The library covers the data-integrity core of the bootstrap: a schema
//! descriptor for the target relation, a row decoder that coerces raw text
//! fields into typed column values, and a loader that commits one row at a
//! time. The store itself (SQLite) and the file system sit outside; the
//! orchestration is expressed as a step machine whose driver performs the
//! actual I/O.
pub mod bootstrap;
pub mod coerce;
pub mod csvio;
pub mod record;
pub mod schema;
pub mod store;
