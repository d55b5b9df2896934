//! A minimal pattern for persisting versioned, partially-keyed records into a
//! document store with an idempotent upsert keyed by a derived filter.
//!
//! The core is the entity-and-key model: a record type declares its storage
//! location, derives the subset of its fields that identify it for updates,
//! and carries an equality relation that treats empty fields as wildcards.

pub mod binding;
pub mod db_common;
pub mod doc;
pub mod store;
