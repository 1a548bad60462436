//! A local store of named, switchable configuration profiles.
//!
//! Each profile holds a small set of optional string settings (project,
//! account, zone, region) and is persisted in a sectioned `key = value`
//! text format. At most one profile is active at a time. The store
//! enforces name uniqueness, a caller-chosen conflict policy on name
//! collisions, and consistency of the active pointer under mutation.

pub mod error;
pub mod keyfile;
pub mod properties;
pub mod store;
