//! A vector-searchable index of CLI commands, kept in sync with a
//! version-controlled JSON registry.
//!
//! The library covers the registry data model, manifest parsing and
//! validation, the diff between two registry snapshots, the stable content
//! identity of an entry, and the translation of a commit's diff into the
//! delete and upsert operations that bring the vector index back into
//! agreement with the registry.

pub mod codec;
pub mod command;
pub mod errors;
pub mod github;
pub mod identity;
pub mod index;
pub mod json;
pub mod manifest;
pub mod payload;
pub mod reconcile;
pub mod roundtrip;
pub mod search;
pub mod localdb;
