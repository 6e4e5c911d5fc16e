//! Verified core of a scratch-directory manager.
//!
//! A *registry* directory holds one child per tracked scratch directory:
//! either a symlink into the OS temp root (an *ephemeral* entry) or a real
//! directory (a *persistent* entry).  This crate verifies the logic that
//! decides what happens to the registry: name allocation, classification of
//! a working directory as inside or outside a tracked entry, and the
//! lifecycle transitions (create, persist, rename, delete, delete-all, and
//! the stale-link sweep).  All actual filesystem work is carried out by a
//! thin unverified shell around this crate, which feeds paths in as plain
//! segment vectors and applies the transitions this crate computes.

pub mod downloads;
pub mod laws;
pub mod names;
pub mod paths;
pub mod registry;
