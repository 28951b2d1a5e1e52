//! Metadata resolution and recursive tree building for a directory listing.
//!
//! The library works on an in-memory snapshot of a filesystem subtree
//! ([`disk::Node`]): every entry carries the values an `lstat`-style call
//! would report, directory listings carry their children or the error that
//! reading them produced, and symlinks carry their target.  From such a
//! snapshot the library resolves one normalized metadata record per entry
//! ([`meta::Meta`]), expands directories recursively under depth limits,
//! visibility filters and a dereference policy, aggregates per-entry
//! failures into a single severity, and finalizes cumulative directory
//! sizes in a second pass.  Reading the snapshot from a real disk is left
//! to the caller.

pub mod attributes;
pub mod disk;
pub mod exit_code;
pub mod flags;
pub mod laws;
pub mod meta;
pub mod size_laws;
pub mod sizes;
pub mod walk;
