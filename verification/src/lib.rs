//! DragonFly: a disk-maintenance library built around a recovery-first
//! cleanup subsystem and a content-hash duplicate-detection engine.
//!
//! The library models the filesystem it works on as an explicit value
//! ([`vfs::VirtualFs`]): a set of directories and files with byte contents.
//! Callers (a CLI, a walker) load real directories into that model, run the
//! verified operations, and write the outcome back to disk. Everything the
//! library decides — which files are duplicates, what a cleanup may delete,
//! when an archived recovery expires — is stated in contracts and proved.

use vstd::prelude::*;

pub mod analyzer;
pub mod animation;
pub mod cleaner;
pub mod domain;
pub mod duplicates;
pub mod error;
pub mod hashing;
pub mod recovery;
pub mod sizeparse;
pub mod strings;
pub mod table;
pub mod timemachine;
pub mod timefmt;
pub mod tracking;
pub mod vfs;

verus! {

/// The library's version string.
pub const VERSION: &'static str = "0.1.0";

} // verus!
