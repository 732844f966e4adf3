//! Collision-safe asset import.
//!
//! The library decides where externally selected files land inside a
//! project's managed import directory.  Its two central pieces are
//! [`resolve::resolve_unique`], which derives a destination path that is
//! not already taken by appending a numeric disambiguator before the
//! extension, and [`importer::Importer`], which runs the decisions of a
//! batch import: per-source validation, destination resolution, and
//! root-relative reporting, all-or-nothing on failure.
//!
//! Filesystem effects themselves (stat, copy, directory creation) are the
//! caller's: the caller tells the library which paths exist and performs
//! the copies the library plans, so every decision here is verified.

pub mod digits;
pub mod errors;
pub mod importer;
pub mod names;
pub mod paths;
pub mod resolve;

pub use errors::ImportError;
pub use importer::{batch_has_work, managed_dir, CopyJob, Importer};
pub use names::NameSet;
pub use resolve::resolve_unique;
