//! Audits a machine's web-browser profiles for known-malicious extensions.
//!
//! The library knows where each supported browser channel keeps its profile
//! directories, discovers concrete profiles on the host, reads the list of
//! installed extension identifiers out of a profile, and cross-references
//! those identifiers against a dataset of flagged extensions. All path and
//! classification logic is verified; the filesystem and the host environment
//! are consulted only through the small trusted wrappers in `probe`.

pub mod catalog;
pub mod dataset;
pub mod loader;
pub mod locator;
pub mod scanner;
pub mod orchestrator;
mod probe;
