//! Sandboxed filesystem gateway for a document editor backend.
//!
//! The core is a path-validation guard that confines every caller-supplied
//! path to a fixed set of allowed roots, a directory-tree enumerator with a
//! deterministic filtering and ordering policy, and a project-wide text
//! search engine with exact line/column accounting and a bounded result
//! count. Around it stand the pure parts of the surrounding commands: the
//! note frontmatter format, timestamps, display names and handoff URLs.
//!
//! Filesystem reads and writes happen outside this crate; the functions here
//! take the observed directory entries and file contents as plain values and
//! are verified over them.

pub mod chartext;
pub mod errs;
pub mod common;
pub mod guard;
pub mod tree;
pub mod search;
pub mod clock;
pub mod notes;
pub mod clients;
pub mod sessions;
pub mod exhibits;
pub mod urls;
pub mod catalog;
