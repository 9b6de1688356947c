//! Verified core of an APK repackaging tool.
//!
//! The library holds everything that can be checked: the text parsers for
//! device and package listings, the trusted-prefix heuristic, the derivation
//! of the new package identity and artifact paths, the manifest patcher, and
//! the pipeline state machine that decides what to run next and how to report
//! each stage's outcome. Process launching and file access live outside the
//! library; they hand plain strings in and take plain values back.

pub mod devices;
pub mod inventory;
pub mod pipeline;
pub mod prefixes;
pub mod text;
