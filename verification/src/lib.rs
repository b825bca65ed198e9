//! Verified core of a `find`-style utility: it builds a search configuration
//! (roots, optional name patterns, optional entry-type filter) and decides,
//! for each entry met during a directory walk, whether the entry's path is
//! printed, a diagnostic is reported, or the whole run is aborted.
//!
//! Directory walking and command-line handling are left to the surrounding
//! program; regular-expression compilation and matching are delegated to the
//! `regex` crate behind a small trusted boundary in [`pattern`].

pub mod config;
pub mod engine;
pub mod pattern;
