//! What loading a test-case archive can fail with.
//!
//! The archive reading itself — a zip file of inputs, outputs and a
//! per-case configuration — happens outside the library; this is the
//! error vocabulary it reports in.

use vstd::prelude::*;

verus! {

/// Why a test-case archive could not be loaded.
#[derive(Debug, PartialEq, Eq, Structural)]
pub enum CaseError {
    /// Reading the archive failed.
    Io,
    /// The bytes do not form an archive this engine accepts.
    InvalidArchive,
    /// The archive lacks a configuration or a named case file.
    FileNotFound,
    /// The configuration does not parse.
    ParseError,
}

} // verus!
