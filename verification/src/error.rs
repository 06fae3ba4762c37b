//! The error taxonomy of the library. Payloads are plain strings so that
//! callers can carry an outside error's message without the outside type.

use vstd::prelude::*;

verus! {

#[derive(Debug, PartialEq)]
pub enum Error {
    /// A `scout::Builder` was asked to build before both parts were set.
    ScoutBuilder,
    /// A build manifest could not be read or parsed.
    CargoToml(String),
    /// An external command failed; holds what it wrote on stderr.
    Command(String),
    /// A tool's output was not the JSON it should be.
    Json(String),
    /// The changes could not be obtained, or a diff hunk header could not
    /// be decoded.
    Git(String),
    /// Findings remain after filtering.
    NotClean,
    /// The command line asked for something the tool does not offer.
    InvalidCommand,
}

} // verus!
