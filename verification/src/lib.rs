//! Change-scoped lint correlation: parse a unified diff into changed-line
//! sections, decide which sub-project roots are worth linting, and keep only
//! the findings that overlap the changed lines.

use vstd::prelude::*;

pub mod cargo;
pub mod clippy;
pub mod config;
pub mod error;
pub mod git;
pub mod healer;
pub mod intersections;
pub mod linter;
mod manifest;
pub mod project;
pub mod scout;
pub mod vcs;

verus! {

/// Options a front end collects before driving a run.
pub struct ScoutOptions {
    /// Set the verbosity level
    pub verbose: bool,
    /// Pass the no default features flag to clippy
    pub no_default_features: bool,
    /// Pass the all features flag to clippy
    pub all_features: bool,
    /// Set the target branch
    pub branch: String,
    /// Pass the path of the `Cargo.toml` file
    pub cargo_toml: String,
    /// Enable nightly features (e.g. get lints even after the build has already been done.)
    pub preview: bool,
}

} // verus!
