//! What the orchestrator needs to know of a project's layout: its member
//! directories, and whether the linter must visit them one by one.

use vstd::prelude::*;

pub mod cargo;

verus! {

pub trait Config {
    /// Whether the linter must be run per member rather than once for the
    /// whole project.
    fn linter_must_iterate(&self) -> bool;

    /// The member directories, relative to the project root.
    fn get_members(&self) -> Vec<String>;
}

} // verus!
