//! What the newer orchestration needs of a project's layout: the list of
//! directories a linter will visit.

use vstd::prelude::*;

pub mod rust;

verus! {

/// This trait is responsible for providing a list of members,
/// which are directories to be linted against.
pub trait Config {
    /// The relative paths a linter will iterate on; the project root
    /// alone is `vec![".".to_string()]`.
    fn members(&self) -> Vec<String>;
}

} // verus!
