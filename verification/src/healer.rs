//! The capability of applying fixes for a list of findings.

use vstd::prelude::*;

use crate::error::Error;
use crate::linter::Lint;

verus! {

pub trait Healer {
    /// Apply a fix for each of the given findings.
    fn heal(&self, lints: Vec<Lint>) -> Result<(), Error>;
}

} // verus!
