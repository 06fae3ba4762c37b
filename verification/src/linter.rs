//! The generic shape of a linter and of what it reports: a finding with a
//! message and the location it points at.

use vstd::prelude::*;

use crate::error::Error;

pub mod clippy;
pub mod rustfmt;

verus! {

pub trait Linter {
    /// Produce the findings for one working directory.
    fn lints(&self, working_dir: &str) -> Result<Vec<Lint>, Error>;
}

/// The mathematical shape of a `Location`.
#[verifier::ext_equal]
pub struct LocationV {
    pub path: Seq<char>,
    pub line_start: int,
    pub line_end: int,
}

/// A `Location` has a file name, a start and an end line
#[derive(Debug, PartialEq)]
pub struct Location {
    pub path: String,
    pub lines: [u32; 2],
}

impl View for Location {
    type V = LocationV;

    open spec fn view(&self) -> LocationV {
        LocationV {
            path: self.path@,
            line_start: self.lines@[0] as int,
            line_end: self.lines@[1] as int,
        }
    }
}

impl DeepView for Location {
    type V = LocationV;

    open spec fn deep_view(&self) -> LocationV {
        self.view()
    }
}

impl Clone for Location {
    fn clone(&self) -> (r: Self)
        ensures
            r@ == self@,
    {
        let r = Location { path: self.path.clone(), lines: [self.lines[0], self.lines[1]] };
        proof {
            assert(r.lines@ =~= self.lines@);
        }
        r
    }
}

/// The mathematical shape of a `Lint`.
#[verifier::ext_equal]
pub struct LintV {
    pub message: Seq<char>,
    pub location: LocationV,
}

/// This struct contains the lint,
/// It has a message, and a location.
#[derive(Debug, PartialEq)]
pub struct Lint {
    /// The message string
    /// Example:
    /// unused variable `count`
    pub message: String,
    /// The file name and lines the lint
    /// was reported on
    pub location: Location,
}

impl View for Lint {
    type V = LintV;

    open spec fn view(&self) -> LintV {
        LintV { message: self.message@, location: self.location@ }
    }
}

impl DeepView for Lint {
    type V = LintV;

    open spec fn deep_view(&self) -> LintV {
        self.view()
    }
}

impl Clone for Lint {
    fn clone(&self) -> (r: Self)
        ensures
            r@ == self@,
    {
        Lint { message: self.message.clone(), location: self.location.clone() }
    }
}

} // verus!
