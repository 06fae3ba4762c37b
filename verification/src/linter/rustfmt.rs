//! The formatter as a linter: the fixed command line that asks it for a
//! JSON mismatch report. Running the command and reading the report happen
//! at the caller's edge; the parameters are decided here.

use vstd::prelude::*;

verus! {

/// The formatter backend. It holds no options.
#[derive(Debug, PartialEq)]
pub struct RustFmt {}

impl Default for RustFmt {
    fn default() -> (r: Self)
        ensures
            r == (RustFmt {  }),
    {
        RustFmt {  }
    }
}

/// The command line of a formatter check run.
pub open spec fn spec_fmt_parameters() -> Seq<Seq<char>> {
    seq!["+nightly"@, "fmt"@, "--"@, "--emit"@, "json"@]
}

impl RustFmt {
    pub fn command_parameters() -> (r: Vec<&'static str>)
        ensures
            r.deep_view() == spec_fmt_parameters(),
    {
        let mut params: Vec<&'static str> = Vec::new();
        params.push("+nightly");
        params.push("fmt");
        params.push("--");
        params.push("--emit");
        params.push("json");
        proof {
            assert(params.deep_view() =~= spec_fmt_parameters());
        }
        params
    }
}

} // verus!
