//! The member list read from a build manifest: the workspace members, or
//! the project root alone for a single-package manifest.

use vstd::prelude::*;

use crate::config::Config;
use crate::manifest::workspace_members;

verus! {

/// This struct represents a Cargo project configuration.
#[derive(Debug, PartialEq)]
pub struct CargoConfig {
    pub members: Vec<String>,
}

impl Config for CargoConfig {
    fn members(&self) -> (r: Vec<String>)
        ensures
            r.deep_view() == self.members.deep_view(),
    {
        let mut out: Vec<String> = Vec::new();
        let mut i: usize = 0;
        while i < self.members.len()
            invariant
                i <= self.members.len(),
                out@.len() == i,
                forall|k: int| 0 <= k < i ==> #[trigger] out@[k]@ == self.members@[k]@,
            decreases self.members.len() - i,
        {
            out.push(self.members[i].clone());
            i = i + 1;
        }
        proof {
            assert forall|k: int|
                0 <= k < self.members@.len() implies #[trigger] out.deep_view()[k]
                == self.members.deep_view()[k] by {
                assert(out@[k]@ == self.members@[k]@);
            }
            assert(out.deep_view() =~= self.members.deep_view());
        }
        out
    }
}

impl CargoConfig {
    /// The member list carried by a decoded manifest: the workspace
    /// members of a workspace manifest, the project root alone otherwise.
    pub fn from_manifest<Metadata>(m: cargo_toml::Manifest<Metadata>) -> Self {
        Self::from_workspace_members(workspace_members(m))
    }

    /// The member list for known workspace members: the members
    /// themselves, or the project root alone when there is no workspace.
    pub fn from_workspace_members(ws: Option<Vec<String>>) -> (r: Self)
        ensures
            match ws {
                Some(members) => r.members.deep_view() == members.deep_view(),
                None => r.members@.len() == 1 && r.members@[0]@ == "."@,
            },
    {
        match ws {
            Some(members) => Self { members },
            None => {
                let mut members: Vec<String> = Vec::new();
                members.push(".".to_owned());
                Self { members }
            },
        }
    }
}

} // verus!
