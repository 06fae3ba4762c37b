//! The project layout read from a build manifest: the workspace members,
//! and the two feature flags that force a per-member lint run.

use vstd::prelude::*;

use crate::manifest::workspace_members;
use crate::project::Config as ProjectConfig;

verus! {

/// A project configuration from a build manifest: the linter iterates
/// over the members exactly when there are members and a feature flag is
/// set.
#[derive(Debug, PartialEq)]
pub struct Config {
    pub no_default_features: bool,
    pub all_features: bool,
    pub members: Vec<String>,
}

impl ProjectConfig for Config {
    fn linter_must_iterate(&self) -> (r: bool)
        ensures
            r == (self.members@.len() > 0 && (self.no_default_features || self.all_features)),
    {
        self.members.len() > 0 && (self.no_default_features || self.all_features)
    }

    fn get_members(&self) -> (r: Vec<String>)
        ensures
            r.deep_view() == self.members.deep_view(),
    {
        let mut out: Vec<String> = Vec::new();
        let mut i: usize = 0;
        while i < self.members.len()
            invariant
                i <= self.members.len(),
                out@.len() == i,
                forall|k: int| 0 <= k < i ==> #[trigger] out@[k]@ == self.members@[k]@,
            decreases self.members.len() - i,
        {
            out.push(self.members[i].clone());
            i = i + 1;
        }
        proof {
            assert forall|k: int|
                0 <= k < self.members@.len() implies #[trigger] out.deep_view()[k]
                == self.members.deep_view()[k] by {
                assert(out@[k]@ == self.members@[k]@);
            }
            assert(out.deep_view() =~= self.members.deep_view());
        }
        out
    }
}

impl Config {
    /// The configuration carried by a decoded manifest: its workspace
    /// members when it is a workspace manifest, none otherwise; the
    /// feature flags start unset.
    pub fn from_manifest<Metadata>(m: cargo_toml::Manifest<Metadata>) -> (r: Self)
        ensures
            !r.no_default_features,
            !r.all_features,
    {
        Self::from_workspace_members(workspace_members(m))
    }

    /// The configuration for a known member list: the members of a
    /// workspace manifest, or none for a single-package manifest.
    pub fn from_workspace_members(ws: Option<Vec<String>>) -> (r: Self)
        ensures
            !r.no_default_features,
            !r.all_features,
            match ws {
                Some(members) => r.members.deep_view() == members.deep_view(),
                None => r.members@.len() == 0,
            },
    {
        match ws {
            Some(members) => Self { members, no_default_features: false, all_features: false },
            None => Self { members: Vec::new(), no_default_features: false, all_features: false },
        }
    }

    pub fn set_no_default_features(&mut self, no_default_features: bool)
        ensures
            *final(self) == (Config { no_default_features, ..*old(self) }),
    {
        self.no_default_features = no_default_features;
    }

    pub fn set_all_features(&mut self, all_features: bool)
        ensures
            *final(self) == (Config { all_features, ..*old(self) }),
    {
        self.all_features = all_features;
    }
}

} // verus!
