//! The older reading of a build manifest: only whether it declares a
//! workspace, and which members.

use vstd::prelude::*;

use crate::manifest::workspace_members;

verus! {

/// The workspace members of a build manifest; empty outside a workspace.
#[derive(Debug, PartialEq)]
pub struct Parser {
    pub members: Vec<String>,
}

impl Parser {
    /// A manifest describes a workspace exactly when it has members.
    pub fn is_workspace(&self) -> (r: bool)
        ensures
            r == (self.members@.len() > 0),
    {
        self.members.len() > 0
    }

    pub fn new() -> (r: Self)
        ensures
            r.members@.len() == 0,
    {
        Self { members: Vec::new() }
    }

    /// The members carried by a decoded manifest: those of its workspace
    /// section, or none.
    pub fn from_manifest<Metadata>(m: cargo_toml::Manifest<Metadata>) -> Self {
        Self::from_workspace_members(workspace_members(m))
    }

    /// The members for a known workspace member list.
    pub fn from_workspace_members(ws: Option<Vec<String>>) -> (r: Self)
        ensures
            match ws {
                Some(members) => r.members.deep_view() == members.deep_view(),
                None => r.members@.len() == 0,
            },
    {
        match ws {
            Some(members) => Self { members },
            None => Self::new(),
        }
    }
}

} // verus!
