//! The one window onto the build-manifest crate: the declaration of its
//! manifest type and the extraction of the workspace member list. A
//! manifest value is opaque here; every decision taken on what it holds is
//! made by verified code on the plain list this module hands out.

use vstd::prelude::*;

verus! {

#[verifier::external_type_specification]
#[verifier::external_body]
#[verifier::reject_recursive_types(Metadata)]
pub struct ExManifest<Metadata>(cargo_toml::Manifest<Metadata>);

/// Relies on cargo_toml::Manifest's public `workspace` field: the member
/// list of the manifest's workspace section, if the manifest has one.
#[verifier::external_body]
pub(crate) fn workspace_members<Metadata>(m: cargo_toml::Manifest<Metadata>) -> Option<
    Vec<String>,
> {
    m.workspace.map(|w| w.members)
}

} // verus!
