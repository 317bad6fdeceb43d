//! The version source abstraction: something that resolves a version
//! constraint to the single best concrete version it holds, with its hash.
use vstd::prelude::*;
use crate::ini_source::{Resolution, ResolveError, name_view, resolution_of};
use crate::version::{FixedVersion, VersionConstraint};

verus! {

/// A source of concrete versions, partitioned by identifier. The catalog's
/// text is read by the caller and handed in, so a source stays a pure
/// function of that text.
pub trait VersionSource {
    /// What this source resolves `requested_version` to, for the section
    /// `identifier` of the catalog text `catalog_text`.
    spec fn resolves_to(
        &self,
        catalog_text: Seq<char>,
        requested_version: Seq<char>,
        identifier: Option<Seq<char>>,
    ) -> Resolution;

    /// The best version that `requested_version` admits, or why there is none:
    /// an unreadable catalog, no section for the identifier, or no match.
    fn get_fixed_version(
        &self,
        catalog_text: &str,
        requested_version: &VersionConstraint,
        identifier: Option<&str>,
    ) -> (r: Result<FixedVersion, ResolveError>)
        ensures
            resolution_of(r) == self.resolves_to(
                catalog_text@,
                requested_version@,
                name_view(identifier),
            ),
    ;
}

} // verus!
