//! Parsing a version with the `semver` crate.

use vstd::prelude::*;

verus! {

#[verifier::external_type_specification]
#[verifier::external_body]
pub struct ExSemverError(semver::Error);

/// A SemVer version as plain values.
pub struct SemVer {
    pub major: u64,
    pub minor: u64,
    pub patch: u64,
    /// The pre-release identifiers, as written; empty where there are none.
    pub pre: String,
    /// The build metadata, as written; empty where there is none.
    pub build: String,
}

/// The numbers and texts of a SemVer version.
pub type SemVerParts = (u64, u64, u64, Seq<char>, Seq<char>);

impl SemVer {
    /// The version's numbers and texts.
    pub open spec fn parts(&self) -> SemVerParts {
        (self.major, self.minor, self.patch, self.pre@, self.build@)
    }
}

/// What `semver::Version::parse` makes of a text: the version's numbers and
/// texts, or `None` where it reports an error.
pub uninterp spec fn semver_parse(text: Seq<char>) -> Option<SemVerParts>;

/// Calls `semver::Version::parse`. The contract claims that the outcome is a
/// function of the text alone, and that on success the result carries the
/// parsed major, minor and patch numbers and the pre-release and build texts
/// that `Prerelease::as_str` and `BuildMetadata::as_str` give.
#[verifier::external_body]
pub(crate) fn parse_semver(text: &str) -> (r: Result<SemVer, semver::Error>)
    ensures
        match r {
            Ok(v) => semver_parse(text@) == Some(v.parts()),
            Err(_) => semver_parse(text@) is None,
        },
{
    match semver::Version::parse(text) {
        Ok(v) => Ok(SemVer {
            major: v.major,
            minor: v.minor,
            patch: v.patch,
            pre: v.pre.as_str().to_string(),
            build: v.build.as_str().to_string(),
        }),
        Err(e) => Err(e),
    }
}

} // verus!
