//! Version constraints, concrete versions and the resolved version with its
//! integrity hash. Parsing, matching and precedence come from the `semver`
//! crate; the library keeps the text each value was parsed from, which is
//! what its contracts speak of.
use vstd::prelude::*;

verus! {

#[verifier::external_type_specification]
#[verifier::external_body]
pub struct ExSemverVersion(semver::Version);

#[verifier::external_type_specification]
#[verifier::external_body]
pub struct ExSemverVersionReq(semver::VersionReq);

/// Whether `semver::Version::parse` accepts the text.
pub uninterp spec fn version_parses(text: Seq<char>) -> bool;

/// Whether `semver::VersionReq::parse` accepts the text.
pub uninterp spec fn constraint_parses(text: Seq<char>) -> bool;

/// What `semver::VersionReq::matches` answers for the requirement parsed from
/// `req` and the version parsed from `version`.
pub uninterp spec fn constraint_admits(req: Seq<char>, version: Seq<char>) -> bool;

/// What `semver::Version::cmp_precedence` answers for the versions parsed from
/// `a` and `b` (build metadata disregarded).
pub uninterp spec fn precedence(a: Seq<char>, b: Seq<char>) -> std::cmp::Ordering;

/// `b` has strictly higher precedence than `a`.
pub open spec fn precedes(a: Seq<char>, b: Seq<char>) -> bool {
    precedence(a, b) == std::cmp::Ordering::Less
}

/// Relies on semver::Version::parse: succeeds exactly on the texts it accepts;
/// the error is rendered through its `Display`.
#[verifier::external_body]
fn semver_parse_version(text: &str) -> (r: Result<semver::Version, String>)
    ensures
        r.is_ok() == version_parses(text@),
{
    semver::Version::parse(text).map_err(|e| e.to_string())
}

/// Relies on semver::VersionReq::parse: succeeds exactly on the texts it
/// accepts; the error is rendered through its `Display`.
#[verifier::external_body]
fn semver_parse_req(text: &str) -> (r: Result<semver::VersionReq, String>)
    ensures
        r.is_ok() == constraint_parses(text@),
{
    semver::VersionReq::parse(text).map_err(|e| e.to_string())
}

/// A single, fully specified semantic version, with the text it was read from.
///
/// The only way to build one is `ConcreteVersion::parse`, so `parsed` is always
/// what `semver` makes of `text`.
#[derive(Debug)]
pub struct ConcreteVersion {
    text: String,
    parsed: semver::Version,
}

/// A semantic version range, with the text it was read from.
///
/// The only way to build one is `VersionConstraint::parse`, so `req` is always
/// what `semver` makes of `text`.
#[derive(Debug)]
pub struct VersionConstraint {
    text: String,
    req: semver::VersionReq,
}

impl View for ConcreteVersion {
    type V = Seq<char>;

    closed spec fn view(&self) -> Seq<char> {
        self.text@
    }
}

impl View for VersionConstraint {
    type V = Seq<char>;

    closed spec fn view(&self) -> Seq<char> {
        self.text@
    }
}

/// Relies on semver::Version::cmp_precedence, on the versions that `a` and
/// `b` were parsed from.
#[verifier::external_body]
fn semver_cmp_precedence(a: &ConcreteVersion, b: &ConcreteVersion) -> (r: std::cmp::Ordering)
    ensures
        r == precedence(a@, b@),
{
    a.parsed.cmp_precedence(&b.parsed)
}

/// Relies on semver::VersionReq::matches, on the requirement and the version
/// that `c` and `v` were parsed from.
#[verifier::external_body]
fn semver_matches(c: &VersionConstraint, v: &ConcreteVersion) -> (r: bool)
    ensures
        r == constraint_admits(c@, v@),
{
    c.req.matches(&v.parsed)
}

impl ConcreteVersion {
    /// Parses a version such as `1.2.3` or `1.0.0-rc.1+build`.
    pub fn parse(text: &str) -> (r: Result<ConcreteVersion, String>)
        ensures
            r.is_ok() == version_parses(text@),
            r matches Ok(v) ==> v@ == text@,
    {
        match semver_parse_version(text) {
            Ok(parsed) => Ok(ConcreteVersion { text: text.to_owned(), parsed }),
            Err(e) => Err(e),
        }
    }

    /// The text this version was parsed from.
    pub fn as_str(&self) -> (r: &str)
        ensures
            r@ == self@,
    {
        self.text.as_str()
    }

    /// The parsed `semver` value.
    pub fn get_semver(&self) -> &semver::Version {
        &self.parsed
    }

    /// Precedence order of the two versions, disregarding build metadata.
    pub fn cmp_precedence(&self, other: &ConcreteVersion) -> (r: std::cmp::Ordering)
        ensures
            r == precedence(self@, other@),
    {
        semver_cmp_precedence(self, other)
    }
}

impl VersionConstraint {
    /// Parses a range such as `^1.0.0`, `~1.2` or `>=1.0, <2.0`.
    pub fn parse(text: &str) -> (r: Result<VersionConstraint, String>)
        ensures
            r.is_ok() == constraint_parses(text@),
            r matches Ok(c) ==> c@ == text@,
    {
        match semver_parse_req(text) {
            Ok(req) => Ok(VersionConstraint { text: text.to_owned(), req }),
            Err(e) => Err(e),
        }
    }

    /// The text this constraint was parsed from.
    pub fn as_str(&self) -> (r: &str)
        ensures
            r@ == self@,
    {
        self.text.as_str()
    }

    /// Whether `v` lies in the range.
    pub fn matches(&self, v: &ConcreteVersion) -> (r: bool)
        ensures
            r == constraint_admits(self@, v@),
    {
        semver_matches(self, v)
    }
}

/// A concrete version together with its integrity hash, as read from a
/// catalog. Equality and order are those of the version's precedence; the
/// hash plays no part in them.
#[derive(Debug)]
pub struct FixedVersion {
    semver: ConcreteVersion,
    hash: String,
}

impl FixedVersion {
    pub closed spec fn raw_version_spec(&self) -> Seq<char> {
        self.semver@
    }

    pub closed spec fn hash_spec(&self) -> Seq<char> {
        self.hash@
    }

    pub fn new(semver: ConcreteVersion, hash: String) -> (r: FixedVersion)
        ensures
            r.raw_version_spec() == semver@,
            r.hash_spec() == hash@,
    {
        FixedVersion { semver, hash }
    }

    /// The version as written in the catalog.
    pub fn raw_version(&self) -> (r: &str)
        ensures
            r@ == self.raw_version_spec(),
    {
        self.semver.as_str()
    }

    pub fn get_version(&self) -> (r: &ConcreteVersion)
        ensures
            r@ == self.raw_version_spec(),
    {
        &self.semver
    }

    pub fn get_semver(&self) -> &semver::Version {
        self.semver.get_semver()
    }

    pub fn get_hash(&self) -> (r: &String)
        ensures
            r@ == self.hash_spec(),
    {
        &self.hash
    }

    /// Compares by version precedence alone.
    pub fn cmp_precedence(&self, other: &FixedVersion) -> (r: std::cmp::Ordering)
        ensures
            r == precedence(self.raw_version_spec(), other.raw_version_spec()),
    {
        self.semver.cmp_precedence(&other.semver)
    }
}

impl PartialEq for FixedVersion {
    /// Equal precedence; the hash plays no part.
    fn eq(&self, other: &FixedVersion) -> (r: bool) {
        match self.cmp_precedence(other) {
            std::cmp::Ordering::Equal => true,
            _ => false,
        }
    }
}

impl vstd::std_specs::cmp::PartialEqSpecImpl for FixedVersion {
    open spec fn obeys_eq_spec() -> bool {
        true
    }

    open spec fn eq_spec(&self, other: &FixedVersion) -> bool {
        precedence(self.raw_version_spec(), other.raw_version_spec()) == std::cmp::Ordering::Equal
    }
}

impl PartialOrd for FixedVersion {
    /// Ordered by precedence alone.
    fn partial_cmp(&self, other: &FixedVersion) -> (r: Option<std::cmp::Ordering>) {
        Some(self.cmp_precedence(other))
    }
}

impl vstd::std_specs::cmp::PartialOrdSpecImpl for FixedVersion {
    open spec fn obeys_partial_cmp_spec() -> bool {
        true
    }

    open spec fn partial_cmp_spec(&self, other: &FixedVersion) -> Option<std::cmp::Ordering> {
        Some(precedence(self.raw_version_spec(), other.raw_version_spec()))
    }
}

} // verus!
