//! npm-style semantic versions and ranges, as the `nodejs_semver` crate
//! reads, compares and prints them.
//!
//! A parsed version or range is kept together with the text it was parsed
//! from; the contracts below speak of that text.
use vstd::prelude::*;

verus! {

#[verifier::external_type_specification]
#[verifier::external_body]
pub struct ExSemverRange(nodejs_semver::Range);

#[verifier::external_type_specification]
#[verifier::external_body]
pub struct ExSemverVersion(nodejs_semver::Version);

#[verifier::external_type_specification]
#[verifier::external_body]
pub struct ExSemverError(nodejs_semver::SemverError);

/// Whether `nodejs_semver::Range::parse` accepts the text.
pub uninterp spec fn semver_range_parses(raw: Seq<char>) -> bool;

/// Whether `nodejs_semver::Version::parse` accepts the text.
pub uninterp spec fn semver_version_parses(raw: Seq<char>) -> bool;

/// Whether the version parsed from `version` satisfies the range parsed from `range`.
pub uninterp spec fn semver_satisfies(version: Seq<char>, range: Seq<char>) -> bool;

/// Whether the version parsed from `a` orders after the one parsed from `b`.
pub uninterp spec fn semver_greater(a: Seq<char>, b: Seq<char>) -> bool;

/// How the version parsed from the text prints.
pub uninterp spec fn semver_version_text(raw: Seq<char>) -> Seq<char>;

/// How the range parsed from the text prints.
pub uninterp spec fn semver_range_text(raw: Seq<char>) -> Seq<char>;

/// A range together with the text it was parsed from.
pub struct SemverRange {
    raw: String,
    parsed: nodejs_semver::Range,
}

impl View for SemverRange {
    type V = Seq<char>;

    closed spec fn view(&self) -> Seq<char> {
        self.raw@
    }
}

/// A version together with the text it was parsed from.
pub struct SemverVersion {
    raw: String,
    parsed: nodejs_semver::Version,
}

impl View for SemverVersion {
    type V = Seq<char>;

    closed spec fn view(&self) -> Seq<char> {
        self.raw@
    }
}

/// Parses a range with `nodejs_semver::Range::parse`; it succeeds exactly
/// when `semver_range_parses` holds of the text.
#[verifier::external_body]
pub(crate) fn parse_range(raw: &str) -> (r: Result<SemverRange, nodejs_semver::SemverError>)
    ensures
        r is Ok == semver_range_parses(raw@),
        r matches Ok(range) ==> range@ == raw@,
{
    match nodejs_semver::Range::parse(raw) {
        Ok(parsed) => Ok(SemverRange { raw: raw.to_string(), parsed }),
        Err(e) => Err(e),
    }
}

/// Parses a version with `nodejs_semver::Version::parse`; it succeeds
/// exactly when `semver_version_parses` holds of the text. A parsed version
/// is not greater than itself: `Ord for Version` compares it `Equal`.
#[verifier::external_body]
pub(crate) fn parse_version(raw: &str) -> (r: Option<SemverVersion>)
    ensures
        r is Some == semver_version_parses(raw@),
        r matches Some(v) ==> v@ == raw@ && !semver_greater(raw@, raw@),
{
    match nodejs_semver::Version::parse(raw) {
        Ok(parsed) => Some(SemverVersion { raw: raw.to_string(), parsed }),
        Err(_) => None,
    }
}

/// `Version::satisfies`: the result is named `semver_satisfies`.
#[verifier::external_body]
pub(crate) fn satisfies(version: &SemverVersion, range: &SemverRange) -> (r: bool)
    ensures
        r == semver_satisfies(version@, range@),
{
    version.parsed.satisfies(&range.parsed)
}

/// `>` of `Version` (its `Ord`): the result is named `semver_greater`.
/// `Ord for Version` compares major, minor and patch, then the pre-release
/// identifiers (none ranking highest), one after the other: a total
/// preorder. So `>` is asymmetric, and when `a` is not greater than `b`,
/// no parsed version that is not greater than `a` is greater than `b`.
#[verifier::external_body]
pub(crate) fn greater(a: &SemverVersion, b: &SemverVersion) -> (r: bool)
    ensures
        r == semver_greater(a@, b@),
        r ==> !semver_greater(b@, a@),
        !r ==> forall|c: Seq<char>|
            semver_version_parses(c) && !semver_greater(c, a@) ==> !#[trigger] semver_greater(
                c,
                b@,
            ),
{
    a.parsed > b.parsed
}

/// The `Display` of a version: the result is named `semver_version_text`.
#[verifier::external_body]
pub(crate) fn version_text(v: &SemverVersion) -> (s: String)
    ensures
        s@ == semver_version_text(v@),
{
    v.parsed.to_string()
}

/// The `Display` of a range: the result is named `semver_range_text`.
#[verifier::external_body]
pub(crate) fn range_text(r: &SemverRange) -> (s: String)
    ensures
        s@ == semver_range_text(r@),
{
    r.parsed.to_string()
}

/// The message of `SemverError`, which its source fixes.
pub open spec fn semver_error_text() -> Seq<char> {
    "Invalid semantic version or range"@
}

/// The `Display` of `nodejs_semver::SemverError`, a fixed message.
#[verifier::external_body]
pub(crate) fn semver_error_message(e: &nodejs_semver::SemverError) -> (s: String)
    ensures
        s@ == semver_error_text(),
{
    e.to_string()
}

} // verus!
