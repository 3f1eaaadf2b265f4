//! Semantic versions, as the semver crate reads and orders them.
use vstd::prelude::*;

verus! {

/// Whether a text is a valid semantic version.
pub uninterp spec fn semver_valid(s: Seq<char>) -> bool;

/// Whether the version `latest` comes strictly after the version `current`
/// in semver's order.
pub uninterp spec fn semver_newer(current: Seq<char>, latest: Seq<char>) -> bool;

/// Relies on `semver::Version::parse`: whether the text parses as a version.
#[verifier::external_body]
pub(crate) fn parses_as_version(s: &str) -> (r: bool)
    ensures
        r == semver_valid(s@),
{
    semver::Version::parse(s).is_ok()
}

/// Relies on `semver::Version::parse` and `Version`'s derived order: whether
/// `latest` is newer than `current`, when both parse.
#[verifier::external_body]
pub(crate) fn is_newer_version(current: &str, latest: &str) -> (r: Option<bool>)
    ensures
        r == (if semver_valid(current@) && semver_valid(latest@) {
            Some(semver_newer(current@, latest@))
        } else {
            None
        }),
{
    match (semver::Version::parse(current), semver::Version::parse(latest)) {
        (Ok(c), Ok(l)) => Some(l > c),
        _ => None,
    }
}

/// Whether the version `v` meets the requirement `req`, both valid.
pub uninterp spec fn semver_req_matches(req: Seq<char>, v: Seq<char>) -> bool;

/// Relies on `semver::VersionReq::parse`, `semver::Version::parse` and
/// `VersionReq::matches`: whether the version meets the requirement; a
/// requirement or a version that does not parse is not met.
#[verifier::external_body]
pub(crate) fn requirement_matches(req: &str, v: &str) -> (r: bool)
    ensures
        r == (semver_valid(v@) && semver_req_matches(req@, v@)),
{
    match (semver::VersionReq::parse(req), semver::Version::parse(v)) {
        (Ok(r), Ok(v)) => r.matches(&v),
        _ => false,
    }
}

} // verus!
