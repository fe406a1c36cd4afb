//! Calls into `lenient_semver` and `semver`.
use vstd::prelude::*;
use std::cmp::Ordering;
use crate::version::SemVer;

verus! {

/// What `lenient_semver::parse` gives for a text: the five parts of the
/// version (major, minor, patch, pre-release text, build text), or the text
/// of the parser's error.
pub uninterp spec fn lenient_semver_parse(s: Seq<char>) -> Result<
    (u64, u64, u64, Seq<char>, Seq<char>),
    Seq<char>,
>;

pub open spec fn parse_outcome(r: Result<SemVer, String>) -> Result<
    (u64, u64, u64, Seq<char>, Seq<char>),
    Seq<char>,
> {
    match r {
        Ok(v) => Ok(v.parts()),
        Err(e) => Err(e@),
    }
}

/// Calls `lenient_semver::parse` and takes the parsed `semver::Version`
/// apart into plain fields. The contract names the outcome
/// (`lenient_semver_parse` of the input) and states that its pre-release
/// and build texts are ones `semver` accepts (the builder makes them with
/// `Prerelease::new` and `BuildMetadata::new`); which texts are accepted is
/// left unsaid.
#[verifier::external_body]
pub(crate) fn lenient_parse(s: &str) -> (r: Result<SemVer, String>)
    ensures
        parse_outcome(r) == lenient_semver_parse(s@),
        r matches Ok(v) ==> pre_valid(v.pre@) && build_valid(v.build@),
{
    match lenient_semver::parse(s) {
        Ok(v) => Ok(
            SemVer {
                major: v.major,
                minor: v.minor,
                patch: v.patch,
                pre: v.pre.as_str().to_string(),
                build: v.build.as_str().to_string(),
            },
        ),
        Err(e) => Err(e.to_string()),
    }
}

pub open spec fn reverse_order(o: Option<Ordering>) -> Option<Ordering> {
    match o {
        Some(Ordering::Less) => Some(Ordering::Greater),
        Some(Ordering::Greater) => Some(Ordering::Less),
        other => other,
    }
}

/// What `semver::Prerelease::cmp` gives for two pre-release texts, or `None`
/// when one of them is not a valid pre-release.
pub uninterp spec fn prerelease_order(a: Seq<char>, b: Seq<char>) -> Option<Ordering>;

/// A pre-release text `semver` accepts (it compares equal to itself).
pub open spec fn pre_valid(x: Seq<char>) -> bool {
    prerelease_order(x, x) == Some(Ordering::Equal)
}

/// The pre-release `x` is no newer than `y`.
pub open spec fn pre_le(x: Seq<char>, y: Seq<char>) -> bool {
    prerelease_order(x, y) == Some(Ordering::Less) || prerelease_order(x, y) == Some(Ordering::Equal)
}

/// Builds two `semver::Prerelease` values and compares them with their `Ord`
/// (semver precedence of pre-release identifiers, the empty one being the
/// greatest). Stated of it, as `semver`'s source shows: the result is named
/// `prerelease_order`; there is one exactly when both texts are valid;
/// only equal texts compare equal; swapping the arguments reverses the
/// result; the empty pre-release (a release) is newer than any other; and,
/// `Ord` being a total order, the order is transitive through the two
/// texts compared. The identifier rules themselves are left unsaid.
#[verifier::external_body]
pub(crate) fn prerelease_compare(a: &str, b: &str) -> (r: Option<Ordering>)
    ensures
        r == prerelease_order(a@, b@),
        a@ == b@ && r is Some ==> r == Some(Ordering::Equal),
        r == reverse_order(prerelease_order(b@, a@)),
        r is Some ==> pre_valid(a@) && pre_valid(b@),
        pre_valid(a@) && pre_valid(b@) ==> r is Some,
        r == Some(Ordering::Equal) ==> a@ == b@,
        a@.len() == 0 && b@.len() > 0 && pre_valid(b@) ==> r == Some(Ordering::Greater),
        a@.len() > 0 && b@.len() == 0 && pre_valid(a@) ==> r == Some(Ordering::Less),
        forall|c: Seq<char>|
            (r == Some(Ordering::Less) || r == Some(Ordering::Equal)) && #[trigger] pre_le(b@, c) ==> pre_le(a@, c),
        forall|c: Seq<char>|
            #[trigger] pre_le(c, a@) && (r == Some(Ordering::Less) || r == Some(Ordering::Equal)) ==> pre_le(c, b@)
                && (prerelease_order(c, a@) == Some(Ordering::Less) || r == Some(Ordering::Less)
                ==> prerelease_order(c, b@) == Some(Ordering::Less)),
        forall|c: Seq<char>|
            (r == Some(Ordering::Greater) || r == Some(Ordering::Equal)) && #[trigger] pre_le(a@, c) ==> pre_le(b@, c)
                && (prerelease_order(a@, c) == Some(Ordering::Less) || r == Some(Ordering::Greater)
                ==> prerelease_order(b@, c) == Some(Ordering::Less)),
{
    match (semver::Prerelease::new(a), semver::Prerelease::new(b)) {
        (Ok(x), Ok(y)) => Some(x.cmp(&y)),
        _ => None,
    }
}

/// What `semver::BuildMetadata::cmp` gives for two build texts, or `None`
/// when one of them is not valid build metadata.
pub uninterp spec fn build_order(a: Seq<char>, b: Seq<char>) -> Option<Ordering>;

/// A build text `semver` accepts (it compares equal to itself).
pub open spec fn build_valid(x: Seq<char>) -> bool {
    build_order(x, x) == Some(Ordering::Equal)
}

/// The build `x` orders no later than `y`.
pub open spec fn build_le(x: Seq<char>, y: Seq<char>) -> bool {
    build_order(x, y) == Some(Ordering::Less) || build_order(x, y) == Some(Ordering::Equal)
}

/// Builds two `semver::BuildMetadata` values and compares them with their
/// `Ord`. Stated of it, as `semver`'s source shows: the result is named
/// `build_order`; there is one exactly when both texts are valid; only
/// equal texts compare equal; swapping the arguments reverses the result;
/// and, `Ord` being a total order, the order is transitive through the two
/// texts compared. The identifier rules themselves are left unsaid.
#[verifier::external_body]
pub(crate) fn build_compare(a: &str, b: &str) -> (r: Option<Ordering>)
    ensures
        r == build_order(a@, b@),
        a@ == b@ && r is Some ==> r == Some(Ordering::Equal),
        r == reverse_order(build_order(b@, a@)),
        r is Some ==> build_valid(a@) && build_valid(b@),
        build_valid(a@) && build_valid(b@) ==> r is Some,
        r == Some(Ordering::Equal) ==> a@ == b@,
        forall|c: Seq<char>|
            (r == Some(Ordering::Less) || r == Some(Ordering::Equal)) && #[trigger] build_le(b@, c) ==> build_le(a@, c),
        forall|c: Seq<char>|
            #[trigger] build_le(c, a@) && (r == Some(Ordering::Less) || r == Some(Ordering::Equal)) ==> build_le(c, b@),
        forall|c: Seq<char>|
            (r == Some(Ordering::Greater) || r == Some(Ordering::Equal)) && #[trigger] build_le(a@, c) ==> build_le(b@, c),
{
    match (semver::BuildMetadata::new(a), semver::BuildMetadata::new(b)) {
        (Ok(x), Ok(y)) => Some(x.cmp(&y)),
        _ => None,
    }
}

} // verus!
