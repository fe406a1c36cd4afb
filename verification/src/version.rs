//! Mod versions: parsing, ordering, and choosing the release to install.
use vstd::prelude::*;
use std::cmp::Ordering;
use crate::api_structs::Releases;
use crate::config::Package;
use crate::error::RustiqueError;
use crate::semver_calls::{
    build_compare, build_le, build_order, build_valid, lenient_parse, lenient_semver_parse,
    pre_le, pre_valid, prerelease_compare, prerelease_order, reverse_order,
};
use crate::text::{clone_opt_string, clone_strings, decimal, opt_chars, str_eq, u64_to_string};

verus! {

/// The parts of a version: major, minor, patch, pre-release text, build text.
pub type VersionParts = (u64, u64, u64, Seq<char>, Seq<char>);

/// A semantic version, as `lenient_semver` reads it.
#[derive(Debug)]
pub struct SemVer {
    pub major: u64,
    pub minor: u64,
    pub patch: u64,
    pub pre: String,
    pub build: String,
}

impl SemVer {
    pub open spec fn parts(&self) -> VersionParts {
        (self.major, self.minor, self.patch, self.pre@, self.build@)
    }

    /// The version `major.minor.patch` with no pre-release and no build.
    pub fn new(major: u64, minor: u64, patch: u64) -> (r: SemVer)
        ensures
            r.parts() == (major, minor, patch, Seq::<char>::empty(), Seq::<char>::empty()),
    {
        SemVer { major, minor, patch, pre: String::new(), build: String::new() }
    }

    /// The text of the version (`semver::Version`'s `Display`).
    pub fn to_text(&self) -> (r: String)
        ensures
            r@ == version_text(self.parts()),
    {
        let mut r = u64_to_string(self.major);
        r.push('.');
        let minor = u64_to_string(self.minor);
        r.push_str(minor.as_str());
        r.push('.');
        let patch = u64_to_string(self.patch);
        r.push_str(patch.as_str());
        if !self.pre.as_str().is_empty() {
            r.push('-');
            r.push_str(self.pre.as_str());
        }
        if !self.build.as_str().is_empty() {
            r.push('+');
            r.push_str(self.build.as_str());
        }
        r
    }
}

impl Clone for SemVer {
    fn clone(&self) -> (r: Self)
        ensures
            r == *self,
    {
        SemVer {
            major: self.major,
            minor: self.minor,
            patch: self.patch,
            pre: self.pre.clone(),
            build: self.build.clone(),
        }
    }
}

/// `major.minor.patch`, then `-pre` when there is one, then `+build` when there is one.
pub open spec fn version_text(v: VersionParts) -> Seq<char> {
    let core = decimal(v.0 as nat) + seq!['.'] + decimal(v.1 as nat) + seq!['.'] + decimal(
        v.2 as nat,
    );
    let with_pre = if v.3.len() > 0 {
        core + seq!['-'] + v.3
    } else {
        core
    };
    if v.4.len() > 0 {
        with_pre + seq!['+'] + v.4
    } else {
        with_pre
    }
}

pub open spec fn order_u64(a: u64, b: u64) -> Ordering {
    if a < b {
        Ordering::Less
    } else if a > b {
        Ordering::Greater
    } else {
        Ordering::Equal
    }
}

/// The order of `semver::Version`: major, minor and patch numerically, then
/// the pre-release, then the build metadata. A pre-release or build text that
/// `semver` does not accept (never the case for parsed versions) adds nothing
/// to the comparison.
pub open spec fn version_order(a: VersionParts, b: VersionParts) -> Ordering {
    if a.0 != b.0 {
        order_u64(a.0, b.0)
    } else if a.1 != b.1 {
        order_u64(a.1, b.1)
    } else if a.2 != b.2 {
        order_u64(a.2, b.2)
    } else {
        match prerelease_order(a.3, b.3) {
            Some(Ordering::Less) => Ordering::Less,
            Some(Ordering::Greater) => Ordering::Greater,
            _ => match build_order(a.4, b.4) {
                Some(o) => o,
                None => Ordering::Equal,
            },
        }
    }
}

pub open spec fn flip_order(o: Ordering) -> Ordering {
    match o {
        Ordering::Less => Ordering::Greater,
        Ordering::Greater => Ordering::Less,
        Ordering::Equal => Ordering::Equal,
    }
}

fn compare_u64(a: u64, b: u64) -> (r: Ordering)
    ensures
        r == order_u64(a, b),
{
    if a < b {
        Ordering::Less
    } else if a > b {
        Ordering::Greater
    } else {
        Ordering::Equal
    }
}

/// The pre-release and build texts of the version are ones `semver`
/// accepts (as they are for every parsed version).
pub open spec fn parts_valid(v: VersionParts) -> bool {
    pre_valid(v.3) && build_valid(v.4)
}

pub open spec fn same_nums(y: VersionParts, x: VersionParts) -> bool {
    y.0 == x.0 && y.1 == x.1 && y.2 == x.2
}

/// `major.minor.patch` of `y` comes before that of `x`.
pub open spec fn nums_lt(y: VersionParts, x: VersionParts) -> bool {
    y.0 < x.0 || (y.0 == x.0 && (y.1 < x.1 || (y.1 == x.1 && y.2 < x.2)))
}

/// `y` is no newer than `x`, part by part: an older `major.minor.patch`, or
/// the same one with an older pre-release, or with the same pre-release
/// and a build that orders no later.
pub open spec fn version_le(y: VersionParts, x: VersionParts) -> bool {
    ||| nums_lt(y, x)
    ||| same_nums(y, x) && prerelease_order(y.3, x.3) == Some(Ordering::Less)
    ||| same_nums(y, x) && y.3 == x.3 && build_le(y.4, x.4)
}

/// Part by part no newer means no newer in the order of versions.
pub proof fn lemma_version_le_order(y: VersionParts, x: VersionParts)
    requires
        version_le(y, x),
        pre_valid(x.3),
    ensures
        version_order(y, x) != Ordering::Greater,
{
}

/// Orders two versions as `semver::Version` does. For versions whose
/// pre-release and build texts `semver` accepts, the result also orders
/// them part by part (`version_le`), transitively, and a pre-release comes
/// before the release of the same `major.minor.patch`.
pub fn compare_semver(a: &SemVer, b: &SemVer) -> (r: Ordering)
    ensures
        r == version_order(a.parts(), b.parts()),
        flip_order(r) == version_order(b.parts(), a.parts()),
        parts_valid(a.parts()) && parts_valid(b.parts()) && r != Ordering::Greater ==> version_le(
            a.parts(),
            b.parts(),
        ),
        parts_valid(a.parts()) && parts_valid(b.parts()) && r != Ordering::Less ==> version_le(
            b.parts(),
            a.parts(),
        ),
        parts_valid(a.parts()) && parts_valid(b.parts()) && r != Ordering::Greater ==> forall|c: VersionParts|
            #[trigger] version_le(c, a.parts()) ==> version_le(c, b.parts()),
        parts_valid(a.parts()) && parts_valid(b.parts()) && r != Ordering::Less ==> forall|c: VersionParts|
            #[trigger] version_le(a.parts(), c) ==> version_le(b.parts(), c),
        parts_valid(a.parts()) && parts_valid(b.parts()) && same_nums(a.parts(), b.parts()) && a.pre@.len() > 0
            && b.pre@.len() == 0 ==> r == Ordering::Less,
{
    if a.major != b.major {
        compare_u64(a.major, b.major)
    } else if a.minor != b.minor {
        compare_u64(a.minor, b.minor)
    } else if a.patch != b.patch {
        compare_u64(a.patch, b.patch)
    } else {
        let ghost pa = a.parts();
        let ghost pb = b.parts();
        match prerelease_compare(a.pre.as_str(), b.pre.as_str()) {
            Some(Ordering::Less) => {
                proof {
                    assert forall|c: VersionParts| #[trigger] version_le(c, pa) implies version_le(c, pb) by {
                        if same_nums(c, pa) && prerelease_order(c.3, pa.3) == Some(Ordering::Less) {
                            assert(pre_le(c.3, pa.3));
                            assert(pre_le(c.3, pb.3));
                        }
                    }
                }
                Ordering::Less
            },
            Some(Ordering::Greater) => {
                proof {
                    assert forall|c: VersionParts| #[trigger] version_le(pa, c) implies version_le(pb, c) by {
                        if same_nums(pa, c) && prerelease_order(pa.3, c.3) == Some(Ordering::Less) {
                            assert(pre_le(pa.3, c.3));
                        }
                        if same_nums(pa, c) && pa.3 == c.3 {
                            assert(prerelease_order(pb.3, pa.3) == Some(Ordering::Less));
                        }
                    }
                }
                Ordering::Greater
            },
            _ => {
                let o = build_compare(a.build.as_str(), b.build.as_str());
                proof {
                    if parts_valid(pa) && parts_valid(pb) {
                        assert(pa.3 == pb.3);
                        assert forall|c: VersionParts| #[trigger] version_le(c, pa) && o != Some(Ordering::Greater) implies version_le(c, pb) by {
                            if same_nums(c, pa) && c.3 == pa.3 && build_le(c.4, pa.4) {
                                assert(build_le(c.4, pb.4));
                            }
                        }
                        assert forall|c: VersionParts| #[trigger] version_le(pa, c) && o != Some(Ordering::Less) implies version_le(pb, c) by {
                            if same_nums(pa, c) && pa.3 == c.3 && build_le(pa.4, c.4) {
                                assert(build_le(pb.4, c.4));
                            }
                        }
                    }
                }
                match o {
                    Some(o) => o,
                    None => Ordering::Equal,
                }
            },
        }
    }
}

/// Swapping two versions reverses their order.
pub proof fn lemma_version_order_antisymmetric(a: VersionParts, b: VersionParts)
    requires
        prerelease_order(a.3, b.3) == reverse_order(prerelease_order(b.3, a.3)),
        build_order(a.4, b.4) == reverse_order(build_order(b.4, a.4)),
    ensures
        version_order(a, b) == flip_order(version_order(b, a)),
{
}

// ---------------------------------------------------------------------------
// Parsing
// ---------------------------------------------------------------------------

pub open spec fn parses(s: Seq<char>) -> bool {
    lenient_semver_parse(s) is Ok
}

pub open spec fn parsed(s: Seq<char>) -> VersionParts {
    lenient_semver_parse(s)->Ok_0
}

/// Reads a version leniently (`lenient_semver`); the parser's message
/// becomes a `SimpleError`.
pub fn parse_version(mod_version: &str) -> (r: Result<SemVer, RustiqueError>)
    ensures
        match r {
            Ok(v) => lenient_semver_parse(mod_version@) == Ok::<
                VersionParts,
                Seq<char>,
            >(v.parts()) && parts_valid(v.parts()),
            Err(e) => e matches RustiqueError::SimpleError(m) && lenient_semver_parse(
                mod_version@,
            ) == Err::<VersionParts, Seq<char>>(m@),
        },
{
    match lenient_parse(mod_version) {
        Ok(v) => Ok(v),
        Err(m) => Err(RustiqueError::SimpleError(m)),
    }
}

/// Both texts are versions and the first is not above the second.
pub open spec fn version_at_most(a: Seq<char>, b: Seq<char>) -> bool {
    parses(a) && parses(b) && version_order(parsed(a), parsed(b)) != Ordering::Greater
}

/// Compares two version texts; fails with the parser's message for the first
/// of them that is not a version. Comparing the other way round gives the
/// reversed order, and a pre-release comes before the release of the same
/// `major.minor.patch` (`1.20.0-rc.1` before `1.20.0`).
pub fn compare_versions(mod_version: &str, other_version: &str) -> (r: Result<
    Ordering,
    RustiqueError,
>)
    ensures
        r is Ok <==> parses(mod_version@) && parses(other_version@),
        r matches Ok(o) ==> o == version_order(parsed(mod_version@), parsed(other_version@)),
        r matches Ok(o) ==> flip_order(o) == version_order(parsed(other_version@), parsed(mod_version@)),
        r matches Ok(o) ==> (same_nums(parsed(mod_version@), parsed(other_version@))
            && parsed(mod_version@).3.len() > 0 && parsed(other_version@).3.len() == 0 ==> o == Ordering::Less),
        r matches Err(e) ==> e matches RustiqueError::SimpleError(m) && (if !parses(
            mod_version@,
        ) {
            lenient_semver_parse(mod_version@) == Err::<VersionParts, Seq<char>>(m@)
        } else {
            lenient_semver_parse(other_version@) == Err::<VersionParts, Seq<char>>(m@)
        }),
{
    let mv = parse_version(mod_version)?;
    let ov = parse_version(other_version)?;
    Ok(compare_semver(&mv, &ov))
}

/// Swapping the arguments of `compare_versions` reverses its order.
pub proof fn lemma_compare_versions_antisymmetric(a: Seq<char>, b: Seq<char>)
    requires
        parses(a),
        parses(b),
        prerelease_order(parsed(a).3, parsed(b).3) == reverse_order(
            prerelease_order(parsed(b).3, parsed(a).3),
        ),
        build_order(parsed(a).4, parsed(b).4) == reverse_order(
            build_order(parsed(b).4, parsed(a).4),
        ),
    ensures
        version_order(parsed(a), parsed(b)) == flip_order(version_order(parsed(b), parsed(a))),
{
    lemma_version_order_antisymmetric(parsed(a), parsed(b));
}

// ---------------------------------------------------------------------------
// Choosing a release
// ---------------------------------------------------------------------------

/// Text of a version, download url and game versions of the chosen release.
pub type PinnedVersionInfo = (String, String, Vec<String>);

/// The newest release found, with its download url and game versions.
#[derive(Debug)]
pub struct LatestVersionFound {
    pub latest_version: SemVer,
    pub download_url: Option<String>,
    pub game_versions: Vec<String>,
}

/// A candidate: version parts, download url, game versions.
pub type Candidate = (VersionParts, Option<Seq<char>>, Seq<String>);

impl LatestVersionFound {
    pub open spec fn candidate(&self) -> Candidate {
        (self.latest_version.parts(), opt_chars(self.download_url), self.game_versions@)
    }
}

pub open spec fn opt_candidate(o: Option<LatestVersionFound>) -> Option<Candidate> {
    match o {
        Some(l) => Some(l.candidate()),
        None => None,
    }
}

/// A release is a candidate when its version text parses.
pub open spec fn release_candidate(r: Releases) -> Option<Candidate> {
    match r.mod_version {
        Some(v) => match lenient_semver_parse(v@) {
            Ok(p) => Some((p, opt_chars(r.main_file), r.tags@)),
            Err(_) => None,
        },
        None => None,
    }
}

/// One step of `Iterator::max_by`: the later of two equal ones wins.
pub open spec fn max_step(best: Option<Candidate>, next: Option<Candidate>) -> Option<Candidate> {
    match (best, next) {
        (None, x) => x,
        (Some(b), None) => Some(b),
        (Some(b), Some(x)) => if version_order(b.0, x.0) == Ordering::Greater {
            Some(b)
        } else {
            Some(x)
        },
    }
}

/// The greatest candidate of the releases, as `max_by` on versions picks it.
pub open spec fn latest_of(rs: Seq<Releases>) -> Option<Candidate>
    decreases rs.len(),
{
    if rs.len() == 0 {
        None
    } else {
        max_step(latest_of(rs.drop_last()), release_candidate(rs.last()))
    }
}

/// The triple reported for a candidate: empty texts and no game versions
/// when there is none.
pub open spec fn reported(c: Option<Candidate>) -> (Seq<char>, Seq<char>, Seq<String>) {
    match c {
        Some(x) => (
            version_text(x.0),
            match x.1 {
                Some(u) => u,
                None => Seq::empty(),
            },
            x.2,
        ),
        None => (Seq::empty(), Seq::empty(), Seq::empty()),
    }
}

pub open spec fn info_view(r: PinnedVersionInfo) -> (Seq<char>, Seq<char>, Seq<String>) {
    (r.0@, r.1@, r.2@)
}

fn return_version_results(result: Option<LatestVersionFound>) -> (r: PinnedVersionInfo)
    ensures
        info_view(r) == reported(opt_candidate(result)),
{
    match result {
        Some(found) => {
            let url = match found.download_url {
                Some(u) => u,
                None => String::new(),
            };
            (found.latest_version.to_text(), url, found.game_versions)
        },
        None => (String::new(), String::new(), Vec::new()),
    }
}

/// Folds one more release into the running maximum.
fn fold_release(best: Option<LatestVersionFound>, release: &Releases, version: SemVer) -> (r:
    Option<LatestVersionFound>)
    requires
        release.mod_version matches Some(v) && lenient_semver_parse(v@) == Ok::<
            VersionParts,
            Seq<char>,
        >(version.parts()),
        parts_valid(version.parts()),
        best matches Some(b) ==> parts_valid(b.latest_version.parts()),
    ensures
        opt_candidate(r) == max_step(opt_candidate(best), release_candidate(*release)),
        r matches Some(w) && parts_valid(w.latest_version.parts()) && version_le(
            version.parts(),
            w.latest_version.parts(),
        ) && (best matches Some(b) ==> forall|c: VersionParts|
            #[trigger] version_le(c, b.latest_version.parts()) ==> version_le(c, w.latest_version.parts())),
{
    let found = LatestVersionFound {
        latest_version: version,
        download_url: clone_opt_string(&release.main_file),
        game_versions: clone_strings(&release.tags),
    };
    proof {
        lemma_version_le_refl(version.parts());
    }
    match best {
        None => Some(found),
        Some(b) => {
            proof {
                lemma_version_le_refl(b.latest_version.parts());
            }
            match compare_semver(&b.latest_version, &found.latest_version) {
                Ordering::Greater => Some(b),
                _ => Some(found),
            }
        },
    }
}

/// A version is no newer than itself.
proof fn lemma_version_le_refl(v: VersionParts)
    requires
        parts_valid(v),
    ensures
        version_le(v, v),
{
}

/// Picks the newest release whose version parses (the last of equal ones),
/// and reports its version text, download url (empty when the release has
/// none) and game versions; empty values when no release parses.
pub fn parse_latest_version(releases: &[Releases]) -> (r: PinnedVersionInfo)
    ensures
        info_view(r) == reported(latest_of(releases@)),
        latest_is_newest(releases@),
{
    let mut best: Option<LatestVersionFound> = None;
    let mut i: usize = 0;
    while i < releases.len()
        invariant
            i <= releases@.len(),
            opt_candidate(best) == latest_of(releases@.take(i as int)),
            best matches Some(b) ==> parts_valid(b.latest_version.parts()) && forall|k: int|
                0 <= k < i ==> (release_candidate(#[trigger] releases@[k]) matches Some(y) ==> version_le(
                    y.0,
                    b.latest_version.parts(),
                )),
            best is None ==> forall|k: int| 0 <= k < i ==> release_candidate(#[trigger] releases@[k]) is None,
        decreases releases.len() - i,
    {
        let release = &releases[i];
        assert(releases@.take(i + 1).drop_last() == releases@.take(i as int));
        match &release.mod_version {
            Some(v) => {
                match parse_version(v.as_str()) {
                    Ok(version) => {
                        let ghost old_best = best;
                        best = fold_release(best, release, version);
                        proof {
                            assert(release_candidate(releases@[i as int]) matches Some(y) && y.0 == version.parts());
                        }
                    },
                    Err(_) => {},
                }
            },
            None => {},
        }
        i += 1;
    }
    assert(releases@.take(releases@.len() as int) == releases@);
    proof {
        match &best {
            Some(b) => {
                lemma_newest_of(releases@, b.latest_version.parts());
            },
            None => {},
        }
    }
    return_version_results(best)
}

/// The newest candidate is no older than any candidate, when every candidate
/// is part by part no newer than it.
proof fn lemma_newest_of(rs: Seq<Releases>, x: VersionParts)
    requires
        parts_valid(x),
        latest_of(rs) matches Some(c) && c.0 == x,
        forall|k: int|
            0 <= k < rs.len() ==> (release_candidate(#[trigger] rs[k]) matches Some(y) ==> version_le(y.0, x)),
    ensures
        latest_is_newest(rs),
{
    lemma_all_no_newer(rs, x);
}

/// Part by part no newer than `x`, for every candidate, means no candidate
/// is newer than `x`.
proof fn lemma_all_no_newer(rs: Seq<Releases>, x: VersionParts)
    requires
        parts_valid(x),
        forall|k: int|
            0 <= k < rs.len() ==> (release_candidate(#[trigger] rs[k]) matches Some(y) ==> version_le(y.0, x)),
    ensures
        forall|k: int|
            0 <= k < rs.len() ==> (release_candidate(#[trigger] rs[k]) matches Some(y) ==> version_order(y.0, x)
                != Ordering::Greater),
{
    assert forall|k: int| 0 <= k < rs.len() implies (release_candidate(#[trigger] rs[k]) matches Some(y)
        ==> version_order(y.0, x) != Ordering::Greater) by {
        match release_candidate(rs[k]) {
            Some(y) => {
                lemma_version_le_order(y.0, x);
            },
            None => {},
        }
    }
}

/// No release whose version parses is newer than the one `latest_of` picks.
pub open spec fn latest_is_newest(rs: Seq<Releases>) -> bool {
    latest_of(rs) matches Some(x) ==> forall|k: int|
        0 <= k < rs.len() ==> (release_candidate(#[trigger] rs[k]) matches Some(y) ==> version_order(y.0, x.0)
            != Ordering::Greater)
}

/// The position of the first release that has exactly the version `version`
/// and a download file.
pub open spec fn url_release_at(rs: Seq<Releases>, version: Seq<char>, i: int) -> bool {
    &&& 0 <= i < rs.len()
    &&& rs[i].mod_version matches Some(v) && v@ == version
    &&& rs[i].main_file is Some
}

/// Text of the error for a version that has no download.
pub open spec fn version_not_found_message(version: Seq<char>) -> Seq<char> {
    "Version "@ + version + " not found. Use [Rustique info -m modid] for valid versions"@
}

/// The download file of the first release that carries exactly `version`
/// and has one; an error naming the version when none does.
pub fn parse_download_url_from_version(releases: &[Releases], version: &str) -> (r: Result<
    String,
    RustiqueError,
>)
    ensures
        match r {
            Ok(url) => exists|i: int|
                url_release_at(releases@, version@, i) && (forall|j: int|
                    0 <= j < i ==> !url_release_at(releases@, version@, j)) && releases@[i].main_file
                    == Some(url),
            Err(e) => {
                &&& forall|i: int| !url_release_at(releases@, version@, i)
                &&& e matches RustiqueError::SimpleError(m) && m@ == version_not_found_message(
                    version@,
                )
            },
        },
{
    let mut i: usize = 0;
    while i < releases.len()
        invariant
            i <= releases@.len(),
            forall|j: int| 0 <= j < i ==> !url_release_at(releases@, version@, j),
        decreases releases.len() - i,
    {
        let release = &releases[i];
        match &release.mod_version {
            Some(mv) => {
                if str_eq(mv.as_str(), version) {
                    match &release.main_file {
                        Some(f) => {
                            assert(url_release_at(releases@, version@, i as int));
                            return Ok(f.clone());
                        },
                        None => {},
                    }
                }
            },
            None => {},
        }
        i += 1;
    }
    let mut m = String::new();
    m.push_str("Version ");
    m.push_str(version);
    m.push_str(" not found. Use [Rustique info -m modid] for valid versions");
    proof {
        reveal_strlit("Version ");
        reveal_strlit(" not found. Use [Rustique info -m modid] for valid versions");
    }
    Err(RustiqueError::SimpleError(m))
}

/// The release declares a game version no newer than `game` (always true
/// when no game version is pinned).
pub open spec fn fits_game(r: Releases, game: Seq<char>) -> bool {
    game.len() == 0 || exists|k: int| 0 <= k < r.tags@.len() && version_at_most(#[trigger] r.tags@[k]@, game)
}

/// The release is no newer than the mod's pinned version (always true when
/// the mod has none); a missing release version reads as the empty text.
pub open spec fn fits_pin(r: Releases, pkg: Package) -> bool {
    match pkg.pinned_version {
        None => true,
        Some(p) => version_at_most(
            match r.mod_version {
                Some(v) => v@,
                None => Seq::empty(),
            },
            p@,
        ),
    }
}

pub open spec fn pinned_ok(r: Releases, pkg: Package, game: Seq<char>) -> bool {
    fits_game(r, game) && fits_pin(r, pkg)
}

/// The releases that pass both pins, in order.
pub open spec fn pinned_releases(rs: Seq<Releases>, pkg: Package, game: Seq<char>) -> Seq<Releases>
    decreases rs.len(),
{
    if rs.len() == 0 {
        seq![]
    } else if pinned_ok(rs.last(), pkg, game) {
        pinned_releases(rs.drop_last(), pkg, game).push(rs.last())
    } else {
        pinned_releases(rs.drop_last(), pkg, game)
    }
}

fn tag_fits(tag: &String, game: &str) -> (b: bool)
    ensures
        b == version_at_most(tag@, game@),
{
    match compare_versions(tag.as_str(), game) {
        Ok(o) => match o {
            Ordering::Less | Ordering::Equal => true,
            Ordering::Greater => false,
        },
        Err(_) => false,
    }
}

pub fn release_fits_game(r: &Releases, game: &str) -> (b: bool)
    ensures
        b == fits_game(*r, game@),
{
    if game.is_empty() {
        return true;
    }
    assert(game@.len() > 0);
    let mut found = false;
    let mut k: usize = 0;
    while k < r.tags.len()
        invariant
            k <= r.tags@.len(),
            game@.len() > 0,
            found <==> exists|j: int| 0 <= j < k && version_at_most(#[trigger] r.tags@[j]@, game@),
        decreases r.tags.len() - k,
    {
        if tag_fits(&r.tags[k], game) {
            found = true;
        }
        proof {
            if found {
                if version_at_most(r.tags@[k as int]@, game@) {
                    assert(exists|j: int|
                        0 <= j < k + 1 && version_at_most(#[trigger] r.tags@[j]@, game@));
                }
            }
            assert forall|j: int|
                0 <= j < k + 1 && version_at_most(#[trigger] r.tags@[j]@, game@) implies found by {
            }
        }
        k += 1;
    }
    found
}

pub fn release_fits_pin(r: &Releases, pkg: &Package) -> (b: bool)
    ensures
        b == fits_pin(*r, *pkg),
{
    match &pkg.pinned_version {
        None => true,
        Some(p) => {
            let empty = String::new();
            let v: &String = match &r.mod_version {
                Some(v) => v,
                None => &empty,
            };
            match compare_versions(v.as_str(), p.as_str()) {
                Ok(o) => match o {
                    Ordering::Less | Ordering::Equal => true,
                    Ordering::Greater => false,
                },
                Err(_) => false,
            }
        },
    }
}

/// Picks the newest release that declares a game version no newer than the
/// pinned game version (any release when that is empty) and is no newer than
/// the mod's own pinned version (when it has one); reports it as
/// `parse_latest_version` does. Releases without a version are skipped.
pub fn parse_pinned_version(
    releases: &Vec<Releases>,
    mod_pkg: &Package,
    pinned_game_version: &str,
) -> (r: PinnedVersionInfo)
    ensures
        info_view(r) == reported(
            latest_of(pinned_releases(releases@, *mod_pkg, pinned_game_version@)),
        ),
        latest_is_newest(pinned_releases(releases@, *mod_pkg, pinned_game_version@)),
{
    let mut best: Option<LatestVersionFound> = None;
    let mut i: usize = 0;
    while i < releases.len()
        invariant
            i <= releases@.len(),
            opt_candidate(best) == latest_of(
                pinned_releases(releases@.take(i as int), *mod_pkg, pinned_game_version@),
            ),
            best matches Some(b) ==> parts_valid(b.latest_version.parts()) && forall|k: int|
                0 <= k < pinned_releases(releases@.take(i as int), *mod_pkg, pinned_game_version@).len()
                    ==> (release_candidate(
                    #[trigger] pinned_releases(releases@.take(i as int), *mod_pkg, pinned_game_version@)[k],
                ) matches Some(y) ==> version_le(y.0, b.latest_version.parts())),
            best is None ==> forall|k: int|
                0 <= k < pinned_releases(releases@.take(i as int), *mod_pkg, pinned_game_version@).len()
                    ==> release_candidate(
                    #[trigger] pinned_releases(releases@.take(i as int), *mod_pkg, pinned_game_version@)[k],
                ) is None,
        decreases releases.len() - i,
    {
        let release = &releases[i];
        let ghost pre = releases@.take(i as int);
        assert(releases@.take(i + 1).drop_last() == pre);
        assert(releases@.take(i + 1).last() == releases@[i as int]);
        let ghost filtered = pinned_releases(pre, *mod_pkg, pinned_game_version@);
        if release_fits_game(release, pinned_game_version) && release_fits_pin(release, mod_pkg) {
            assert(pinned_releases(releases@.take(i + 1), *mod_pkg, pinned_game_version@)
                == filtered.push(*release));
            assert(filtered.push(*release).drop_last() == filtered);
            let ghost nf = filtered.push(*release);
            match &release.mod_version {
                Some(v) => match parse_version(v.as_str()) {
                    Ok(version) => {
                        best = fold_release(best, release, version);
                        proof {
                            assert(release_candidate(nf[filtered.len() as int]) matches Some(y) && y.0
                                == version.parts());
                        }
                    },
                    Err(_) => {},
                },
                None => {},
            }
            proof {
                assert forall|k: int| 0 <= k < filtered.len() implies nf[k] == filtered[k] by {}
            }
        }
        i += 1;
    }
    assert(releases@.take(releases@.len() as int) == releases@);
    proof {
        match &best {
            Some(b) => {
                lemma_newest_of(
                    pinned_releases(releases@, *mod_pkg, pinned_game_version@),
                    b.latest_version.parts(),
                );
            },
            None => {},
        }
    }
    return_version_results(best)
}

/// The newest candidate is the candidate of one of the releases.
proof fn lemma_latest_of_member(rs: Seq<Releases>)
    ensures
        latest_of(rs) matches Some(x) ==> exists|i: int|
            0 <= i < rs.len() && release_candidate(#[trigger] rs[i]) == Some(x),
    decreases rs.len(),
{
    if rs.len() > 0 {
        let d = rs.drop_last();
        lemma_latest_of_member(d);
        match latest_of(rs) {
            Some(x) => {
                if release_candidate(rs.last()) == Some(x) {
                    assert(release_candidate(rs[rs.len() - 1]) == Some(x));
                } else {
                    let i = choose|i: int| 0 <= i < d.len() && release_candidate(#[trigger] d[i]) == Some(x);
                    assert(rs[i] == d[i]);
                }
            },
            None => {},
        }
    }
}

/// The releases both pins allow are the releases that pass them, in order.
proof fn lemma_pinned_releases_filter(rs: Seq<Releases>, pkg: Package, game: Seq<char>)
    ensures
        pinned_releases(rs, pkg, game) == rs.filter(|r: Releases| pinned_ok(r, pkg, game)),
    decreases rs.len(),
{
    reveal(Seq::filter);
    if rs.len() > 0 {
        lemma_pinned_releases_filter(rs.drop_last(), pkg, game);
    }
}

/// What a pinned choice reports is what the newest release gives among those
/// the pins allow: with no pinned mod version, the releases for a game
/// version no newer than the pinned one; with no pinned game version, the
/// releases no newer than the pinned mod version. The chosen release
/// declares a game version no newer than the pinned one (when one is
/// pinned), and its version is no newer than the pinned mod version (when
/// one is pinned).
pub proof fn lemma_pinned_choice(rs: Seq<Releases>, pkg: Package, game: Seq<char>)
    ensures
        pinned_releases(rs, pkg, game) == rs.filter(|r: Releases| pinned_ok(r, pkg, game)),
        pkg.pinned_version is None ==> pinned_releases(rs, pkg, game) == rs.filter(
            |r: Releases| fits_game(r, game),
        ),
        game.len() == 0 ==> pinned_releases(rs, pkg, game) == rs.filter(|r: Releases| fits_pin(r, pkg)),
        latest_of(pinned_releases(rs, pkg, game)) matches Some(x) ==> {
            &&& game.len() > 0 ==> exists|k: int| 0 <= k < x.2.len() && version_at_most(#[trigger] x.2[k]@, game)
            &&& pkg.pinned_version matches Some(p) ==> parses(p@) && version_order(x.0, parsed(p@))
                != Ordering::Greater
        },
{
    lemma_pinned_releases_filter(rs, pkg, game);
    let f = pinned_releases(rs, pkg, game);
    assert(rs.filter(|r: Releases| pinned_ok(r, pkg, game)) =~= f);
    if pkg.pinned_version is None {
        assert(rs.filter(|r: Releases| fits_game(r, game)) =~= rs.filter(|r: Releases| pinned_ok(r, pkg, game))) by {
            assert((|r: Releases| fits_game(r, game)) =~= (|r: Releases| pinned_ok(r, pkg, game)));
        }
    }
    if game.len() == 0 {
        assert(rs.filter(|r: Releases| fits_pin(r, pkg)) =~= rs.filter(|r: Releases| pinned_ok(r, pkg, game))) by {
            assert((|r: Releases| fits_pin(r, pkg)) =~= (|r: Releases| pinned_ok(r, pkg, game)));
        }
    }
    lemma_latest_of_member(f);
    match latest_of(f) {
        Some(x) => {
            let i = choose|i: int| 0 <= i < f.len() && release_candidate(#[trigger] f[i]) == Some(x);
            rs.filter_lemma(|r: Releases| pinned_ok(r, pkg, game));
            let r = f[i];
            assert(pinned_ok(r, pkg, game));
            assert(x.2 == r.tags@);
            if game.len() > 0 {
                let k = choose|k: int| 0 <= k < r.tags@.len() && version_at_most(#[trigger] r.tags@[k]@, game);
                assert(x.2[k] == r.tags@[k]);
            }
            match r.mod_version {
                Some(v) => {
                    assert(lenient_semver_parse(v@) == Ok::<VersionParts, Seq<char>>(x.0));
                },
                None => {},
            }
        },
        None => {},
    }
}

} // verus!
