//! The user's settings: the configuration record, pinned packages, the
//! pinned game version, and the known game versions newest first.
use vstd::prelude::*;
use std::cmp::Ordering;
use crate::config::Package;
use crate::modpack::ModpacksConfig;
use crate::search::same_positions;
use crate::table::Tables;
use crate::text::{
    eq_ignore_ascii_case, eq_ignore_ascii_case_spec, insert_at, lower_contains_spec, prefix,
    str_eq, vec_contains_string,
};
use crate::textsort::{index_range, texts_of};
use crate::traits::StrLowerExt;
use crate::version::{
    compare_semver, parse_version, parsed, parses, parts_valid, version_le, version_order, SemVer,
};

verus! {

/// The settings of Rustique.
#[derive(Debug)]
pub struct Config {
    pub mod_dir: String,
    pub pinned_game_version: String,
    pub zip_mod_files: bool,
    pub backup_mods: bool,
    pub backup_mods_dir: String,
    pub game_download_dir: String,
    pub notify_of_unzipped_mods: bool,
    pub show_execution_time: bool,
    pub sync_mod_search_file_every: u32,
    pub sync_latest_game_version_file_every: u32,
    pub pkg: Vec<Package>,
    pub table: Tables,
    pub modpacks: ModpacksConfig,
}

/// The table settings of the former configuration file.
#[derive(Debug)]
pub struct TableConfig {
    pub headers: Vec<(String, Vec<String>)>,
    pub cells: Vec<(String, Vec<String>)>,
}

/// The modpack settings of the former configuration file (none).
#[derive(Debug)]
pub struct ModPack {}

/// A named mod directory with its own pinned game version.
#[derive(Debug)]
pub struct AliasConfig {
    pub name: String,
    pub mod_dir: String,
    pub pinned_game_version: String,
}

// ---------------------------------------------------------------------------
// Pinned packages
// ---------------------------------------------------------------------------

pub type PackageView = (Seq<char>, Option<Seq<char>>);

pub open spec fn package_view(p: Package) -> PackageView {
    (
        p.mod_id@,
        match p.pinned_version {
            Some(v) => Some(v@),
            None => None,
        },
    )
}

pub open spec fn packages_view(v: Seq<Package>) -> Seq<PackageView> {
    v.map_values(|p: Package| package_view(p))
}

/// Where the first package of the mod stands, ignoring ASCII case.
pub open spec fn first_package(pkgs: Seq<Package>, mod_id: Seq<char>, i: int) -> bool {
    &&& 0 <= i < pkgs.len()
    &&& eq_ignore_ascii_case_spec(pkgs[i].mod_id@, mod_id)
    &&& forall|j: int| 0 <= j < i ==> !eq_ignore_ascii_case_spec(#[trigger] pkgs[j].mod_id@, mod_id)
}

/// The packages after pinning `version` for `mod_id`: the first package of
/// that mod (ignoring ASCII case) takes the version; a new package is added
/// when there is none.
pub open spec fn pinned_packages(pkgs: Seq<Package>, mod_id: Seq<char>, version: Seq<char>) -> Seq<
    PackageView,
> {
    if exists|i: int| first_package(pkgs, mod_id, i) {
        let i = choose|i: int| first_package(pkgs, mod_id, i);
        packages_view(pkgs).update(i, (pkgs[i].mod_id@, Some(version)))
    } else {
        packages_view(pkgs).push((mod_id, Some(version)))
    }
}

/// Pins a version of a mod (see `pinned_packages`).
pub fn pin_package(pkgs: &mut Vec<Package>, mod_id: &str, version: &str)
    ensures
        packages_view(final(pkgs)@) == pinned_packages(old(pkgs)@, mod_id@, version@),
{
    let ghost old_pkgs = pkgs@;
    let mut i: usize = 0;
    while i < pkgs.len()
        invariant
            i <= pkgs@.len(),
            pkgs@ == old_pkgs,
            old_pkgs == old(pkgs)@,
            forall|j: int| 0 <= j < i ==> !eq_ignore_ascii_case_spec(#[trigger] pkgs@[j].mod_id@, mod_id@),
        decreases pkgs.len() - i,
    {
        if eq_ignore_ascii_case(pkgs[i].mod_id.as_str(), mod_id) {
            proof {
                assert(first_package(old_pkgs, mod_id@, i as int));
                let w = choose|w: int| first_package(old_pkgs, mod_id@, w);
                if w < i {
                    assert(!eq_ignore_ascii_case_spec(old_pkgs[w].mod_id@, mod_id@));
                } else if w > i {
                    assert(!eq_ignore_ascii_case_spec(old_pkgs[i as int].mod_id@, mod_id@));
                }
                assert(w == i);
                assert(pinned_packages(old_pkgs, mod_id@, version@) == packages_view(old_pkgs).update(
                    i as int,
                    (old_pkgs[i as int].mod_id@, Some(version@)),
                ));
            }
            let id = pkgs[i].mod_id.clone();
            let p = Package { mod_id: id, pinned_version: Some(version.to_string()) };
            pkgs.set(i, p);
            assert(packages_view(pkgs@) =~= packages_view(old_pkgs).update(
                i as int,
                (old_pkgs[i as int].mod_id@, Some(version@)),
            ));
            return;
        }
        i += 1;
    }
    let p = Package { mod_id: mod_id.to_string(), pinned_version: Some(version.to_string()) };
    pkgs.push(p);
    assert(packages_view(pkgs@) =~= packages_view(old_pkgs).push((mod_id@, Some(version@))));
}

/// The packages after unpinning a mod: those of another id (compared
/// exactly), in order.
pub open spec fn unpinned_packages(pkgs: Seq<Package>, mod_id: Seq<char>) -> Seq<Package> {
    pkgs.filter(|p: Package| p.mod_id@ != mod_id)
}

/// Removes the pins of a mod; says whether there were packages to look at.
pub fn unpin_package(pkgs: &mut Vec<Package>, mod_id: &str) -> (r: bool)
    ensures
        r == (old(pkgs)@.len() > 0),
        r ==> final(pkgs)@ == unpinned_packages(old(pkgs)@, mod_id@),
        !r ==> final(pkgs)@ == old(pkgs)@,
{
    if pkgs.len() == 0 {
        return false;
    }
    let ghost old_pkgs = pkgs@;
    let ghost pr = |p: Package| p.mod_id@ != mod_id@;
    let mut kept: Vec<Package> = Vec::new();
    let mut i: usize = 0;
    while i < pkgs.len()
        invariant
            i <= pkgs@.len(),
            pkgs@ == old_pkgs,
            pr == (|p: Package| p.mod_id@ != mod_id@),
            kept@ == old_pkgs.take(i as int).filter(pr),
        decreases pkgs.len() - i,
    {
        proof {
            crate::keyed::lemma_filter_take(old_pkgs, pr, i as int);
        }
        if !str_eq(pkgs[i].mod_id.as_str(), mod_id) {
            let p = Package {
                mod_id: pkgs[i].mod_id.clone(),
                pinned_version: crate::text::clone_opt_string(&pkgs[i].pinned_version),
            };
            kept.push(p);
        }
        i += 1;
    }
    assert(old_pkgs.take(old_pkgs.len() as int) =~= old_pkgs);
    *pkgs = kept;
    true
}

// ---------------------------------------------------------------------------
// The pinned game version
// ---------------------------------------------------------------------------

/// A game version as the user types it, written with its leading `v`: kept
/// as it is when it holds a `v` (in any case), else prefixed with one.
pub open spec fn game_version_with_v(version: Seq<char>) -> Seq<char> {
    if lower_contains_spec(version, "v"@) {
        version
    } else {
        "v"@ + version
    }
}

/// The game version to pin: the typed version written with its `v` (see
/// `game_version_with_v`) when it is one of the known game versions; `None`
/// otherwise.
pub fn pinned_game_version_choice(version: &String, known: &Vec<String>) -> (r: Option<String>)
    ensures
        r is Some <==> crate::search::has_exact(known@, game_version_with_v(version@)),
        r matches Some(v) ==> v@ == game_version_with_v(version@),
{
    let v = if version.lower_contains("v") {
        version.clone()
    } else {
        let mut s = "v".to_string();
        s.push_str(version.as_str());
        s
    };
    if vec_contains_string(known, v.as_str()) {
        Some(v)
    } else {
        None
    }
}

// ---------------------------------------------------------------------------
// Setting and resetting values
// ---------------------------------------------------------------------------

/// The values `config set` changes, each one already checked where it must
/// be (directories that exist, a known game version); `pin` pins a mod
/// (by id) to a version.
#[derive(Debug)]
pub struct SettingChanges {
    pub mod_dir: Option<String>,
    pub notify_of_unzipped_mods: Option<bool>,
    pub pinned_game_version: Option<String>,
    pub pin: Option<(String, String)>,
    pub show_execution_time: Option<bool>,
    pub zip_mod_files: Option<bool>,
    pub backup_mods: Option<bool>,
    pub backup_mods_dir: Option<String>,
    pub game_download_dir: Option<String>,
}

/// Some value is changed.
pub open spec fn any_change(c: SettingChanges) -> bool {
    c.mod_dir is Some || c.notify_of_unzipped_mods is Some || c.pinned_game_version is Some || c.pin is Some
        || c.show_execution_time is Some || c.zip_mod_files is Some || c.backup_mods is Some
        || c.backup_mods_dir is Some || c.game_download_dir is Some
}

pub open spec fn text_or(o: Option<String>, d: Seq<char>) -> Seq<char> {
    match o {
        Some(v) => v@,
        None => d,
    }
}

pub open spec fn flag_or(o: Option<bool>, d: bool) -> bool {
    match o {
        Some(v) => v,
        None => d,
    }
}

/// The values `config del` puts back to their defaults; `unpin` removes the
/// pin of a mod (by id).
#[derive(Debug)]
pub struct SettingResets {
    pub mod_dir: bool,
    pub pinned_game_version: bool,
    pub zip_mod_files: bool,
    pub backup_mods: bool,
    pub backup_mods_dir: bool,
    pub game_download_dir: bool,
    pub notify_of_unzipped_mods: bool,
    pub unpin: Option<String>,
}

pub open spec fn text_reset(flag: bool, d: String, old: String) -> Seq<char> {
    if flag {
        d@
    } else {
        old@
    }
}

impl Config {
    /// Applies the changes; the result tells whether any value was given
    /// (the configuration is then saved). Values not given, and the sync
    /// intervals, tables and modpacks, stay as they were.
    pub fn apply_changes(&mut self, c: SettingChanges) -> (saved: bool)
        ensures
            saved == any_change(c),
            final(self).mod_dir@ == text_or(c.mod_dir, old(self).mod_dir@),
            final(self).notify_of_unzipped_mods == flag_or(c.notify_of_unzipped_mods, old(self).notify_of_unzipped_mods),
            final(self).pinned_game_version@ == text_or(c.pinned_game_version, old(self).pinned_game_version@),
            final(self).show_execution_time == flag_or(c.show_execution_time, old(self).show_execution_time),
            final(self).zip_mod_files == flag_or(c.zip_mod_files, old(self).zip_mod_files),
            final(self).backup_mods == flag_or(c.backup_mods, old(self).backup_mods),
            final(self).backup_mods_dir@ == text_or(c.backup_mods_dir, old(self).backup_mods_dir@),
            final(self).game_download_dir@ == text_or(c.game_download_dir, old(self).game_download_dir@),
            match c.pin {
                Some(p) => packages_view(final(self).pkg@) == pinned_packages(old(self).pkg@, p.0@, p.1@),
                None => final(self).pkg@ == old(self).pkg@,
            },
            final(self).sync_mod_search_file_every == old(self).sync_mod_search_file_every,
            final(self).sync_latest_game_version_file_every == old(self).sync_latest_game_version_file_every,
            final(self).table == old(self).table,
            final(self).modpacks == old(self).modpacks,
    {
        let saved = c.mod_dir.is_some() || c.notify_of_unzipped_mods.is_some() || c.pinned_game_version.is_some()
            || c.pin.is_some() || c.show_execution_time.is_some() || c.zip_mod_files.is_some()
            || c.backup_mods.is_some() || c.backup_mods_dir.is_some() || c.game_download_dir.is_some();
        let SettingChanges {
            mod_dir,
            notify_of_unzipped_mods,
            pinned_game_version,
            pin,
            show_execution_time,
            zip_mod_files,
            backup_mods,
            backup_mods_dir,
            game_download_dir,
        } = c;
        if let Some(v) = mod_dir {
            self.mod_dir = v;
        }
        if let Some(v) = notify_of_unzipped_mods {
            self.notify_of_unzipped_mods = v;
        }
        if let Some(v) = pinned_game_version {
            self.pinned_game_version = v;
        }
        if let Some(p) = pin {
            pin_package(&mut self.pkg, p.0.as_str(), p.1.as_str());
        }
        if let Some(v) = show_execution_time {
            self.show_execution_time = v;
        }
        if let Some(v) = zip_mod_files {
            self.zip_mod_files = v;
        }
        if let Some(v) = backup_mods {
            self.backup_mods = v;
        }
        if let Some(v) = backup_mods_dir {
            self.backup_mods_dir = v;
        }
        if let Some(v) = game_download_dir {
            self.game_download_dir = v;
        }
        saved
    }

    /// Puts the chosen values back to those of `defaults` and removes a pin;
    /// the result tells whether anything changed (the configuration is then
    /// saved). A pin is removed only from a non-empty package list.
    pub fn reset_settings(&mut self, r: &SettingResets, defaults: &Config) -> (saved: bool)
        ensures
            saved == (r.mod_dir || r.pinned_game_version || r.zip_mod_files || r.backup_mods
                || r.backup_mods_dir || r.game_download_dir || r.notify_of_unzipped_mods
                || (r.unpin is Some && old(self).pkg@.len() > 0)),
            final(self).mod_dir@ == text_reset(r.mod_dir, defaults.mod_dir, old(self).mod_dir),
            final(self).pinned_game_version@ == text_reset(
                r.pinned_game_version,
                defaults.pinned_game_version,
                old(self).pinned_game_version,
            ),
            final(self).backup_mods_dir@ == text_reset(r.backup_mods_dir, defaults.backup_mods_dir, old(self).backup_mods_dir),
            final(self).game_download_dir@ == text_reset(
                r.game_download_dir,
                defaults.game_download_dir,
                old(self).game_download_dir,
            ),
            final(self).zip_mod_files == if r.zip_mod_files { defaults.zip_mod_files } else { old(self).zip_mod_files },
            final(self).backup_mods == if r.backup_mods { defaults.backup_mods } else { old(self).backup_mods },
            final(self).notify_of_unzipped_mods == if r.notify_of_unzipped_mods {
                defaults.notify_of_unzipped_mods
            } else {
                old(self).notify_of_unzipped_mods
            },
            match r.unpin {
                Some(id) => if old(self).pkg@.len() > 0 {
                    final(self).pkg@ == unpinned_packages(old(self).pkg@, id@)
                } else {
                    final(self).pkg@ == old(self).pkg@
                },
                None => final(self).pkg@ == old(self).pkg@,
            },
            final(self).show_execution_time == old(self).show_execution_time,
            final(self).sync_mod_search_file_every == old(self).sync_mod_search_file_every,
            final(self).sync_latest_game_version_file_every == old(self).sync_latest_game_version_file_every,
            final(self).table == old(self).table,
            final(self).modpacks == old(self).modpacks,
    {
        let mut saved = false;
        if r.mod_dir {
            self.mod_dir = defaults.mod_dir.clone();
            saved = true;
        }
        if r.pinned_game_version {
            self.pinned_game_version = defaults.pinned_game_version.clone();
            saved = true;
        }
        if r.zip_mod_files {
            self.zip_mod_files = defaults.zip_mod_files;
            saved = true;
        }
        if r.backup_mods {
            self.backup_mods = defaults.backup_mods;
            saved = true;
        }
        if r.backup_mods_dir {
            self.backup_mods_dir = defaults.backup_mods_dir.clone();
            saved = true;
        }
        if r.game_download_dir {
            self.game_download_dir = defaults.game_download_dir.clone();
            saved = true;
        }
        if r.notify_of_unzipped_mods {
            self.notify_of_unzipped_mods = defaults.notify_of_unzipped_mods;
            saved = true;
        }
        match &r.unpin {
            Some(id) => {
                if unpin_package(&mut self.pkg, id.as_str()) {
                    saved = true;
                }
            },
            None => {},
        }
        saved
    }
}

// ---------------------------------------------------------------------------
// Game versions, newest first
// ---------------------------------------------------------------------------

/// `a` is a newer version than `b`.
pub open spec fn newer(a: Seq<char>, b: Seq<char>) -> bool {
    version_order(parsed(a), parsed(b)) == Ordering::Greater
}

/// The version at `k` is no newer than the next one.
pub open spec fn step_ascends(s: Seq<Seq<char>>, perm: Seq<usize>, k: int) -> bool {
    !newer(s[perm[k] as int], s[perm[k + 1] as int])
}

/// When the version at `k + 1` is not newer than the one at `k`, they keep
/// their given order.
pub open spec fn step_stable(s: Seq<Seq<char>>, perm: Seq<usize>, k: int) -> bool {
    !newer(s[perm[k + 1] as int], s[perm[k] as int]) ==> perm[k] < perm[k + 1]
}

/// Each version is no newer than the next.
pub open spec fn ascending(s: Seq<Seq<char>>, perm: Seq<usize>) -> bool {
    forall|k: int| 0 <= k < perm.len() - 1 ==> #[trigger] step_ascends(s, perm, k)
}

/// Next to each other, versions that are not newer keep their given order.
pub open spec fn ascending_stable(s: Seq<Seq<char>>, perm: Seq<usize>) -> bool {
    forall|k: int| 0 <= k < perm.len() - 1 ==> #[trigger] step_stable(s, perm, k)
}

proof fn lemma_insert_ascending(s: Seq<Seq<char>>, old_out: Seq<usize>, p: usize, x: usize)
    requires
        p <= old_out.len(),
        x < s.len(),
        forall|k: int| 0 <= k < old_out.len() ==> #[trigger] old_out[k] < x,
        forall|k: int| 0 <= k < p ==> !newer(s[#[trigger] old_out[k] as int], s[x as int]),
        p < old_out.len() ==> newer(s[old_out[p as int] as int], s[x as int]),
        p < old_out.len() ==> !newer(s[x as int], s[old_out[p as int] as int]),
        ascending(s, old_out),
        ascending_stable(s, old_out),
    ensures
        ascending(s, insert_at(old_out, p, x)),
        ascending_stable(s, insert_at(old_out, p, x)),
{
    let n = insert_at(old_out, p, x);
    assert forall|k: int| 0 <= k < n.len() - 1 implies #[trigger] step_ascends(s, n, k) by {
        if k + 1 < p {
            assert(n[k] == old_out[k] && n[k + 1] == old_out[k + 1]);
            assert(step_ascends(s, old_out, k));
        } else if k + 1 == p {
            assert(n[k] == old_out[k] && n[k + 1] == x);
            assert(!newer(s[old_out[k] as int], s[x as int]));
        } else if k == p {
            assert(n[k] == x && n[k + 1] == old_out[k]);
        } else {
            assert(n[k] == old_out[k - 1] && n[k + 1] == old_out[k]);
            assert(step_ascends(s, old_out, k - 1));
        }
    }
    assert forall|k: int| 0 <= k < n.len() - 1 implies #[trigger] step_stable(s, n, k) by {
        if k + 1 < p {
            assert(n[k] == old_out[k] && n[k + 1] == old_out[k + 1]);
            assert(step_stable(s, old_out, k));
        } else if k + 1 == p {
            assert(n[k] == old_out[k] && n[k + 1] == x);
        } else if k == p {
            assert(n[k] == x && n[k + 1] == old_out[k]);
        } else {
            assert(n[k] == old_out[k - 1] && n[k + 1] == old_out[k]);
            assert(step_stable(s, old_out, k - 1));
        }
    }
}

fn parse_all(versions: &Vec<String>) -> (r: Vec<SemVer>)
    requires
        forall|k: int| 0 <= k < versions@.len() ==> parses(#[trigger] versions@[k]@),
    ensures
        r@.len() == versions@.len(),
        forall|k: int| 0 <= k < r@.len() ==> (#[trigger] r@[k]).parts() == parsed(versions@[k]@),
        forall|k: int| 0 <= k < r@.len() ==> parts_valid((#[trigger] r@[k]).parts()),
{
    let mut r: Vec<SemVer> = Vec::new();
    let mut i: usize = 0;
    while i < versions.len()
        invariant
            i <= versions@.len(),
            forall|k: int| 0 <= k < versions@.len() ==> parses(#[trigger] versions@[k]@),
            r@.len() == i,
            forall|k: int| 0 <= k < r@.len() ==> (#[trigger] r@[k]).parts() == parsed(versions@[k]@),
            forall|k: int| 0 <= k < r@.len() ==> parts_valid((#[trigger] r@[k]).parts()),
        decreases versions.len() - i,
    {
        assert(parses(versions@[i as int]@));
        match parse_version(versions[i].as_str()) {
            Ok(v) => {
                r.push(v);
            },
            Err(_) => {
                assert(false);
            },
        }
        i += 1;
    }
    r
}

/// The first version is newer than the second.
pub open spec fn newer_parts(a: crate::version::VersionParts, b: crate::version::VersionParts) -> bool {
    version_order(a, b) == Ordering::Greater
}

fn is_newer(a: &SemVer, b: &SemVer) -> (r: bool)
    ensures
        r == newer_parts(a.parts(), b.parts()),
        r ==> !newer_parts(b.parts(), a.parts()),
        parts_valid(a.parts()) && parts_valid(b.parts()) && !r ==> version_le(a.parts(), b.parts()),
        parts_valid(a.parts()) && parts_valid(b.parts()) && r ==> version_le(b.parts(), a.parts()) && forall|
            c: crate::version::VersionParts,
        | #[trigger] version_le(a.parts(), c) ==> version_le(b.parts(), c),
{
    let o = compare_semver(a, b);
    match o {
        Ordering::Greater => true,
        _ => false,
    }
}

/// Every version in the order given by `perm` is, part by part, no newer
/// than every later one.
pub open spec fn fully_ascending(s: Seq<Seq<char>>, perm: Seq<usize>) -> bool {
    forall|a: int, b: int|
        #![trigger perm[a], perm[b]]
        0 <= a < b < perm.len() ==> version_le(parsed(s[perm[a] as int]), parsed(s[perm[b] as int]))
}

proof fn lemma_insert_fully(s: Seq<Seq<char>>, old_out: Seq<usize>, p: usize, x: usize)
    requires
        p <= old_out.len(),
        fully_ascending(s, old_out),
        forall|k: int| 0 <= k < p ==> version_le(parsed(s[#[trigger] old_out[k] as int]), parsed(s[x as int])),
        p < old_out.len() ==> version_le(parsed(s[x as int]), parsed(s[old_out[p as int] as int])),
        p < old_out.len() ==> forall|c: crate::version::VersionParts|
            #[trigger] version_le(parsed(s[old_out[p as int] as int]), c) ==> version_le(parsed(s[x as int]), c),
    ensures
        fully_ascending(s, insert_at(old_out, p, x)),
{
    let n = insert_at(old_out, p, x);
    assert forall|a: int, b: int| 0 <= a < b < n.len() implies version_le(
        parsed(s[#[trigger] n[a] as int]),
        parsed(s[#[trigger] n[b] as int]),
    ) by {
        if b < p {
            assert(n[a] == old_out[a] && n[b] == old_out[b]);
        } else if b == p {
            assert(n[a] == old_out[a] && n[b] == x);
        } else if a < p {
            assert(n[a] == old_out[a] && n[b] == old_out[b - 1]);
        } else if a == p {
            assert(n[a] == x && n[b] == old_out[b - 1]);
            if b - 1 > p {
                assert(old_out[p as int] == old_out[p as int]);
                assert(version_le(parsed(s[old_out[p as int] as int]), parsed(s[old_out[b - 1] as int])));
            }
        } else {
            assert(n[a] == old_out[a - 1] && n[b] == old_out[b - 1]);
        }
    }
}

/// Every version of the list is, part by part, no older than every later one,
/// and `semver` accepts the pre-release and build of each.
pub open spec fn newest_first(sorted: Seq<String>) -> bool {
    &&& forall|k: int| 0 <= k < sorted.len() ==> parses(#[trigger] sorted[k]@) && parts_valid(parsed(sorted[k]@))
    &&& forall|a: int, b: int|
        #![trigger sorted[a], sorted[b]]
        0 <= a < b < sorted.len() ==> version_le(parsed(sorted[b]@), parsed(sorted[a]@))
}

/// The versions in the order given by `perm`.
pub open spec fn arranged_versions(s: Seq<Seq<char>>, perm: Seq<usize>) -> Seq<Seq<char>> {
    perm.map_values(|k: usize| s[k as int])
}

/// The game versions newest first: a stable sort from oldest to newest,
/// then reversed. Every version must parse.
pub fn sorted_game_versions(versions: &Vec<String>) -> (r: Vec<String>)
    requires
        forall|k: int| 0 <= k < versions@.len() ==> parses(#[trigger] versions@[k]@),
    ensures
        exists|perm: Seq<usize>|
            same_positions(index_range(versions@.len()), perm) && #[trigger] ascending(
                texts_of(versions@),
                perm,
            ) && ascending_stable(texts_of(versions@), perm) && fully_ascending(texts_of(versions@), perm)
                && texts_of(r@) == arranged_versions(
                texts_of(versions@),
                perm,
            ).reverse(),
        newest_first(r@),
{
    let ghost s = texts_of(versions@);
    let parsed_versions = parse_all(versions);
    let mut inp: Vec<usize> = Vec::new();
    let mut i: usize = 0;
    while i < versions.len()
        invariant
            i <= versions@.len(),
            inp@ == index_range(i as nat),
        decreases versions.len() - i,
    {
        inp.push(i);
        i += 1;
        assert(inp@ =~= index_range(i as nat));
    }
    let mut out: Vec<usize> = Vec::new();
    let mut t: usize = 0;
    assert(prefix(inp@, 0) =~= out@);
    while t < inp.len()
        invariant
            t <= inp@.len(),
            inp@ == index_range(versions@.len()),
            s == texts_of(versions@),
            parsed_versions@.len() == versions@.len(),
            forall|k: int| 0 <= k < parsed_versions@.len() ==> (#[trigger] parsed_versions@[k]).parts() == parsed(versions@[k]@),
            same_positions(prefix(inp@, t), out@),
            forall|k: int| 0 <= k < out@.len() ==> #[trigger] out@[k] < versions@.len(),
            ascending(s, out@),
            ascending_stable(s, out@),
            fully_ascending(s, out@),
            forall|k: int| 0 <= k < parsed_versions@.len() ==> parts_valid((#[trigger] parsed_versions@[k]).parts()),
        decreases inp.len() - t,
    {
        let x = inp[t];
        let ghost old_out = out@;
        let ghost pre = prefix(inp@, t);
        proof {
            assert forall|k: int| 0 <= k < old_out.len() implies #[trigger] old_out[k] < x by {
                assert(old_out.contains(old_out[k]));
                assert(old_out.to_set().contains(old_out[k]));
                assert(pre.to_set().contains(old_out[k]));
                let j = choose|j: int| 0 <= j < pre.len() && pre[j] == old_out[k];
                assert(pre[j] == inp@[j]);
            }
        }
        let mut p: usize = 0;
        let mut found = false;
        while p < out.len()
            invariant_except_break
                !found,
            invariant
                p <= out@.len(),
                out@ == old_out,
                x < versions@.len(),
                s == texts_of(versions@),
                parsed_versions@.len() == versions@.len(),
                forall|k: int| 0 <= k < parsed_versions@.len() ==> (#[trigger] parsed_versions@[k]).parts() == parsed(versions@[k]@),
                forall|k: int| 0 <= k < old_out.len() ==> #[trigger] old_out[k] < versions@.len(),
                forall|k: int| 0 <= k < p ==> !newer(s[#[trigger] old_out[k] as int], s[x as int]),
                forall|k: int| 0 <= k < parsed_versions@.len() ==> parts_valid((#[trigger] parsed_versions@[k]).parts()),
                forall|k: int| 0 <= k < p ==> version_le(parsed(s[#[trigger] old_out[k] as int]), parsed(s[x as int])),
            ensures
                p <= out@.len(),
                found ==> p < out@.len() && newer(s[old_out[p as int] as int], s[x as int])
                    && !newer(s[x as int], s[old_out[p as int] as int]),
                found ==> version_le(parsed(s[x as int]), parsed(s[old_out[p as int] as int])) && forall|
                    c: crate::version::VersionParts,
                | #[trigger] version_le(parsed(s[old_out[p as int] as int]), c) ==> version_le(parsed(s[x as int]), c),
                !found ==> p == out@.len(),
            decreases out.len() - p,
        {
            if is_newer(&parsed_versions[out[p]], &parsed_versions[x]) {
                found = true;
                break;
            }
            p += 1;
        }
        out.insert(p, x);
        proof {
            assert forall|k: int| 0 <= k < out@.len() implies #[trigger] out@[k] < versions@.len() by {
                if k < p {
                    assert(out@[k] == old_out[k]);
                } else if k > p {
                    assert(out@[k] == old_out[k - 1]);
                }
            }
            lemma_insert_ascending(s, old_out, p, x);
            lemma_insert_fully(s, old_out, p, x);
            crate::search::lemma_insert_positions(inp@, t, old_out, p, x);
        }
        t += 1;
    }
    assert(prefix(inp@, t) == inp@);
    let mut r: Vec<String> = Vec::new();
    let mut j: usize = out.len();
    let ghost ar = arranged_versions(s, out@);
    while j > 0
        invariant
            j <= out@.len(),
            ar == arranged_versions(s, out@),
            s == texts_of(versions@),
            forall|k: int| 0 <= k < out@.len() ==> #[trigger] out@[k] < versions@.len(),
            texts_of(r@) == ar.subrange(j as int, ar.len() as int).reverse(),
        decreases j,
    {
        j -= 1;
        let ghost before = texts_of(r@);
        r.push(versions[out[j]].clone());
        assert(texts_of(r@) =~= before.push(ar[j as int]));
        assert(ar.subrange(j as int, ar.len() as int).reverse() =~= ar.subrange(
            j + 1,
            ar.len() as int,
        ).reverse().push(ar[j as int]));
    }
    assert(ar.subrange(0, ar.len() as int) =~= ar);
    proof {
        let n = ar.len() as int;
        assert(texts_of(r@) =~= ar.reverse());
        assert forall|k: int| 0 <= k < r@.len() implies parses(#[trigger] r@[k]@) && parts_valid(parsed(r@[k]@)) by {
            assert(r@[k]@ == texts_of(r@)[k]);
            assert(r@[k]@ == s[out@[n - 1 - k] as int]);
            assert(parsed_versions@[out@[n - 1 - k] as int].parts() == parsed(versions@[out@[n - 1 - k] as int]@));
        }
        assert forall|a: int, b: int| #![trigger r@[a], r@[b]] 0 <= a < b < r@.len() implies version_le(
            parsed(r@[b]@),
            parsed(r@[a]@),
        ) by {
            assert(r@[a]@ == texts_of(r@)[a]);
            assert(r@[b]@ == texts_of(r@)[b]);
            assert(r@[a]@ == s[out@[n - 1 - a] as int]);
            assert(r@[b]@ == s[out@[n - 1 - b] as int]);
            assert(version_le(parsed(s[out@[n - 1 - b] as int]), parsed(s[out@[n - 1 - a] as int])));
        }
    }
    r
}

/// The newest stable game version of a list sorted newest first: the first
/// that holds no `-rc` (in any case); empty when there is none.
pub open spec fn first_stable(sorted: Seq<String>) -> Seq<char> {
    if exists|i: int| 0 <= i < sorted.len() && !lower_contains_spec(#[trigger] sorted[i]@, "-rc"@) {
        let i = choose|i: int|
            0 <= i < sorted.len() && !lower_contains_spec(#[trigger] sorted[i]@, "-rc"@) && forall|j: int|
                0 <= j < i ==> lower_contains_spec(sorted[j]@, "-rc"@);
        sorted[i]@
    } else {
        Seq::empty()
    }
}

/// The version at `i` is no older than the later version at `j`, nor than
/// itself.
proof fn lemma_newest_first_at(sorted: Seq<String>, i: int, j: int)
    requires
        newest_first(sorted),
        0 <= i <= j < sorted.len(),
    ensures
        version_order(parsed(sorted[j]@), parsed(sorted[i]@)) != Ordering::Greater,
{
    assert(parses(sorted[i]@) && parts_valid(parsed(sorted[i]@)));
    if i < j {
        assert(version_le(parsed(sorted[j]@), parsed(sorted[i]@)));
        crate::version::lemma_version_le_order(parsed(sorted[j]@), parsed(sorted[i]@));
    }
}

/// In a list sorted newest first (as `sorted_game_versions` gives it), the
/// newest stable version is no older than any other version without `-rc`.
pub proof fn lemma_first_stable_is_newest(sorted: Seq<String>)
    requires
        newest_first(sorted),
    ensures
        first_stable(sorted).len() > 0 ==> forall|j: int|
            0 <= j < sorted.len() && !lower_contains_spec(#[trigger] sorted[j]@, "-rc"@) ==> version_order(
                parsed(sorted[j]@),
                parsed(first_stable(sorted)),
            ) != Ordering::Greater,
{
    if exists|i: int| 0 <= i < sorted.len() && !lower_contains_spec(#[trigger] sorted[i]@, "-rc"@) {
        let i0 = choose|i: int| 0 <= i < sorted.len() && !lower_contains_spec(#[trigger] sorted[i]@, "-rc"@);
        lemma_first_stable_exists(sorted, i0);
        let i = choose|i: int|
            0 <= i < sorted.len() && !lower_contains_spec(#[trigger] sorted[i]@, "-rc"@) && forall|j: int|
                0 <= j < i ==> lower_contains_spec(sorted[j]@, "-rc"@);
        assert(first_stable(sorted) == sorted[i]@);
        assert forall|j: int| 0 <= j < sorted.len() && !lower_contains_spec(#[trigger] sorted[j]@, "-rc"@) implies version_order(
            parsed(sorted[j]@),
            parsed(sorted[i]@),
        ) != Ordering::Greater by {
            if j < i {
                assert(lower_contains_spec(sorted[j]@, "-rc"@));
            } else {
                lemma_newest_first_at(sorted, i, j);
            }
        }
    }
}

/// The newest stable game version (see `first_stable`).
pub fn latest_stable(sorted: &Vec<String>) -> (r: String)
    ensures
        r@ == first_stable(sorted@),
{
    let mut i: usize = 0;
    while i < sorted.len()
        invariant
            i <= sorted@.len(),
            forall|j: int| 0 <= j < i ==> lower_contains_spec(#[trigger] sorted@[j]@, "-rc"@),
        decreases sorted.len() - i,
    {
        if !sorted[i].lower_contains("-rc") {
            proof {
                let w = choose|w: int|
                    0 <= w < sorted@.len() && !lower_contains_spec(#[trigger] sorted@[w]@, "-rc"@)
                        && forall|j: int| 0 <= j < w ==> lower_contains_spec(sorted@[j]@, "-rc"@);
                assert(0 <= i < sorted@.len() && !lower_contains_spec(sorted@[i as int]@, "-rc"@));
                if w < i {
                    assert(lower_contains_spec(sorted@[w]@, "-rc"@));
                } else if w > i {
                    assert(lower_contains_spec(sorted@[i as int]@, "-rc"@));
                }
            }
            return sorted[i].clone();
        }
        i += 1;
    }
    String::new()
}


// ---------------------------------------------------------------------------
// Laws
// ---------------------------------------------------------------------------

/// After pinning a version of a mod, a package of that mod (ignoring ASCII
/// case) holds the version, and no package is lost.
pub proof fn lemma_pin_holds_version(pkgs: Seq<Package>, mod_id: Seq<char>, version: Seq<char>)
    ensures
        pinned_packages(pkgs, mod_id, version).len() >= pkgs.len(),
        exists|i: int|
            0 <= i < pinned_packages(pkgs, mod_id, version).len() && eq_ignore_ascii_case_spec(
                (#[trigger] pinned_packages(pkgs, mod_id, version)[i]).0,
                mod_id,
            ) && pinned_packages(pkgs, mod_id, version)[i].1 == Some(version),
{
    let r = pinned_packages(pkgs, mod_id, version);
    if exists|i: int| first_package(pkgs, mod_id, i) {
        let i = choose|i: int| first_package(pkgs, mod_id, i);
        assert(r[i] == (pkgs[i].mod_id@, Some(version)));
    } else {
        let n = pkgs.len() as int;
        assert(r[n] == (mod_id, Some(version)));
        assert(eq_ignore_ascii_case_spec(mod_id, mod_id));
    }
}

/// Unpinning a mod leaves no package with its exact id.
pub proof fn lemma_unpin_removes(pkgs: Seq<Package>, mod_id: Seq<char>)
    ensures
        forall|i: int|
            0 <= i < unpinned_packages(pkgs, mod_id).len() ==> (#[trigger] unpinned_packages(pkgs, mod_id)[i]).mod_id@
                != mod_id,
{
    pkgs.filter_lemma(|p: Package| p.mod_id@ != mod_id);
}

proof fn lemma_first_stable_exists(sorted: Seq<String>, i: int)
    requires
        0 <= i < sorted.len(),
        !lower_contains_spec(sorted[i]@, "-rc"@),
    ensures
        exists|w: int|
            0 <= w < sorted.len() && !lower_contains_spec(#[trigger] sorted[w]@, "-rc"@) && forall|j: int|
                0 <= j < w ==> lower_contains_spec(sorted[j]@, "-rc"@),
    decreases i,
{
    if exists|j: int| 0 <= j < i && !lower_contains_spec(#[trigger] sorted[j]@, "-rc"@) {
        let j = choose|j: int| 0 <= j < i && !lower_contains_spec(#[trigger] sorted[j]@, "-rc"@);
        lemma_first_stable_exists(sorted, j);
    } else {
        assert forall|j: int| 0 <= j < i implies lower_contains_spec(sorted[j]@, "-rc"@) by {
            if !lower_contains_spec(sorted[j]@, "-rc"@) {
                assert(exists|j: int| 0 <= j < i && !lower_contains_spec(#[trigger] sorted[j]@, "-rc"@));
            }
        }
    }
}

/// The newest stable version holds no `-rc` (ignoring case), unless there is
/// none and it is empty.
pub proof fn lemma_first_stable_is_stable(sorted: Seq<String>)
    ensures
        first_stable(sorted).len() > 0 ==> !lower_contains_spec(first_stable(sorted), "-rc"@),
{
    if exists|i: int| 0 <= i < sorted.len() && !lower_contains_spec(#[trigger] sorted[i]@, "-rc"@) {
        let i = choose|i: int| 0 <= i < sorted.len() && !lower_contains_spec(#[trigger] sorted[i]@, "-rc"@);
        lemma_first_stable_exists(sorted, i);
    }
}

} // verus!
