//! The sync data: which mods are installed, under which mod id, and the
//! newest release of each that the pins allow.
use vstd::prelude::*;
use crate::api_structs::{Mod, ModApi, ModInfo, Releases};
use crate::config::Package;
use crate::search::has_exact;
use crate::keyed::{
    lemma_filter_take, find_key, has_key, key_pos, lemma_pos_unique, lemma_push_unique, lemma_update_unique, unique_keys,
};
use crate::text::{
    clone_strings, decimal, lowercase, or_empty, str_eq, unicode_lowercase, u64_to_string, unwrap_or_empty,
    vec_contains_string,
};
use crate::version::{
    fits_game, info_view, latest_of, parse_latest_version, parse_pinned_version, parse_version,
    parsed, parses, pinned_ok, pinned_releases, release_fits_game, release_fits_pin, reported,
    version_text, PinnedVersionInfo,
};
use crate::timing::{get_current_time, minute_stamp};

verus! {

/// What is known of one installed mod.
#[derive(Debug)]
pub struct ModSyncInfo {
    pub file_name: String,
    pub mod_name: String,
    pub installed_version: String,
    pub latest_known_version: String,
    pub latest_download_url: String,
    pub game_versions: Vec<String>,
}

/// file name, mod name, installed version, latest known version, latest
/// download url, game versions.
pub type SyncInfoView = (Seq<char>, Seq<char>, Seq<char>, Seq<char>, Seq<char>, Seq<String>);

impl View for ModSyncInfo {
    type V = SyncInfoView;

    open spec fn view(&self) -> SyncInfoView {
        (
            self.file_name@,
            self.mod_name@,
            self.installed_version@,
            self.latest_known_version@,
            self.latest_download_url@,
            self.game_versions@,
        )
    }
}

impl ModSyncInfo {
    /// A copy of the record.
    pub fn duplicate(&self) -> (r: ModSyncInfo)
        ensures
            r@ == self@,
    {
        ModSyncInfo {
            file_name: self.file_name.clone(),
            mod_name: self.mod_name.clone(),
            installed_version: self.installed_version.clone(),
            latest_known_version: self.latest_known_version.clone(),
            latest_download_url: self.latest_download_url.clone(),
            game_versions: clone_strings(&self.game_versions),
        }
    }
}

impl Default for ModSyncInfo {
    fn default() -> (r: Self)
        ensures
            r@ == (
                Seq::<char>::empty(),
                Seq::<char>::empty(),
                Seq::<char>::empty(),
                Seq::<char>::empty(),
                Seq::<char>::empty(),
                Seq::<String>::empty(),
            ),
    {
        ModSyncInfo {
            file_name: String::new(),
            mod_name: String::new(),
            installed_version: String::new(),
            latest_known_version: String::new(),
            latest_download_url: String::new(),
            game_versions: Vec::new(),
        }
    }
}

/// The sync file: per mod id, what is known of the mod; and when it was
/// written.
#[derive(Debug)]
pub struct RustiqueSyncJson {
    pub rustique_sync: Vec<(String, ModSyncInfo)>,
    pub last_sync: String,
}

impl RustiqueSyncJson {
    /// No mods, synced now: the sync time is the current UTC time to the
    /// minute (see `minute_stamp`).
    pub fn new() -> (r: RustiqueSyncJson)
        ensures
            r.rustique_sync@.len() == 0,
            minute_stamp(r.last_sync@),
    {
        RustiqueSyncJson { rustique_sync: Vec::new(), last_sync: get_current_time() }
    }
}

/// The former mod id file: per mod name, its id and id strings.
#[derive(Debug)]
pub struct ModIDSync {
    pub all_mods: Vec<(String, ModIDSyncData)>,
    pub last_sync: String,
}

#[derive(Debug)]
pub struct ModIDSyncData {
    pub mod_id: String,
    pub modid_strs: Vec<String>,
}

/// The game versions known, newest sync time.
#[derive(Debug)]
pub struct GameVersionSync {
    pub game_versions: Vec<String>,
    pub last_sync: String,
}

impl GameVersionSync {
    /// No game versions, never synced.
    pub fn new() -> (r: GameVersionSync)
        ensures
            r.game_versions@.len() == 0,
            r.last_sync@ == Seq::<char>::empty(),
    {
        GameVersionSync { game_versions: Vec::new(), last_sync: String::new() }
    }
}

impl Default for GameVersionSync {
    fn default() -> (r: GameVersionSync)
        ensures
            r.game_versions@.len() == 0,
            r.last_sync@ == Seq::<char>::empty(),
    {
        GameVersionSync::new()
    }
}

// ---------------------------------------------------------------------------
// Finding the mod id of a mod whose modinfo.json has none
// ---------------------------------------------------------------------------

/// An entry of the search database names the mod: its name equals the mod's
/// name ignoring case; an entry without a name names it when one of its mod
/// id strings is exactly the mod's name.
pub open spec fn names_mod(m: ModApi, name: Seq<char>) -> bool {
    match m.name {
        Some(n) => unicode_lowercase(name) == unicode_lowercase(n@),
        None => has_exact(m.mod_id_strs@, name),
    }
}

/// The entries that name the mod, in order.
pub open spec fn mods_named(mods: Seq<ModApi>, name: Seq<char>) -> Seq<ModApi> {
    mods.filter(|m: ModApi| names_mod(m, name))
}

/// The mod id found for a name: that of the one entry naming it; empty when
/// none or several do.
pub open spec fn located_id(mods: Seq<ModApi>, name: Seq<char>) -> Seq<char> {
    let found = mods_named(mods, name);
    if found.len() == 1 {
        decimal(found[0].mod_id as nat)
    } else {
        Seq::empty()
    }
}

fn entry_names_mod(m: &ModApi, name: &str, lower_name: &str) -> (r: bool)
    requires
        lower_name@ == unicode_lowercase(name@),
    ensures
        r == names_mod(*m, name@),
{
    match &m.name {
        Some(n) => {
            let ln = lowercase(n.as_str());
            str_eq(lower_name, ln.as_str())
        },
        None => vec_contains_string(&m.mod_id_strs, name),
    }
}

/// The mod id of the one search entry that names the mod (see `names_mod`),
/// as decimal text; empty when no entry or more than one does.
pub fn locate_mod_id(name: &str, mods: &[ModApi]) -> (r: String)
    ensures
        r@ == located_id(mods@, name@),
{
    let lower_name = lowercase(name);
    let ghost p = |m: ModApi| names_mod(m, name@);
    let mut count: usize = 0;
    let mut first: u32 = 0;
    let mut i: usize = 0;
    while i < mods.len()
        invariant
            i <= mods@.len(),
            lower_name@ == unicode_lowercase(name@),
            p == (|m: ModApi| names_mod(m, name@)),
            count == mods@.take(i as int).filter(p).len(),
            count >= 1 ==> first == mods@.take(i as int).filter(p)[0].mod_id,
        decreases mods.len() - i,
    {
        proof {
            lemma_filter_take(mods@, p, i as int);
        }
        if entry_names_mod(&mods[i], name, lower_name.as_str()) {
            if count == 0 {
                first = mods[i].mod_id;
            }
            count += 1;
        }
        i += 1;
    }
    assert(mods@.take(mods@.len() as int) =~= mods@);
    if count == 1 {
        u64_to_string(first as u64)
    } else {
        String::new()
    }
}


// ---------------------------------------------------------------------------
// The installed mods
// ---------------------------------------------------------------------------

/// The version recorded for an installed mod: its version as the version
/// parser writes it back, or the text as it is when it does not parse (an
/// absent version is the empty text).
pub open spec fn installed_version_spec(v: Option<String>) -> Seq<char> {
    let raw = or_empty(v);
    if parses(raw) {
        version_text(parsed(raw))
    } else {
        raw
    }
}

/// The version recorded for an installed mod (see `installed_version_spec`).
pub fn installed_version_text(version: &Option<String>) -> (r: String)
    ensures
        r@ == installed_version_spec(*version),
{
    let raw = unwrap_or_empty(version);
    match parse_version(raw.as_str()) {
        Ok(v) => v.to_text(),
        Err(_) => raw,
    }
}

/// The mod id under which an installed mod is recorded: its own, or, when
/// its modinfo.json has none, the one found in the search database.
pub open spec fn resolved_id(info: ModInfo, mods: Seq<ModApi>) -> Seq<char> {
    if info.mod_id@.len() == 0 {
        located_id(mods, info.name@)
    } else {
        info.mod_id@
    }
}

/// The view of a sync map.
pub open spec fn sync_view(v: Seq<(String, ModSyncInfo)>) -> Seq<(Seq<char>, SyncInfoView)> {
    v.map_values(|e: (String, ModSyncInfo)| (e.0@, e.1@))
}

/// Adds an entry unless its key is present (the first entry of a key wins).
pub open spec fn insert_absent(
    m: Seq<(Seq<char>, SyncInfoView)>,
    k: Seq<char>,
    v: SyncInfoView,
) -> Seq<(Seq<char>, SyncInfoView)> {
    if has_key(m, k) {
        m
    } else {
        m.push((k, v))
    }
}

/// What is recorded for an installed mod before the website is asked.
pub open spec fn installed_entry(file_name: Seq<char>, info: ModInfo) -> SyncInfoView {
    (
        file_name,
        info.name@,
        installed_version_spec(info.version),
        Seq::empty(),
        Seq::empty(),
        Seq::empty(),
    )
}

/// The sync map of the installed mods, taken in order.
pub open spec fn installed_all(
    installed: Seq<(String, ModInfo)>,
    mods: Seq<ModApi>,
) -> Seq<(Seq<char>, SyncInfoView)>
    decreases installed.len(),
{
    if installed.len() == 0 {
        Seq::empty()
    } else {
        let e = installed.last();
        insert_absent(
            installed_all(installed.drop_last(), mods),
            resolved_id(e.1, mods),
            installed_entry(e.0@, e.1),
        )
    }
}

/// Records an entry unless its key is present.
pub fn record_installed(sync: &mut Vec<(String, ModSyncInfo)>, key: String, info: ModSyncInfo)
    requires
        unique_keys(sync_view(old(sync)@)),
    ensures
        unique_keys(sync_view(final(sync)@)),
        sync_view(final(sync)@) == insert_absent(sync_view(old(sync)@), key@, info@),
{
    let ghost m = sync_view(sync@);
    match find_key(sync, key.as_str()) {
        Some(i) => {
            proof {
                assert(m[i as int].0 == key@);
                lemma_pos_unique(m, key@, i as int);
            }
        },
        None => {
            proof {
                assert forall|j: int| 0 <= j < m.len() implies (#[trigger] m[j]).0 != key@ by {
                    assert(m[j].0 == sync@[j].0@);
                }
            }
            let ghost e = (key@, info@);
            sync.push((key, info));
            proof {
                assert(sync_view(sync@) =~= m.push(e));
                lemma_push_unique(m, e);
            }
        },
    }
}

/// The sync map of the installed mods: each mod under its mod id (see
/// `resolved_id`), with its file name, name and installed version; the first
/// mod of an id wins.
pub fn sync_installed(installed: &Vec<(String, ModInfo)>, mods: &[ModApi]) -> (r: Vec<
    (String, ModSyncInfo),
>)
    ensures
        unique_keys(sync_view(r@)),
        sync_view(r@) == installed_all(installed@, mods@),
{
    let mut sync: Vec<(String, ModSyncInfo)> = Vec::new();
    assert(sync_view(sync@) =~= Seq::<(Seq<char>, SyncInfoView)>::empty());
    let mut i: usize = 0;
    while i < installed.len()
        invariant
            i <= installed@.len(),
            unique_keys(sync_view(sync@)),
            sync_view(sync@) == installed_all(installed@.take(i as int), mods@),
        decreases installed.len() - i,
    {
        assert(installed@.take(i + 1).drop_last() =~= installed@.take(i as int));
        let file_name = &installed[i].0;
        let info = &installed[i].1;
        let version = installed_version_text(&info.version);
        let mod_id = if info.mod_id.as_str().is_empty() {
            locate_mod_id(info.name.as_str(), mods)
        } else {
            info.mod_id.clone()
        };
        let entry = ModSyncInfo {
            installed_version: version,
            file_name: file_name.clone(),
            mod_name: info.name.clone(),
            latest_download_url: String::new(),
            latest_known_version: String::new(),
            game_versions: Vec::new(),
        };
        assert(entry@ == installed_entry(file_name@, *info));
        record_installed(&mut sync, mod_id, entry);
        i += 1;
    }
    assert(installed@.take(installed@.len() as int) =~= installed@);
    sync
}


// ---------------------------------------------------------------------------
// The newest release of each mod
// ---------------------------------------------------------------------------

/// The first pinned package of the mod, if any.
pub open spec fn pkg_for(pkgs: Seq<Package>, id: Seq<char>) -> Option<Package>
    decreases pkgs.len(),
{
    if pkgs.len() == 0 {
        None
    } else {
        match pkg_for(pkgs.drop_last(), id) {
            Some(p) => Some(p),
            None => if pkgs.last().mod_id@ == id {
                Some(pkgs.last())
            } else {
                None
            },
        }
    }
}

/// The pins apply: the mod has a pinned package or a game version is pinned.
pub open spec fn uses_pins(p: Option<Package>, game: Seq<char>) -> bool {
    (p matches Some(q) && q.mod_id@.len() > 0) || game.len() > 0
}

/// The releases that declare a game version no newer than `game`, in order.
pub open spec fn game_releases(rs: Seq<Releases>, game: Seq<char>) -> Seq<Releases>
    decreases rs.len(),
{
    if rs.len() == 0 {
        seq![]
    } else if fits_game(rs.last(), game) {
        game_releases(rs.drop_last(), game).push(rs.last())
    } else {
        game_releases(rs.drop_last(), game)
    }
}

/// A package without a pinned version filters by the game version alone.
proof fn lemma_unpinned_releases(rs: Seq<Releases>, d: Package, game: Seq<char>)
    requires
        d.pinned_version is None,
    ensures
        pinned_releases(rs, d, game) == game_releases(rs, game),
    decreases rs.len(),
{
    if rs.len() > 0 {
        lemma_unpinned_releases(rs.drop_last(), d, game);
    }
}

/// The releases the pins leave: those of the package, or those of the game
/// version alone when the mod has no package.
pub open spec fn allowed_releases(rs: Seq<Releases>, p: Option<Package>, game: Seq<char>) -> Seq<Releases> {
    match p {
        Some(q) => pinned_releases(rs, q, game),
        None => game_releases(rs, game),
    }
}

/// Every release the pins leave has a version text (the program stops on one
/// that has none before choosing; the choice itself skips such releases).
pub open spec fn pinned_versions_present(rs: Seq<Releases>, p: Option<Package>, game: Seq<char>) -> bool {
    forall|i: int|
        0 <= i < rs.len() && (match p {
            Some(q) => pinned_ok(rs[i], q, game),
            None => fits_game(rs[i], game),
        }) ==> (#[trigger] rs[i]).mod_version is Some
}

/// The version, download url and game versions recorded for a mod: the
/// newest release the pins allow when they apply, else the newest release.
pub open spec fn release_info_spec(rs: Seq<Releases>, p: Option<Package>, game: Seq<char>) -> (
    Seq<char>,
    Seq<char>,
    Seq<String>,
) {
    if uses_pins(p, game) {
        reported(latest_of(allowed_releases(rs, p, game)))
    } else {
        reported(latest_of(rs))
    }
}

fn find_pkg(pkgs: &Vec<Package>, id: &str) -> (r: Option<usize>)
    ensures
        match r {
            Some(i) => i < pkgs@.len() && pkg_for(pkgs@, id@) == Some(pkgs@[i as int]),
            None => pkg_for(pkgs@, id@) is None,
        },
{
    let mut i: usize = 0;
    while i < pkgs.len()
        invariant
            i <= pkgs@.len(),
            pkg_for(pkgs@.take(i as int), id@) is None,
        decreases pkgs.len() - i,
    {
        assert(pkgs@.take(i + 1).drop_last() =~= pkgs@.take(i as int));
        if str_eq(pkgs[i].mod_id.as_str(), id) {
            proof {
                lemma_pkg_for_prefix(pkgs@, id@, i as int + 1);
            }
            return Some(i);
        }
        i += 1;
    }
    assert(pkgs@.take(pkgs@.len() as int) =~= pkgs@);
    None
}

proof fn lemma_pkg_for_prefix(pkgs: Seq<Package>, id: Seq<char>, n: int)
    requires
        0 < n <= pkgs.len(),
        pkg_for(pkgs.take(n), id) is Some,
    ensures
        pkg_for(pkgs, id) == pkg_for(pkgs.take(n), id),
    decreases pkgs.len(),
{
    if n < pkgs.len() {
        assert(pkgs.drop_last().take(n) =~= pkgs.take(n));
        lemma_pkg_for_prefix(pkgs.drop_last(), id, n);
    } else {
        assert(pkgs.take(n) =~= pkgs);
    }
}

/// Whether the release choice for a mod can be made: when the pins apply,
/// every release they leave must have a version text.
pub fn release_info_ready(id: &str, releases: &Vec<Releases>, pkgs: &Vec<Package>, game: &str) -> (r: bool)
    ensures
        r == (uses_pins(pkg_for(pkgs@, id@), game@) ==> pinned_versions_present(
            releases@,
            pkg_for(pkgs@, id@),
            game@,
        )),
{
    let found = find_pkg(pkgs, id);
    let default_pkg = Package::default();
    let pkg: &Package = match found {
        Some(k) => &pkgs[k],
        None => &default_pkg,
    };
    let pins = !pkg.mod_id.as_str().is_empty() || !game.is_empty();
    if !pins {
        return true;
    }
    let mut i: usize = 0;
    while i < releases.len()
        invariant
            i <= releases@.len(),
            found is Some ==> *pkg == pkgs@[found->0 as int] && pkg_for(pkgs@, id@) == Some(*pkg),
            found is None ==> pkg.pinned_version is None && pkg_for(pkgs@, id@) is None,
            uses_pins(pkg_for(pkgs@, id@), game@),
            forall|j: int|
                0 <= j < i && (match pkg_for(pkgs@, id@) {
                    Some(q) => pinned_ok(releases@[j], q, game@),
                    None => fits_game(releases@[j], game@),
                }) ==> (#[trigger] releases@[j]).mod_version is Some,
        decreases releases.len() - i,
    {
        let r = &releases[i];
        if r.mod_version.is_none() {
            let passes = release_fits_game(r, game) && release_fits_pin(r, pkg);
            if passes {
                proof {
                    assert(uses_pins(pkg_for(pkgs@, id@), game@));
                    assert(releases@[i as int].mod_version is None);
                    assert(!pinned_versions_present(releases@, pkg_for(pkgs@, id@), game@));
                }
                return false;
            }
        }
        i += 1;
    }
    true
}

/// The version, download url and game versions recorded for a mod (see
/// `release_info_spec`): the mod's first pinned package, else no package.
pub fn release_info_for(id: &str, releases: &Vec<Releases>, pkgs: &Vec<Package>, game: &str) -> (r:
    PinnedVersionInfo)
    ensures
        info_view(r) == release_info_spec(releases@, pkg_for(pkgs@, id@), game@),
{
    let found = find_pkg(pkgs, id);
    let default_pkg = Package::default();
    let pkg: &Package = match found {
        Some(k) => &pkgs[k],
        None => &default_pkg,
    };
    proof {
        lemma_unpinned_releases(releases@, default_pkg, game@);
    }
    if !pkg.mod_id.as_str().is_empty() || !game.is_empty() {
        parse_pinned_version(releases, pkg, game)
    } else {
        parse_latest_version(releases.as_slice())
    }
}

/// Records what was found of a mod: a present entry takes the new version,
/// url and game versions; a new entry has `None` as file name and installed
/// version.
pub open spec fn release_update(
    m: Seq<(Seq<char>, SyncInfoView)>,
    k: Seq<char>,
    name: Seq<char>,
    found: (Seq<char>, Seq<char>, Seq<String>),
) -> Seq<(Seq<char>, SyncInfoView)> {
    if has_key(m, k) {
        let i = key_pos(m, k);
        let o = m[i].1;
        m.update(i, (k, (o.0, o.1, o.2, found.0, found.1, found.2)))
    } else {
        m.push((k, ("None"@, name, "None"@, found.0, found.1, found.2)))
    }
}

/// Records what was found of a mod (see `release_update`).
pub fn record_release(
    sync: &mut Vec<(String, ModSyncInfo)>,
    key: &str,
    mod_name: &Option<String>,
    found: PinnedVersionInfo,
)
    requires
        unique_keys(sync_view(old(sync)@)),
    ensures
        unique_keys(sync_view(final(sync)@)),
        sync_view(final(sync)@) == release_update(
            sync_view(old(sync)@),
            key@,
            or_empty(*mod_name),
            info_view(found),
        ),
{
    let ghost m = sync_view(sync@);
    let (version, url, game_versions) = found;
    match find_key(sync, key) {
        Some(i) => {
            proof {
                assert(m[i as int].0 == key@);
                lemma_pos_unique(m, key@, i as int);
            }
            let old_info = &sync[i].1;
            let info = ModSyncInfo {
                file_name: old_info.file_name.clone(),
                mod_name: old_info.mod_name.clone(),
                installed_version: old_info.installed_version.clone(),
                latest_known_version: version,
                latest_download_url: url,
                game_versions,
            };
            let k = sync[i].0.clone();
            let ghost e = (k@, info@);
            sync.set(i, (k, info));
            proof {
                assert(sync_view(sync@) =~= m.update(i as int, e));
                lemma_update_unique(m, i as int, e);
            }
        },
        None => {
            proof {
                assert forall|j: int| 0 <= j < m.len() implies (#[trigger] m[j]).0 != key@ by {
                    assert(m[j].0 == sync@[j].0@);
                }
            }
            let info = ModSyncInfo {
                latest_known_version: version,
                latest_download_url: url,
                mod_name: unwrap_or_empty(mod_name),
                file_name: "None".to_string(),
                installed_version: "None".to_string(),
                game_versions,
            };
            let ghost e = (key@, info@);
            sync.push((key.to_string(), info));
            proof {
                assert(sync_view(sync@) =~= m.push(e));
                lemma_push_unique(m, e);
            }
        },
    }
}

/// The sync map after recording, in order, what was found of each fetched mod.
pub open spec fn releases_all(
    m: Seq<(Seq<char>, SyncInfoView)>,
    fetched: Seq<(String, Mod)>,
    pkgs: Seq<Package>,
    game: Seq<char>,
) -> Seq<(Seq<char>, SyncInfoView)>
    decreases fetched.len(),
{
    if fetched.len() == 0 {
        m
    } else {
        let e = fetched.last();
        release_update(
            releases_all(m, fetched.drop_last(), pkgs, game),
            e.0@,
            or_empty(e.1.mod_json.name),
            release_info_spec(e.1.mod_json.releases@, pkg_for(pkgs, e.0@), game),
        )
    }
}

/// Records, for each fetched mod in order, the release chosen for it.
pub fn record_releases(
    sync: &mut Vec<(String, ModSyncInfo)>,
    fetched: &Vec<(String, Mod)>,
    pkgs: &Vec<Package>,
    pinned_game_version: &str,
)
    requires
        unique_keys(sync_view(old(sync)@)),
    ensures
        unique_keys(sync_view(final(sync)@)),
        sync_view(final(sync)@) == releases_all(
            sync_view(old(sync)@),
            fetched@,
            pkgs@,
            pinned_game_version@,
        ),
{
    let ghost m0 = sync_view(sync@);
    let mut i: usize = 0;
    while i < fetched.len()
        invariant
            i <= fetched@.len(),
            unique_keys(sync_view(sync@)),
            sync_view(sync@) == releases_all(m0, fetched@.take(i as int), pkgs@, pinned_game_version@),
        decreases fetched.len() - i,
    {
        assert(fetched@.take(i + 1).drop_last() =~= fetched@.take(i as int));
        let id = fetched[i].0.as_str();
        let m = &fetched[i].1;
        assert(fetched@[i as int] == fetched@.take(i + 1).last());
        let found = release_info_for(id, &m.mod_json.releases, pkgs, pinned_game_version);
        record_release(sync, id, &m.mod_json.name, found);
        i += 1;
    }
    assert(fetched@.take(fetched@.len() as int) =~= fetched@);
}


// ---------------------------------------------------------------------------
// Laws
// ---------------------------------------------------------------------------

/// Recording what was found of a mod keeps the keys unique, gives the mod
/// the found version, url and game versions, keeps what was recorded of its
/// installed file, and leaves every other mod as it was.
pub proof fn lemma_release_update(
    m: Seq<(Seq<char>, SyncInfoView)>,
    k: Seq<char>,
    name: Seq<char>,
    found: (Seq<char>, Seq<char>, Seq<String>),
    other: Seq<char>,
)
    requires
        unique_keys(m),
    ensures
        unique_keys(release_update(m, k, name, found)),
        has_key(release_update(m, k, name, found), k),
        ({
            let n = release_update(m, k, name, found);
            let e = n[key_pos(n, k)].1;
            &&& (e.3, e.4, e.5) == found
            &&& has_key(m, k) ==> (e.0, e.1, e.2) == (m[key_pos(m, k)].1.0, m[key_pos(m, k)].1.1, m[key_pos(m, k)].1.2)
            &&& !has_key(m, k) ==> (e.0, e.1, e.2) == ("None"@, name, "None"@)
        }),
        other != k && has_key(m, other) ==> ({
            let n = release_update(m, k, name, found);
            has_key(n, other) && n[key_pos(n, other)] == m[key_pos(m, other)]
        }),
{
    let n = release_update(m, k, name, found);
    if has_key(m, k) {
        let i = key_pos(m, k);
        let o = m[i].1;
        lemma_update_unique(m, i, (k, (o.0, o.1, o.2, found.0, found.1, found.2)));
        lemma_pos_unique(n, k, i);
        if other != k && has_key(m, other) {
            let j = key_pos(m, other);
            lemma_pos_unique(n, other, j);
        }
    } else {
        lemma_push_unique(m, (k, ("None"@, name, "None"@, found.0, found.1, found.2)));
        lemma_pos_unique(n, k, m.len() as int);
        if other != k && has_key(m, other) {
            let j = key_pos(m, other);
            assert(n[j] == m[j]);
            lemma_pos_unique(n, other, j);
        }
    }
}

/// The first installed mod of an id wins: recording another one of the same
/// id changes nothing.
pub proof fn lemma_insert_absent_first_wins(m: Seq<(Seq<char>, SyncInfoView)>, k: Seq<char>, v: SyncInfoView)
    requires
        has_key(m, k),
    ensures
        insert_absent(m, k, v) == m,
{
}

/// Recording what was found keeps the keys of the sync data unique.
proof fn lemma_releases_all_unique(
    m: Seq<(Seq<char>, SyncInfoView)>,
    fetched: Seq<(String, Mod)>,
    pkgs: Seq<Package>,
    game: Seq<char>,
)
    requires
        unique_keys(m),
    ensures
        unique_keys(releases_all(m, fetched, pkgs, game)),
    decreases fetched.len(),
{
    if fetched.len() > 0 {
        lemma_releases_all_unique(m, fetched.drop_last(), pkgs, game);
        let e = fetched.last();
        lemma_release_update(
            releases_all(m, fetched.drop_last(), pkgs, game),
            e.0@,
            or_empty(e.1.mod_json.name),
            release_info_spec(e.1.mod_json.releases@, pkg_for(pkgs, e.0@), game),
            e.0@,
        );
    }
}

/// Recording what was found of other mods leaves the entry of a mod as it was.
pub proof fn lemma_releases_all_keeps(
    m: Seq<(Seq<char>, SyncInfoView)>,
    fetched: Seq<(String, Mod)>,
    pkgs: Seq<Package>,
    game: Seq<char>,
    k: Seq<char>,
)
    requires
        unique_keys(m),
        has_key(m, k),
        forall|i: int| 0 <= i < fetched.len() ==> (#[trigger] fetched[i]).0@ != k,
    ensures
        has_key(releases_all(m, fetched, pkgs, game), k),
        releases_all(m, fetched, pkgs, game)[key_pos(releases_all(m, fetched, pkgs, game), k)] == m[key_pos(m, k)],
    decreases fetched.len(),
{
    if fetched.len() > 0 {
        let d = fetched.drop_last();
        assert forall|i: int| 0 <= i < d.len() implies (#[trigger] d[i]).0@ != k by {
            assert(d[i] == fetched[i]);
        }
        lemma_releases_all_keeps(m, d, pkgs, game, k);
        lemma_releases_all_unique(m, d, pkgs, game);
        let e = fetched.last();
        assert(e.0@ != k);
        lemma_release_update(
            releases_all(m, d, pkgs, game),
            e.0@,
            or_empty(e.1.mod_json.name),
            release_info_spec(e.1.mod_json.releases@, pkg_for(pkgs, e.0@), game),
            k,
        );
    }
}

/// Without pins (no package, no pinned game version), syncing records for
/// every fetched mod (of distinct ids) its newest release, as
/// `parse_latest_version` reports it, and keeps the file name, mod name and
/// installed version the sync data held for it (a mod not fetched keeps its
/// whole entry, see `lemma_releases_all_keeps`).
pub proof fn lemma_unpinned_records_newest(
    m: Seq<(Seq<char>, SyncInfoView)>,
    fetched: Seq<(String, Mod)>,
    pkgs: Seq<Package>,
    j: int,
)
    requires
        unique_keys(m),
        pkgs.len() == 0,
        0 <= j < fetched.len(),
        forall|a: int, b: int| 0 <= a < b < fetched.len() ==> (#[trigger] fetched[a]).0@ != (#[trigger] fetched[b]).0@,
    ensures
        ({
            let n = releases_all(m, fetched, pkgs, Seq::empty());
            let k = fetched[j].0@;
            let e = n[key_pos(n, k)].1;
            &&& has_key(n, k)
            &&& (e.3, e.4, e.5) == reported(latest_of(fetched[j].1.mod_json.releases@))
            &&& has_key(m, k) ==> (e.0, e.1, e.2) == (m[key_pos(m, k)].1.0, m[key_pos(m, k)].1.1, m[key_pos(
                m,
                k,
            )].1.2)
        }),
    decreases fetched.len(),
{
    let game = Seq::<char>::empty();
    let d = fetched.drop_last();
    let last = fetched.last();
    lemma_releases_all_unique(m, d, pkgs, game);
    let prev = releases_all(m, d, pkgs, game);
    assert(pkg_for(pkgs, last.0@) is None);
    if j == fetched.len() - 1 {
        if has_key(m, last.0@) {
            assert forall|i: int| 0 <= i < d.len() implies (#[trigger] d[i]).0@ != last.0@ by {
                assert(d[i] == fetched[i]);
                assert(fetched[i].0@ != fetched[fetched.len() - 1].0@);
            }
            lemma_releases_all_keeps(m, d, pkgs, game, last.0@);
        }
        lemma_release_update(
            prev,
            last.0@,
            or_empty(last.1.mod_json.name),
            release_info_spec(last.1.mod_json.releases@, pkg_for(pkgs, last.0@), game),
            last.0@,
        );
    } else {
        assert forall|a: int, b: int| 0 <= a < b < d.len() implies (#[trigger] d[a]).0@ != (#[trigger] d[b]).0@ by {
            assert(d[a] == fetched[a] && d[b] == fetched[b]);
        }
        lemma_unpinned_records_newest(m, d, pkgs, j);
        assert(d[j] == fetched[j]);
        assert(fetched[j].0@ != fetched[fetched.len() - 1].0@);
        lemma_release_update(
            prev,
            last.0@,
            or_empty(last.1.mod_json.name),
            release_info_spec(last.1.mod_json.releases@, pkg_for(pkgs, last.0@), game),
            fetched[j].0@,
        );
    }
}

} // verus!
