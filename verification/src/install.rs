//! What to install: requested mods, their missing dependencies, and the mods
//! to update; and what to do with the results.
use vstd::prelude::*;
use crate::api_structs::{Mod, ModInfo};
use crate::error::RustiqueError;
use crate::keyed::{
    find_key, first_value, first_value_of, has_key, key_pos, lemma_filter_take, lemma_pos_unique,
    lemma_push_unique, lemma_put_key_origin, lemma_put_keys, lemma_update_unique, put, unique_keys,
};
use crate::search::{has_exact, same_positions};
use crate::textsort::{index_range, sort_text_positions, texts_of, texts_sorted, texts_stable};
use crate::sync::{insert_absent, record_installed, sync_view, ModSyncInfo, SyncInfoView};
use crate::text::{
    lowercase, or_empty, seq_contains, str_contains, str_eq, unicode_lowercase, unwrap_or_empty,
    vec_contains_string,
};
use crate::version::{latest_of, parse_latest_version, reported};

verus! {

/// A mod to install: its id, name, the version and url to fetch, and the
/// file it replaces (none for a fresh install).
#[derive(Debug)]
pub struct Install {
    pub mod_id: String,
    pub mod_name: String,
    pub version_to_install: String,
    pub download_url: String,
    pub current_file_path: Option<String>,
}

/// id, name, version, url, file replaced.
pub type InstallView = (Seq<char>, Seq<char>, Seq<char>, Seq<char>, Option<Seq<char>>);

impl View for Install {
    type V = InstallView;

    open spec fn view(&self) -> InstallView {
        (
            self.mod_id@,
            self.mod_name@,
            self.version_to_install@,
            self.download_url@,
            match self.current_file_path {
                Some(p) => Some(p@),
                None => None,
            },
        )
    }
}

/// The result of installing a mod.
#[derive(Debug)]
pub struct Installed {
    pub mod_id: String,
    pub mod_name: String,
    pub installed_file_path: Option<String>,
    pub old_file_path: Option<String>,
    pub install_version: String,
    pub success: bool,
}

/// The views of a list of installs.
pub open spec fn installs_view(v: Seq<Install>) -> Seq<InstallView> {
    v.map_values(|i: Install| i@)
}

// ---------------------------------------------------------------------------
// Dependencies of the installed mods
// ---------------------------------------------------------------------------

/// A dependency on the game itself (its id holds `game`, `survival` or
/// `creative`), which is never installed.
pub open spec fn base_game_id(id: Seq<char>) -> bool {
    seq_contains(id, "game"@) || seq_contains(id, "survival"@) || seq_contains(id, "creative"@)
}

/// Whether the id names the game itself (see `base_game_id`).
pub fn is_base_game_id(id: &str) -> (r: bool)
    ensures
        r == base_game_id(id@),
{
    str_contains(id, "game") || str_contains(id, "survival") || str_contains(id, "creative")
}

/// The mod is one of those asked for (all are, when none is named).
pub open spec fn mod_selected(info: ModInfo, requested: Seq<String>) -> bool {
    requested.len() == 0 || has_exact(requested, info.mod_id@)
}

/// The dependency is not the game and not a mod of the sync data.
pub open spec fn dep_missing(id: Seq<char>, sync: Seq<(String, ModSyncInfo)>) -> bool {
    !base_game_id(id) && !has_key(sync_view(sync), id)
}

/// The installs for the missing dependencies of one mod, in order.
pub open spec fn mod_missing_deps(
    deps: Seq<(String, String)>,
    file_name: Seq<char>,
    sync: Seq<(String, ModSyncInfo)>,
) -> Seq<InstallView>
    decreases deps.len(),
{
    if deps.len() == 0 {
        Seq::empty()
    } else {
        let rest = mod_missing_deps(deps.drop_last(), file_name, sync);
        let d = deps.last();
        if dep_missing(d.0@, sync) {
            rest.push((d.0@, Seq::empty(), d.1@, Seq::empty(), Some(file_name)))
        } else {
            rest
        }
    }
}

/// The installs for the missing dependencies of the selected mods, mod after
/// mod.
pub open spec fn missing_deps_all(
    installed: Seq<(String, ModInfo)>,
    requested: Seq<String>,
    sync: Seq<(String, ModSyncInfo)>,
) -> Seq<InstallView>
    decreases installed.len(),
{
    if installed.len() == 0 {
        Seq::empty()
    } else {
        let rest = missing_deps_all(installed.drop_last(), requested, sync);
        let e = installed.last();
        if mod_selected(e.1, requested) {
            rest + mod_missing_deps(e.1.dependencies@, e.0@, sync)
        } else {
            rest
        }
    }
}

/// The install for a missing dependency `d` of the mod whose file is
/// `file_name`: its id and version, and the file of the mod that needs it.
pub open spec fn missing_dep_install(d: (String, String), file_name: Seq<char>) -> InstallView {
    (d.0@, Seq::empty(), d.1@, Seq::empty(), Some(file_name))
}

/// `v` is the install of a missing dependency of one of the selected
/// installed mods.
pub open spec fn of_missing_dep(
    installed: Seq<(String, ModInfo)>,
    requested: Seq<String>,
    sync: Seq<(String, ModSyncInfo)>,
    v: InstallView,
) -> bool {
    exists|i: int, j: int|
        0 <= i < installed.len() && mod_selected(installed[i].1, requested) && 0 <= j
            < installed[i].1.dependencies@.len() && dep_missing(
            (#[trigger] installed[i].1.dependencies@[j]).0@,
            sync,
        ) && v == missing_dep_install(installed[i].1.dependencies@[j], installed[i].0@)
}

/// The missing dependencies of one mod are its dependencies that are
/// missing, in order, each turned into its install.
proof fn lemma_mod_missing_deps_filter(
    deps: Seq<(String, String)>,
    file_name: Seq<char>,
    sync: Seq<(String, ModSyncInfo)>,
)
    ensures
        mod_missing_deps(deps, file_name, sync) == deps.filter(
            |d: (String, String)| dep_missing(d.0@, sync),
        ).map_values(|d: (String, String)| missing_dep_install(d, file_name)),
    decreases deps.len(),
{
    reveal(Seq::filter);
    if deps.len() > 0 {
        lemma_mod_missing_deps_filter(deps.drop_last(), file_name, sync);
        let pred = |d: (String, String)| dep_missing(d.0@, sync);
        let g = |d: (String, String)| missing_dep_install(d, file_name);
        let fi = deps.drop_last().filter(pred);
        if pred(deps.last()) {
            assert(fi.push(deps.last()).map_values(g) =~= fi.map_values(g).push(g(deps.last())));
        }
    }
}

/// Every dependency of a selected installed mod (every mod, when none is
/// requested) that is neither the game nor a mod of the sync data gets an
/// install naming the file of the mod that needs it; and every install is
/// of such a dependency.
pub proof fn lemma_missing_deps_cover(
    installed: Seq<(String, ModInfo)>,
    requested: Seq<String>,
    sync: Seq<(String, ModSyncInfo)>,
)
    ensures
        forall|i: int, j: int|
            0 <= i < installed.len() && mod_selected(installed[i].1, requested) && 0 <= j
                < installed[i].1.dependencies@.len() && dep_missing(
                (#[trigger] installed[i].1.dependencies@[j]).0@,
                sync,
            ) ==> missing_deps_all(installed, requested, sync).contains(
                missing_dep_install(installed[i].1.dependencies@[j], installed[i].0@),
            ),
        forall|k: int|
            0 <= k < missing_deps_all(installed, requested, sync).len() ==> of_missing_dep(
                installed,
                requested,
                sync,
                #[trigger] missing_deps_all(installed, requested, sync)[k],
            ),
    decreases installed.len(),
{
    if installed.len() > 0 {
        let init = installed.drop_last();
        lemma_missing_deps_cover(init, requested, sync);
        let n = installed.len() - 1;
        let e = installed[n];
        assert(installed.last() == e);
        let rest = missing_deps_all(init, requested, sync);
        let all = missing_deps_all(installed, requested, sync);
        let deps = e.1.dependencies@;
        let pred = |d: (String, String)| dep_missing(d.0@, sync);
        let g = |d: (String, String)| missing_dep_install(d, e.0@);
        lemma_mod_missing_deps_filter(deps, e.0@, sync);
        let mine = mod_missing_deps(deps, e.0@, sync);
        deps.filter_lemma(pred);
        assert forall|i: int, j: int|
            0 <= i < installed.len() && mod_selected(installed[i].1, requested) && 0 <= j
                < installed[i].1.dependencies@.len() && dep_missing(
                (#[trigger] installed[i].1.dependencies@[j]).0@,
                sync,
            ) implies all.contains(missing_dep_install(installed[i].1.dependencies@[j], installed[i].0@)) by {
            let x = missing_dep_install(installed[i].1.dependencies@[j], installed[i].0@);
            if i == n {
                assert(all == rest + mine);
                assert(deps.filter(pred).contains(deps[j]));
                let p = choose|p: int| 0 <= p < deps.filter(pred).len() && deps.filter(pred)[p] == deps[j];
                assert(mine[p] == x);
                assert(all[rest.len() + p] == x);
            } else {
                assert(init[i] == installed[i]);
                assert(rest.contains(x));
                let q = choose|q: int| 0 <= q < rest.len() && rest[q] == x;
                assert(all[q] == x);
            }
        }
        assert forall|k: int| 0 <= k < all.len() implies of_missing_dep(installed, requested, sync, #[trigger] all[k]) by {
            if k < rest.len() {
                assert(all[k] == rest[k]);
                assert(of_missing_dep(init, requested, sync, rest[k]));
                let (i, j) = choose|i: int, j: int|
                    0 <= i < init.len() && mod_selected(init[i].1, requested) && 0 <= j
                        < init[i].1.dependencies@.len() && dep_missing(
                        (#[trigger] init[i].1.dependencies@[j]).0@,
                        sync,
                    ) && rest[k] == missing_dep_install(init[i].1.dependencies@[j], init[i].0@);
                assert(installed[i] == init[i]);
                assert(installed[i].1.dependencies@[j] == init[i].1.dependencies@[j]);
            } else {
                assert(all == rest + mine);
                let p = k - rest.len();
                let d = deps.filter(pred)[p];
                assert(mine[p] == g(d));
                assert(pred(d));
                assert(deps.filter(pred).contains(d));
                deps.lemma_filter_contains_rev(pred, d);
                let j = choose|j: int| 0 <= j < deps.len() && deps[j] == d;
                assert(installed[n].1.dependencies@[j] == d);
            }
        }
    }
}

fn sync_has_id(sync: &Vec<(String, ModSyncInfo)>, id: &str) -> (r: bool)
    ensures
        r == has_key(sync_view(sync@), id@),
{
    let ghost m = sync_view(sync@);
    let mut i: usize = 0;
    while i < sync.len()
        invariant
            i <= sync@.len(),
            m == sync_view(sync@),
            forall|j: int| 0 <= j < i ==> (#[trigger] m[j]).0 != id@,
        decreases sync.len() - i,
    {
        assert(m[i as int].0 == sync@[i as int].0@);
        if str_eq(sync[i].0.as_str(), id) {
            return true;
        }
        i += 1;
    }
    false
}

/// Installs for the dependencies of the selected mods (all mods when none is
/// named) that are neither the game nor a mod of the sync data: one per
/// dependency, in order, remembering the file of the mod that needs it.
pub fn gather_missing_dependencies(
    installed_mods: &Vec<(String, ModInfo)>,
    mods_requested: &Vec<String>,
    sync_data: &Vec<(String, ModSyncInfo)>,
) -> (r: Vec<Install>)
    ensures
        installs_view(r@) == missing_deps_all(installed_mods@, mods_requested@, sync_data@),
        forall|i: int, j: int|
            0 <= i < installed_mods@.len() && mod_selected(installed_mods@[i].1, mods_requested@) && 0 <= j
                < installed_mods@[i].1.dependencies@.len() && dep_missing(
                (#[trigger] installed_mods@[i].1.dependencies@[j]).0@,
                sync_data@,
            ) ==> installs_view(r@).contains(
                missing_dep_install(installed_mods@[i].1.dependencies@[j], installed_mods@[i].0@),
            ),
        forall|k: int|
            0 <= k < r@.len() ==> of_missing_dep(
                installed_mods@,
                mods_requested@,
                sync_data@,
                (#[trigger] r@[k])@,
            ),
{
    let mut r: Vec<Install> = Vec::new();
    let mut i: usize = 0;
    assert(installs_view(r@) =~= Seq::<InstallView>::empty());
    while i < installed_mods.len()
        invariant
            i <= installed_mods@.len(),
            installs_view(r@) == missing_deps_all(
                installed_mods@.take(i as int),
                mods_requested@,
                sync_data@,
            ),
        decreases installed_mods.len() - i,
    {
        assert(installed_mods@.take(i + 1).drop_last() =~= installed_mods@.take(i as int));
        let file_name = &installed_mods[i].0;
        let info = &installed_mods[i].1;
        let ghost before = installs_view(r@);
        let selected = mods_requested.len() == 0 || vec_contains_string(
            mods_requested,
            info.mod_id.as_str(),
        );
        if selected {
            let deps = &info.dependencies;
            let mut j: usize = 0;
            assert(before + mod_missing_deps(deps@.take(0), file_name@, sync_data@) =~= before);
            while j < deps.len()
                invariant
                    j <= deps@.len(),
                    installs_view(r@) == before + mod_missing_deps(
                        deps@.take(j as int),
                        file_name@,
                        sync_data@,
                    ),
                decreases deps.len() - j,
            {
                assert(deps@.take(j + 1).drop_last() =~= deps@.take(j as int));
                let id = &deps[j].0;
                let version = &deps[j].1;
                if !is_base_game_id(id.as_str()) && !sync_has_id(sync_data, id.as_str()) {
                    let ghost prev = installs_view(r@);
                    let inst = Install {
                        mod_id: id.clone(),
                        mod_name: String::new(),
                        version_to_install: version.clone(),
                        download_url: String::new(),
                        current_file_path: Some(file_name.clone()),
                    };
                    r.push(inst);
                    assert(installs_view(r@) =~= prev.push(inst@));
                    assert(before + mod_missing_deps(deps@.take(j + 1), file_name@, sync_data@)
                        =~= (before + mod_missing_deps(deps@.take(j as int), file_name@, sync_data@)).push(
                        inst@,
                    ));
                }
                j += 1;
            }
            assert(deps@.take(deps@.len() as int) =~= deps@);
        } else {
        }
        i += 1;
    }
    assert(installed_mods@.take(installed_mods@.len() as int) =~= installed_mods@);
    proof {
        lemma_missing_deps_cover(installed_mods@, mods_requested@, sync_data@);
        assert forall|k: int| 0 <= k < r@.len() implies (#[trigger] r@[k])@ == installs_view(r@)[k] by {}
    }
    r
}

/// The dependencies of every installed mod that are not the game.
pub fn gather_dependencies(installed_mods: &Vec<(String, ModInfo)>) -> (r: Vec<Install>)
    ensures
        installs_view(r@) == missing_deps_all(
            installed_mods@,
            Seq::<String>::empty(),
            Seq::<(String, ModSyncInfo)>::empty(),
        ),
{
    let none: Vec<String> = Vec::new();
    let no_sync: Vec<(String, ModSyncInfo)> = Vec::new();
    gather_missing_dependencies(installed_mods, &none, &no_sync)
}


// ---------------------------------------------------------------------------
// Requested mods
// ---------------------------------------------------------------------------

/// The requested mods to fetch: those the sync data does not hold, or all of
/// them when installing by force (a reinstall).
pub open spec fn requests_kept(
    requested: Seq<String>,
    sync: Seq<(String, ModSyncInfo)>,
    force: bool,
) -> Seq<String> {
    requested.filter(|id: String| !has_key(sync_view(sync), id@) || force)
}

/// The message when nothing is left to install.
pub open spec fn no_mods_message() -> Seq<char> {
    "No mods to install"@
}

/// The requested mods to fetch (see `requests_kept`); an error when none is
/// left, as when all of them are installed already and force is not given.
pub fn install_requests(
    mods_requested: &Vec<String>,
    sync_data: &Vec<(String, ModSyncInfo)>,
    force: bool,
) -> (r: Result<Vec<String>, RustiqueError>)
    ensures
        requests_kept(mods_requested@, sync_data@, force).len() == 0 <==> r is Err,
        r matches Err(e) ==> e matches RustiqueError::SimpleError(m) && m@ == no_mods_message(),
        r matches Ok(v) ==> v@ == requests_kept(mods_requested@, sync_data@, force),
{
    let ghost p = |id: String| !has_key(sync_view(sync_data@), id@) || force;
    let mut kept: Vec<String> = Vec::new();
    let mut i: usize = 0;
    while i < mods_requested.len()
        invariant
            i <= mods_requested@.len(),
            p == (|id: String| !has_key(sync_view(sync_data@), id@) || force),
            kept@ == mods_requested@.take(i as int).filter(p),
        decreases mods_requested.len() - i,
    {
        proof {
            lemma_filter_take(mods_requested@, p, i as int);
        }
        let id = &mods_requested[i];
        if !sync_has_id(sync_data, id.as_str()) || force {
            kept.push(id.clone());
        }
        i += 1;
    }
    assert(mods_requested@.take(mods_requested@.len() as int) =~= mods_requested@);
    if kept.len() == 0 {
        return Err(RustiqueError::SimpleError("No mods to install".to_string()));
    }
    Ok(kept)
}

/// The install of a fetched mod: its newest release.
pub open spec fn release_install(id: Seq<char>, m: Mod) -> InstallView {
    let found = reported(latest_of(m.mod_json.releases@));
    (id, or_empty(m.mod_json.name), found.0, found.1, None)
}

/// The install of a fetched mod: its name and the version and url of its
/// newest release.
pub fn install_for_release(mod_id: &str, fetched: &Mod) -> (r: Install)
    ensures
        r@ == release_install(mod_id@, *fetched),
{
    let (version, url, _) = parse_latest_version(fetched.mod_json.releases.as_slice());
    Install {
        mod_id: mod_id.to_string(),
        mod_name: unwrap_or_empty(&fetched.mod_json.name),
        version_to_install: version,
        download_url: url,
        current_file_path: None,
    }
}

/// A dependency install completed from what was fetched of it: the name and
/// newest release of the first fetched entry of its id; unchanged when none.
pub open spec fn filled_install(i: InstallView, fetched: Seq<(String, Mod)>) -> InstallView {
    match first_value(fetched, i.0) {
        Some(m) => {
            let found = reported(latest_of(m.mod_json.releases@));
            (i.0, or_empty(m.mod_json.name), found.0, found.1, i.4)
        },
        None => i,
    }
}

fn clone_opt(o: &Option<String>) -> (r: Option<String>)
    ensures
        r == *o,
{
    crate::text::clone_opt_string(o)
}

/// Completes each install from what was fetched (see `filled_install`).
pub fn fill_from_fetched(deps: &Vec<Install>, fetched: &Vec<(String, Mod)>) -> (r: Vec<Install>)
    ensures
        r@.len() == deps@.len(),
        forall|k: int| 0 <= k < r@.len() ==> (#[trigger] r@[k])@ == filled_install(deps@[k]@, fetched@),
{
    let mut r: Vec<Install> = Vec::new();
    let mut i: usize = 0;
    while i < deps.len()
        invariant
            i <= deps@.len(),
            r@.len() == i,
            forall|k: int| 0 <= k < i ==> (#[trigger] r@[k])@ == filled_install(deps@[k]@, fetched@),
        decreases deps.len() - i,
    {
        let d = &deps[i];
        let inst = match first_value_of(fetched, d.mod_id.as_str()) {
            Some(m) => {
                let (version, url, _) = parse_latest_version(m.mod_json.releases.as_slice());
                Install {
                    mod_id: d.mod_id.clone(),
                    mod_name: unwrap_or_empty(&m.mod_json.name),
                    version_to_install: version,
                    download_url: url,
                    current_file_path: clone_opt(&d.current_file_path),
                }
            },
            None => Install {
                mod_id: d.mod_id.clone(),
                mod_name: d.mod_name.clone(),
                version_to_install: d.version_to_install.clone(),
                download_url: d.download_url.clone(),
                current_file_path: clone_opt(&d.current_file_path),
            },
        };
        r.push(inst);
        i += 1;
    }
    r
}


// ---------------------------------------------------------------------------
// Updating
// ---------------------------------------------------------------------------

/// The separators `std::path::Path::join` may put between a directory and
/// a name: `/`, or `\\` on Windows.
pub open spec fn is_path_sep(c: char) -> bool {
    c == '/' || c == '\\'
}

/// A bare file name: not empty, not `.` or `..`, and without a separator or
/// a `:` (so with neither a root nor a Windows prefix).
pub open spec fn plain_name(s: Seq<char>) -> bool {
    &&& s.len() > 0
    &&& s != "."@ && s != ".."@
    &&& forall|i: int| 0 <= i < s.len() ==> !is_path_sep(#[trigger] s[i]) && s[i] != ':'
}

/// A directory that a name is appended to with a separator: not empty,
/// ending neither in a separator nor in a `:`, and with no two separators
/// in a row (which rules out the Windows `\\?\`, `\\.\` and UNC prefixes,
/// whose paths `PathBuf::push` rebuilds).
pub open spec fn joinable_dir(d: Seq<char>) -> bool {
    &&& d.len() > 0
    &&& !is_path_sep(d.last()) && d.last() != ':'
    &&& forall|i: int| 0 <= i < d.len() - 1 ==> !(is_path_sep(#[trigger] d[i]) && is_path_sep(d[i + 1]))
}

/// `j` is what joining `file` to `dir` may give: for a plain name and a
/// joinable directory, the directory, one separator of the platform, and
/// the name.
pub open spec fn joined_path(dir: Seq<char>, file: Seq<char>, j: Seq<char>) -> bool {
    &&& plain_name(file) && joinable_dir(dir) ==> (j == dir + seq!['/'] + file || j == dir + seq!['\\']
        + file)
    &&& plain_name(file) && slash_dir(dir) ==> j == dir + file
}

/// A directory ending in `/` (a separator on every platform), with no two
/// separators in a row.
pub open spec fn slash_dir(d: Seq<char>) -> bool {
    &&& d.len() > 0
    &&& d.last() == '/'
    &&& forall|i: int| 0 <= i < d.len() - 1 ==> !(is_path_sep(#[trigger] d[i]) && is_path_sep(d[i + 1]))
}

/// Calls `std::path::Path::join` and turns the path back into text
/// (`to_string_lossy`, which keeps text that came from a `&str` as it is).
/// The separator it inserts is the platform's, so the result is not named;
/// stated is what holds on every platform: a plain name joined to a
/// joinable directory is appended after one separator, `/` or `\\`, and to
/// a directory ending in `/` it is appended as it is. Other joins (absolute
/// names, prefixes, a directory ending in `\\` or holding two separators
/// in a row) are left unsaid.
#[verifier::external_body]
pub(crate) fn join_path(dir: &str, file: &str) -> (r: String)
    ensures
        joined_path(dir@, file@, r@),
{
    std::path::Path::new(dir).join(file).to_string_lossy().into_owned()
}

/// The mods picked for an update, and the typed ids that name no mod.
#[derive(Debug)]
pub struct UpdateSelection {
    pub selected: Vec<(String, ModSyncInfo)>,
    pub invalid: Vec<String>,
}

/// One typed id, lowercased: a mod of the sync data is picked (once);
/// any other id is reported.
pub open spec fn pick_step(
    acc: (Seq<(Seq<char>, SyncInfoView)>, Seq<Seq<char>>),
    typed: Seq<char>,
    sync: Seq<(Seq<char>, SyncInfoView)>,
) -> (Seq<(Seq<char>, SyncInfoView)>, Seq<Seq<char>>) {
    let l = unicode_lowercase(typed);
    if has_key(sync, l) {
        (insert_absent(acc.0, l, sync[key_pos(sync, l)].1), acc.1)
    } else {
        (acc.0, acc.1.push(l))
    }
}

/// The typed ids taken in order.
pub open spec fn pick_all(typed: Seq<String>, sync: Seq<(Seq<char>, SyncInfoView)>) -> (
    Seq<(Seq<char>, SyncInfoView)>,
    Seq<Seq<char>>,
)
    decreases typed.len(),
{
    if typed.len() == 0 {
        (Seq::empty(), Seq::empty())
    } else {
        pick_step(pick_all(typed.drop_last(), sync), typed.last()@, sync)
    }
}

/// Each typed id, lowercased, that names a mod of the sync data is selected
/// with that mod's entry, and each other one is reported as invalid; nothing
/// else is selected or reported.
pub proof fn lemma_pick_all_cover(typed: Seq<String>, sync: Seq<(Seq<char>, SyncInfoView)>)
    ensures
        forall|i: int|
            0 <= i < typed.len() && has_key(sync, unicode_lowercase((#[trigger] typed[i])@)) ==> has_key(
                pick_all(typed, sync).0,
                unicode_lowercase(typed[i]@),
            ),
        forall|i: int|
            0 <= i < typed.len() && !has_key(sync, unicode_lowercase((#[trigger] typed[i])@)) ==> pick_all(
                typed,
                sync,
            ).1.contains(unicode_lowercase(typed[i]@)),
        forall|p: int|
            0 <= p < pick_all(typed, sync).0.len() ==> has_key(sync, (#[trigger] pick_all(typed, sync).0[p]).0)
                && pick_all(typed, sync).0[p].1 == sync[key_pos(sync, pick_all(typed, sync).0[p].0)].1
                && exists|i: int| 0 <= i < typed.len() && unicode_lowercase((#[trigger] typed[i])@) == pick_all(
                typed,
                sync,
            ).0[p].0,
        forall|q: int|
            0 <= q < pick_all(typed, sync).1.len() ==> !has_key(sync, #[trigger] pick_all(typed, sync).1[q])
                && exists|i: int| 0 <= i < typed.len() && unicode_lowercase((#[trigger] typed[i])@) == pick_all(
                typed,
                sync,
            ).1[q],
    decreases typed.len(),
{
    if typed.len() > 0 {
        let init = typed.drop_last();
        lemma_pick_all_cover(init, sync);
        let before = pick_all(init, sync);
        let after = pick_all(typed, sync);
        let n = typed.len() - 1;
        assert(typed.last() == typed[n]);
        let l = unicode_lowercase(typed[n]@);
        assert forall|i: int|
            0 <= i < typed.len() && has_key(sync, unicode_lowercase((#[trigger] typed[i])@)) implies has_key(
                after.0,
                unicode_lowercase(typed[i]@),
            ) by {
            let k = unicode_lowercase(typed[i]@);
            if i == n {
                if !has_key(before.0, l) {
                    assert(after.0[before.0.len() as int].0 == l);
                }
            } else {
                assert(init[i] == typed[i]);
                assert(has_key(before.0, k));
                let w = choose|w: int| 0 <= w < before.0.len() && (#[trigger] before.0[w]).0 == k;
                assert(after.0[w] == before.0[w]);
            }
        }
        assert forall|i: int|
            0 <= i < typed.len() && !has_key(sync, unicode_lowercase((#[trigger] typed[i])@)) implies after.1.contains(
                unicode_lowercase(typed[i]@),
            ) by {
            if i == n {
                assert(after.1[before.1.len() as int] == l);
            } else {
                assert(init[i] == typed[i]);
                let w = choose|w: int| 0 <= w < before.1.len() && before.1[w] == unicode_lowercase(init[i]@);
                assert(after.1[w] == before.1[w]);
            }
        }
        assert forall|p: int| 0 <= p < after.0.len() implies has_key(sync, (#[trigger] after.0[p]).0) && after.0[p].1
            == sync[key_pos(sync, after.0[p].0)].1 && exists|i: int|
            0 <= i < typed.len() && unicode_lowercase((#[trigger] typed[i])@) == after.0[p].0 by {
            if p < before.0.len() {
                assert(after.0[p] == before.0[p]);
                let i = choose|i: int| 0 <= i < init.len() && unicode_lowercase((#[trigger] init[i])@) == before.0[p].0;
                assert(typed[i] == init[i]);
            } else {
                assert(after.0[p] == (l, sync[key_pos(sync, l)].1));
                assert(unicode_lowercase(typed[n]@) == after.0[p].0);
            }
        }
        assert forall|q: int| 0 <= q < after.1.len() implies !has_key(sync, #[trigger] after.1[q]) && exists|i: int|
            0 <= i < typed.len() && unicode_lowercase((#[trigger] typed[i])@) == after.1[q] by {
            if q < before.1.len() {
                assert(after.1[q] == before.1[q]);
                let i = choose|i: int| 0 <= i < init.len() && unicode_lowercase((#[trigger] init[i])@) == before.1[q];
                assert(typed[i] == init[i]);
            } else {
                assert(after.1[q] == l);
                assert(unicode_lowercase(typed[n]@) == after.1[q]);
            }
        }
    }
}

/// The message when no mod can be updated.
pub open spec fn no_update_message() -> Seq<char> {
    "No valid update ids or the mod dir is empty..\n\r"@
}

fn copy_sync(sync: &Vec<(String, ModSyncInfo)>) -> (r: Vec<(String, ModSyncInfo)>)
    ensures
        sync_view(r@) == sync_view(sync@),
{
    let mut r: Vec<(String, ModSyncInfo)> = Vec::new();
    let mut i: usize = 0;
    while i < sync.len()
        invariant
            i <= sync@.len(),
            sync_view(r@) == sync_view(sync@.take(i as int)),
        decreases sync.len() - i,
    {
        let ghost before = sync_view(r@);
        let k = sync[i].0.clone();
        let d = sync[i].1.duplicate();
        assert(k@ == sync@[i as int].0@);
        r.push((k, d));
        assert(sync_view(r@) =~= before.push((sync@[i as int].0@, sync@[i as int].1@)));
        assert(sync_view(sync@.take(i + 1)) =~= sync_view(sync@.take(i as int)).push(
            (sync@[i as int].0@, sync@[i as int].1@),
        ));
        i += 1;
    }
    assert(sync@.take(sync@.len() as int) =~= sync@);
    r
}

/// The mods to update: all mods of the sync data when no id is typed;
/// otherwise those the typed ids name, lowercased (see `pick_all`). An error
/// when ids are typed and none names a mod.
pub fn select_updates(sync: &Vec<(String, ModSyncInfo)>, typed: &Vec<String>) -> (r: Result<
    UpdateSelection,
    RustiqueError,
>)
    requires
        unique_keys(sync_view(sync@)),
    ensures
        typed@.len() == 0 ==> (r matches Ok(s) && sync_view(s.selected@) == sync_view(sync@)
            && s.invalid@.len() == 0),
        typed@.len() > 0 ==> (r is Err <==> pick_all(typed@, sync_view(sync@)).0.len() == 0),
        typed@.len() > 0 && r is Ok ==> (r matches Ok(s) && sync_view(s.selected@) == pick_all(
            typed@,
            sync_view(sync@),
        ).0 && s.invalid@.map_values(|x: String| x@) == pick_all(typed@, sync_view(sync@)).1),
        r matches Err(e) ==> e matches RustiqueError::SimpleError(m) && m@ == no_update_message(),
{
    if typed.len() == 0 {
        return Ok(UpdateSelection { selected: copy_sync(sync), invalid: Vec::new() });
    }
    let ghost sv = sync_view(sync@);
    let mut selected: Vec<(String, ModSyncInfo)> = Vec::new();
    let mut invalid: Vec<String> = Vec::new();
    let mut i: usize = 0;
    assert(sync_view(selected@) =~= Seq::<(Seq<char>, SyncInfoView)>::empty());
    assert(invalid@.map_values(|x: String| x@) =~= Seq::<Seq<char>>::empty());
    while i < typed.len()
        invariant
            i <= typed@.len(),
            sv == sync_view(sync@),
            unique_keys(sv),
            unique_keys(sync_view(selected@)),
            sync_view(selected@) == pick_all(typed@.take(i as int), sv).0,
            invalid@.map_values(|x: String| x@) == pick_all(typed@.take(i as int), sv).1,
        decreases typed.len() - i,
    {
        assert(typed@.take(i + 1).drop_last() =~= typed@.take(i as int));
        let l = lowercase(typed[i].as_str());
        match find_key(sync, l.as_str()) {
            Some(k) => {
                proof {
                    assert(sv[k as int].0 == l@);
                    lemma_pos_unique(sv, l@, k as int);
                }
                let info = sync[k].1.duplicate();
                record_installed(&mut selected, l, info);
            },
            None => {
                proof {
                    assert forall|j: int| 0 <= j < sv.len() implies (#[trigger] sv[j]).0 != l@ by {
                        assert(sv[j].0 == sync@[j].0@);
                    }
                }
                let ghost before = invalid@.map_values(|x: String| x@);
                invalid.push(l);
                assert(invalid@.map_values(|x: String| x@) =~= before.push(l@));
            },
        }
        i += 1;
    }
    assert(typed@.take(typed@.len() as int) =~= typed@);
    if selected.len() == 0 {
        proof {
            reveal_strlit("No valid update ids or the mod dir is empty..\n\r");
        }
        return Err(RustiqueError::SimpleError("No valid update ids or the mod dir is empty..\n\r".to_string()));
    }
    Ok(UpdateSelection { selected, invalid })
}

/// The selected mods that get an update: those with a non-empty id whose
/// latest known version differs from the installed one, in order.
pub open spec fn update_targets(sel: Seq<(Seq<char>, SyncInfoView)>) -> Seq<(Seq<char>, SyncInfoView)>
    decreases sel.len(),
{
    if sel.len() == 0 {
        Seq::empty()
    } else {
        let rest = update_targets(sel.drop_last());
        let e = sel.last();
        if e.1.3 != e.1.2 && e.0.len() > 0 {
            rest.push(e)
        } else {
            rest
        }
    }
}

/// `update_targets` keeps, in order, exactly the entries that `pred` holds
/// of, whenever `pred` tells a non-empty id with a changed version.
proof fn lemma_update_targets_filter(
    sel: Seq<(Seq<char>, SyncInfoView)>,
    pred: spec_fn((Seq<char>, SyncInfoView)) -> bool,
)
    requires
        forall|e: (Seq<char>, SyncInfoView)| #[trigger] pred(e) == (e.1.3 != e.1.2 && e.0.len() > 0),
    ensures
        update_targets(sel) == sel.filter(pred),
    decreases sel.len(),
{
    reveal(Seq::filter);
    if sel.len() > 0 {
        lemma_update_targets_filter(sel.drop_last(), pred);
    }
}

/// An update is planned for every selected mod with a non-empty id whose
/// latest known version differs from its installed one, and for no other,
/// in the order of the selection: the planned updates are the selection
/// filtered by that condition.
pub proof fn lemma_updates_are_the_changed_mods(sel: Seq<(Seq<char>, SyncInfoView)>)
    ensures
        update_targets(sel) == sel.filter(
            |e: (Seq<char>, SyncInfoView)| e.1.3 != e.1.2 && e.0.len() > 0,
        ),
        forall|i: int|
            0 <= i < sel.len() && (#[trigger] sel[i]).1.3 != sel[i].1.2 && sel[i].0.len() > 0
                ==> update_targets(sel).contains(sel[i]),
        forall|k: int|
            0 <= k < update_targets(sel).len() ==> sel.contains(#[trigger] update_targets(sel)[k])
                && update_targets(sel)[k].1.3 != update_targets(sel)[k].1.2
                && update_targets(sel)[k].0.len() > 0,
{
    let pred = |e: (Seq<char>, SyncInfoView)| e.1.3 != e.1.2 && e.0.len() > 0;
    lemma_update_targets_filter(sel, pred);
    sel.filter_lemma(pred);
    assert forall|i: int|
        0 <= i < sel.len() && (#[trigger] sel[i]).1.3 != sel[i].1.2 && sel[i].0.len() > 0
            implies update_targets(sel).contains(sel[i]) by {
        sel.lemma_filter_contains(pred, i);
    }
    assert forall|k: int| 0 <= k < update_targets(sel).len() implies sel.contains(
        #[trigger] update_targets(sel)[k],
    ) by {
        assert(sel.filter(pred).contains(sel.filter(pred)[k]));
        sel.lemma_filter_contains_rev(pred, sel.filter(pred)[k]);
    }
}

/// The install for an update of a mod: the newest known version under the
/// lowercased id, replacing the mod's file (its file name joined to the mod
/// directory).
pub open spec fn update_install_fits(v: InstallView, id: Seq<char>, s: SyncInfoView, mod_dir: Seq<char>) -> bool {
    &&& v.0 == unicode_lowercase(id)
    &&& v.1 == s.1
    &&& v.2 == s.3
    &&& v.3 == s.4
    &&& v.4 matches Some(p) && joined_path(mod_dir, s.0, p)
}

/// The installs for the selected mods whose latest known version differs
/// from the installed one, one for each of `update_targets`, in order.
pub fn update_installs(selected: &Vec<(String, ModSyncInfo)>, mod_dir: &str) -> (r: Vec<Install>)
    ensures
        r@.len() == sync_view(selected@).filter(
            |e: (Seq<char>, SyncInfoView)| e.1.3 != e.1.2 && e.0.len() > 0,
        ).len(),
        forall|i: int|
            0 <= i < selected@.len() && (#[trigger] sync_view(selected@)[i]).1.3 != sync_view(
                selected@,
            )[i].1.2 && sync_view(selected@)[i].0.len() > 0 ==> exists|k: int|
                0 <= k < r@.len() && update_install_fits(
                    (#[trigger] r@[k])@,
                    sync_view(selected@)[i].0,
                    sync_view(selected@)[i].1,
                    mod_dir@,
                ),
        r@.len() == update_targets(sync_view(selected@)).len(),
        forall|k: int|
            0 <= k < r@.len() ==> update_install_fits(
                (#[trigger] r@[k])@,
                update_targets(sync_view(selected@))[k].0,
                update_targets(sync_view(selected@))[k].1,
                mod_dir@,
            ),
{
    let ghost sv = sync_view(selected@);
    let mut r: Vec<Install> = Vec::new();
    let mut i: usize = 0;
    while i < selected.len()
        invariant
            i <= selected@.len(),
            sv == sync_view(selected@),
            r@.len() == update_targets(sv.take(i as int)).len(),
            forall|k: int|
                0 <= k < r@.len() ==> update_install_fits(
                    (#[trigger] r@[k])@,
                    update_targets(sv.take(i as int))[k].0,
                    update_targets(sv.take(i as int))[k].1,
                    mod_dir@,
                ),
        decreases selected.len() - i,
    {
        assert(sv.take(i + 1).drop_last() =~= sv.take(i as int));
        assert(sv.take(i + 1).last() == sv[i as int]);
        let ghost before = update_targets(sv.take(i as int));
        let id = &selected[i].0;
        let info = &selected[i].1;
        if !str_eq(info.latest_known_version.as_str(), info.installed_version.as_str())
            && !id.as_str().is_empty() {
            let inst = Install {
                mod_id: lowercase(id.as_str()),
                mod_name: info.mod_name.clone(),
                version_to_install: info.latest_known_version.clone(),
                download_url: info.latest_download_url.clone(),
                current_file_path: Some(join_path(mod_dir, info.file_name.as_str())),
            };
            assert(update_targets(sv.take(i + 1)) == before.push(sv[i as int]));
            r.push(inst);
        } else {
            assert(update_targets(sv.take(i + 1)) == before);
        }
        i += 1;
    }
    assert(sv.take(sv.len() as int) =~= sv);
    proof {
        lemma_updates_are_the_changed_mods(sv);
        assert forall|i: int|
            0 <= i < selected@.len() && (#[trigger] sv[i]).1.3 != sv[i].1.2 && sv[i].0.len() > 0
                implies exists|k: int|
                0 <= k < r@.len() && update_install_fits((#[trigger] r@[k])@, sv[i].0, sv[i].1, mod_dir@) by {
            let k = choose|k: int| 0 <= k < update_targets(sv).len() && update_targets(sv)[k] == sv[i];
            assert(update_install_fits(r@[k]@, update_targets(sv)[k].0, update_targets(sv)[k].1, mod_dir@));
        }
    }
    r
}


// ---------------------------------------------------------------------------
// Installing with dependencies
// ---------------------------------------------------------------------------

/// id, name, installed file, old file, installed version, success.
pub type InstalledView = (Seq<char>, Seq<char>, Option<Seq<char>>, Option<Seq<char>>, Seq<char>, bool);

pub open spec fn opt_view(o: Option<String>) -> Option<Seq<char>> {
    match o {
        Some(s) => Some(s@),
        None => None,
    }
}

impl View for Installed {
    type V = InstalledView;

    open spec fn view(&self) -> InstalledView {
        (
            self.mod_id@,
            self.mod_name@,
            opt_view(self.installed_file_path),
            opt_view(self.old_file_path),
            self.install_version@,
            self.success,
        )
    }
}

impl Installed {
    /// A copy of the result.
    pub fn duplicate(&self) -> (r: Installed)
        ensures
            r@ == self@,
    {
        Installed {
            mod_id: self.mod_id.clone(),
            mod_name: self.mod_name.clone(),
            installed_file_path: clone_opt(&self.installed_file_path),
            old_file_path: clone_opt(&self.old_file_path),
            install_version: self.install_version.clone(),
            success: self.success,
        }
    }
}

/// The mods seen so far, by id.
pub open spec fn seen_view(v: Seq<(String, Installed)>) -> Seq<(Seq<char>, InstalledView)> {
    v.map_values(|e: (String, Installed)| (e.0@, e.1@))
}

/// A mod already on the system counts as installed from its file, `path`.
pub open spec fn seen_entry(id: Seq<char>, s: SyncInfoView, path: Seq<char>) -> InstalledView {
    (id, s.1, Some(path), Some(path), s.2, true)
}

/// The record of a mod of the sync data among the seen mods: under its id,
/// installed from its file name joined to the mod directory.
pub open spec fn seen_fits(
    e: (Seq<char>, InstalledView),
    entry: (String, ModSyncInfo),
    mod_dir: Seq<char>,
) -> bool {
    &&& e.0 == entry.0@
    &&& e.1.2 matches Some(p) && e.1 == seen_entry(entry.0@, entry.1@, p) && joined_path(
        mod_dir,
        entry.1.file_name@,
        p,
    )
}

/// The mods of the sync data, as installed mods.
pub fn seen_from_sync(sync: &Vec<(String, ModSyncInfo)>, mod_dir: &str) -> (r: Vec<(String, Installed)>)
    requires
        unique_keys(sync_view(sync@)),
    ensures
        unique_keys(seen_view(r@)),
        seen_view(r@).len() == sync@.len(),
        forall|k: int|
            0 <= k < sync@.len() ==> seen_fits(#[trigger] seen_view(r@)[k], sync@[k], mod_dir@),
{
    let ghost sv = sync_view(sync@);
    let mut r: Vec<(String, Installed)> = Vec::new();
    let mut i: usize = 0;
    while i < sync.len()
        invariant
            i <= sync@.len(),
            sv == sync_view(sync@),
            unique_keys(sv),
            r@.len() == i,
            forall|k: int| 0 <= k < i ==> seen_fits(#[trigger] seen_view(r@)[k], sync@[k], mod_dir@),
        decreases sync.len() - i,
    {
        let id = &sync[i].0;
        let info = &sync[i].1;
        let path = join_path(mod_dir, info.file_name.as_str());
        let inst = Installed {
            mod_id: id.clone(),
            mod_name: info.mod_name.clone(),
            installed_file_path: Some(path.clone()),
            success: true,
            old_file_path: Some(path),
            install_version: info.installed_version.clone(),
        };
        let ghost before = seen_view(r@);
        assert(inst@ == seen_entry(sync@[i as int].0@, sync@[i as int].1@, path@));
        r.push((id.clone(), inst));
        assert(seen_view(r@) =~= before.push((sync@[i as int].0@, inst@)));
        i += 1;
    }
    proof {
        assert forall|a: int, b: int|
            0 <= a < seen_view(r@).len() && 0 <= b < seen_view(r@).len() && a != b implies (#[trigger] seen_view(r@)[a]).0
            != (#[trigger] seen_view(r@)[b]).0 by {
            assert(sv[a].0 == sync@[a].0@);
            assert(sv[b].0 == sync@[b].0@);
        }
    }
    r
}

/// The seen mods after recording a batch of installs, in order, each under
/// its id (a later install of an id replaces the earlier record).
pub open spec fn seen_after(m: Seq<(Seq<char>, InstalledView)>, recent: Seq<Installed>) -> Seq<
    (Seq<char>, InstalledView),
>
    decreases recent.len(),
{
    if recent.len() == 0 {
        m
    } else {
        let i = recent.last();
        put(seen_after(m, recent.drop_last()), i.mod_id@, i@)
    }
}

fn put_seen(seen: &mut Vec<(String, Installed)>, inst: &Installed)
    requires
        unique_keys(seen_view(old(seen)@)),
    ensures
        unique_keys(seen_view(final(seen)@)),
        seen_view(final(seen)@) == put(seen_view(old(seen)@), inst.mod_id@, inst@),
{
    let ghost m = seen_view(seen@);
    let e = (inst.mod_id.clone(), inst.duplicate());
    let ghost ev = (inst.mod_id@, inst@);
    match find_key(seen, inst.mod_id.as_str()) {
        Some(i) => {
            proof {
                assert(m[i as int].0 == inst.mod_id@);
                lemma_pos_unique(m, inst.mod_id@, i as int);
            }
            seen.set(i, e);
            proof {
                assert(seen_view(seen@) =~= m.update(i as int, ev));
                lemma_update_unique(m, i as int, ev);
            }
        },
        None => {
            proof {
                assert forall|j: int| 0 <= j < m.len() implies (#[trigger] m[j]).0 != inst.mod_id@ by {
                    assert(m[j].0 == seen@[j].0@);
                }
            }
            seen.push(e);
            proof {
                assert(seen_view(seen@) =~= m.push(ev));
                lemma_push_unique(m, ev);
            }
        },
    }
}

/// Records a batch of installs among the seen mods (see `seen_after`).
pub fn record_seen(seen: &mut Vec<(String, Installed)>, recent: &Vec<Installed>)
    requires
        unique_keys(seen_view(old(seen)@)),
    ensures
        unique_keys(seen_view(final(seen)@)),
        seen_view(final(seen)@) == seen_after(seen_view(old(seen)@), recent@),
{
    let ghost m0 = seen_view(seen@);
    let mut i: usize = 0;
    while i < recent.len()
        invariant
            i <= recent@.len(),
            unique_keys(seen_view(seen@)),
            seen_view(seen@) == seen_after(m0, recent@.take(i as int)),
        decreases recent.len() - i,
    {
        assert(recent@.take(i + 1).drop_last() =~= recent@.take(i as int));
        put_seen(seen, &recent[i]);
        i += 1;
    }
    assert(recent@.take(recent@.len() as int) =~= recent@);
}

/// A dependency still to fetch: once lowercased, it is not the game and not
/// a seen mod.
pub open spec fn dep_needed(id: Seq<char>, seen: Seq<(Seq<char>, InstalledView)>) -> bool {
    let l = unicode_lowercase(id);
    !base_game_lower(l) && !has_key(seen, l)
}

/// The lowercase id names the game (`game`, `creative` or `survival`).
pub open spec fn base_game_lower(l: Seq<char>) -> bool {
    seq_contains(l, "game"@) || seq_contains(l, "creative"@) || seq_contains(l, "survival"@)
}

/// The dependencies of one mod still to fetch, as a map from id to version
/// (a repeated id keeps its place and takes the later version).
pub open spec fn needed_deps(
    deps: Seq<(String, String)>,
    seen: Seq<(Seq<char>, InstalledView)>,
) -> Seq<(Seq<char>, Seq<char>)>
    decreases deps.len(),
{
    if deps.len() == 0 {
        Seq::empty()
    } else {
        let rest = needed_deps(deps.drop_last(), seen);
        let d = deps.last();
        if dep_needed(d.0@, seen) {
            put(rest, d.0@, d.1@)
        } else {
            rest
        }
    }
}

pub open spec fn pairs_view(v: Seq<(String, String)>) -> Seq<(Seq<char>, Seq<char>)> {
    v.map_values(|e: (String, String)| (e.0@, e.1@))
}

fn put_pair(m: &mut Vec<(String, String)>, k: &String, v: &String)
    requires
        unique_keys(pairs_view(old(m)@)),
    ensures
        unique_keys(pairs_view(final(m)@)),
        pairs_view(final(m)@) == put(pairs_view(old(m)@), k@, v@),
{
    let ghost pm = pairs_view(m@);
    let ghost ev = (k@, v@);
    match find_key(m, k.as_str()) {
        Some(i) => {
            proof {
                assert(pm[i as int].0 == k@);
                lemma_pos_unique(pm, k@, i as int);
            }
            m.set(i, (k.clone(), v.clone()));
            proof {
                assert(pairs_view(m@) =~= pm.update(i as int, ev));
                lemma_update_unique(pm, i as int, ev);
            }
        },
        None => {
            proof {
                assert forall|j: int| 0 <= j < pm.len() implies (#[trigger] pm[j]).0 != k@ by {
                    assert(pm[j].0 == m@[j].0@);
                }
            }
            m.push((k.clone(), v.clone()));
            proof {
                assert(pairs_view(m@) =~= pm.push(ev));
                lemma_push_unique(pm, ev);
            }
        },
    }
}

fn seen_has(seen: &Vec<(String, Installed)>, id: &str) -> (r: bool)
    ensures
        r == has_key(seen_view(seen@), id@),
{
    let ghost m = seen_view(seen@);
    match find_key(seen, id) {
        Some(i) => {
            assert(m[i as int].0 == id@);
            true
        },
        None => {
            assert forall|j: int| 0 <= j < m.len() implies (#[trigger] m[j]).0 != id@ by {
                assert(m[j].0 == seen@[j].0@);
            }
            false
        },
    }
}

/// The dependencies of one installed mod still to fetch (see `needed_deps`).
pub fn needed_dependencies(deps: &Vec<(String, String)>, seen: &Vec<(String, Installed)>) -> (r: Vec<
    (String, String),
>)
    ensures
        unique_keys(pairs_view(r@)),
        pairs_view(r@) == needed_deps(deps@, seen_view(seen@)),
{
    let mut r: Vec<(String, String)> = Vec::new();
    let mut i: usize = 0;
    assert(pairs_view(r@) =~= Seq::<(Seq<char>, Seq<char>)>::empty());
    while i < deps.len()
        invariant
            i <= deps@.len(),
            unique_keys(pairs_view(r@)),
            pairs_view(r@) == needed_deps(deps@.take(i as int), seen_view(seen@)),
        decreases deps.len() - i,
    {
        assert(deps@.take(i + 1).drop_last() =~= deps@.take(i as int));
        let id = &deps[i].0;
        let l = lowercase(id.as_str());
        let base = str_contains(l.as_str(), "game") || str_contains(l.as_str(), "creative")
            || str_contains(l.as_str(), "survival");
        if !base && !seen_has(seen, l.as_str()) {
            put_pair(&mut r, id, &deps[i].1);
        }
        i += 1;
    }
    assert(deps@.take(deps@.len() as int) =~= deps@);
    r
}

/// A dependency to fetch: its id and version, nothing else known yet.
pub open spec fn dep_install(d: (Seq<char>, Seq<char>)) -> InstallView {
    (d.0, Seq::empty(), d.1, Seq::empty(), None)
}

/// The installs for the needed dependencies of each recently installed mod,
/// mod after mod.
pub open spec fn needed_all(
    lists: Seq<Vec<(String, String)>>,
    seen: Seq<(Seq<char>, InstalledView)>,
) -> Seq<InstallView>
    decreases lists.len(),
{
    if lists.len() == 0 {
        Seq::empty()
    } else {
        needed_all(lists.drop_last(), seen) + needed_deps(lists.last()@, seen).map_values(
            |d: (Seq<char>, Seq<char>)| dep_install(d),
        )
    }
}

/// Some install of `v` is for the mod `id`.
pub open spec fn installs_mod(v: Seq<InstallView>, id: Seq<char>) -> bool {
    exists|k: int| 0 <= k < v.len() && v[k].0 == id
}

/// The dependencies of one mod still to fetch are those of its
/// dependencies that are needed, under their own ids.
proof fn lemma_needed_deps_keys(deps: Seq<(String, String)>, seen: Seq<(Seq<char>, InstalledView)>)
    ensures
        forall|j: int|
            0 <= j < deps.len() && dep_needed((#[trigger] deps[j]).0@, seen) ==> has_key(
                needed_deps(deps, seen),
                deps[j].0@,
            ),
        forall|p: int|
            0 <= p < needed_deps(deps, seen).len() ==> dep_needed(
                (#[trigger] needed_deps(deps, seen)[p]).0,
                seen,
            ) && exists|j: int| 0 <= j < deps.len() && (#[trigger] deps[j]).0@ == needed_deps(deps, seen)[p].0,
    decreases deps.len(),
{
    if deps.len() > 0 {
        let init = deps.drop_last();
        lemma_needed_deps_keys(init, seen);
        let rest = needed_deps(init, seen);
        let all = needed_deps(deps, seen);
        let n = deps.len() - 1;
        let d = deps.last();
        assert(deps[n] == d);
        assert forall|j: int|
            0 <= j < deps.len() && dep_needed((#[trigger] deps[j]).0@, seen) implies has_key(all, deps[j].0@) by {
            if j == n {
                lemma_put_keys(rest, d.0@, d.1@, d.0@);
            } else {
                assert(init[j] == deps[j]);
                assert(has_key(rest, init[j].0@));
                lemma_put_keys(rest, d.0@, d.1@, init[j].0@);
            }
        }
        assert forall|p: int| 0 <= p < all.len() implies dep_needed((#[trigger] all[p]).0, seen) && exists|j: int|
            0 <= j < deps.len() && (#[trigger] deps[j]).0@ == all[p].0 by {
            if dep_needed(d.0@, seen) {
                lemma_put_key_origin(rest, d.0@, d.1@, p);
                if all[p].0 == d.0@ {
                    assert(deps[n].0@ == all[p].0);
                } else {
                    let j = choose|j: int| 0 <= j < init.len() && (#[trigger] init[j]).0@ == rest[p].0;
                    assert(deps[j] == init[j]);
                }
            } else {
                assert(all[p] == rest[p]);
                let j = choose|j: int| 0 <= j < init.len() && (#[trigger] init[j]).0@ == rest[p].0;
                assert(deps[j] == init[j]);
            }
        }
    }
}

/// The dependency installs of several mods hold, mod after mod, an install
/// for each dependency still to fetch of each mod, and nothing else.
proof fn lemma_needed_all_keys(lists: Seq<Vec<(String, String)>>, seen: Seq<(Seq<char>, InstalledView)>)
    ensures
        forall|i: int, p: int|
            0 <= i < lists.len() && 0 <= p < needed_deps(lists[i]@, seen).len() ==> installs_mod(
                needed_all(lists, seen),
                (#[trigger] needed_deps(lists[i]@, seen)[p]).0,
            ),
        forall|k: int|
            0 <= k < needed_all(lists, seen).len() ==> exists|i: int|
                0 <= i < lists.len() && has_key(
                    needed_deps((#[trigger] lists[i])@, seen),
                    (#[trigger] needed_all(lists, seen)[k]).0,
                ),
    decreases lists.len(),
{
    if lists.len() > 0 {
        let init = lists.drop_last();
        lemma_needed_all_keys(init, seen);
        let n = lists.len() - 1;
        let before = needed_all(init, seen);
        let last = needed_deps(lists[n]@, seen);
        let all = needed_all(lists, seen);
        assert(lists.last() == lists[n]);
        assert(all == before + last.map_values(|d: (Seq<char>, Seq<char>)| dep_install(d)));
        assert forall|i: int, p: int|
            0 <= i < lists.len() && 0 <= p < needed_deps(lists[i]@, seen).len() implies installs_mod(
                all,
                (#[trigger] needed_deps(lists[i]@, seen)[p]).0,
            ) by {
            if i == n {
                assert(all[before.len() + p].0 == last[p].0);
            } else {
                assert(init[i] == lists[i]);
                assert(needed_deps(init[i]@, seen)[p] == needed_deps(lists[i]@, seen)[p]);
                let k = choose|k: int| 0 <= k < before.len() && before[k].0 == needed_deps(init[i]@, seen)[p].0;
                assert(all[k] == before[k]);
            }
        }
        assert forall|k: int| 0 <= k < all.len() implies exists|i: int|
            0 <= i < lists.len() && has_key(needed_deps((#[trigger] lists[i])@, seen), (#[trigger] all[k]).0) by {
            if k < before.len() {
                assert(all[k] == before[k]);
                let i = choose|i: int|
                    0 <= i < init.len() && has_key(needed_deps((#[trigger] init[i])@, seen), (#[trigger] before[k]).0);
                assert(lists[i] == init[i]);
            } else {
                let p = k - before.len();
                assert(all[k].0 == last[p].0);
                assert(has_key(last, all[k].0));
            }
        }
    }
}

/// Every dependency of a recently installed mod that is still to fetch (not
/// the game once lowercased, not a seen mod) gets an install, under its id;
/// and every dependency install is of such a dependency.
pub proof fn lemma_dependency_installs_cover(
    lists: Seq<Vec<(String, String)>>,
    seen: Seq<(Seq<char>, InstalledView)>,
)
    ensures
        forall|i: int, j: int|
            0 <= i < lists.len() && 0 <= j < lists[i]@.len() && dep_needed(
                (#[trigger] lists[i]@[j]).0@,
                seen,
            ) ==> installs_mod(needed_all(lists, seen), lists[i]@[j].0@),
        forall|k: int|
            0 <= k < needed_all(lists, seen).len() ==> dep_needed(
                (#[trigger] needed_all(lists, seen)[k]).0,
                seen,
            ) && exists|i: int, j: int|
                0 <= i < lists.len() && 0 <= j < lists[i]@.len() && (#[trigger] lists[i]@[j]).0@
                    == needed_all(lists, seen)[k].0,
{
    lemma_needed_all_keys(lists, seen);
    let all = needed_all(lists, seen);
    assert forall|i: int, j: int|
        0 <= i < lists.len() && 0 <= j < lists[i]@.len() && dep_needed((#[trigger] lists[i]@[j]).0@, seen)
            implies installs_mod(all, lists[i]@[j].0@) by {
        lemma_needed_deps_keys(lists[i]@, seen);
        let nd = needed_deps(lists[i]@, seen);
        assert(has_key(nd, lists[i]@[j].0@));
        let p = key_pos(nd, lists[i]@[j].0@);
        assert(nd[p].0 == lists[i]@[j].0@);
    }
    assert forall|k: int| 0 <= k < all.len() implies dep_needed((#[trigger] all[k]).0, seen) && exists|
        i: int,
        j: int,
    | 0 <= i < lists.len() && 0 <= j < lists[i]@.len() && (#[trigger] lists[i]@[j]).0@ == all[k].0 by {
        let i = choose|i: int| 0 <= i < lists.len() && has_key(needed_deps((#[trigger] lists[i])@, seen), all[k].0);
        let nd = needed_deps(lists[i]@, seen);
        lemma_needed_deps_keys(lists[i]@, seen);
        let p = key_pos(nd, all[k].0);
        assert(nd[p].0 == all[k].0);
        let j = choose|j: int| 0 <= j < lists[i]@.len() && (#[trigger] lists[i]@[j]).0@ == nd[p].0;
    }
}

/// The installs for the dependencies still to fetch (see `needed_all`):
/// one list of dependencies per recently installed mod.
pub fn dependency_installs(lists: &Vec<Vec<(String, String)>>, seen: &Vec<(String, Installed)>) -> (r:
    Vec<Install>)
    ensures
        installs_view(r@) == needed_all(lists@, seen_view(seen@)),
        forall|i: int, j: int|
            0 <= i < lists@.len() && 0 <= j < lists@[i]@.len() && dep_needed(
                (#[trigger] lists@[i]@[j]).0@,
                seen_view(seen@),
            ) ==> installs_mod(installs_view(r@), lists@[i]@[j].0@),
        forall|k: int|
            0 <= k < r@.len() ==> dep_needed((#[trigger] r@[k]).mod_id@, seen_view(seen@)) && exists|
                i: int,
                j: int,
            | 0 <= i < lists@.len() && 0 <= j < lists@[i]@.len() && (#[trigger] lists@[i]@[j]).0@ == r@[k].mod_id@,
{
    let mut r: Vec<Install> = Vec::new();
    let mut i: usize = 0;
    assert(installs_view(r@) =~= Seq::<InstallView>::empty());
    while i < lists.len()
        invariant
            i <= lists@.len(),
            installs_view(r@) == needed_all(lists@.take(i as int), seen_view(seen@)),
        decreases lists.len() - i,
    {
        assert(lists@.take(i + 1).drop_last() =~= lists@.take(i as int));
        let needed = needed_dependencies(&lists[i], seen);
        let ghost before = installs_view(r@);
        let ghost nd = pairs_view(needed@).map_values(|d: (Seq<char>, Seq<char>)| dep_install(d));
        let mut j: usize = 0;
        while j < needed.len()
            invariant
                j <= needed@.len(),
                nd == pairs_view(needed@).map_values(|d: (Seq<char>, Seq<char>)| dep_install(d)),
                installs_view(r@) == before + nd.take(j as int),
            decreases needed.len() - j,
        {
            let ghost prev = installs_view(r@);
            let inst = Install {
                mod_id: needed[j].0.clone(),
                mod_name: String::new(),
                version_to_install: needed[j].1.clone(),
                download_url: String::new(),
                current_file_path: None,
            };
            r.push(inst);
            assert(installs_view(r@) =~= prev.push(inst@));
            assert(before + nd.take(j + 1) =~= (before + nd.take(j as int)).push(nd[j as int]));
            j += 1;
        }
        assert(nd.take(nd.len() as int) =~= nd);
        i += 1;
    }
    assert(lists@.take(lists@.len() as int) =~= lists@);
    proof {
        lemma_dependency_installs_cover(lists@, seen_view(seen@));
        assert forall|k: int| 0 <= k < r@.len() implies (#[trigger] r@[k]).mod_id@ == installs_view(r@)[k].0 by {}
    }
    r
}

/// A path text whose components are plain on every platform: not empty,
/// `/` as its only separator (no `\\`, no `:`, so no Windows prefix), no
/// empty component (no `//`, no trailing `/`) and no `.` component. Its
/// components (and a leading root) spell the text back, so two such texts
/// are one path only when they are equal.
pub open spec fn normal_path(s: Seq<char>) -> bool {
    &&& s.len() > 0
    &&& s.last() != '/'
    &&& forall|i: int| 0 <= i < s.len() ==> (#[trigger] s[i]) != '\\' && s[i] != ':'
    &&& forall|i: int| 0 <= i < s.len() - 1 ==> !((#[trigger] s[i]) == '/' && s[i + 1] == '/')
    &&& forall|i: int|
        0 <= i < s.len() && (#[trigger] s[i]) == '.' ==> !((i == 0 || s[i - 1] == '/') && (i == s.len() - 1 || s[i
            + 1] == '/'))
}

/// One round of installing with dependencies, once a batch of downloads
/// (`recent`) is done and the dependency lists of the files it installed
/// (`lists`) are read: the batch joins the results, every mod of it is
/// recorded as seen, and the dependencies not seen yet are what the next
/// round installs (none left ends the installing).
pub fn install_round(
    processed: &mut Vec<Installed>,
    seen: &mut Vec<(String, Installed)>,
    recent: &Vec<Installed>,
    lists: &Vec<Vec<(String, String)>>,
) -> (needed: Vec<Install>)
    requires
        unique_keys(seen_view(old(seen)@)),
    ensures
        installed_views(final(processed)@) == installed_views(old(processed)@) + installed_views(recent@),
        unique_keys(seen_view(final(seen)@)),
        seen_view(final(seen)@) == seen_after(seen_view(old(seen)@), recent@),
        installs_view(needed@) == needed_all(lists@, seen_view(final(seen)@)),
{
    let ghost before = installed_views(processed@);
    let mut i: usize = 0;
    while i < recent.len()
        invariant
            i <= recent@.len(),
            installed_views(processed@) == before + installed_views(recent@.take(i as int)),
        decreases recent.len() - i,
    {
        let ghost cur = installed_views(processed@);
        processed.push(recent[i].duplicate());
        assert(installed_views(processed@) =~= cur.push(recent@[i as int]@));
        assert(installed_views(recent@.take(i + 1)) =~= installed_views(recent@.take(i as int)).push(
            recent@[i as int]@,
        ));
        i += 1;
    }
    assert(recent@.take(recent@.len() as int) =~= recent@);
    record_seen(seen, recent);
    dependency_installs(lists, seen)
}

/// Calls `PartialEq::eq` on two `std::path::Path`s (equal when their
/// components are). Which separators split components depends on the
/// platform, so the result is not named; stated is what holds everywhere:
/// equal texts are equal paths, and two different texts that are both
/// `normal_path`s are different paths (their components differ on every
/// platform). Other differing texts (`m/./a.zip` and `m/a.zip`, say) are
/// left unsaid.
#[verifier::external_body]
fn same_path(a: &str, b: &str) -> (r: bool)
    ensures
        a@ == b@ ==> r,
        normal_path(a@) && normal_path(b@) && a@ != b@ ==> !r,
{
    std::path::Path::new(a) == std::path::Path::new(b)
}

/// The files an update leaves behind: the old file of each install that has
/// an old and a new file, unless `same` says that they are one path.
pub open spec fn stale_files(processed: Seq<Installed>, same: Seq<bool>) -> Seq<Seq<char>>
    decreases processed.len(),
{
    if processed.len() == 0 {
        Seq::empty()
    } else {
        let rest = stale_files(processed.drop_last(), same);
        let p = processed.last();
        match (p.old_file_path, p.installed_file_path) {
            (Some(o), Some(n)) => if !same[processed.len() - 1] {
                rest.push(o@)
            } else {
                rest
            },
            _ => rest,
        }
    }
}

/// Whether the old and the new file of each install are one path, as far as
/// the texts tell: equal texts always are, different normal path texts
/// never are.
pub open spec fn same_paths_fit(processed: Seq<Installed>, same: Seq<bool>) -> bool {
    &&& same.len() == processed.len()
    &&& forall|k: int|
        0 <= k < processed.len() ==> (match (processed[k].old_file_path, processed[k].installed_file_path) {
            (Some(o), Some(n)) => (o@ == n@ ==> #[trigger] same[k]) && (normal_path(o@) && normal_path(n@) && o@
                != n@ ==> !same[k]),
            _ => true,
        })
}

/// `f` is the old file of an install that has an old and a new file which
/// `same` does not call one path.
pub open spec fn stale_old_file(processed: Seq<Installed>, same: Seq<bool>, f: Seq<char>) -> bool {
    exists|i: int|
        0 <= i < processed.len() && (#[trigger] processed[i]).installed_file_path is Some && !same[i]
            && processed[i].old_file_path is Some && processed[i].old_file_path->0@ == f
}

/// An update leaves behind the old file of every install that has an old
/// and a new file which are not one path, and no other file.
pub proof fn lemma_stale_files_cover(processed: Seq<Installed>, same: Seq<bool>)
    requires
        same.len() == processed.len(),
    ensures
        stale_files(processed, same).len() <= processed.len(),
        forall|i: int|
            0 <= i < processed.len() && (#[trigger] processed[i]).installed_file_path is Some && !same[i]
                && processed[i].old_file_path is Some ==> stale_files(processed, same).contains(
                processed[i].old_file_path->0@,
            ),
        forall|q: int|
            0 <= q < stale_files(processed, same).len() ==> stale_old_file(
                processed,
                same,
                #[trigger] stale_files(processed, same)[q],
            ),
{
    lemma_stale_files_prefix(processed, same, processed.len() as int);
    assert(processed.take(processed.len() as int) =~= processed);
}

/// The same for the installs up to `n`, with `same` for all of them.
proof fn lemma_stale_files_prefix(processed: Seq<Installed>, same: Seq<bool>, n: int)
    requires
        same.len() == processed.len(),
        0 <= n <= processed.len(),
    ensures
        stale_files(processed.take(n), same).len() <= n,
        forall|i: int|
            0 <= i < n && (#[trigger] processed[i]).installed_file_path is Some && !same[i]
                && processed[i].old_file_path is Some ==> stale_files(processed.take(n), same).contains(
                processed[i].old_file_path->0@,
            ),
        forall|q: int|
            0 <= q < stale_files(processed.take(n), same).len() ==> stale_old_file(
                processed,
                same,
                #[trigger] stale_files(processed.take(n), same)[q],
            ),
    decreases n,
{
    if n > 0 {
        lemma_stale_files_prefix(processed, same, n - 1);
        let t = processed.take(n);
        assert(t.drop_last() =~= processed.take(n - 1));
        assert(t.last() == processed[n - 1]);
        assert(t.len() - 1 == n - 1);
        let rest = stale_files(processed.take(n - 1), same);
        let all = stale_files(t, same);
        let p = processed[n - 1];
        assert forall|i: int|
            0 <= i < n && (#[trigger] processed[i]).installed_file_path is Some && !same[i]
                && processed[i].old_file_path is Some implies all.contains(processed[i].old_file_path->0@) by {
            if i == n - 1 {
                assert(all[rest.len() as int] == processed[i].old_file_path->0@);
            } else {
                let w = choose|w: int| 0 <= w < rest.len() && rest[w] == processed[i].old_file_path->0@;
                assert(all[w] == rest[w]);
            }
        }
        assert forall|q: int| 0 <= q < all.len() implies stale_old_file(processed, same, #[trigger] all[q]) by {
            if q < rest.len() {
                assert(all[q] == rest[q]);
                assert(stale_old_file(processed, same, rest[q]));
            } else {
                assert(processed[n - 1] == p);
                assert(all[q] == p.old_file_path->0@);
            }
        }
    }
}

/// The old files to delete after an update, given for each install whether
/// its old and new file are one path (see `stale_files`).
pub fn stale_files_of(processed: &Vec<Installed>, same: &Vec<bool>) -> (r: Vec<String>)
    requires
        same@.len() == processed@.len(),
    ensures
        r@.map_values(|s: String| s@) == stale_files(processed@, same@),
{
    let mut r: Vec<String> = Vec::new();
    let mut i: usize = 0;
    assert(r@.map_values(|s: String| s@) =~= Seq::<Seq<char>>::empty());
    while i < processed.len()
        invariant
            i <= processed@.len(),
            same@.len() == processed@.len(),
            r@.map_values(|s: String| s@) == stale_files(processed@.take(i as int), same@),
        decreases processed.len() - i,
    {
        assert(processed@.take(i + 1).drop_last() =~= processed@.take(i as int));
        let p = &processed[i];
        match (&p.old_file_path, &p.installed_file_path) {
            (Some(o), Some(_)) => {
                if !same[i] {
                    let ghost before = r@.map_values(|s: String| s@);
                    r.push(o.clone());
                    assert(r@.map_values(|s: String| s@) =~= before.push(o@));
                }
            },
            _ => {},
        }
        i += 1;
    }
    assert(processed@.take(processed@.len() as int) =~= processed@);
    r
}

/// The old files to delete after an update: those of the installs whose old
/// and new file are not one path (compared as paths, see `stale_files_of`).
pub fn old_files_to_remove(processed: &Vec<Installed>) -> (r: Vec<String>)
    ensures
        exists|same: Seq<bool>|
            same_paths_fit(processed@, same) && #[trigger] stale_files(processed@, same) == r@.map_values(
                |s: String| s@,
            ),
{
    let mut same: Vec<bool> = Vec::new();
    let mut i: usize = 0;
    while i < processed.len()
        invariant
            i <= processed@.len(),
            same@.len() == i,
            forall|k: int|
                0 <= k < i ==> (match (processed@[k].old_file_path, processed@[k].installed_file_path) {
                    (Some(o), Some(n)) => (o@ == n@ ==> #[trigger] same@[k]) && (normal_path(o@) && normal_path(n@)
                        && o@ != n@ ==> !same@[k]),
                    _ => true,
                }),
        decreases processed.len() - i,
    {
        let p = &processed[i];
        let b = match (&p.old_file_path, &p.installed_file_path) {
            (Some(o), Some(n)) => same_path(o.as_str(), n.as_str()),
            _ => true,
        };
        same.push(b);
        i += 1;
    }
    let r = stale_files_of(processed, &same);
    assert(same_paths_fit(processed@, same@));
    r
}


/// Some result in `v` has the id.
pub open spec fn has_result_id(v: Seq<InstalledView>, id: Seq<char>) -> bool {
    exists|k: int| 0 <= k < v.len() && (#[trigger] v[k]).0 == id
}

/// Each id kept once: the first result of each id, in order.
pub open spec fn dedup_ids(s: Seq<InstalledView>) -> Seq<InstalledView>
    decreases s.len(),
{
    if s.len() == 0 {
        s
    } else {
        let d = dedup_ids(s.drop_last());
        if has_result_id(d, s.last().0) {
            d
        } else {
            d.push(s.last())
        }
    }
}

/// Whether some result has the id.
fn results_have_id(r: &Vec<Installed>, id: &str) -> (b: bool)
    ensures
        b == has_result_id(installed_views(r@), id@),
{
    let mut i: usize = 0;
    while i < r.len()
        invariant
            i <= r@.len(),
            forall|k: int| 0 <= k < i ==> r@[k].mod_id@ != id@,
        decreases r.len() - i,
    {
        if str_eq(r[i].mod_id.as_str(), id) {
            assert(installed_views(r@)[i as int].0 == id@);
            return true;
        }
        i += 1;
    }
    assert forall|k: int| 0 <= k < installed_views(r@).len() implies (#[trigger] installed_views(r@)[k]).0 != id@ by {
        assert(installed_views(r@)[k] == r@[k]@);
    }
    false
}

pub open spec fn installed_views(v: Seq<Installed>) -> Seq<InstalledView> {
    v.map_values(|i: Installed| i@)
}

/// The lowercased names of the results.
pub open spec fn lower_names(v: Seq<Installed>) -> Seq<Seq<char>> {
    v.map_values(|i: Installed| unicode_lowercase(i.mod_name@))
}

/// The results in the order given by `perm`.
pub open spec fn permuted(v: Seq<Installed>, perm: Seq<usize>) -> Seq<InstalledView> {
    perm.map_values(|k: usize| v[k as int]@)
}

/// The results sorted by name ignoring case (a stable sort), each id kept
/// once (its first result in that order).
pub fn finish_processed(mods: &Vec<Installed>) -> (r: Vec<Installed>)
    ensures
        exists|perm: Seq<usize>|
            same_positions(index_range(mods@.len()), perm) && texts_sorted(lower_names(mods@), perm)
                && texts_stable(lower_names(mods@), perm) && installed_views(r@) == dedup_ids(
                permuted(mods@, perm),
            ),
{
    let mut keys: Vec<String> = Vec::new();
    let mut i: usize = 0;
    while i < mods.len()
        invariant
            i <= mods@.len(),
            texts_of(keys@) == lower_names(mods@.take(i as int)),
        decreases mods.len() - i,
    {
        let ghost before = texts_of(keys@);
        keys.push(lowercase(mods[i].mod_name.as_str()));
        assert(texts_of(keys@) =~= before.push(unicode_lowercase(mods@[i as int].mod_name@)));
        assert(lower_names(mods@.take(i + 1)) =~= lower_names(mods@.take(i as int)).push(
            unicode_lowercase(mods@[i as int].mod_name@),
        ));
        i += 1;
    }
    assert(mods@.take(mods@.len() as int) =~= mods@);
    let perm = sort_text_positions(&keys);
    let ghost ps = permuted(mods@, perm@);
    let mut r: Vec<Installed> = Vec::new();
    let mut j: usize = 0;
    assert(installed_views(r@) =~= dedup_ids(ps.take(0)));
    while j < perm.len()
        invariant
            j <= perm@.len(),
            keys@.len() == mods@.len(),
            ps == permuted(mods@, perm@),
            forall|k: int| 0 <= k < perm@.len() ==> #[trigger] perm@[k] < keys@.len(),
            installed_views(r@) == dedup_ids(ps.take(j as int)),
        decreases perm.len() - j,
    {
        assert(ps.take(j + 1).drop_last() =~= ps.take(j as int));
        assert(ps.take(j + 1).last() == mods@[perm@[j as int] as int]@);
        let m = &mods[perm[j]];
        let ghost before = installed_views(r@);
        let same = results_have_id(&r, m.mod_id.as_str());
        if !same {
            r.push(m.duplicate());
            assert(installed_views(r@) =~= before.push(m@));
        }
        j += 1;
    }
    assert(ps.take(ps.len() as int) =~= ps);
    r
}


// ---------------------------------------------------------------------------
// Laws
// ---------------------------------------------------------------------------

proof fn lemma_mod_missing_deps_exclude(deps: Seq<(String, String)>, file_name: Seq<char>, sync: Seq<(String, ModSyncInfo)>)
    ensures
        forall|i: int|
            0 <= i < mod_missing_deps(deps, file_name, sync).len() ==> dep_missing(
                (#[trigger] mod_missing_deps(deps, file_name, sync)[i]).0,
                sync,
            ),
    decreases deps.len(),
{
    if deps.len() > 0 {
        lemma_mod_missing_deps_exclude(deps.drop_last(), file_name, sync);
        let rest = mod_missing_deps(deps.drop_last(), file_name, sync);
        let all = mod_missing_deps(deps, file_name, sync);
        assert forall|i: int| 0 <= i < all.len() implies dep_missing((#[trigger] all[i]).0, sync) by {
            if i < rest.len() {
                assert(all[i] == rest[i]);
            }
        }
    }
}

/// The dependencies gathered for installation never include the game itself
/// (`game`, `survival`, `creative`) nor a mod that the sync data holds.
pub proof fn lemma_missing_deps_exclude(
    installed: Seq<(String, ModInfo)>,
    requested: Seq<String>,
    sync: Seq<(String, ModSyncInfo)>,
)
    ensures
        forall|i: int|
            0 <= i < missing_deps_all(installed, requested, sync).len() ==> {
                let id = (#[trigger] missing_deps_all(installed, requested, sync)[i]).0;
                !base_game_id(id) && !has_key(sync_view(sync), id)
            },
    decreases installed.len(),
{
    if installed.len() > 0 {
        lemma_missing_deps_exclude(installed.drop_last(), requested, sync);
        let e = installed.last();
        let rest = missing_deps_all(installed.drop_last(), requested, sync);
        let all = missing_deps_all(installed, requested, sync);
        lemma_mod_missing_deps_exclude(e.1.dependencies@, e.0@, sync);
        let mine = mod_missing_deps(e.1.dependencies@, e.0@, sync);
        assert forall|i: int| 0 <= i < all.len() implies dep_missing((#[trigger] all[i]).0, sync) by {
            if mod_selected(e.1, requested) {
                if i < rest.len() {
                    assert(all[i] == rest[i]);
                } else {
                    assert(all[i] == mine[i - rest.len()]);
                }
            }
        }
    }
}

/// After the final clean-up of the results, no two results share an id,
/// and every id of the results is still there.
pub proof fn lemma_dedup_ids_unique(s: Seq<InstalledView>)
    ensures
        forall|a: int, b: int|
            0 <= a < b < dedup_ids(s).len() ==> (#[trigger] dedup_ids(s)[a]).0 != (#[trigger] dedup_ids(s)[b]).0,
        forall|i: int| 0 <= i < s.len() ==> has_result_id(dedup_ids(s), (#[trigger] s[i]).0),
    decreases s.len(),
{
    if s.len() > 0 {
        let t = s.drop_last();
        lemma_dedup_ids_unique(t);
        let d = dedup_ids(t);
        let r = dedup_ids(s);
        if has_result_id(d, s.last().0) {
            assert(r == d);
            assert forall|i: int| 0 <= i < s.len() implies has_result_id(r, (#[trigger] s[i]).0) by {
                if i < t.len() {
                    assert(s[i] == t[i]);
                }
            }
        } else {
            assert(r == d.push(s.last()));
            assert forall|a: int, b: int| 0 <= a < b < r.len() implies (#[trigger] r[a]).0 != (#[trigger] r[b]).0 by {
                if b < d.len() {
                    assert(r[a] == d[a] && r[b] == d[b]);
                } else {
                    assert(r[a] == d[a]);
                }
            }
            assert forall|i: int| 0 <= i < s.len() implies has_result_id(r, (#[trigger] s[i]).0) by {
                if i < t.len() {
                    assert(s[i] == t[i]);
                    let k = choose|k: int| 0 <= k < d.len() && (#[trigger] d[k]).0 == t[i].0;
                    assert(r[k] == d[k]);
                } else {
                    assert(r[d.len() as int] == s.last());
                }
            }
        }
    }
}

/// Every mod of a batch of installs is recorded among the seen mods, and
/// every mod seen before still is.
pub proof fn lemma_seen_after_keys(m: Seq<(Seq<char>, InstalledView)>, recent: Seq<Installed>, other: Seq<char>)
    ensures
        forall|i: int| 0 <= i < recent.len() ==> has_key(seen_after(m, recent), (#[trigger] recent[i]).mod_id@),
        has_key(m, other) ==> has_key(seen_after(m, recent), other),
    decreases recent.len(),
{
    if recent.len() > 0 {
        let last = recent.last();
        let before = seen_after(m, recent.drop_last());
        lemma_seen_after_keys(m, recent.drop_last(), other);
        lemma_put_keys(before, last.mod_id@, last@, other);
        assert forall|i: int| 0 <= i < recent.len() implies has_key(seen_after(m, recent), (#[trigger] recent[i]).mod_id@) by {
            if i < recent.len() - 1 {
                lemma_seen_after_keys(m, recent.drop_last(), recent[i].mod_id@);
                assert(recent.drop_last()[i] == recent[i]);
                lemma_put_keys(before, last.mod_id@, last@, recent[i].mod_id@);
            }
        }
    }
}

} // verus!
