//! Modpacks: their description, the `modinfo.json` made from it, the mods a
//! new modpack holds, and which modpacks are enabled.
use vstd::prelude::*;
use crate::api_structs::{Mod, ModApi, ModInfo, StringOrInt};
use crate::config::Package;
use crate::install::{installs_view, Install, InstallView};
use crate::error::RustiqueError;
use crate::keyed::{
    find_key, has_key, lemma_pos_unique, lemma_push_unique, lemma_put_key_origin, lemma_put_keys,
    lemma_update_unique, put, unique_keys,
};
use crate::search::has_exact;
use crate::install::pairs_view;
use crate::text::{
    clone_opt_string, decimal, eq_ignore_ascii_case, eq_ignore_ascii_case_spec, or_empty,
    u64_to_string, unwrap_or_empty, vec_contains_string,
};
use crate::version::{parse_version, parsed, parses, version_text};

verus! {

/// The description of a modpack.
#[derive(Debug)]
pub struct ModPack {
    pub name: String,
    pub mpk_id: String,
    pub version: String,
    pub game_version: Option<String>,
    pub description: Option<String>,
    pub author: Option<String>,
    pub contact: Option<String>,
    pub website: Option<String>,
}

impl Default for ModPack {
    fn default() -> (r: Self)
        ensures
            r.name@.len() == 0 && r.mpk_id@.len() == 0 && r.version@.len() == 0,
            r.game_version is None && r.description is None && r.author is None,
            r.contact is None && r.website is None,
    {
        ModPack {
            name: String::new(),
            mpk_id: String::new(),
            version: String::new(),
            game_version: None,
            description: None,
            author: None,
            contact: None,
            website: None,
        }
    }
}

/// A mod of a modpack: its id and version.
#[derive(Debug)]
pub struct MPMods {
    pub mod_id: String,
    pub version: String,
}

impl Default for MPMods {
    fn default() -> (r: Self)
        ensures
            r.mod_id@.len() == 0 && r.version@.len() == 0,
    {
        MPMods { mod_id: String::new(), version: String::new() }
    }
}

/// `modpack.toml`: the modpack and its mods, by mod id.
#[derive(Debug)]
pub struct ModPackToml {
    pub modpack: ModPack,
    pub mods: Vec<(String, MPMods)>,
}

/// A modpack archive: the modpack and its mods, by mod name.
#[derive(Debug)]
pub struct ModPackZip {
    pub modpack: ModPack,
    pub mods: Vec<(String, MPMods)>,
}

/// The `modinfo.json` of a modpack: its id, name and version, its author as
/// the only author, its description and website, and its mods as
/// dependencies (id and version, in order); everything else blank.
pub open spec fn modpack_modinfo(mp: ModPack, mods: Seq<(String, MPMods)>, info: ModInfo) -> bool {
    &&& info.mod_id@ == mp.mpk_id@
    &&& info.name@ == mp.name@
    &&& info.version == Some(mp.version)
    &&& info.authors@.map_values(|a: String| a@) == (match mp.author {
        Some(a) => seq![a@],
        None => Seq::empty(),
    })
    &&& info.description == mp.description
    &&& info.website == mp.website
    &&& pairs_view(info.dependencies@) == mods.map_values(
        |e: (String, MPMods)| (e.1.mod_id@, e.1.version@),
    )
    &&& info.mod_type matches StringOrInt::String(t) && t@.len() == 0
    &&& info.network_version is None && info.texture_size is None
    &&& info.contributors@.len() == 0 && info.side is None
    &&& info.required_on_client is None && info.required_on_server is None
}

fn modinfo_of(mp: &ModPack, mods: &Vec<(String, MPMods)>) -> (r: ModInfo)
    ensures
        modpack_modinfo(*mp, mods@, r),
{
    let mut deps: Vec<(String, String)> = Vec::new();
    let mut i: usize = 0;
    while i < mods.len()
        invariant
            i <= mods@.len(),
            pairs_view(deps@) == mods@.take(i as int).map_values(
                |e: (String, MPMods)| (e.1.mod_id@, e.1.version@),
            ),
        decreases mods.len() - i,
    {
        let ghost before = pairs_view(deps@);
        let m = &mods[i].1;
        deps.push((m.mod_id.clone(), m.version.clone()));
        assert(pairs_view(deps@) =~= before.push((m.mod_id@, m.version@)));
        assert(mods@.take(i + 1).map_values(|e: (String, MPMods)| (e.1.mod_id@, e.1.version@))
            =~= mods@.take(i as int).map_values(
            |e: (String, MPMods)| (e.1.mod_id@, e.1.version@),
        ).push((m.mod_id@, m.version@)));
        i += 1;
    }
    assert(mods@.take(mods@.len() as int) =~= mods@);
    let mut authors: Vec<String> = Vec::new();
    match &mp.author {
        Some(a) => {
            authors.push(a.clone());
        },
        None => {},
    }
    assert(authors@.map_values(|a: String| a@) =~= (match mp.author {
        Some(a) => seq![a@],
        None => Seq::<Seq<char>>::empty(),
    }));
    let mut info = ModInfo::default();
    info.mod_id = mp.mpk_id.clone();
    info.name = mp.name.clone();
    info.version = Some(mp.version.clone());
    info.authors = authors;
    info.description = clone_opt_string(&mp.description);
    info.website = clone_opt_string(&mp.website);
    info.dependencies = deps;
    info
}

impl ModPackToml {
    /// The `modinfo.json` of the modpack (see `modpack_modinfo`).
    pub fn gen_modinfo(&self) -> (r: ModInfo)
        ensures
            modpack_modinfo(self.modpack, self.mods@, r),
    {
        modinfo_of(&self.modpack, &self.mods)
    }

    /// Packing a modpack from its `modpack.toml` does nothing yet, and
    /// succeeds.
    pub fn create_modpack_zip(&self, save_path: &str) -> (r: Result<(), RustiqueError>)
        ensures
            r is Ok,
    {
        Ok(())
    }
}

impl ModPackZip {
    /// The `modinfo.json` of the modpack (see `modpack_modinfo`); it never
    /// fails.
    pub fn gen_modinfo(&self) -> (r: Result<ModInfo, RustiqueError>)
        ensures
            r matches Ok(info) && modpack_modinfo(self.modpack, self.mods@, info),
    {
        Ok(modinfo_of(&self.modpack, &self.mods))
    }
}

// ---------------------------------------------------------------------------
// Creating a modpack
// ---------------------------------------------------------------------------

/// The options of `modpack create`.
#[derive(Debug)]
pub struct MPCreateArgs {
    pub interactive: bool,
    pub name: String,
    pub mpk_id: String,
    pub mpk_version: String,
    pub game_version: Option<String>,
    pub description: Option<String>,
    pub author: Option<String>,
    pub contact: Option<String>,
    pub website: Option<String>,
    pub save_path: Option<String>,
}

/// The `modinfo.json` a new modpack starts from: the name, id and version
/// given, the description and website given, the author given (an empty
/// author when none is), no dependencies, everything else blank.
pub open spec fn create_modinfo(args: MPCreateArgs, info: ModInfo) -> bool {
    &&& info.name@ == args.name@
    &&& info.mod_id@ == args.mpk_id@
    &&& info.version == Some(args.mpk_version)
    &&& info.description == args.description
    &&& info.website == args.website
    &&& info.authors@.map_values(|a: String| a@) == seq![or_empty(args.author)]
    &&& info.dependencies@.len() == 0
    &&& info.mod_type matches StringOrInt::String(t) && t@.len() == 0
    &&& info.network_version is None && info.texture_size is None
    &&& info.contributors@.len() == 0 && info.side is None
    &&& info.required_on_client is None && info.required_on_server is None
}

/// The `modinfo.json` a new modpack starts from (see `create_modinfo`); it
/// never fails.
pub fn collect_mp_create_args(args: &MPCreateArgs) -> (r: Result<ModInfo, RustiqueError>)
    ensures
        r matches Ok(info) && create_modinfo(*args, info),
{
    let mut authors: Vec<String> = Vec::new();
    authors.push(unwrap_or_empty(&args.author));
    assert(authors@.map_values(|a: String| a@) =~= seq![or_empty(args.author)]);
    Ok(ModInfo {
        name: args.name.clone(),
        mod_type: StringOrInt::default(),
        mod_id: args.mpk_id.clone(),
        version: Some(args.mpk_version.clone()),
        network_version: None,
        texture_size: None,
        description: clone_opt_string(&args.description),
        website: clone_opt_string(&args.website),
        authors,
        contributors: Vec::new(),
        side: None,
        required_on_client: None,
        required_on_server: None,
        dependencies: Vec::new(),
    })
}

/// A search entry names a mod: its name equals the mod's name ignoring ASCII
/// case; an entry without a name names it when one of its mod id strings is
/// exactly the mod's name.
pub open spec fn entry_names(m: ModApi, name: Seq<char>) -> bool {
    match m.name {
        Some(n) => eq_ignore_ascii_case_spec(name, n@),
        None => has_exact(m.mod_id_strs@, name),
    }
}

/// The message when no single search entry names a mod.
pub open spec fn mod_id_not_found(name: Seq<char>) -> Seq<char> {
    "Unable to locate mod_id for "@ + name
}

/// The mod id of the one search entry that names the mod (see
/// `entry_names`), as decimal text; an error when none or several do.
pub fn find_mod_id(mod_name: &String, mod_filename: &String, mods_search_data: &[ModApi]) -> (r: Result<
    String,
    RustiqueError,
>)
    ensures
        ({
            let found = mods_search_data@.filter(|m: ModApi| entry_names(m, mod_name@));
            &&& r is Ok <==> found.len() == 1
            &&& r matches Ok(id) ==> id@ == decimal(found[0].mod_id as nat)
            &&& r matches Err(e) ==> e matches RustiqueError::SimpleError(msg) && msg@
                == mod_id_not_found(mod_name@)
        }),
{
    let ghost p = |m: ModApi| entry_names(m, mod_name@);
    let mut count: usize = 0;
    let mut first: u32 = 0;
    let mut i: usize = 0;
    while i < mods_search_data.len()
        invariant
            i <= mods_search_data@.len(),
            p == (|m: ModApi| entry_names(m, mod_name@)),
            count == mods_search_data@.take(i as int).filter(p).len(),
            count >= 1 ==> first == mods_search_data@.take(i as int).filter(p)[0].mod_id,
        decreases mods_search_data.len() - i,
    {
        proof {
            crate::keyed::lemma_filter_take(mods_search_data@, p, i as int);
        }
        let m = &mods_search_data[i];
        let names = match &m.name {
            Some(n) => eq_ignore_ascii_case(mod_name.as_str(), n.as_str()),
            None => vec_contains_string(&m.mod_id_strs, mod_name.as_str()),
        };
        if names {
            if count == 0 {
                first = m.mod_id;
            }
            count += 1;
        }
        i += 1;
    }
    assert(mods_search_data@.take(mods_search_data@.len() as int) =~= mods_search_data@);
    if count == 1 {
        Ok(u64_to_string(first as u64))
    } else {
        let mut msg = String::new();
        msg.push_str("Unable to locate mod_id for ");
        msg.push_str(mod_name.as_str());
        Err(RustiqueError::SimpleError(msg))
    }
}

/// The version a mod takes in a new modpack: its version as the version
/// parser writes it back; `0.0.0` when it has none or it does not parse.
pub open spec fn pack_version(v: Option<String>) -> Seq<char> {
    let raw = match v {
        Some(s) => s@,
        None => "0.0.0"@,
    };
    if parses(raw) {
        version_text(parsed(raw))
    } else {
        version_text((0, 0, 0, Seq::empty(), Seq::empty()))
    }
}

/// The mod id a mod takes in a new modpack: its own, or the one found in the
/// search database; empty when neither is known.
pub open spec fn pack_id(name: Seq<char>, own: Seq<char>, mods: Seq<ModApi>) -> Seq<char> {
    if own.len() == 0 {
        let found = mods.filter(|m: ModApi| entry_names(m, name));
        if found.len() == 1 {
            decimal(found[0].mod_id as nat)
        } else {
            Seq::empty()
        }
    } else {
        own
    }
}

/// The mods of a new modpack, by id: each installed mod whose id is known,
/// with its version (a later mod of the same id replaces the earlier one).
pub open spec fn pack_mods(installed: Seq<(String, ModInfo)>, mods: Seq<ModApi>) -> Seq<
    (Seq<char>, Seq<char>),
>
    decreases installed.len(),
{
    if installed.len() == 0 {
        Seq::empty()
    } else {
        let rest = pack_mods(installed.drop_last(), mods);
        let info = installed.last().1;
        let id = pack_id(info.name@, info.mod_id@, mods);
        if id.len() == 0 {
            rest
        } else {
            put(rest, id, pack_version(info.version))
        }
    }
}

/// Every installed mod whose id is known (its own, or the one found from
/// its name) is in a new modpack under that id, and every mod of the pack is
/// such a mod.
pub proof fn lemma_pack_mods_cover(installed: Seq<(String, ModInfo)>, mods: Seq<ModApi>)
    ensures
        forall|i: int|
            0 <= i < installed.len() && pack_id(
                (#[trigger] installed[i]).1.name@,
                installed[i].1.mod_id@,
                mods,
            ).len() > 0 ==> has_key(
                pack_mods(installed, mods),
                pack_id(installed[i].1.name@, installed[i].1.mod_id@, mods),
            ),
        forall|p: int|
            0 <= p < pack_mods(installed, mods).len() ==> (#[trigger] pack_mods(installed, mods)[p]).0.len() > 0
                && exists|i: int|
                0 <= i < installed.len() && pack_id(
                    (#[trigger] installed[i]).1.name@,
                    installed[i].1.mod_id@,
                    mods,
                ) == pack_mods(installed, mods)[p].0,
    decreases installed.len(),
{
    if installed.len() > 0 {
        let init = installed.drop_last();
        lemma_pack_mods_cover(init, mods);
        let rest = pack_mods(init, mods);
        let all = pack_mods(installed, mods);
        let n = installed.len() - 1;
        let info = installed[n].1;
        assert(installed.last() == installed[n]);
        let id = pack_id(info.name@, info.mod_id@, mods);
        let v = pack_version(info.version);
        assert forall|i: int|
            0 <= i < installed.len() && pack_id(
                (#[trigger] installed[i]).1.name@,
                installed[i].1.mod_id@,
                mods,
            ).len() > 0 implies has_key(all, pack_id(installed[i].1.name@, installed[i].1.mod_id@, mods)) by {
            if i == n {
                lemma_put_keys(rest, id, v, id);
            } else {
                assert(init[i] == installed[i]);
                let other = pack_id(installed[i].1.name@, installed[i].1.mod_id@, mods);
                assert(has_key(rest, other));
                lemma_put_keys(rest, id, v, other);
            }
        }
        assert forall|p: int| 0 <= p < all.len() implies (#[trigger] all[p]).0.len() > 0 && exists|i: int|
            0 <= i < installed.len() && pack_id(
                (#[trigger] installed[i]).1.name@,
                installed[i].1.mod_id@,
                mods,
            ) == all[p].0 by {
            if id.len() > 0 {
                lemma_put_key_origin(rest, id, v, p);
                if all[p].0 == id {
                    assert(pack_id(installed[n].1.name@, installed[n].1.mod_id@, mods) == all[p].0);
                } else {
                    assert(all[p].0 == rest[p].0);
                    let i = choose|i: int|
                        0 <= i < init.len() && pack_id(
                            (#[trigger] init[i]).1.name@,
                            init[i].1.mod_id@,
                            mods,
                        ) == rest[p].0;
                    assert(installed[i] == init[i]);
                }
            } else {
                assert(all[p] == rest[p]);
                let i = choose|i: int|
                    0 <= i < init.len() && pack_id((#[trigger] init[i]).1.name@, init[i].1.mod_id@, mods)
                        == rest[p].0;
                assert(installed[i] == init[i]);
            }
        }
    }
}

fn put_dep(m: &mut Vec<(String, String)>, k: String, v: String)
    requires
        unique_keys(pairs_view(old(m)@)),
    ensures
        unique_keys(pairs_view(final(m)@)),
        pairs_view(final(m)@) == put(pairs_view(old(m)@), k@, v@),
{
    let ghost pm = pairs_view(m@);
    let ghost ev = (k@, v@);
    match find_key(m, k.as_str()) {
        Some(i) => {
            proof {
                assert(pm[i as int].0 == k@);
                lemma_pos_unique(pm, k@, i as int);
            }
            m.set(i, (k, v));
            proof {
                assert(pairs_view(m@) =~= pm.update(i as int, ev));
                lemma_update_unique(pm, i as int, ev);
            }
        },
        None => {
            proof {
                assert forall|j: int| 0 <= j < pm.len() implies (#[trigger] pm[j]).0 != k@ by {
                    assert(pm[j].0 == m@[j].0@);
                }
            }
            m.push((k, v));
            proof {
                assert(pairs_view(m@) =~= pm.push(ev));
                lemma_push_unique(pm, ev);
            }
        },
    }
}

/// The mods of a new modpack (see `pack_mods`).
pub fn modpack_dependencies(installed: &Vec<(String, ModInfo)>, mods_search_data: &[ModApi]) -> (r:
    Vec<(String, String)>)
    ensures
        unique_keys(pairs_view(r@)),
        pairs_view(r@) == pack_mods(installed@, mods_search_data@),
{
    let mut r: Vec<(String, String)> = Vec::new();
    let mut i: usize = 0;
    assert(pairs_view(r@) =~= Seq::<(Seq<char>, Seq<char>)>::empty());
    while i < installed.len()
        invariant
            i <= installed@.len(),
            unique_keys(pairs_view(r@)),
            pairs_view(r@) == pack_mods(installed@.take(i as int), mods_search_data@),
        decreases installed.len() - i,
    {
        assert(installed@.take(i + 1).drop_last() =~= installed@.take(i as int));
        let file_name = &installed[i].0;
        let info = &installed[i].1;
        let id = if info.mod_id.as_str().is_empty() {
            match find_mod_id(&info.name, file_name, mods_search_data) {
                Ok(id) => id,
                Err(_) => String::new(),
            }
        } else {
            info.mod_id.clone()
        };
        if !id.as_str().is_empty() {
            let raw = match &info.version {
                Some(v) => v.clone(),
                None => "0.0.0".to_string(),
            };
            let version = match parse_version(raw.as_str()) {
                Ok(v) => v.to_text(),
                Err(_) => {
                    let zero = crate::version::SemVer::new(0, 0, 0);
                    zero.to_text()
                },
            };
            put_dep(&mut r, id, version);
        }
        i += 1;
    }
    assert(installed@.take(installed@.len() as int) =~= installed@);
    r
}

// ---------------------------------------------------------------------------
// Enabled and disabled modpacks
// ---------------------------------------------------------------------------

/// Where modpacks live, and which are enabled or disabled.
#[derive(Debug)]
pub struct ModpacksConfig {
    pub modpack_dir: String,
    pub enabled: Vec<String>,
    pub disabled: Vec<String>,
}

pub open spec fn texts(v: Seq<String>) -> Seq<Seq<char>> {
    v.map_values(|s: String| s@)
}

/// The texts of `v` except those equal to `x` ignoring ASCII case.
pub open spec fn without_ignore_case(v: Seq<Seq<char>>, x: Seq<char>) -> Seq<Seq<char>> {
    v.filter(|s: Seq<char>| !eq_ignore_ascii_case_spec(s, x))
}

/// The texts of `v` except `x`.
pub open spec fn without(v: Seq<Seq<char>>, x: Seq<char>) -> Seq<Seq<char>> {
    v.filter(|s: Seq<char>| s != x)
}

fn retain_not_ignore_case(v: &Vec<String>, x: &str) -> (r: Vec<String>)
    ensures
        texts(r@) == without_ignore_case(texts(v@), x@),
{
    let ghost p = |s: Seq<char>| !eq_ignore_ascii_case_spec(s, x@);
    let mut r: Vec<String> = Vec::new();
    let mut i: usize = 0;
    assert(texts(r@) =~= Seq::<Seq<char>>::empty());
    while i < v.len()
        invariant
            i <= v@.len(),
            p == (|s: Seq<char>| !eq_ignore_ascii_case_spec(s, x@)),
            texts(r@) == texts(v@).take(i as int).filter(p),
        decreases v.len() - i,
    {
        proof {
            crate::keyed::lemma_filter_take(texts(v@), p, i as int);
            assert(texts(v@).take(i as int + 1) =~= texts(v@.take(i as int + 1)));
        }
        let ghost before = texts(r@);
        if !eq_ignore_ascii_case(v[i].as_str(), x) {
            r.push(v[i].clone());
            assert(texts(r@) =~= before.push(v@[i as int]@));
        }
        i += 1;
    }
    assert(texts(v@).take(v@.len() as int) =~= texts(v@));
    r
}

fn retain_not_equal(v: &Vec<String>, x: &str) -> (r: Vec<String>)
    ensures
        texts(r@) == without(texts(v@), x@),
{
    let ghost p = |s: Seq<char>| s != x@;
    let mut r: Vec<String> = Vec::new();
    let mut i: usize = 0;
    assert(texts(r@) =~= Seq::<Seq<char>>::empty());
    while i < v.len()
        invariant
            i <= v@.len(),
            p == (|s: Seq<char>| s != x@),
            texts(r@) == texts(v@).take(i as int).filter(p),
        decreases v.len() - i,
    {
        proof {
            crate::keyed::lemma_filter_take(texts(v@), p, i as int);
        }
        let ghost before = texts(r@);
        if !crate::text::str_eq(v[i].as_str(), x) {
            r.push(v[i].clone());
            assert(texts(r@) =~= before.push(v@[i as int]@));
        }
        i += 1;
    }
    assert(texts(v@).take(v@.len() as int) =~= texts(v@));
    r
}

impl ModpacksConfig {
    /// A deleted modpack is no longer listed as disabled.
    pub fn record_deleted(&mut self, mpk_id: &str)
        ensures
            final(self).modpack_dir == old(self).modpack_dir,
            texts(final(self).enabled@) == texts(old(self).enabled@),
            texts(final(self).disabled@) == without(texts(old(self).disabled@), mpk_id@),
    {
        self.disabled = retain_not_equal(&self.disabled, mpk_id);
    }

    /// An installed modpack is listed as disabled (once).
    pub fn record_installed(&mut self, installed: String)
        ensures
            final(self).modpack_dir == old(self).modpack_dir,
            texts(final(self).enabled@) == texts(old(self).enabled@),
            texts(final(self).disabled@) == (if texts(old(self).disabled@).contains(installed@) {
                texts(old(self).disabled@)
            } else {
                texts(old(self).disabled@).push(installed@)
            }),
    {
        let ghost before = texts(self.disabled@);
        let present = vec_contains_string(&self.disabled, installed.as_str());
        proof {
            if present {
                let k = choose|k: int| 0 <= k < self.disabled@.len() && (#[trigger] self.disabled@[k])@ == installed@;
                assert(before[k] == installed@);
            } else {
                assert forall|k: int| 0 <= k < before.len() implies before[k] != installed@ by {
                    assert(before[k] == self.disabled@[k]@);
                }
            }
        }
        if !present {
            self.disabled.push(installed);
            assert(texts(self.disabled@) =~= before.push(installed@));
        }
    }

    /// An enabled modpack is listed as enabled and no longer as disabled
    /// (ignoring ASCII case).
    pub fn record_enabled(&mut self, pack: String)
        ensures
            final(self).modpack_dir == old(self).modpack_dir,
            texts(final(self).enabled@) == texts(old(self).enabled@).push(pack@),
            texts(final(self).disabled@) == without_ignore_case(texts(old(self).disabled@), pack@),
    {
        self.disabled = retain_not_ignore_case(&self.disabled, pack.as_str());
        let ghost before = texts(self.enabled@);
        let ghost p = pack@;
        self.enabled.push(pack);
        assert(texts(self.enabled@) =~= before.push(p));
    }

    /// A disabled modpack is no longer listed as enabled (ignoring ASCII
    /// case) and is listed as disabled.
    pub fn record_disabled(&mut self, pack: String)
        ensures
            final(self).modpack_dir == old(self).modpack_dir,
            texts(final(self).enabled@) == without_ignore_case(texts(old(self).enabled@), pack@),
            texts(final(self).disabled@) == texts(old(self).disabled@).push(pack@),
    {
        self.enabled = retain_not_ignore_case(&self.enabled, pack.as_str());
        let ghost before = texts(self.disabled@);
        let ghost p = pack@;
        self.disabled.push(pack);
        assert(texts(self.disabled@) =~= before.push(p));
    }
}


/// Enabling a modpack and then disabling it leaves no enabled entry equal to
/// it ignoring ASCII case, and lists it once as disabled (ignoring case),
/// last.
pub proof fn lemma_disable_after_enable(enabled: Seq<Seq<char>>, disabled: Seq<Seq<char>>, pack: Seq<char>)
    ensures
        ({
            let e1 = enabled.push(pack);
            let d1 = without_ignore_case(disabled, pack);
            let e2 = without_ignore_case(e1, pack);
            let d2 = d1.push(pack);
            &&& forall|i: int| 0 <= i < e2.len() ==> !eq_ignore_ascii_case_spec(#[trigger] e2[i], pack)
            &&& d2.last() == pack
            &&& forall|i: int|
                0 <= i < d2.len() - 1 ==> !eq_ignore_ascii_case_spec(#[trigger] d2[i], pack)
        }),
{
    let e1 = enabled.push(pack);
    let p = |s: Seq<char>| !eq_ignore_ascii_case_spec(s, pack);
    e1.filter_lemma(p);
    disabled.filter_lemma(p);
    let d1 = without_ignore_case(disabled, pack);
    let d2 = d1.push(pack);
    assert forall|i: int| 0 <= i < d2.len() - 1 implies !eq_ignore_ascii_case_spec(#[trigger] d2[i], pack) by {
        assert(d2[i] == d1[i]);
    }
}

/// Disabling a modpack and then enabling it leaves no disabled entry equal
/// to it ignoring ASCII case, and lists it as enabled, last.
pub proof fn lemma_enable_after_disable(enabled: Seq<Seq<char>>, disabled: Seq<Seq<char>>, pack: Seq<char>)
    ensures
        ({
            let e1 = without_ignore_case(enabled, pack);
            let d1 = disabled.push(pack);
            let e2 = e1.push(pack);
            let d2 = without_ignore_case(d1, pack);
            &&& forall|i: int| 0 <= i < d2.len() ==> !eq_ignore_ascii_case_spec(#[trigger] d2[i], pack)
            &&& e2.last() == pack
        }),
{
    let d1 = disabled.push(pack);
    let p = |s: Seq<char>| !eq_ignore_ascii_case_spec(s, pack);
    d1.filter_lemma(p);
}


// ---------------------------------------------------------------------------
// Installing and updating a modpack
// ---------------------------------------------------------------------------

/// The version a modpack asks for a mod: that of its first dependency of
/// the id, if any.
#[verifier::opaque]
pub open spec fn pack_wants(deps: Seq<(String, String)>, id: Seq<char>) -> Option<Seq<char>> {
    match crate::keyed::first_value(deps, id) {
        Some(v) => Some(v@),
        None => None,
    }
}

/// The install of one fetched mod of a modpack: the version the pack asks
/// for, with the download of the first release of exactly that version;
/// none when the pack does not ask for the mod or that version has no
/// download.
#[verifier::opaque]
pub open spec fn pack_install(id: Seq<char>, m: Mod, deps: Seq<(String, String)>) -> Option<InstallView> {
    match pack_wants(deps, id) {
        Some(v) => if exists|i: int| crate::version::url_release_at(m.mod_json.releases@, v, i) {
            let i = choose|i: int|
                crate::version::url_release_at(m.mod_json.releases@, v, i) && (forall|j: int|
                    0 <= j < i ==> !crate::version::url_release_at(m.mod_json.releases@, v, j));
            Some((id, or_empty(m.mod_json.name), v, or_empty(m.mod_json.releases@[i].main_file), None))
        } else {
            None
        },
        None => None,
    }
}

/// The installs of the fetched mods of a modpack, in order.
pub open spec fn pack_installs(fetched: Seq<(String, Mod)>, deps: Seq<(String, String)>) -> Seq<InstallView>
    decreases fetched.len(),
{
    if fetched.len() == 0 {
        Seq::empty()
    } else {
        let rest = pack_installs(fetched.drop_last(), deps);
        match pack_install(fetched.last().0@, fetched.last().1, deps) {
            Some(i) => rest.push(i),
            None => rest,
        }
    }
}

/// The pack asks for the fetched mod at a version that one of its releases
/// carries with a download.
pub open spec fn pack_can_install(e: (String, Mod), deps: Seq<(String, String)>) -> bool {
    &&& pack_wants(deps, e.0@) is Some
    &&& exists|w: int| crate::version::url_release_at(e.1.mod_json.releases@, pack_wants(deps, e.0@)->0, w)
}

/// The pack installs a fetched mod exactly when it can, under the mod's id
/// at the version the pack asks for.
proof fn lemma_pack_install_some(e: (String, Mod), deps: Seq<(String, String)>)
    ensures
        (pack_install(e.0@, e.1, deps) is Some) == pack_can_install(e, deps),
        pack_install(e.0@, e.1, deps) matches Some(v) ==> v.0 == e.0@ && v.2 == pack_wants(deps, e.0@)->0,
{
    reveal(pack_install);
    reveal(pack_wants);
}

/// Keeping the present results of `f` keeps one for each element that `f`
/// gives a result for, and nothing else.
proof fn lemma_filter_map_members<A, B>(s: Seq<A>, f: spec_fn(A) -> Option<B>)
    ensures
        s.filter_map(f).len() == s.filter(|a: A| f(a) is Some).len(),
        forall|i: int|
            0 <= i < s.len() && f(#[trigger] s[i]) is Some ==> exists|k: int|
                0 <= k < s.filter_map(f).len() && #[trigger] s.filter_map(f)[k] == f(s[i])->0,
        forall|k: int|
            0 <= k < s.filter_map(f).len() ==> exists|i: int|
                0 <= i < s.len() && f(#[trigger] s[i]) == Some(#[trigger] s.filter_map(f)[k]),
    decreases s.len(),
{
    reveal(Seq::filter);
    if s.len() > 0 {
        let init = s.drop_last();
        lemma_filter_map_members(init, f);
        let rest = init.filter_map(f);
        let all = s.filter_map(f);
        let n = s.len() - 1;
        assert(s[n] == s.last());
        assert forall|i: int| 0 <= i < s.len() && f(#[trigger] s[i]) is Some implies exists|k: int|
            0 <= k < all.len() && #[trigger] all[k] == f(s[i])->0 by {
            if i == n {
                assert(all[rest.len() as int] == f(s[i])->0);
            } else {
                assert(init[i] == s[i]);
                let k = choose|k: int| 0 <= k < rest.len() && #[trigger] rest[k] == f(init[i])->0;
                assert(all[k] == rest[k]);
            }
        }
        assert forall|k: int| 0 <= k < all.len() implies exists|i: int|
            0 <= i < s.len() && f(#[trigger] s[i]) == Some(#[trigger] all[k]) by {
            if k < rest.len() {
                assert(all[k] == rest[k]);
                let i = choose|i: int| 0 <= i < init.len() && f(#[trigger] init[i]) == Some(#[trigger] rest[k]);
                assert(s[i] == init[i]);
            } else {
                assert(f(s[n]) == Some(all[k]));
            }
        }
    }
}

/// `pack_installs` keeps, in order, the install of each fetched mod that
/// has one.
proof fn lemma_pack_installs_filter_map(fetched: Seq<(String, Mod)>, deps: Seq<(String, String)>)
    ensures
        pack_installs(fetched, deps) == fetched.filter_map(
            |e: (String, Mod)| pack_install(e.0@, e.1, deps),
        ),
    decreases fetched.len(),
{
    if fetched.len() > 0 {
        lemma_pack_installs_filter_map(fetched.drop_last(), deps);
        let f = |e: (String, Mod)| pack_install(e.0@, e.1, deps);
        let rest = fetched.drop_last().filter_map(f);
        match f(fetched.last()) {
            Some(v) => assert(rest.push(v) =~= rest + seq![v]),
            None => {},
        }
    }
}

/// Each install of a modpack comes from a fetched mod that the pack asks
/// for: it has the mod's id and the version asked for.
proof fn lemma_pack_install_sources(fetched: Seq<(String, Mod)>, deps: Seq<(String, String)>)
    ensures
        forall|k: int|
            0 <= k < pack_installs(fetched, deps).len() ==> pack_wants(
                deps,
                (#[trigger] pack_installs(fetched, deps)[k]).0,
            ) == Some(pack_installs(fetched, deps)[k].2) && exists|i: int|
                0 <= i < fetched.len() && (#[trigger] fetched[i]).0@ == pack_installs(fetched, deps)[k].0,
{
    let f = |e: (String, Mod)| pack_install(e.0@, e.1, deps);
    lemma_pack_installs_filter_map(fetched, deps);
    lemma_filter_map_members(fetched, f);
    let all = pack_installs(fetched, deps);
    assert forall|k: int| 0 <= k < all.len() implies pack_wants(deps, (#[trigger] all[k]).0) == Some(all[k].2)
        && exists|i: int| 0 <= i < fetched.len() && (#[trigger] fetched[i]).0@ == all[k].0 by {
        let i = choose|i: int| 0 <= i < fetched.len() && f(#[trigger] fetched[i]) == Some(#[trigger] all[k]);
        lemma_pack_install_some(fetched[i], deps);
        assert(all[k].0 == fetched[i].0@);
    }
}

/// The installs of a modpack: as many as there are fetched mods that the
/// pack asks for at a version with a download; one for each such mod, under
/// its id, at the version the pack asks for; and each install is at the
/// version the pack asks for its id, which is the id of a fetched mod.
pub proof fn lemma_pack_installs_are_the_askable_mods(
    fetched: Seq<(String, Mod)>,
    deps: Seq<(String, String)>,
)
    ensures
        pack_installs(fetched, deps).len() == fetched.filter(
            |e: (String, Mod)| pack_can_install(e, deps),
        ).len(),
        forall|i: int|
            0 <= i < fetched.len() && pack_wants(deps, (#[trigger] fetched[i]).0@) is Some && (exists|w: int|
                crate::version::url_release_at(fetched[i].1.mod_json.releases@, pack_wants(deps, fetched[i].0@)->0, w))
                ==> exists|k: int|
                0 <= k < pack_installs(fetched, deps).len() && (#[trigger] pack_installs(fetched, deps)[k]).0
                    == fetched[i].0@ && pack_installs(fetched, deps)[k].2 == pack_wants(deps, fetched[i].0@)->0,
        forall|k: int|
            0 <= k < pack_installs(fetched, deps).len() ==> pack_wants(
                deps,
                (#[trigger] pack_installs(fetched, deps)[k]).0,
            ) == Some(pack_installs(fetched, deps)[k].2) && exists|i: int|
                0 <= i < fetched.len() && (#[trigger] fetched[i]).0@ == pack_installs(fetched, deps)[k].0,
{
    let f = |e: (String, Mod)| pack_install(e.0@, e.1, deps);
    let pred = |e: (String, Mod)| pack_can_install(e, deps);
    lemma_pack_installs_filter_map(fetched, deps);
    lemma_filter_map_members(fetched, f);
    assert forall|e: (String, Mod)| #[trigger] pred(e) == (f(e) is Some) by {
        lemma_pack_install_some(e, deps);
    }
    assert((|a: (String, Mod)| f(a) is Some) =~= pred);
    let all = pack_installs(fetched, deps);
    assert forall|i: int|
        0 <= i < fetched.len() && pack_wants(deps, (#[trigger] fetched[i]).0@) is Some && (exists|w: int|
            crate::version::url_release_at(fetched[i].1.mod_json.releases@, pack_wants(deps, fetched[i].0@)->0, w))
            implies exists|k: int|
            0 <= k < all.len() && (#[trigger] all[k]).0 == fetched[i].0@ && all[k].2 == pack_wants(
                deps,
                fetched[i].0@,
            )->0 by {
        lemma_pack_install_some(fetched[i], deps);
        assert(pred(fetched[i]));
        assert(f(fetched[i]) is Some);
        let k = choose|k: int| 0 <= k < all.len() && #[trigger] all[k] == f(fetched[i])->0;
        assert(all[k].0 == fetched[i].0@);
    }
    lemma_pack_install_sources(fetched, deps);
}

/// The installs of the mods of a modpack (see `pack_installs`).
pub fn modpack_installs(fetched: &Vec<(String, Mod)>, deps: &Vec<(String, String)>) -> (r: Vec<Install>)
    ensures
        installs_view(r@) == pack_installs(fetched@, deps@),
        r@.len() == fetched@.filter(|e: (String, Mod)| pack_can_install(e, deps@)).len(),
        forall|i: int|
            0 <= i < fetched@.len() && pack_wants(deps@, (#[trigger] fetched@[i]).0@) is Some && (exists|w: int|
                crate::version::url_release_at(fetched@[i].1.mod_json.releases@, pack_wants(deps@, fetched@[i].0@)->0, w))
                ==> exists|k: int|
                0 <= k < r@.len() && (#[trigger] r@[k]).mod_id@ == fetched@[i].0@ && r@[k].version_to_install@
                    == pack_wants(deps@, fetched@[i].0@)->0,
{
    let mut r: Vec<Install> = Vec::new();
    let mut i: usize = 0;
    assert(installs_view(r@) =~= Seq::<InstallView>::empty());
    while i < fetched.len()
        invariant
            i <= fetched@.len(),
            installs_view(r@) == pack_installs(fetched@.take(i as int), deps@),
        decreases fetched.len() - i,
    {
        assert(fetched@.take(i + 1).drop_last() =~= fetched@.take(i as int));
        assert(fetched@.take(i + 1).last() == fetched@[i as int]);
        proof {
            reveal(pack_install);
            reveal(pack_wants);
        }
        let id = &fetched[i].0;
        let m = &fetched[i].1;
        match crate::keyed::first_value_of(deps, id.as_str()) {
            Some(version) => {
                match crate::version::parse_download_url_from_version(m.mod_json.releases.as_slice(), version.as_str()) {
                    Ok(url) => {
                        proof {
                            let w = choose|w: int|
                                crate::version::url_release_at(m.mod_json.releases@, version@, w) && (forall|j: int|
                                    0 <= j < w ==> !crate::version::url_release_at(m.mod_json.releases@, version@, j));
                            let k = choose|k: int|
                                crate::version::url_release_at(m.mod_json.releases@, version@, k) && (forall|j: int|
                                    0 <= j < k ==> !crate::version::url_release_at(m.mod_json.releases@, version@, j))
                                    && m.mod_json.releases@[k].main_file == Some(url);
                            if w < k {
                                assert(!crate::version::url_release_at(m.mod_json.releases@, version@, w));
                            } else if k < w {
                                assert(!crate::version::url_release_at(m.mod_json.releases@, version@, k));
                            }
                        }
                        let inst = Install {
                            mod_id: id.clone(),
                            mod_name: unwrap_or_empty(&m.mod_json.name),
                            version_to_install: version.clone(),
                            download_url: url,
                            current_file_path: None,
                        };
                        let ghost before = installs_view(r@);
                        r.push(inst);
                        assert(installs_view(r@) =~= before.push(inst@));
                    },
                    Err(_) => {},
                }
            },
            None => {},
        }
        i += 1;
    }
    assert(fetched@.take(fetched@.len() as int) =~= fetched@);
    proof {
        lemma_pack_installs_are_the_askable_mods(fetched@, deps@);
        assert forall|i: int|
            0 <= i < fetched@.len() && pack_wants(deps@, (#[trigger] fetched@[i]).0@) is Some && (exists|w: int|
                crate::version::url_release_at(fetched@[i].1.mod_json.releases@, pack_wants(deps@, fetched@[i].0@)->0, w))
                implies exists|k: int|
                0 <= k < r@.len() && (#[trigger] r@[k]).mod_id@ == fetched@[i].0@ && r@[k].version_to_install@
                    == pack_wants(deps@, fetched@[i].0@)->0 by {
            let k = choose|k: int|
                0 <= k < pack_installs(fetched@, deps@).len() && (#[trigger] pack_installs(fetched@, deps@)[k]).0
                    == fetched@[i].0@ && pack_installs(fetched@, deps@)[k].2 == pack_wants(deps@, fetched@[i].0@)->0;
            assert(installs_view(r@)[k] == r@[k]@);
        }
    }
    r
}

/// A modpack is up to date when its installed version equals its latest
/// known one ignoring ASCII case.
pub fn modpack_up_to_date(info: &crate::sync::ModSyncInfo) -> (r: bool)
    ensures
        r == eq_ignore_ascii_case_spec(info.installed_version@, info.latest_known_version@),
{
    eq_ignore_ascii_case(info.installed_version.as_str(), info.latest_known_version.as_str())
}

/// The packages that pin the mods of a modpack to the versions it asks for.
pub fn packages_from_dependencies(deps: &Vec<(String, String)>) -> (r: Vec<Package>)
    ensures
        r@.len() == deps@.len(),
        forall|k: int|
            0 <= k < r@.len() ==> (#[trigger] r@[k]).mod_id@ == deps@[k].0@ && r@[k].pinned_version
                == Some(deps@[k].1),
{
    let mut r: Vec<Package> = Vec::new();
    let mut i: usize = 0;
    while i < deps.len()
        invariant
            i <= deps@.len(),
            r@.len() == i,
            forall|k: int|
                0 <= k < i ==> (#[trigger] r@[k]).mod_id@ == deps@[k].0@ && r@[k].pinned_version
                    == Some(deps@[k].1),
        decreases deps.len() - i,
    {
        r.push(Package { mod_id: deps[i].0.clone(), pinned_version: Some(deps[i].1.clone()) });
        i += 1;
    }
    r
}

/// A modpack can be disabled only when it is enabled (compared exactly);
/// the error says it is not.
pub fn check_can_disable(enabled: &Vec<String>, mpk_id: &str) -> (r: Result<(), RustiqueError>)
    ensures
        r is Ok <==> has_exact(enabled@, mpk_id@),
        r matches Err(e) ==> e matches RustiqueError::SimpleError(m) && m@ == "Modpack is not enabled"@,
{
    if vec_contains_string(enabled, mpk_id) {
        Ok(())
    } else {
        Err(RustiqueError::SimpleError("Modpack is not enabled".to_string()))
    }
}

} // verus!
