//! The contents of the tables that `list` and `search` print: the header of
//! each configured column and the text and style of each cell.
use vstd::prelude::*;
use crate::api_structs::{ModApi, ModInfo};
use crate::error::RustiqueError;
use crate::config::{CellAttr, CellColor, ListColumn, Package, SearchColumn};
use crate::install::Install;
use crate::sync::{ModSyncInfo, SyncInfoView};
use crate::table::ColumnProperties;
use crate::text::{
    decimal, join_space, or_empty, str_eq, u64_to_string, unwrap_or_empty, vec_contains_string, words,
};
use crate::textsort::{index_range, sort_text_positions, texts_of, texts_sorted, texts_stable};
use crate::search::same_positions;
use crate::version::{parse_version, parsed, parses, version_text};

verus! {

// ---------------------------------------------------------------------------
// Joining texts
// ---------------------------------------------------------------------------

/// The texts with `sep` between each two.
pub open spec fn joined(s: Seq<Seq<char>>, sep: Seq<char>) -> Seq<char>
    decreases s.len(),
{
    if s.len() == 0 {
        Seq::empty()
    } else if s.len() == 1 {
        s[0]
    } else {
        joined(s.drop_last(), sep) + sep + s.last()
    }
}

/// The strings with `sep` between each two (`join`).
pub fn join_texts(v: &Vec<String>, sep: &str) -> (r: String)
    ensures
        r@ == joined(texts_of(v@), sep@),
{
    let mut r = String::new();
    let mut i: usize = 0;
    while i < v.len()
        invariant
            i <= v@.len(),
            r@ == joined(texts_of(v@).take(i as int), sep@),
        decreases v.len() - i,
    {
        assert(texts_of(v@).take(i + 1).drop_last() =~= texts_of(v@).take(i as int));
        if i > 0 {
            r.push_str(sep);
        }
        r.push_str(v[i].as_str());
        i += 1;
        assert(i == 1 ==> texts_of(v@).take(i as int)[0] == v@[0]@);
    }
    assert(texts_of(v@).take(v@.len() as int) =~= texts_of(v@));
    r
}

// ---------------------------------------------------------------------------
// The search table
// ---------------------------------------------------------------------------

/// The header of a search column.
pub open spec fn search_label(c: Option<SearchColumn>) -> Seq<char> {
    match c {
        Some(SearchColumn::Name) => "Name"@,
        Some(SearchColumn::Author) => "Author"@,
        Some(SearchColumn::ModId) => "ModID"@,
        Some(SearchColumn::ModidStrs) => "ModID Strings"@,
        Some(SearchColumn::AssetId) => "AssetID"@,
        Some(SearchColumn::Downloads) => "Downloads"@,
        Some(SearchColumn::Follows) => "Follows"@,
        Some(SearchColumn::Trending) => "Trending Points"@,
        Some(SearchColumn::Comments) => "Comments"@,
        Some(SearchColumn::Summary) => "Summary"@,
        Some(SearchColumn::UrlAlias) => "Url Alias"@,
        Some(SearchColumn::Side) => "Side"@,
        Some(SearchColumn::Type) => "Type"@,
        Some(SearchColumn::Tags) => "Tags"@,
        Some(SearchColumn::LastReleased) => "Last Released"@,
        None => "N/A"@,
    }
}

/// The header of a configured search column (`N/A` for an unknown name).
pub fn search_header_label(column: &str) -> (r: &'static str)
    ensures
        r@ == search_label(SearchColumn::parsed(column@)),
{
    match SearchColumn::parse(column) {
        Ok(SearchColumn::Name) => "Name",
        Ok(SearchColumn::Author) => "Author",
        Ok(SearchColumn::ModId) => "ModID",
        Ok(SearchColumn::ModidStrs) => "ModID Strings",
        Ok(SearchColumn::AssetId) => "AssetID",
        Ok(SearchColumn::Downloads) => "Downloads",
        Ok(SearchColumn::Follows) => "Follows",
        Ok(SearchColumn::Trending) => "Trending Points",
        Ok(SearchColumn::Comments) => "Comments",
        Ok(SearchColumn::Summary) => "Summary",
        Ok(SearchColumn::UrlAlias) => "Url Alias",
        Ok(SearchColumn::Side) => "Side",
        Ok(SearchColumn::Type) => "Type",
        Ok(SearchColumn::Tags) => "Tags",
        Ok(SearchColumn::LastReleased) => "Last Released",
        Err(_) => "N/A",
    }
}

/// The text of a search cell and whether it is aligned right.
pub open spec fn search_cell_spec(c: Option<SearchColumn>, m: ModApi) -> (Seq<char>, bool) {
    match c {
        Some(SearchColumn::Name) => (or_empty(m.name), false),
        Some(SearchColumn::ModId) => (decimal(m.mod_id as nat), true),
        Some(SearchColumn::AssetId) => (decimal(m.asset_id as nat), true),
        Some(SearchColumn::Downloads) => (decimal(m.downloads as nat), true),
        Some(SearchColumn::Follows) => (decimal(m.follows as nat), true),
        Some(SearchColumn::Trending) => (decimal(m.trending_points as nat), true),
        Some(SearchColumn::Comments) => (decimal(m.comments as nat), false),
        Some(SearchColumn::Summary) => (or_empty(m.summary), false),
        Some(SearchColumn::ModidStrs) => (joined(texts_of(m.mod_id_strs@), ","@), false),
        Some(SearchColumn::Author) => (or_empty(m.author), false),
        Some(SearchColumn::UrlAlias) => (or_empty(m.url_alias), false),
        Some(SearchColumn::Side) => (or_empty(m.side), false),
        Some(SearchColumn::Type) => (or_empty(m.mod_type), false),
        Some(SearchColumn::Tags) => (joined(texts_of(m.tags@), ","@), false),
        Some(SearchColumn::LastReleased) => (or_empty(m.last_released), true),
        None => (Seq::empty(), false),
    }
}

/// The text of a search cell for a mod, and whether it is aligned right.
pub fn search_cell(column: &str, m: &ModApi) -> (r: (String, bool))
    ensures
        (r.0@, r.1) == search_cell_spec(SearchColumn::parsed(column@), *m),
{
    match SearchColumn::parse(column) {
        Ok(SearchColumn::Name) => (unwrap_or_empty(&m.name), false),
        Ok(SearchColumn::ModId) => (u64_to_string(m.mod_id as u64), true),
        Ok(SearchColumn::AssetId) => (u64_to_string(m.asset_id as u64), true),
        Ok(SearchColumn::Downloads) => (u64_to_string(m.downloads as u64), true),
        Ok(SearchColumn::Follows) => (u64_to_string(m.follows as u64), true),
        Ok(SearchColumn::Trending) => (u64_to_string(m.trending_points as u64), true),
        Ok(SearchColumn::Comments) => (u64_to_string(m.comments as u64), false),
        Ok(SearchColumn::Summary) => (unwrap_or_empty(&m.summary), false),
        Ok(SearchColumn::ModidStrs) => (join_texts(&m.mod_id_strs, ","), false),
        Ok(SearchColumn::Author) => (unwrap_or_empty(&m.author), false),
        Ok(SearchColumn::UrlAlias) => (unwrap_or_empty(&m.url_alias), false),
        Ok(SearchColumn::Side) => (unwrap_or_empty(&m.side), false),
        Ok(SearchColumn::Type) => (unwrap_or_empty(&m.mod_type), false),
        Ok(SearchColumn::Tags) => (join_texts(&m.tags, ","), false),
        Ok(SearchColumn::LastReleased) => (unwrap_or_empty(&m.last_released), true),
        Err(_) => (String::new(), false),
    }
}


// ---------------------------------------------------------------------------
// The mod list
// ---------------------------------------------------------------------------

/// The header of a list column.
pub open spec fn list_label(c: Option<ListColumn>) -> Seq<char> {
    match c {
        Some(ListColumn::Name) => "Name"@,
        Some(ListColumn::ModId) => "ModID"@,
        Some(ListColumn::Version) => "Version"@,
        Some(ListColumn::GameVersion) => "Game Version"@,
        Some(ListColumn::LatestVersion) => "Latest Version"@,
        Some(ListColumn::PinnedVersion) => "Pinned Version"@,
        Some(ListColumn::Description) => "Description"@,
        Some(ListColumn::Deps) => "Dependencies"@,
        Some(ListColumn::MissingDeps) => "Missing Dependencies"@,
        Some(ListColumn::Changelog) => "Changelog"@,
        Some(ListColumn::Filename) => "Filename"@,
        Some(ListColumn::HasBackup) => "Has Backup"@,
        Some(ListColumn::LastUpdateLocal) => "Last Update (Local)"@,
        Some(ListColumn::LastUpdateRemote) => "Last Update (Remote)"@,
        Some(ListColumn::Website) => "Website"@,
        _ => "N/A"@,
    }
}

/// The header of a configured list column (`N/A` for an unknown name); the
/// missing dependencies are not shown for a modpack.
pub fn list_header_label(column: &str, modpack_call: bool) -> (r: Option<&'static str>)
    ensures
        modpack_call && ListColumn::parsed(column@) == Some(ListColumn::MissingDeps) ==> r is None,
        !(modpack_call && ListColumn::parsed(column@) == Some(ListColumn::MissingDeps)) ==> (r matches Some(
            t,
        ) && t@ == list_label(ListColumn::parsed(column@))),
{
    let c = ListColumn::parse(column);
    let label = match c {
        Ok(ListColumn::Name) => "Name",
        Ok(ListColumn::ModId) => "ModID",
        Ok(ListColumn::Version) => "Version",
        Ok(ListColumn::GameVersion) => "Game Version",
        Ok(ListColumn::LatestVersion) => "Latest Version",
        Ok(ListColumn::PinnedVersion) => "Pinned Version",
        Ok(ListColumn::Description) => "Description",
        Ok(ListColumn::Deps) => "Dependencies",
        Ok(ListColumn::MissingDeps) => "Missing Dependencies",
        Ok(ListColumn::Changelog) => "Changelog",
        Ok(ListColumn::Filename) => "Filename",
        Ok(ListColumn::HasBackup) => "Has Backup",
        Ok(ListColumn::LastUpdateLocal) => "Last Update (Local)",
        Ok(ListColumn::LastUpdateRemote) => "Last Update (Remote)",
        Ok(ListColumn::Website) => "Website",
        _ => "N/A",
    };
    let missing = match c {
        Ok(ListColumn::MissingDeps) => true,
        _ => false,
    };
    if modpack_call && missing {
        None
    } else {
        Some(label)
    }
}

/// The mod depends on `id`.
pub open spec fn depends_on(info: ModInfo, id: Seq<char>) -> bool {
    exists|k: int| 0 <= k < info.dependencies@.len() && (#[trigger] info.dependencies@[k]).0@ == id
}

/// `[id@version]` for each install of the list that the mod depends on.
pub open spec fn dep_tags(dep_list: Seq<Install>, info: ModInfo) -> Seq<Seq<char>>
    decreases dep_list.len(),
{
    if dep_list.len() == 0 {
        Seq::empty()
    } else {
        let rest = dep_tags(dep_list.drop_last(), info);
        let d = dep_list.last();
        if depends_on(info, d.mod_id@) {
            rest.push("["@ + d.mod_id@ + "@"@ + d.version_to_install@ + "]"@)
        } else {
            rest
        }
    }
}

/// Consecutive texts equal ignoring case kept once (the first of them).
pub open spec fn dedup_lower(s: Seq<Seq<char>>) -> Seq<Seq<char>>
    decreases s.len(),
{
    if s.len() == 0 {
        s
    } else {
        let d = dedup_lower(s.drop_last());
        if d.len() > 0 && crate::text::unicode_lowercase(d.last()) == crate::text::unicode_lowercase(
            s.last(),
        ) {
            d
        } else {
            d.push(s.last())
        }
    }
}

/// The tag `[id@version]` of a dependency install.
pub open spec fn dep_tag(d: Install) -> Seq<char> {
    "["@ + d.mod_id@ + "@"@ + d.version_to_install@ + "]"@
}

/// The dependency tags of a mod are those of the installs of the list that
/// the mod depends on, each once, in the order of the list.
pub proof fn lemma_dep_tags_of_dependencies(dep_list: Seq<Install>, info: ModInfo)
    ensures
        dep_tags(dep_list, info) == dep_list.filter(|d: Install| depends_on(info, d.mod_id@)).map_values(
            |d: Install| dep_tag(d),
        ),
    decreases dep_list.len(),
{
    reveal(Seq::filter);
    if dep_list.len() > 0 {
        lemma_dep_tags_of_dependencies(dep_list.drop_last(), info);
        let pred = |d: Install| depends_on(info, d.mod_id@);
        let g = |d: Install| dep_tag(d);
        let fi = dep_list.drop_last().filter(pred);
        if pred(dep_list.last()) {
            assert(fi.push(dep_list.last()).map_values(g) =~= fi.map_values(g).push(g(dep_list.last())));
        }
    }
}

/// Texts equal ignoring case never stand next to each other once
/// consecutive repeats are dropped, the first text is kept, and each text
/// is, ignoring case, one of those kept.
pub proof fn lemma_dedup_lower_neighbours(s: Seq<Seq<char>>)
    ensures
        dedup_lower(s).len() <= s.len(),
        s.len() > 0 ==> dedup_lower(s).len() > 0 && dedup_lower(s)[0] == s[0],
        forall|i: int|
            0 <= i < dedup_lower(s).len() - 1 ==> crate::text::unicode_lowercase(#[trigger] dedup_lower(s)[i])
                != crate::text::unicode_lowercase(dedup_lower(s)[i + 1]),
        forall|i: int|
            0 <= i < s.len() ==> exists|k: int|
                0 <= k < dedup_lower(s).len() && crate::text::unicode_lowercase(#[trigger] dedup_lower(s)[k])
                    == crate::text::unicode_lowercase(#[trigger] s[i]),
    decreases s.len(),
{
    if s.len() > 0 {
        let init = s.drop_last();
        lemma_dedup_lower_neighbours(init);
        let d = dedup_lower(init);
        let r = dedup_lower(s);
        let n = s.len() - 1;
        assert(s[n] == s.last());
        if init.len() > 0 {
            assert(init[0] == s[0]);
        }
        assert forall|i: int| 0 <= i < r.len() - 1 implies crate::text::unicode_lowercase(#[trigger] r[i])
            != crate::text::unicode_lowercase(r[i + 1]) by {
            assert(r[i] == d[i]);
            if i + 1 < d.len() {
                assert(r[i + 1] == d[i + 1]);
            }
        }
        assert forall|i: int| 0 <= i < s.len() implies exists|k: int|
            0 <= k < r.len() && crate::text::unicode_lowercase(#[trigger] r[k]) == crate::text::unicode_lowercase(
                #[trigger] s[i],
            ) by {
            if i == n {
                if r.len() == d.len() {
                    assert(r[d.len() - 1] == d.last());
                } else {
                    assert(r[d.len() as int] == s[n]);
                }
            } else {
                assert(init[i] == s[i]);
                let k = choose|k: int|
                    0 <= k < d.len() && crate::text::unicode_lowercase(#[trigger] d[k]) == crate::text::unicode_lowercase(
                        #[trigger] init[i],
                    );
                assert(r[k] == d[k]);
            }
        }
    }
}

/// The texts in the order given by `perm`.
pub open spec fn arranged(s: Seq<Seq<char>>, perm: Seq<usize>) -> Seq<Seq<char>> {
    perm.map_values(|k: usize| s[k as int])
}

fn mod_depends_on(info: &ModInfo, id: &str) -> (r: bool)
    ensures
        r == depends_on(*info, id@),
{
    let mut i: usize = 0;
    while i < info.dependencies.len()
        invariant
            i <= info.dependencies@.len(),
            forall|k: int| 0 <= k < i ==> (#[trigger] info.dependencies@[k]).0@ != id@,
        decreases info.dependencies.len() - i,
    {
        if str_eq(info.dependencies[i].0.as_str(), id) {
            return true;
        }
        i += 1;
    }
    false
}

/// `text` lists the dependencies of the mod found in the list, as
/// `[id@version]`, sorted, with those equal ignoring case next to each other
/// shown once, joined with `, `.
pub open spec fn deps_text_of(text: Seq<char>, dep_list: Seq<Install>, info: ModInfo) -> bool {
    exists|perm: Seq<usize>|
        same_positions(index_range(dep_tags(dep_list, info).len()), perm) && #[trigger] texts_sorted(
            dep_tags(dep_list, info),
            perm,
        ) && texts_stable(dep_tags(dep_list, info), perm) && text == joined(
            dedup_lower(arranged(dep_tags(dep_list, info), perm)),
            ", "@,
        )
}

/// The dependencies of a mod found in the list, as `[id@version]`, sorted,
/// with those equal ignoring case next to each other shown once, joined with
/// `, `.
pub fn grab_this_mod_deps(mod_info: &ModInfo, dep_list: &Vec<Install>) -> (r: String)
    ensures
        deps_text_of(r@, dep_list@, *mod_info),
{
    let mut tags: Vec<String> = Vec::new();
    let mut i: usize = 0;
    assert(texts_of(tags@) =~= Seq::<Seq<char>>::empty());
    while i < dep_list.len()
        invariant
            i <= dep_list@.len(),
            texts_of(tags@) == dep_tags(dep_list@.take(i as int), *mod_info),
        decreases dep_list.len() - i,
    {
        assert(dep_list@.take(i + 1).drop_last() =~= dep_list@.take(i as int));
        let d = &dep_list[i];
        if mod_depends_on(mod_info, d.mod_id.as_str()) {
            let mut tag = String::new();
            tag.push_str("[");
            tag.push_str(d.mod_id.as_str());
            tag.push_str("@");
            tag.push_str(d.version_to_install.as_str());
            tag.push_str("]");
            let ghost before = texts_of(tags@);
            tags.push(tag);
            assert(texts_of(tags@) =~= before.push(tag@));
        }
        i += 1;
    }
    assert(dep_list@.take(dep_list@.len() as int) =~= dep_list@);
    let ghost t = texts_of(tags@);
    let perm = sort_text_positions(&tags);
    let ghost ar = arranged(t, perm@);
    let mut kept: Vec<String> = Vec::new();
    let mut kept_lower: Vec<String> = Vec::new();
    let mut j: usize = 0;
    assert(texts_of(kept@) =~= dedup_lower(ar.take(0)));
    while j < perm.len()
        invariant
            j <= perm@.len(),
            t == texts_of(tags@),
            ar == arranged(t, perm@),
            forall|k: int| 0 <= k < perm@.len() ==> #[trigger] perm@[k] < tags@.len(),
            texts_of(kept@) == dedup_lower(ar.take(j as int)),
            kept_lower@.len() == kept@.len(),
            forall|k: int|
                0 <= k < kept@.len() ==> (#[trigger] kept_lower@[k])@ == crate::text::unicode_lowercase(
                    kept@[k]@,
                ),
        decreases perm.len() - j,
    {
        assert(ar.take(j + 1).drop_last() =~= ar.take(j as int));
        assert(ar.take(j + 1).last() == tags@[perm@[j as int] as int]@);
        let s = &tags[perm[j]];
        let ls = crate::text::lowercase(s.as_str());
        let same = kept_lower.len() > 0 && str_eq(kept_lower[kept_lower.len() - 1].as_str(), ls.as_str());
        let ghost before = texts_of(kept@);
        if !same {
            kept.push(s.clone());
            kept_lower.push(ls);
            assert(texts_of(kept@) =~= before.push(s@));
        } else {
            assert(before.last() == kept@[kept@.len() - 1]@);
        }
        j += 1;
    }
    assert(ar.take(ar.len() as int) =~= ar);
    join_texts(&kept, ", ")
}

/// The game versions of a mod as a range `oldest - newest` (the list is
/// newest first), or the one version.
pub open spec fn game_range(gv: Seq<String>) -> Seq<char> {
    if gv.len() > 1 {
        gv[gv.len() - 1]@ + " - "@ + gv[0]@
    } else {
        joined(texts_of(gv), ","@)
    }
}

/// The game versions of a mod as a range (see `game_range`).
pub fn game_version_range(gv: &Vec<String>) -> (r: String)
    ensures
        r@ == game_range(gv@),
{
    if gv.len() > 1 {
        let mut r = gv[gv.len() - 1].clone();
        r.push_str(" - ");
        r.push_str(gv[0].as_str());
        r
    } else {
        join_texts(gv, ",")
    }
}

/// The sync entry describes the mod: same id, same name, or same file.
pub open spec fn entry_describes(e: (String, ModSyncInfo), info: ModInfo, file_name: Seq<char>) -> bool {
    e.0@ == info.mod_id@ || info.name@ == e.1.mod_name@ || file_name == e.1.file_name@
}

/// The first sync entry that describes the mod, if any.
pub fn sync_entry_for(sync: &Vec<(String, ModSyncInfo)>, info: &ModInfo, file_name: &str) -> (r:
    Option<usize>)
    ensures
        match r {
            Some(i) => i < sync@.len() && entry_describes(sync@[i as int], *info, file_name@)
                && forall|j: int| 0 <= j < i ==> !entry_describes(#[trigger] sync@[j], *info, file_name@),
            None => forall|j: int| 0 <= j < sync@.len() ==> !entry_describes(#[trigger] sync@[j], *info, file_name@),
        },
{
    let mut i: usize = 0;
    while i < sync.len()
        invariant
            i <= sync@.len(),
            forall|j: int| 0 <= j < i ==> !entry_describes(#[trigger] sync@[j], *info, file_name@),
        decreases sync.len() - i,
    {
        let e = &sync[i];
        if str_eq(e.0.as_str(), info.mod_id.as_str()) || str_eq(info.name.as_str(), e.1.mod_name.as_str())
            || str_eq(file_name, e.1.file_name.as_str()) {
            return Some(i);
        }
        i += 1;
    }
    None
}

/// With `--updates`, a mod is listed when the first sync entry of its name
/// has a newer version than the installed one.
pub open spec fn listed_as_update(sync: Seq<(String, ModSyncInfo)>, name: Seq<char>) -> bool {
    exists|i: int|
        0 <= i < sync.len() && (#[trigger] sync[i]).1.mod_name@ == name && (forall|j: int|
            0 <= j < i ==> sync[j].1.mod_name@ != name) && sync[i].1.latest_known_version@
            != sync[i].1.installed_version@
}

/// Whether a mod is listed with `--updates` (see `listed_as_update`).
pub fn shows_as_update(sync: &Vec<(String, ModSyncInfo)>, name: &str) -> (r: bool)
    ensures
        r == listed_as_update(sync@, name@),
{
    let mut i: usize = 0;
    while i < sync.len()
        invariant
            i <= sync@.len(),
            forall|j: int| 0 <= j < i ==> (#[trigger] sync@[j]).1.mod_name@ != name@,
        decreases sync.len() - i,
    {
        let e = &sync[i].1;
        if str_eq(e.mod_name.as_str(), name) {
            let r = !str_eq(e.latest_known_version.as_str(), e.installed_version.as_str());
            proof {
                if !r {
                    assert forall|k: int|
                        0 <= k < sync@.len() && (#[trigger] sync@[k]).1.mod_name@ == name@ && (forall|j: int|
                            0 <= j < k ==> sync@[j].1.mod_name@ != name@) implies sync@[k].1.latest_known_version@
                        == sync@[k].1.installed_version@ by {
                        if k > i {
                            assert(sync@[i as int].1.mod_name@ == name@);
                        }
                    }
                }
            }
            return r;
        }
        i += 1;
    }
    false
}

/// The installed mods in the order of their names (a stable sort).
pub fn sort_by_name(installed: &Vec<(String, ModInfo)>) -> (r: Vec<usize>)
    ensures
        same_positions(index_range(installed@.len()), r@),
        texts_sorted(installed@.map_values(|e: (String, ModInfo)| e.1.name@), r@),
        texts_stable(installed@.map_values(|e: (String, ModInfo)| e.1.name@), r@),
        forall|k: int| 0 <= k < r@.len() ==> #[trigger] r@[k] < installed@.len(),
{
    let mut names: Vec<String> = Vec::new();
    let mut i: usize = 0;
    while i < installed.len()
        invariant
            i <= installed@.len(),
            texts_of(names@) == installed@.take(i as int).map_values(|e: (String, ModInfo)| e.1.name@),
        decreases installed.len() - i,
    {
        let ghost before = texts_of(names@);
        names.push(installed[i].1.name.clone());
        assert(texts_of(names@) =~= before.push(installed@[i as int].1.name@));
        assert(installed@.take(i + 1).map_values(|e: (String, ModInfo)| e.1.name@) =~= installed@.take(
            i as int,
        ).map_values(|e: (String, ModInfo)| e.1.name@).push(installed@[i as int].1.name@));
        i += 1;
    }
    assert(installed@.take(installed@.len() as int) =~= installed@);
    sort_text_positions(&names)
}


/// The text and style of a table cell: text, colour, attribute, the
/// character it may be wrapped at, and whether it is aligned right.
#[derive(Debug)]
pub struct CellText {
    pub text: String,
    pub color: Option<CellColor>,
    pub attribute: Option<CellAttr>,
    pub delimiter: Option<char>,
    pub align_right: bool,
}

pub type CellView = (Seq<char>, Option<CellColor>, Option<CellAttr>, Option<char>, bool);

impl View for CellText {
    type V = CellView;

    open spec fn view(&self) -> CellView {
        (self.text@, self.color, self.attribute, self.delimiter, self.align_right)
    }
}

/// The id shown for a mod: its own, else the one of its sync entry, else
/// `UNKNOWN`.
pub open spec fn shown_id(own: Seq<char>, sync_id: Seq<char>) -> Seq<char> {
    if own.len() > 0 {
        own
    } else if sync_id.len() > 0 {
        sync_id
    } else {
        "UNKNOWN"@
    }
}

/// What a cell of the mod list holds. `sync_id` and `sync_info` are the mod's
/// sync entry (empty when it has none); `pkg` its pinned package.
pub open spec fn list_cell_ok(
    c: Option<ListColumn>,
    cell: Option<CellView>,
    props: ColumnProperties,
    info: ModInfo,
    file_name: Seq<char>,
    sync_id: Seq<char>,
    sync_info: SyncInfoView,
    pkg: Option<Package>,
    all_deps: Seq<Install>,
    missing_deps: Seq<Install>,
    modpack_call: bool,
    enabled: Seq<String>,
) -> bool {
    let color = props.color;
    let attr = props.attribute;
    match c {
        Some(ListColumn::Name) => cell == Some((info.name@, color, attr, None::<char>, false)),
        Some(ListColumn::ModId) => {
            let mid = shown_id(info.mod_id@, sync_id);
            if modpack_call && crate::search::has_exact(enabled, mid) {
                cell == Some(("(enabled) "@ + mid, Some(CellColor::Green), attr, None::<char>, false))
            } else {
                cell == Some((mid, color, attr, None::<char>, false))
            }
        },
        Some(ListColumn::Version) => cell == Some(
            (version_text(parsed(or_empty(info.version))), color, attr, None::<char>, true),
        ),
        Some(ListColumn::LatestVersion) => {
            let text = sync_info.3 + (if pkg is Some {
                " (pinned)"@
            } else {
                Seq::<char>::empty()
            });
            if sync_info.3 == or_empty(info.version) {
                cell == Some((text, color, attr, None::<char>, true))
            } else {
                cell == Some(
                    (text, Some(CellColor::Red), Some(CellAttr::Bold), None::<char>, true),
                )
            }
        },
        Some(ListColumn::PinnedVersion) => cell == Some(
            (
                match pkg {
                    Some(p) => or_empty(p.pinned_version),
                    None => Seq::empty(),
                },
                color,
                attr,
                None::<char>,
                true,
            ),
        ),
        Some(ListColumn::Description) => cell == Some(
            (join_space(words(or_empty(info.description))), color, attr, None::<char>, false),
        ),
        Some(ListColumn::Deps) => cell matches Some(v) && deps_text_of(v.0, all_deps, info) && v.1
            == color && v.2 == attr && v.3 == Some(',') && !v.4,
        Some(ListColumn::MissingDeps) => if modpack_call {
            cell is None
        } else {
            cell matches Some(v) && deps_text_of(v.0, missing_deps, info) && v.1 == color && v.2
                == attr && v.3 == Some(',') && !v.4
        },
        Some(ListColumn::Filename) => cell == Some((file_name, color, attr, None::<char>, false)),
        Some(ListColumn::GameVersion) => cell == Some(
            (game_range(sync_info.5), color, attr, None::<char>, true),
        ),
        Some(ListColumn::LastUpdateLocal) | Some(ListColumn::LastUpdateRemote) | Some(
            ListColumn::HasBackup,
        ) | Some(ListColumn::Changelog) => cell == Some(
            ("NOT IMPLEMENTED"@, color, attr, None::<char>, false),
        ),
        Some(ListColumn::Website) => cell == Some(
            (or_empty(info.website), color, attr, None::<char>, false),
        ),
        _ => cell == Some((Seq::<char>::empty(), color, attr, None::<char>, false)),
    }
}

pub open spec fn opt_cell(r: Option<CellText>) -> Option<CellView> {
    match r {
        Some(c) => Some(c@),
        None => None,
    }
}

fn plain(text: String, props: &ColumnProperties, right: bool) -> (r: CellText)
    ensures
        r@ == (text@, props.color, props.attribute, None::<char>, right),
{
    CellText { text, color: props.color, attribute: props.attribute, delimiter: None, align_right: right }
}

/// The cell of a configured column for one installed mod (see
/// `list_cell_ok`); `None` for the missing dependencies of a modpack. The
/// version column needs the mod's version to parse.
pub fn list_cell(
    column: &str,
    props: &ColumnProperties,
    info: &ModInfo,
    file_name: &str,
    sync_id: &str,
    sync_info: &ModSyncInfo,
    pkg: Option<&Package>,
    all_deps: &Vec<Install>,
    missing_deps: &Vec<Install>,
    modpack_call: bool,
    enabled: &Vec<String>,
) -> (r: Option<CellText>)
    requires
        ListColumn::parsed(column@) == Some(ListColumn::Version) ==> parses(or_empty(info.version)),
    ensures
        list_cell_ok(
            ListColumn::parsed(column@),
            opt_cell(r),
            *props,
            *info,
            file_name@,
            sync_id@,
            sync_info@,
            match pkg {
                Some(p) => Some(*p),
                None => None,
            },
            all_deps@,
            missing_deps@,
            modpack_call,
            enabled@,
        ),
{
    match ListColumn::parse(column) {
        Ok(ListColumn::Name) => Some(plain(info.name.clone(), props, false)),
        Ok(ListColumn::ModId) => {
            let mid = if !info.mod_id.as_str().is_empty() {
                info.mod_id.clone()
            } else if !sync_id.is_empty() {
                sync_id.to_string()
            } else {
                "UNKNOWN".to_string()
            };
            if modpack_call && vec_contains_string(enabled, mid.as_str()) {
                let mut text = "(enabled) ".to_string();
                text.push_str(mid.as_str());
                Some(
                    CellText {
                        text,
                        color: Some(CellColor::Green),
                        attribute: props.attribute,
                        delimiter: None,
                        align_right: false,
                    },
                )
            } else {
                Some(plain(mid, props, false))
            }
        },
        Ok(ListColumn::Version) => {
            let raw = unwrap_or_empty(&info.version);
            match parse_version(raw.as_str()) {
                Ok(v) => Some(plain(v.to_text(), props, true)),
                Err(_) => {
                    assert(false);
                    None
                },
            }
        },
        Ok(ListColumn::LatestVersion) => {
            let latest = &sync_info.latest_known_version;
            let mut text = latest.clone();
            if pkg.is_some() {
                text.push_str(" (pinned)");
            }
            let installed = unwrap_or_empty(&info.version);
            if str_eq(latest.as_str(), installed.as_str()) {
                Some(plain(text, props, true))
            } else {
                Some(
                    CellText {
                        text,
                        color: Some(CellColor::Red),
                        attribute: Some(CellAttr::Bold),
                        delimiter: None,
                        align_right: true,
                    },
                )
            }
        },
        Ok(ListColumn::PinnedVersion) => {
            let text = match pkg {
                Some(p) => unwrap_or_empty(&p.pinned_version),
                None => String::new(),
            };
            Some(plain(text, props, true))
        },
        Ok(ListColumn::Description) => {
            let d = unwrap_or_empty(&info.description);
            Some(plain(crate::text::sanitize_string(d.as_str()), props, false))
        },
        Ok(ListColumn::Deps) => {
            let text = grab_this_mod_deps(info, all_deps);
            Some(
                CellText {
                    text,
                    color: props.color,
                    attribute: props.attribute,
                    delimiter: Some(','),
                    align_right: false,
                },
            )
        },
        Ok(ListColumn::MissingDeps) => {
            if modpack_call {
                return None;
            }
            let text = grab_this_mod_deps(info, missing_deps);
            Some(
                CellText {
                    text,
                    color: props.color,
                    attribute: props.attribute,
                    delimiter: Some(','),
                    align_right: false,
                },
            )
        },
        Ok(ListColumn::Filename) => Some(plain(file_name.to_string(), props, false)),
        Ok(ListColumn::GameVersion) => Some(
            plain(game_version_range(&sync_info.game_versions), props, true),
        ),
        Ok(ListColumn::LastUpdateLocal) | Ok(ListColumn::LastUpdateRemote) | Ok(ListColumn::HasBackup) | Ok(
            ListColumn::Changelog,
        ) => Some(plain("NOT IMPLEMENTED".to_string(), props, false)),
        Ok(ListColumn::Website) => Some(plain(unwrap_or_empty(&info.website), props, false)),
        _ => Some(plain(String::new(), props, false)),
    }
}


// ---------------------------------------------------------------------------
// The mod page of `info`
// ---------------------------------------------------------------------------

/// The id, name and first listed version of a mod, as `info` shows them.
pub fn mod_summary(m: &crate::api_structs::ApiModJson) -> (r: (String, String, String))
    requires
        m.releases@.len() > 0,
    ensures
        r.0@ == decimal(m.mod_id as nat),
        r.1@ == or_empty(m.name),
        r.2@ == or_empty(m.releases@[0].mod_version),
{
    (u64_to_string(m.mod_id as u64), unwrap_or_empty(&m.name), unwrap_or_empty(&m.releases[0].mod_version))
}

/// Whether `html2text::from_read_rich` renders the text at the width.
pub uninterp spec fn html_rich_renders(text: Seq<char>, width: usize) -> bool;

/// Calls `html2text::from_read_rich` on the text and tells whether it
/// rendered. The result is named `html_rich_renders` of the arguments;
/// which texts render is left unsaid.
#[verifier::external_body]
fn html_renders(text: &str, width: usize) -> (r: bool)
    ensures
        r == html_rich_renders(text@, width),
{
    html2text::from_read_rich(text.as_bytes(), width).is_ok()
}

/// Renders the description of a mod at 100 columns; an error when it cannot
/// be rendered.
pub fn describe_text(m: &crate::api_structs::ApiModJson) -> (r: Result<(), RustiqueError>)
    ensures
        r is Ok <==> html_rich_renders(or_empty(m.text), 100),
        r matches Err(e) ==> e matches RustiqueError::SimpleError(msg) && msg@ == "html2txt failed"@,
{
    let text = unwrap_or_empty(&m.text);
    if html_renders(text.as_str(), 100) {
        Ok(())
    } else {
        Err(RustiqueError::SimpleError("html2txt failed".to_string()))
    }
}

} // verus!
