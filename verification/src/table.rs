//! The table layout settings: for each column, the colour and attribute of
//! its header and of its cells, kept in an ordered map from column name to
//! properties.
use vstd::prelude::*;
use crate::config::{CellAttr, CellColor, ListColumn};
use crate::text::{clone_strings, str_eq};
use crate::keyed::{
    has_key, key_pos, lemma_pos_unique, lemma_push_unique, lemma_remove_unique,
    lemma_update_unique, unique_keys,
};

verus! {

/// How a column is drawn. A missing value leaves the table's own style.
#[derive(Debug, Clone, Copy, PartialEq, Eq, Structural)]
pub struct ColumnProperties {
    pub color: Option<CellColor>,
    pub attribute: Option<CellAttr>,
}

pub open spec fn default_properties() -> ColumnProperties {
    ColumnProperties { color: Some(CellColor::Reset), attribute: Some(CellAttr::NoHidden) }
}

impl Default for ColumnProperties {
    fn default() -> (r: Self)
        ensures
            r == default_properties(),
    {
        ColumnProperties { color: Some(CellColor::Reset), attribute: Some(CellAttr::NoHidden) }
    }
}

// ---------------------------------------------------------------------------
// The ordered map, as a sequence of (name, properties) pairs
// ---------------------------------------------------------------------------

/// The properties stored under a name, if any.
pub open spec fn lookup(m: Seq<(Seq<char>, ColumnProperties)>, k: Seq<char>) -> Option<ColumnProperties> {
    if has_key(m, k) {
        Some(m[key_pos(m, k)].1)
    } else {
        None
    }
}

/// Stores `v` under `k`: in place if `k` is present, at the end otherwise.
pub open spec fn insert_entry(
    m: Seq<(Seq<char>, ColumnProperties)>,
    k: Seq<char>,
    v: ColumnProperties,
) -> Seq<(Seq<char>, ColumnProperties)> {
    if has_key(m, k) {
        m.update(key_pos(m, k), (k, v))
    } else {
        m.push((k, v))
    }
}

/// The properties `old` with each given value replacing the stored one.
pub open spec fn merged(
    old: ColumnProperties,
    color: Option<CellColor>,
    attribute: Option<CellAttr>,
) -> ColumnProperties {
    ColumnProperties {
        color: if color is Some { color } else { old.color },
        attribute: if attribute is Some { attribute } else { old.attribute },
    }
}

/// Sets a column: a present column takes the given values and keeps the
/// others; a new column is added at the end with exactly the given values.
pub open spec fn set_entry(
    m: Seq<(Seq<char>, ColumnProperties)>,
    k: Seq<char>,
    color: Option<CellColor>,
    attribute: Option<CellAttr>,
) -> Seq<(Seq<char>, ColumnProperties)> {
    if has_key(m, k) {
        let i = key_pos(m, k);
        m.update(i, (k, merged(m[i].1, color, attribute)))
    } else {
        m.push((k, ColumnProperties { color, attribute }))
    }
}

/// Adds the column with default properties unless it is present.
pub open spec fn ensure_entry(
    m: Seq<(Seq<char>, ColumnProperties)>,
    k: Seq<char>,
) -> Seq<(Seq<char>, ColumnProperties)> {
    if has_key(m, k) {
        m
    } else {
        m.push((k, default_properties()))
    }
}

/// Removes the column, keeping the order of the others.
pub open spec fn remove_entry(
    m: Seq<(Seq<char>, ColumnProperties)>,
    k: Seq<char>,
) -> Seq<(Seq<char>, ColumnProperties)> {
    if has_key(m, k) {
        m.remove(key_pos(m, k))
    } else {
        m
    }
}

/// Table settings of one group (headers or cells): column name to
/// properties, in the order the columns were added.
#[derive(Debug, Clone)]
pub struct FlattenMap {
    entries: Vec<(String, ColumnProperties)>,
}

impl View for FlattenMap {
    type V = Seq<(Seq<char>, ColumnProperties)>;

    closed spec fn view(&self) -> Seq<(Seq<char>, ColumnProperties)> {
        self.entries@.map_values(|e: (String, ColumnProperties)| (e.0@, e.1))
    }
}

impl FlattenMap {
    /// Every name occurs once.
    pub open spec fn wf(&self) -> bool {
        unique_keys(self@)
    }

    /// An empty map.
    pub fn new() -> (r: Self)
        ensures
            r.wf(),
            r@ == Seq::<(Seq<char>, ColumnProperties)>::empty(),
    {
        let r = FlattenMap { entries: Vec::new() };
        assert(r@ =~= Seq::<(Seq<char>, ColumnProperties)>::empty());
        r
    }

    /// The number of columns.
    pub fn len(&self) -> (r: usize)
        ensures
            r == self@.len(),
    {
        self.entries.len()
    }

    /// The name and properties of the column at position `i`.
    pub fn entry_at(&self, i: usize) -> (r: (String, ColumnProperties))
        requires
            i < self@.len(),
        ensures
            r.0@ == self@[i as int].0,
            r.1 == self@[i as int].1,
    {
        let name = self.entries[i].0.clone();
        (name, self.entries[i].1)
    }

    /// Where the column stands, if present.
    fn find(&self, key: &str) -> (r: Option<usize>)
        requires
            self.wf(),
        ensures
            match r {
                Some(i) => has_key(self@, key@) && i == key_pos(self@, key@) && i < self@.len(),
                None => !has_key(self@, key@),
            },
    {
        let mut i: usize = 0;
        while i < self.entries.len()
            invariant
                self.wf(),
                i <= self.entries.len(),
                self@.len() == self.entries.len(),
                forall|j: int| 0 <= j < i ==> (#[trigger] self@[j]).0 != key@,
            decreases self.entries.len() - i,
        {
            assert(self@[i as int].0 == self.entries@[i as int].0@);
            if str_eq(self.entries[i].0.as_str(), key) {
                proof {
                    lemma_pos_unique(self@, key@, i as int);
                }
                return Some(i);
            }
            i += 1;
        }
        None
    }

    /// The properties of a column, if present.
    pub fn get(&self, key: &str) -> (r: Option<ColumnProperties>)
        requires
            self.wf(),
        ensures
            r == lookup(self@, key@),
    {
        match self.find(key) {
            Some(i) => Some(self.entries[i].1),
            None => None,
        }
    }

    /// Stores the properties under the name (in place if present, at the end
    /// otherwise).
    pub fn with(&mut self, key: &str, color: Option<CellColor>, attribute: Option<CellAttr>)
        requires
            old(self).wf(),
        ensures
            final(self).wf(),
            final(self)@ == insert_entry(old(self)@, key@, ColumnProperties { color, attribute }),
    {
        let v = ColumnProperties { color, attribute };
        let ghost m = self@;
        match self.find(key) {
            Some(i) => {
                self.entries.set(i, (key.to_string(), v));
                proof {
                    assert(self@ =~= m.update(i as int, (key@, v)));
                    lemma_update_unique(m, i as int, (key@, v));
                }
            },
            None => {
                self.entries.push((key.to_string(), v));
                proof {
                    assert(self@ =~= m.push((key@, v)));
                    lemma_push_unique(m, (key@, v));
                }
            },
        }
    }

    /// Sets a column: the given values replace the stored ones; a new column
    /// is added with exactly the given values.
    pub fn set(&mut self, key: &str, color: Option<CellColor>, attribute: Option<CellAttr>)
        requires
            old(self).wf(),
        ensures
            final(self).wf(),
            final(self)@ == set_entry(old(self)@, key@, color, attribute),
    {
        let ghost m = self@;
        match self.find(key) {
            Some(i) => {
                let old_v = self.entries[i].1;
                let v = ColumnProperties {
                    color: if color.is_some() { color } else { old_v.color },
                    attribute: if attribute.is_some() { attribute } else { old_v.attribute },
                };
                self.entries.set(i, (key.to_string(), v));
                proof {
                    assert(v == merged(m[i as int].1, color, attribute));
                    assert(self@ =~= m.update(i as int, (key@, v)));
                    lemma_update_unique(m, i as int, (key@, v));
                }
            },
            None => {
                let v = ColumnProperties { color, attribute };
                self.entries.push((key.to_string(), v));
                proof {
                    assert(self@ =~= m.push((key@, v)));
                    lemma_push_unique(m, (key@, v));
                }
            },
        }
    }

    /// Adds the column with default properties unless it is present.
    pub fn ensure(&mut self, key: &str)
        requires
            old(self).wf(),
        ensures
            final(self).wf(),
            final(self)@ == ensure_entry(old(self)@, key@),
    {
        let ghost m = self@;
        match self.find(key) {
            Some(_) => {},
            None => {
                let v = ColumnProperties::default();
                self.entries.push((key.to_string(), v));
                proof {
                    assert(self@ =~= m.push((key@, v)));
                    lemma_push_unique(m, (key@, v));
                }
            },
        }
    }

    /// Removes the column, keeping the order of the others.
    pub fn remove(&mut self, key: &str)
        requires
            old(self).wf(),
        ensures
            final(self).wf(),
            final(self)@ == remove_entry(old(self)@, key@),
    {
        let ghost m = self@;
        match self.find(key) {
            Some(i) => {
                self.entries.remove(i);
                proof {
                    assert(self@ =~= m.remove(i as int));
                    lemma_remove_unique(m, i as int);
                }
            },
            None => {},
        }
    }
}


/// Properties with the given colour and attribute.
pub open spec fn props(color: Option<CellColor>, attribute: Option<CellAttr>) -> ColumnProperties {
    ColumnProperties { color, attribute }
}

/// The default headers of the mod list: every default column green and bold.
pub open spec fn list_default_headers() -> Seq<(Seq<char>, ColumnProperties)> {
    seq![
        (ListColumn::Name.name(), props(Some(CellColor::Green), Some(CellAttr::Bold))),
        (ListColumn::ModId.name(), props(Some(CellColor::Green), Some(CellAttr::Bold))),
        (ListColumn::Version.name(), props(Some(CellColor::Green), Some(CellAttr::Bold))),
        (ListColumn::LatestVersion.name(), props(Some(CellColor::Green), Some(CellAttr::Bold))),
        (ListColumn::Deps.name(), props(Some(CellColor::Green), Some(CellAttr::Bold))),
        (ListColumn::MissingDeps.name(), props(Some(CellColor::Green), Some(CellAttr::Bold))),
        (ListColumn::Description.name(), props(Some(CellColor::Green), Some(CellAttr::Bold))),
    ]
}

/// The default cells of the mod list.
pub open spec fn list_default_cells() -> Seq<(Seq<char>, ColumnProperties)> {
    seq![
        (ListColumn::Name.name(), props(Some(CellColor::Yellow), None)),
        (ListColumn::ModId.name(), props(Some(CellColor::Reset), None)),
        (ListColumn::Version.name(), props(Some(CellColor::Reset), Some(CellAttr::Dim))),
        (ListColumn::LatestVersion.name(), props(Some(CellColor::Green), Some(CellAttr::Bold))),
        (ListColumn::Deps.name(), props(Some(CellColor::Reset), None)),
        (ListColumn::MissingDeps.name(), props(Some(CellColor::Red), Some(CellAttr::Bold))),
        (ListColumn::Description.name(), props(Some(CellColor::Reset), None)),
    ]
}

/// The default headers of the search results: green and bold.
pub open spec fn search_default_headers() -> Seq<(Seq<char>, ColumnProperties)> {
    seq![
        ("mod_id"@, props(Some(CellColor::Green), Some(CellAttr::Bold))),
        ("name"@, props(Some(CellColor::Green), Some(CellAttr::Bold))),
        ("summary"@, props(Some(CellColor::Green), Some(CellAttr::Bold))),
    ]
}

/// The default cells of the search results.
pub open spec fn search_default_cells() -> Seq<(Seq<char>, ColumnProperties)> {
    seq![
        ("mod_id"@, props(Some(CellColor::Magenta), Some(CellAttr::Bold))),
        ("name"@, props(Some(CellColor::Reset), None)),
        ("summary"@, props(Some(CellColor::Reset), None)),
    ]
}

/// The column names the default tables use are pairwise different.
proof fn lemma_default_names_distinct()
    ensures
        "name"@ != "mod_id"@,
        "name"@ != "version"@,
        "name"@ != "latest_version"@,
        "name"@ != "deps"@,
        "name"@ != "missing_deps"@,
        "name"@ != "description"@,
        "name"@ != "summary"@,
        "mod_id"@ != "version"@,
        "mod_id"@ != "latest_version"@,
        "mod_id"@ != "deps"@,
        "mod_id"@ != "missing_deps"@,
        "mod_id"@ != "description"@,
        "mod_id"@ != "summary"@,
        "version"@ != "latest_version"@,
        "version"@ != "deps"@,
        "version"@ != "missing_deps"@,
        "version"@ != "description"@,
        "version"@ != "summary"@,
        "latest_version"@ != "deps"@,
        "latest_version"@ != "missing_deps"@,
        "latest_version"@ != "description"@,
        "latest_version"@ != "summary"@,
        "deps"@ != "missing_deps"@,
        "deps"@ != "description"@,
        "deps"@ != "summary"@,
        "missing_deps"@ != "description"@,
        "missing_deps"@ != "summary"@,
        "description"@ != "summary"@,
{
    reveal_strlit("name");
    reveal_strlit("mod_id");
    reveal_strlit("version");
    reveal_strlit("latest_version");
    reveal_strlit("deps");
    reveal_strlit("missing_deps");
    reveal_strlit("description");
    reveal_strlit("summary");
    assert("name"@.len() == 4);
    assert("name"@[0] == 'n');
    assert("mod_id"@.len() == 6);
    assert("version"@.len() == 7);
    assert("version"@[0] == 'v');
    assert("latest_version"@.len() == 14);
    assert("deps"@.len() == 4);
    assert("deps"@[0] == 'd');
    assert("missing_deps"@.len() == 12);
    assert("description"@.len() == 11);
    assert("summary"@.len() == 7);
    assert("summary"@[0] == 's');
}

/// The settings of one table: its headers and its cells.
#[derive(Debug, Clone)]
pub struct TableSection {
    pub headers: FlattenMap,
    pub cells: FlattenMap,
}

impl TableSection {
    pub open spec fn wf(&self) -> bool {
        self.headers.wf() && self.cells.wf()
    }

    /// A section with no columns.
    pub fn new() -> (r: Self)
        ensures
            r.wf(),
            r.headers@ == Seq::<(Seq<char>, ColumnProperties)>::empty(),
            r.cells@ == Seq::<(Seq<char>, ColumnProperties)>::empty(),
    {
        TableSection { headers: FlattenMap::new(), cells: FlattenMap::new() }
    }
}

impl Default for TableSection {
    fn default() -> (r: Self)
        ensures
            r.wf(),
            r.headers@ == Seq::<(Seq<char>, ColumnProperties)>::empty(),
            r.cells@ == Seq::<(Seq<char>, ColumnProperties)>::empty(),
    {
        TableSection::new()
    }
}

/// The settings of both tables.
#[derive(Debug, Clone)]
pub struct Tables {
    pub list: TableSection,
    pub search: TableSection,
}

impl Tables {
    pub open spec fn wf(&self) -> bool {
        self.list.wf() && self.search.wf()
    }

    /// Both tables with their default settings.
    pub fn with_defaults() -> (r: Self)
        ensures
            r.wf(),
            r.list.headers@ == list_default_headers(),
            r.list.cells@ == list_default_cells(),
            r.search.headers@ == search_default_headers(),
            r.search.cells@ == search_default_cells(),
    {
        Tables { list: Tables::list_defaults(), search: Tables::search_defaults() }
    }

    /// The default settings of the mod list.
    pub fn list_defaults() -> (r: TableSection)
        ensures
            r.wf(),
            r.headers@ == list_default_headers(),
            r.cells@ == list_default_cells(),
    {
        proof {
            lemma_default_names_distinct();
        }
        let mut list = TableSection::new();
        let g = Some(CellColor::Green);
        let b = Some(CellAttr::Bold);
        list.headers.with(ListColumn::Name.as_str(), g, b);
        list.headers.with(ListColumn::ModId.as_str(), g, b);
        list.headers.with(ListColumn::Version.as_str(), g, b);
        list.headers.with(ListColumn::LatestVersion.as_str(), g, b);
        list.headers.with(ListColumn::Deps.as_str(), g, b);
        list.headers.with(ListColumn::MissingDeps.as_str(), g, b);
        list.headers.with(ListColumn::Description.as_str(), g, b);
        assert(list.headers@ =~= list_default_headers());

        list.cells.with(ListColumn::Name.as_str(), Some(CellColor::Yellow), None);
        list.cells.with(ListColumn::ModId.as_str(), Some(CellColor::Reset), None);
        list.cells.with(ListColumn::Version.as_str(), Some(CellColor::Reset), Some(CellAttr::Dim));
        list.cells.with(ListColumn::LatestVersion.as_str(), g, b);
        list.cells.with(ListColumn::Deps.as_str(), Some(CellColor::Reset), None);
        list.cells.with(ListColumn::MissingDeps.as_str(), Some(CellColor::Red), b);
        list.cells.with(ListColumn::Description.as_str(), Some(CellColor::Reset), None);
        assert(list.cells@ =~= list_default_cells());
        list
    }

    /// The default settings of the search results.
    pub fn search_defaults() -> (r: TableSection)
        ensures
            r.wf(),
            r.headers@ == search_default_headers(),
            r.cells@ == search_default_cells(),
    {
        proof {
            lemma_default_names_distinct();
        }
        let mut search = TableSection::new();
        let g = Some(CellColor::Green);
        let b = Some(CellAttr::Bold);
        search.headers.with("mod_id", g, b);
        search.headers.with("name", g, b);
        search.headers.with("summary", g, b);
        assert(search.headers@ =~= search_default_headers());

        search.cells.with("mod_id", Some(CellColor::Magenta), b);
        search.cells.with("name", Some(CellColor::Reset), None);
        search.cells.with("summary", Some(CellColor::Reset), None);
        assert(search.cells@ =~= search_default_cells());
        search
    }
}

impl Default for Tables {
    fn default() -> (r: Self)
        ensures
            r.wf(),
            r.list.headers@ == list_default_headers(),
            r.list.cells@ == list_default_cells(),
            r.search.headers@ == search_default_headers(),
            r.search.cells@ == search_default_cells(),
    {
        Tables::with_defaults()
    }
}


// ---------------------------------------------------------------------------
// Editing the table settings
// ---------------------------------------------------------------------------

/// Which group of a table a command edits.
#[derive(Debug, Clone, Copy, PartialEq, Eq, Structural)]
pub struct TableGroup {
    pub cells: bool,
    pub headers: bool,
}

/// An edit of some columns of a table: one field or a list of fields, the
/// group, and the values to set.
#[derive(Debug)]
pub struct TableSubFlags {
    pub group: TableGroup,
    pub field: Option<String>,
    pub fields: Vec<String>,
    pub color: Option<CellColor>,
    pub attr: Option<CellAttr>,
}

/// The group a command names: the cells when asked for, else the headers;
/// `None` when it names neither.
pub fn cell_or_header(arg: &TableGroup) -> (r: Option<String>)
    ensures
        arg.cells ==> r is Some && r->0@ == "cells"@,
        !arg.cells && arg.headers ==> r is Some && r->0@ == "headers"@,
        !arg.cells && !arg.headers ==> r is None,
{
    if arg.cells {
        Some("cells".to_string())
    } else if arg.headers {
        Some("headers".to_string())
    } else {
        None
    }
}

/// The fields an edit applies to: the single field if given, else the list.
pub open spec fn selected_fields(arg: &TableSubFlags) -> Seq<Seq<char>> {
    match arg.field {
        Some(f) => seq![f@],
        None => arg.fields@.map_values(|s: String| s@),
    }
}

/// One field edited in a pair (edited group, other group): deleting removes
/// it from both; setting sets it in the edited group and makes sure the other
/// group has it.
pub open spec fn edit_step(
    main: Seq<(Seq<char>, ColumnProperties)>,
    other: Seq<(Seq<char>, ColumnProperties)>,
    f: Seq<char>,
    color: Option<CellColor>,
    attr: Option<CellAttr>,
    delete: bool,
) -> (Seq<(Seq<char>, ColumnProperties)>, Seq<(Seq<char>, ColumnProperties)>) {
    if delete {
        (remove_entry(main, f), remove_entry(other, f))
    } else {
        (set_entry(main, f, color, attr), ensure_entry(other, f))
    }
}

/// The fields edited one after the other, in order.
pub open spec fn edit_all(
    main: Seq<(Seq<char>, ColumnProperties)>,
    other: Seq<(Seq<char>, ColumnProperties)>,
    fs: Seq<Seq<char>>,
    color: Option<CellColor>,
    attr: Option<CellAttr>,
    delete: bool,
) -> (Seq<(Seq<char>, ColumnProperties)>, Seq<(Seq<char>, ColumnProperties)>)
    decreases fs.len(),
{
    if fs.len() == 0 {
        (main, other)
    } else {
        let p = edit_all(main, other, fs.drop_last(), color, attr, delete);
        edit_step(p.0, p.1, fs.last(), color, attr, delete)
    }
}

proof fn lemma_edit_all_step(
    main: Seq<(Seq<char>, ColumnProperties)>,
    other: Seq<(Seq<char>, ColumnProperties)>,
    fs: Seq<Seq<char>>,
    i: int,
    color: Option<CellColor>,
    attr: Option<CellAttr>,
    delete: bool,
)
    requires
        0 <= i < fs.len(),
    ensures
        edit_all(main, other, fs.take(i + 1), color, attr, delete) == ({
            let p = edit_all(main, other, fs.take(i), color, attr, delete);
            edit_step(p.0, p.1, fs[i], color, attr, delete)
        }),
{
    assert(fs.take(i + 1).drop_last() =~= fs.take(i));
}

/// Sets or deletes the chosen fields in the chosen group of a table.
pub fn modify_table(arg: &TableSubFlags, section: &mut TableSection, delete: bool)
    requires
        old(section).wf(),
        arg.group.cells || arg.group.headers,
        arg.field is Some || arg.fields.len() > 0,
    ensures
        final(section).wf(),
        arg.group.cells ==> (final(section).cells@, final(section).headers@) == edit_all(
            old(section).cells@,
            old(section).headers@,
            selected_fields(arg),
            arg.color,
            arg.attr,
            delete,
        ),
        !arg.group.cells ==> (final(section).headers@, final(section).cells@) == edit_all(
            old(section).headers@,
            old(section).cells@,
            selected_fields(arg),
            arg.color,
            arg.attr,
            delete,
        ),
{
    let group = cell_or_header(&arg.group);
    let on_cells = match group {
        Some(g) => str_eq(g.as_str(), "cells"),
        None => false,
    };
    proof {
        reveal_strlit("cells");
        reveal_strlit("headers");
        assert("cells"@.len() == 5 && "headers"@.len() == 7);
    }
    let fields: Vec<String> = match &arg.field {
        Some(f) => {
            let mut v: Vec<String> = Vec::new();
            v.push(f.clone());
            v
        },
        None => clone_strings(&arg.fields),
    };
    let ghost fs = fields@.map_values(|s: String| s@);
    assert(fs =~= selected_fields(arg));
    let ghost h0 = section.headers@;
    let ghost c0 = section.cells@;
    let mut i: usize = 0;
    while i < fields.len()
        invariant
            section.wf(),
            i <= fields.len(),
            fs == fields@.map_values(|s: String| s@),
            on_cells == arg.group.cells,
            on_cells ==> (section.cells@, section.headers@) == edit_all(c0, h0, fs.take(i as int), arg.color, arg.attr, delete),
            !on_cells ==> (section.headers@, section.cells@) == edit_all(h0, c0, fs.take(i as int), arg.color, arg.attr, delete),
        decreases fields.len() - i,
    {
        proof {
            lemma_edit_all_step(c0, h0, fs, i as int, arg.color, arg.attr, delete);
            lemma_edit_all_step(h0, c0, fs, i as int, arg.color, arg.attr, delete);
        }
        let f = fields[i].as_str();
        assert(f@ == fs[i as int]);
        if on_cells {
            if delete {
                section.cells.remove(f);
                section.headers.remove(f);
            } else {
                section.cells.set(f, arg.color, arg.attr);
                section.headers.ensure(f);
            }
        } else {
            if delete {
                section.headers.remove(f);
                section.cells.remove(f);
            } else {
                section.headers.set(f, arg.color, arg.attr);
                section.cells.ensure(f);
            }
        }
        i += 1;
    }
    assert(fs.take(fields.len() as int) =~= fs);
}

/// Puts a table back to its default settings: `list` or `search`; any other
/// name leaves the section as it is.
pub fn reset_table(section: &mut TableSection, table_type: &str)
    requires
        old(section).wf(),
    ensures
        final(section).wf(),
        table_type@ == "list"@ ==> final(section).headers@ == list_default_headers()
            && final(section).cells@ == list_default_cells(),
        table_type@ == "search"@ ==> final(section).headers@ == search_default_headers()
            && final(section).cells@ == search_default_cells(),
        table_type@ != "list"@ && table_type@ != "search"@ ==> final(section).headers@ == old(section).headers@
            && final(section).cells@ == old(section).cells@,
{
    proof {
        reveal_strlit("list");
        reveal_strlit("search");
        assert("list"@.len() == 4 && "search"@.len() == 6);
    }
    if str_eq(table_type, "list") {
        *section = Tables::list_defaults();
    } else if str_eq(table_type, "search") {
        *section = Tables::search_defaults();
    }
}

// ---------------------------------------------------------------------------
// Laws of the column settings
// ---------------------------------------------------------------------------

/// Setting a column makes it present with the given values over the stored
/// ones (or exactly the given values when it was absent), and leaves every
/// other column as it was.
pub proof fn lemma_set_entry_lookup(
    m: Seq<(Seq<char>, ColumnProperties)>,
    k: Seq<char>,
    other: Seq<char>,
    color: Option<CellColor>,
    attr: Option<CellAttr>,
)
    requires
        unique_keys(m),
    ensures
        unique_keys(set_entry(m, k, color, attr)),
        lookup(set_entry(m, k, color, attr), k) == Some(
            match lookup(m, k) {
                Some(p) => merged(p, color, attr),
                None => props(color, attr),
            },
        ),
        other != k ==> lookup(set_entry(m, k, color, attr), other) == lookup(m, other),
{
    let n = set_entry(m, k, color, attr);
    if has_key(m, k) {
        let i = key_pos(m, k);
        lemma_update_unique(m, i, (k, merged(m[i].1, color, attr)));
        lemma_pos_unique(n, k, i);
        if other != k && has_key(m, other) {
            let j = key_pos(m, other);
            lemma_pos_unique(n, other, j);
        }
        if other != k && has_key(n, other) {
            let j = key_pos(n, other);
            lemma_pos_unique(m, other, j);
        }
    } else {
        lemma_push_unique(m, (k, props(color, attr)));
        lemma_pos_unique(n, k, m.len() as int);
        if other != k && has_key(m, other) {
            let j = key_pos(m, other);
            lemma_pos_unique(n, other, j);
        }
        if other != k && has_key(n, other) {
            let j = key_pos(n, other);
            assert(n[j] == m[j]);
            lemma_pos_unique(m, other, j);
        }
    }
}

/// Removing a column makes it absent and leaves every other column as it was.
pub proof fn lemma_remove_entry_lookup(m: Seq<(Seq<char>, ColumnProperties)>, k: Seq<char>, other: Seq<char>)
    requires
        unique_keys(m),
    ensures
        unique_keys(remove_entry(m, k)),
        lookup(remove_entry(m, k), k) is None,
        other != k ==> lookup(remove_entry(m, k), other) == lookup(m, other),
{
    let n = remove_entry(m, k);
    if has_key(m, k) {
        let i = key_pos(m, k);
        lemma_remove_unique(m, i);
        if other != k && has_key(m, other) {
            let j = key_pos(m, other);
            let j1 = if j < i { j } else { j - 1 };
            assert(n[j1] == m[j]);
            lemma_pos_unique(n, other, j1);
        }
        if other != k && has_key(n, other) {
            let j = key_pos(n, other);
            let j1 = if j < i { j } else { j + 1 };
            assert(n[j] == m[j1]);
            lemma_pos_unique(m, other, j1);
        }
    }
}

/// Deleting a column undoes setting it: a set followed by a delete of the
/// same column leaves the group as the delete alone would, and so does
/// making sure the column is present.
pub proof fn lemma_delete_undoes_set(
    m: Seq<(Seq<char>, ColumnProperties)>,
    k: Seq<char>,
    color: Option<CellColor>,
    attr: Option<CellAttr>,
)
    requires
        unique_keys(m),
    ensures
        remove_entry(set_entry(m, k, color, attr), k) == remove_entry(m, k),
        remove_entry(ensure_entry(m, k), k) == remove_entry(m, k),
{
    if has_key(m, k) {
        let i = key_pos(m, k);
        let n = set_entry(m, k, color, attr);
        lemma_update_unique(m, i, (k, merged(m[i].1, color, attr)));
        lemma_pos_unique(n, k, i);
        assert(n.remove(i) =~= m.remove(i));
    } else {
        let n = set_entry(m, k, color, attr);
        lemma_push_unique(m, (k, props(color, attr)));
        lemma_pos_unique(n, k, m.len() as int);
        assert(n.remove(m.len() as int) =~= m);
        let e = ensure_entry(m, k);
        lemma_push_unique(m, (k, default_properties()));
        lemma_pos_unique(e, k, m.len() as int);
        assert(e.remove(m.len() as int) =~= m);
    }
}

/// Setting a column twice with the same values is the same as setting it once.
pub proof fn lemma_set_entry_idempotent(
    m: Seq<(Seq<char>, ColumnProperties)>,
    k: Seq<char>,
    color: Option<CellColor>,
    attr: Option<CellAttr>,
)
    requires
        unique_keys(m),
    ensures
        set_entry(set_entry(m, k, color, attr), k, color, attr) == set_entry(m, k, color, attr),
{
    let n = set_entry(m, k, color, attr);
    if has_key(m, k) {
        let i = key_pos(m, k);
        lemma_update_unique(m, i, (k, merged(m[i].1, color, attr)));
        lemma_pos_unique(n, k, i);
        assert(set_entry(n, k, color, attr) =~= n);
    } else {
        lemma_push_unique(m, (k, props(color, attr)));
        lemma_pos_unique(n, k, m.len() as int);
        assert(set_entry(n, k, color, attr) =~= n);
    }
}

} // verus!
