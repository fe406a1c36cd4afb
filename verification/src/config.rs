//! Configuration types: table colours and attributes, column names, and the
//! pinned packages of the user.
use vstd::prelude::*;
use crate::text::{ascii_chars, ascii_lower_seq, lowered, lowercase, str_eq};

verus! {

// ---------------------------------------------------------------------------
// Colours
// ---------------------------------------------------------------------------

/// A colour that a table cell can be drawn in.
#[derive(Debug, Clone, Copy, PartialEq, Eq, Structural)]
pub enum CellColor {
    Black,
    Blue,
    Cyan,
    DarkCyan,
    DarkBlue,
    Green,
    DarkGreen,
    Grey,
    DarkGrey,
    Magenta,
    DarkMagenta,
    Red,
    DarkRed,
    White,
    Yellow,
    DarkYellow,
    Reset,
}

impl CellColor {
    /// The name a colour is written with.
    pub open spec fn name(self) -> Seq<char> {
        match self {
            CellColor::Black => "black"@,
            CellColor::Blue => "blue"@,
            CellColor::DarkBlue => "dark_blue"@,
            CellColor::Cyan => "cyan"@,
            CellColor::DarkCyan => "dark_cyan"@,
            CellColor::Green => "green"@,
            CellColor::DarkGreen => "dark_green"@,
            CellColor::Grey => "grey"@,
            CellColor::DarkGrey => "dark_grey"@,
            CellColor::Magenta => "magenta"@,
            CellColor::DarkMagenta => "dark_magenta"@,
            CellColor::Red => "red"@,
            CellColor::DarkRed => "dark_red"@,
            CellColor::White => "white"@,
            CellColor::Yellow => "yellow"@,
            CellColor::DarkYellow => "dark_yellow"@,
            CellColor::Reset => "reset"@,
        }
    }

    /// The colour a lowercase name is read as. `grey` and `dark_grey` are
    /// not read back.
    pub open spec fn from_lower(l: Seq<char>) -> Option<CellColor> {
        if l == "black"@ {
            Some(CellColor::Black)
        } else if l == "blue"@ {
            Some(CellColor::Blue)
        } else if l == "dark_blue"@ {
            Some(CellColor::DarkBlue)
        } else if l == "cyan"@ {
            Some(CellColor::Cyan)
        } else if l == "dark_cyan"@ {
            Some(CellColor::DarkCyan)
        } else if l == "green"@ {
            Some(CellColor::Green)
        } else if l == "dark_green"@ {
            Some(CellColor::DarkGreen)
        } else if l == "magenta"@ {
            Some(CellColor::Magenta)
        } else if l == "dark_magenta"@ {
            Some(CellColor::DarkMagenta)
        } else if l == "red"@ {
            Some(CellColor::Red)
        } else if l == "dark_red"@ {
            Some(CellColor::DarkRed)
        } else if l == "white"@ {
            Some(CellColor::White)
        } else if l == "yellow"@ {
            Some(CellColor::Yellow)
        } else if l == "dark_yellow"@ {
            Some(CellColor::DarkYellow)
        } else if l == "reset"@ {
            Some(CellColor::Reset)
        } else {
            None
        }
    }

    /// The colour a text is read as, in any case.
    pub open spec fn parsed(s: Seq<char>) -> Option<CellColor> {
        CellColor::from_lower(lowered(s))
    }

    /// The colour's name.
    pub fn as_str(&self) -> (r: &'static str)
        ensures
            r@ == self.name(),
    {
        match self {
            CellColor::Black => "black",
            CellColor::Blue => "blue",
            CellColor::DarkBlue => "dark_blue",
            CellColor::Cyan => "cyan",
            CellColor::DarkCyan => "dark_cyan",
            CellColor::Green => "green",
            CellColor::DarkGreen => "dark_green",
            CellColor::Grey => "grey",
            CellColor::DarkGrey => "dark_grey",
            CellColor::Magenta => "magenta",
            CellColor::DarkMagenta => "dark_magenta",
            CellColor::Red => "red",
            CellColor::DarkRed => "dark_red",
            CellColor::White => "white",
            CellColor::Yellow => "yellow",
            CellColor::DarkYellow => "dark_yellow",
            CellColor::Reset => "reset",
        }
    }

    /// Reads a colour name in any case.
    pub fn parse(s: &str) -> (r: Result<CellColor, ()>)
        ensures
            r == (match CellColor::parsed(s@) {
                Some(c) => Ok(c),
                None => Err(()),
            }),
    {
        let l = lowercase(s);
        let t = l.as_str();
        if str_eq(t, "black") {
            Ok(CellColor::Black)
        } else if str_eq(t, "blue") {
            Ok(CellColor::Blue)
        } else if str_eq(t, "dark_blue") {
            Ok(CellColor::DarkBlue)
        } else if str_eq(t, "cyan") {
            Ok(CellColor::Cyan)
        } else if str_eq(t, "dark_cyan") {
            Ok(CellColor::DarkCyan)
        } else if str_eq(t, "green") {
            Ok(CellColor::Green)
        } else if str_eq(t, "dark_green") {
            Ok(CellColor::DarkGreen)
        } else if str_eq(t, "magenta") {
            Ok(CellColor::Magenta)
        } else if str_eq(t, "dark_magenta") {
            Ok(CellColor::DarkMagenta)
        } else if str_eq(t, "red") {
            Ok(CellColor::Red)
        } else if str_eq(t, "dark_red") {
            Ok(CellColor::DarkRed)
        } else if str_eq(t, "white") {
            Ok(CellColor::White)
        } else if str_eq(t, "yellow") {
            Ok(CellColor::Yellow)
        } else if str_eq(t, "dark_yellow") {
            Ok(CellColor::DarkYellow)
        } else if str_eq(t, "reset") {
            Ok(CellColor::Reset)
        } else {
            Err(())
        }
    }
}

impl std::str::FromStr for CellColor {
    type Err = ();

    fn from_str(s: &str) -> (r: Result<Self, Self::Err>)
        ensures
            r == (match CellColor::parsed(s@) {
                Some(c) => Ok(c),
                None => Err(()),
            }),
    {
        CellColor::parse(s)
    }
}

/// Every colour name is read back as the colour it names, except `grey` and
/// `dark_grey`, which are not read at all.
pub proof fn lemma_cell_color_round_trip(c: CellColor)
    ensures
        c != CellColor::Grey && c != CellColor::DarkGrey ==> CellColor::parsed(c.name()) == Some(c),
        c == CellColor::Grey || c == CellColor::DarkGrey ==> CellColor::parsed(c.name()) is None,
{
    reveal_strlit("black");
    reveal_strlit("blue");
    reveal_strlit("dark_blue");
    reveal_strlit("cyan");
    reveal_strlit("dark_cyan");
    reveal_strlit("green");
    reveal_strlit("dark_green");
    reveal_strlit("grey");
    reveal_strlit("dark_grey");
    reveal_strlit("magenta");
    reveal_strlit("dark_magenta");
    reveal_strlit("red");
    reveal_strlit("dark_red");
    reveal_strlit("white");
    reveal_strlit("yellow");
    reveal_strlit("dark_yellow");
    reveal_strlit("reset");
    assert("black"@.len() == 5);
    assert("black"@[0] == 'b');
    assert("blue"@.len() == 4);
    assert("blue"@[0] == 'b');
    assert("dark_blue"@.len() == 9);
    assert("dark_blue"@[5] == 'b');
    assert("cyan"@.len() == 4);
    assert("cyan"@[0] == 'c');
    assert("dark_cyan"@.len() == 9);
    assert("dark_cyan"@[5] == 'c');
    assert("green"@.len() == 5);
    assert("green"@[0] == 'g');
    assert("dark_green"@.len() == 10);
    assert("grey"@.len() == 4);
    assert("grey"@[0] == 'g');
    assert("dark_grey"@.len() == 9);
    assert("dark_grey"@[5] == 'g');
    assert("magenta"@.len() == 7);
    assert("dark_magenta"@.len() == 12);
    assert("red"@.len() == 3);
    assert("dark_red"@.len() == 8);
    assert("white"@.len() == 5);
    assert("white"@[0] == 'w');
    assert("yellow"@.len() == 6);
    assert("dark_yellow"@.len() == 11);
    assert("reset"@.len() == 5);
    assert("reset"@[0] == 'r');
    assert(ascii_chars(c.name()));
    assert(ascii_lower_seq(c.name()) =~= c.name());
}

// ---------------------------------------------------------------------------
// Columns and attributes
// ---------------------------------------------------------------------------

/// A column of the table of installed mods.
#[derive(Debug, Clone, Copy, PartialEq, Eq, Structural)]
pub enum ListColumn {
    Name,
    ModId,
    Version,
    LatestVersion,
    Deps,
    MissingDeps,
    Changelog,
    Description,
    Website,
    GameVersion,
    LastUpdateLocal,
    LastUpdateRemote,
    PinnedVersion,
    HasBackup,
    Filename,
    ModURL,
}

impl ListColumn {
    /// The name the value is written with.
    pub open spec fn name(self) -> Seq<char> {
        match self {
            ListColumn::Name => "name"@,
            ListColumn::ModId => "mod_id"@,
            ListColumn::Version => "version"@,
            ListColumn::LatestVersion => "latest_version"@,
            ListColumn::Deps => "deps"@,
            ListColumn::MissingDeps => "missing_deps"@,
            ListColumn::Changelog => "changelog"@,
            ListColumn::Description => "description"@,
            ListColumn::Website => "website"@,
            ListColumn::GameVersion => "game_version"@,
            ListColumn::LastUpdateLocal => "last_update"@,
            ListColumn::LastUpdateRemote => "last_update_remote"@,
            ListColumn::PinnedVersion => "pinned_version"@,
            ListColumn::HasBackup => "has_backup"@,
            ListColumn::Filename => "filename"@,
            ListColumn::ModURL => "mod_url"@,
        }
    }

    /// The value a lowercase name is read as.
    pub open spec fn from_lower(l: Seq<char>) -> Option<ListColumn> {
        if l == "name"@ {
            Some(ListColumn::Name)
        } else if l == "mod_id"@ {
            Some(ListColumn::ModId)
        } else if l == "version"@ {
            Some(ListColumn::Version)
        } else if l == "latest_version"@ {
            Some(ListColumn::LatestVersion)
        } else if l == "deps"@ {
            Some(ListColumn::Deps)
        } else if l == "missing_deps"@ {
            Some(ListColumn::MissingDeps)
        } else if l == "changelog"@ {
            Some(ListColumn::Changelog)
        } else if l == "description"@ {
            Some(ListColumn::Description)
        } else if l == "website"@ {
            Some(ListColumn::Website)
        } else if l == "game_version"@ {
            Some(ListColumn::GameVersion)
        } else if l == "last_update_local"@ {
            Some(ListColumn::LastUpdateLocal)
        } else if l == "last_update_remote"@ {
            Some(ListColumn::LastUpdateRemote)
        } else if l == "pinned_version"@ {
            Some(ListColumn::PinnedVersion)
        } else if l == "has_backup"@ {
            Some(ListColumn::HasBackup)
        } else if l == "filename"@ {
            Some(ListColumn::Filename)
        } else if l == "mod_url"@ {
            Some(ListColumn::ModURL)
        } else {
            None
        }
    }

    /// The value a text is read as, in any case.
    pub open spec fn parsed(s: Seq<char>) -> Option<ListColumn> {
        ListColumn::from_lower(lowered(s))
    }

    /// The name of the value.
    pub fn as_str(&self) -> (r: &'static str)
        ensures
            r@ == self.name(),
    {
        match self {
            ListColumn::Name => "name",
            ListColumn::ModId => "mod_id",
            ListColumn::Version => "version",
            ListColumn::LatestVersion => "latest_version",
            ListColumn::Deps => "deps",
            ListColumn::MissingDeps => "missing_deps",
            ListColumn::Changelog => "changelog",
            ListColumn::Description => "description",
            ListColumn::Website => "website",
            ListColumn::GameVersion => "game_version",
            ListColumn::LastUpdateLocal => "last_update",
            ListColumn::LastUpdateRemote => "last_update_remote",
            ListColumn::PinnedVersion => "pinned_version",
            ListColumn::HasBackup => "has_backup",
            ListColumn::Filename => "filename",
            ListColumn::ModURL => "mod_url",
        }
    }

    /// Reads a name in any case.
    pub fn parse(s: &str) -> (r: Result<ListColumn, ()>)
        ensures
            r == (match ListColumn::parsed(s@) {
                Some(c) => Ok(c),
                None => Err(()),
            }),
    {
        let l = lowercase(s);
        let t = l.as_str();
        if str_eq(t, "name") {
            Ok(ListColumn::Name)
        } else if str_eq(t, "mod_id") {
            Ok(ListColumn::ModId)
        } else if str_eq(t, "version") {
            Ok(ListColumn::Version)
        } else if str_eq(t, "latest_version") {
            Ok(ListColumn::LatestVersion)
        } else if str_eq(t, "deps") {
            Ok(ListColumn::Deps)
        } else if str_eq(t, "missing_deps") {
            Ok(ListColumn::MissingDeps)
        } else if str_eq(t, "changelog") {
            Ok(ListColumn::Changelog)
        } else if str_eq(t, "description") {
            Ok(ListColumn::Description)
        } else if str_eq(t, "website") {
            Ok(ListColumn::Website)
        } else if str_eq(t, "game_version") {
            Ok(ListColumn::GameVersion)
        } else if str_eq(t, "last_update_local") {
            Ok(ListColumn::LastUpdateLocal)
        } else if str_eq(t, "last_update_remote") {
            Ok(ListColumn::LastUpdateRemote)
        } else if str_eq(t, "pinned_version") {
            Ok(ListColumn::PinnedVersion)
        } else if str_eq(t, "has_backup") {
            Ok(ListColumn::HasBackup)
        } else if str_eq(t, "filename") {
            Ok(ListColumn::Filename)
        } else if str_eq(t, "mod_url") {
            Ok(ListColumn::ModURL)
        } else {
            Err(())
        }
    }
}

impl std::str::FromStr for ListColumn {
    type Err = ();

    fn from_str(s: &str) -> (r: Result<Self, Self::Err>)
        ensures
            r == (match ListColumn::parsed(s@) {
                Some(c) => Ok(c),
                None => Err(()),
            }),
    {
        ListColumn::parse(s)
    }
}

/// Every column name of the mod list is read back as its column, except that of
/// `LastUpdateLocal`: it is written `last_update` and read as `last_update_local`,
/// so its written name is not read at all.
pub proof fn lemma_list_column_round_trip(c: ListColumn)
    ensures
        c != ListColumn::LastUpdateLocal ==> ListColumn::parsed(c.name()) == Some(c),
        c == ListColumn::LastUpdateLocal ==> ListColumn::parsed(c.name()) is None,
{
    reveal_strlit("name");
    reveal_strlit("mod_id");
    reveal_strlit("version");
    reveal_strlit("latest_version");
    reveal_strlit("deps");
    reveal_strlit("missing_deps");
    reveal_strlit("changelog");
    reveal_strlit("description");
    reveal_strlit("website");
    reveal_strlit("game_version");
    reveal_strlit("last_update");
    reveal_strlit("last_update_remote");
    reveal_strlit("pinned_version");
    reveal_strlit("has_backup");
    reveal_strlit("filename");
    reveal_strlit("mod_url");
    reveal_strlit("last_update_local");
    assert("name"@.len() == 4);
    assert("name"@[0] == 'n');
    assert("mod_id"@.len() == 6);
    assert("version"@.len() == 7);
    assert("version"@[0] == 'v');
    assert("latest_version"@.len() == 14);
    assert("latest_version"@[0] == 'l');
    assert("deps"@.len() == 4);
    assert("deps"@[0] == 'd');
    assert("missing_deps"@.len() == 12);
    assert("missing_deps"@[0] == 'm');
    assert("changelog"@.len() == 9);
    assert("description"@.len() == 11);
    assert("description"@[0] == 'd');
    assert("website"@.len() == 7);
    assert("website"@[0] == 'w');
    assert("game_version"@.len() == 12);
    assert("game_version"@[0] == 'g');
    assert("last_update"@.len() == 11);
    assert("last_update"@[0] == 'l');
    assert("last_update_remote"@.len() == 18);
    assert("pinned_version"@.len() == 14);
    assert("pinned_version"@[0] == 'p');
    assert("has_backup"@.len() == 10);
    assert("filename"@.len() == 8);
    assert("mod_url"@.len() == 7);
    assert("mod_url"@[0] == 'm');
    assert("last_update_local"@.len() == 17);
    assert(ascii_chars(c.name()));
    assert(ascii_lower_seq(c.name()) =~= c.name());
}

/// A column of the table of search results.
#[derive(Debug, Clone, Copy, PartialEq, Eq, Structural)]
pub enum SearchColumn {
    Name,
    ModId,
    Downloads,
    Follows,
    Trending,
    Comments,
    Summary,
    ModidStrs,
    AssetId,
    Author,
    UrlAlias,
    Side,
    Type,
    Tags,
    LastReleased,
}

impl SearchColumn {
    /// The name the value is written with.
    pub open spec fn name(self) -> Seq<char> {
        match self {
            SearchColumn::Name => "name"@,
            SearchColumn::ModId => "mod_id"@,
            SearchColumn::Downloads => "downloads"@,
            SearchColumn::Follows => "follows"@,
            SearchColumn::Trending => "trending"@,
            SearchColumn::Comments => "comments"@,
            SearchColumn::Summary => "summary"@,
            SearchColumn::ModidStrs => "modid_strs"@,
            SearchColumn::AssetId => "asset_id"@,
            SearchColumn::Author => "author"@,
            SearchColumn::UrlAlias => "url_alias"@,
            SearchColumn::Side => "side"@,
            SearchColumn::Type => "type"@,
            SearchColumn::Tags => "tags"@,
            SearchColumn::LastReleased => "last_released"@,
        }
    }

    /// The value a lowercase name is read as.
    pub open spec fn from_lower(l: Seq<char>) -> Option<SearchColumn> {
        if l == "name"@ {
            Some(SearchColumn::Name)
        } else if l == "mod_id"@ {
            Some(SearchColumn::ModId)
        } else if l == "asset_id"@ {
            Some(SearchColumn::AssetId)
        } else if l == "downloads"@ {
            Some(SearchColumn::Downloads)
        } else if l == "follows"@ {
            Some(SearchColumn::Follows)
        } else if l == "trending"@ {
            Some(SearchColumn::Trending)
        } else if l == "comments"@ {
            Some(SearchColumn::Comments)
        } else if l == "summary"@ {
            Some(SearchColumn::Summary)
        } else if l == "modid_strs"@ {
            Some(SearchColumn::ModidStrs)
        } else if l == "author"@ {
            Some(SearchColumn::Author)
        } else if l == "url_alias"@ {
            Some(SearchColumn::UrlAlias)
        } else if l == "side"@ {
            Some(SearchColumn::Side)
        } else if l == "type"@ {
            Some(SearchColumn::Type)
        } else if l == "tags"@ {
            Some(SearchColumn::Tags)
        } else if l == "last_released"@ {
            Some(SearchColumn::LastReleased)
        } else {
            None
        }
    }

    /// The value a text is read as, in any case.
    pub open spec fn parsed(s: Seq<char>) -> Option<SearchColumn> {
        SearchColumn::from_lower(lowered(s))
    }

    /// The name of the value.
    pub fn as_str(&self) -> (r: &'static str)
        ensures
            r@ == self.name(),
    {
        match self {
            SearchColumn::Name => "name",
            SearchColumn::ModId => "mod_id",
            SearchColumn::Downloads => "downloads",
            SearchColumn::Follows => "follows",
            SearchColumn::Trending => "trending",
            SearchColumn::Comments => "comments",
            SearchColumn::Summary => "summary",
            SearchColumn::ModidStrs => "modid_strs",
            SearchColumn::AssetId => "asset_id",
            SearchColumn::Author => "author",
            SearchColumn::UrlAlias => "url_alias",
            SearchColumn::Side => "side",
            SearchColumn::Type => "type",
            SearchColumn::Tags => "tags",
            SearchColumn::LastReleased => "last_released",
        }
    }

    /// Reads a name in any case.
    pub fn parse(s: &str) -> (r: Result<SearchColumn, ()>)
        ensures
            r == (match SearchColumn::parsed(s@) {
                Some(c) => Ok(c),
                None => Err(()),
            }),
    {
        let l = lowercase(s);
        let t = l.as_str();
        if str_eq(t, "name") {
            Ok(SearchColumn::Name)
        } else if str_eq(t, "mod_id") {
            Ok(SearchColumn::ModId)
        } else if str_eq(t, "asset_id") {
            Ok(SearchColumn::AssetId)
        } else if str_eq(t, "downloads") {
            Ok(SearchColumn::Downloads)
        } else if str_eq(t, "follows") {
            Ok(SearchColumn::Follows)
        } else if str_eq(t, "trending") {
            Ok(SearchColumn::Trending)
        } else if str_eq(t, "comments") {
            Ok(SearchColumn::Comments)
        } else if str_eq(t, "summary") {
            Ok(SearchColumn::Summary)
        } else if str_eq(t, "modid_strs") {
            Ok(SearchColumn::ModidStrs)
        } else if str_eq(t, "author") {
            Ok(SearchColumn::Author)
        } else if str_eq(t, "url_alias") {
            Ok(SearchColumn::UrlAlias)
        } else if str_eq(t, "side") {
            Ok(SearchColumn::Side)
        } else if str_eq(t, "type") {
            Ok(SearchColumn::Type)
        } else if str_eq(t, "tags") {
            Ok(SearchColumn::Tags)
        } else if str_eq(t, "last_released") {
            Ok(SearchColumn::LastReleased)
        } else {
            Err(())
        }
    }
}

impl std::str::FromStr for SearchColumn {
    type Err = ();

    fn from_str(s: &str) -> (r: Result<Self, Self::Err>)
        ensures
            r == (match SearchColumn::parsed(s@) {
                Some(c) => Ok(c),
                None => Err(()),
            }),
    {
        SearchColumn::parse(s)
    }
}

/// Every column name of the search table is read back as its column.
pub proof fn lemma_search_column_round_trip(c: SearchColumn)
    ensures
        SearchColumn::parsed(c.name()) == Some(c),
{
    reveal_strlit("name");
    reveal_strlit("mod_id");
    reveal_strlit("downloads");
    reveal_strlit("follows");
    reveal_strlit("trending");
    reveal_strlit("comments");
    reveal_strlit("summary");
    reveal_strlit("modid_strs");
    reveal_strlit("asset_id");
    reveal_strlit("author");
    reveal_strlit("url_alias");
    reveal_strlit("side");
    reveal_strlit("type");
    reveal_strlit("tags");
    reveal_strlit("last_released");
    assert("name"@.len() == 4);
    assert("name"@[0] == 'n');
    assert("mod_id"@.len() == 6);
    assert("mod_id"@[0] == 'm');
    assert("downloads"@.len() == 9);
    assert("downloads"@[0] == 'd');
    assert("follows"@.len() == 7);
    assert("follows"@[0] == 'f');
    assert("trending"@.len() == 8);
    assert("trending"@[0] == 't');
    assert("comments"@.len() == 8);
    assert("comments"@[0] == 'c');
    assert("summary"@.len() == 7);
    assert("summary"@[0] == 's');
    assert("modid_strs"@.len() == 10);
    assert("asset_id"@.len() == 8);
    assert("asset_id"@[0] == 'a');
    assert("author"@.len() == 6);
    assert("author"@[0] == 'a');
    assert("url_alias"@.len() == 9);
    assert("url_alias"@[0] == 'u');
    assert("side"@.len() == 4);
    assert("side"@[0] == 's');
    assert("type"@.len() == 4);
    assert("type"@[0] == 't');
    assert("type"@[1] == 'y');
    assert("tags"@.len() == 4);
    assert("tags"@[0] == 't');
    assert("tags"@[1] == 'a');
    assert("last_released"@.len() == 13);
    assert(ascii_chars(c.name()));
    assert(ascii_lower_seq(c.name()) =~= c.name());
}

/// A text attribute of a table cell.
#[derive(Debug, Clone, Copy, PartialEq, Eq, Structural)]
pub enum CellAttr {
    Bold,
    Italic,
    Underline,
    Reset,
    Dim,
    NoHidden,
}

impl CellAttr {
    /// The name the value is written with.
    pub open spec fn name(self) -> Seq<char> {
        match self {
            CellAttr::Bold => "bold"@,
            CellAttr::Italic => "italic"@,
            CellAttr::Underline => "underline"@,
            CellAttr::Reset => "reset"@,
            CellAttr::Dim => "dim"@,
            CellAttr::NoHidden => "nohidden"@,
        }
    }

    /// The value a lowercase name is read as.
    pub open spec fn from_lower(l: Seq<char>) -> Option<CellAttr> {
        if l == "bold"@ {
            Some(CellAttr::Bold)
        } else if l == "italic"@ {
            Some(CellAttr::Italic)
        } else if l == "underline"@ {
            Some(CellAttr::Underline)
        } else if l == "reset"@ {
            Some(CellAttr::Reset)
        } else if l == "dim"@ {
            Some(CellAttr::Dim)
        } else if l == "nohidden"@ {
            Some(CellAttr::NoHidden)
        } else {
            None
        }
    }

    /// The value a text is read as, in any case.
    pub open spec fn parsed(s: Seq<char>) -> Option<CellAttr> {
        CellAttr::from_lower(lowered(s))
    }

    /// The name of the value.
    pub fn as_str(&self) -> (r: &'static str)
        ensures
            r@ == self.name(),
    {
        match self {
            CellAttr::Bold => "bold",
            CellAttr::Italic => "italic",
            CellAttr::Underline => "underline",
            CellAttr::Reset => "reset",
            CellAttr::Dim => "dim",
            CellAttr::NoHidden => "nohidden",
        }
    }

    /// Reads a name in any case.
    pub fn parse(s: &str) -> (r: Result<CellAttr, ()>)
        ensures
            r == (match CellAttr::parsed(s@) {
                Some(c) => Ok(c),
                None => Err(()),
            }),
    {
        let l = lowercase(s);
        let t = l.as_str();
        if str_eq(t, "bold") {
            Ok(CellAttr::Bold)
        } else if str_eq(t, "italic") {
            Ok(CellAttr::Italic)
        } else if str_eq(t, "underline") {
            Ok(CellAttr::Underline)
        } else if str_eq(t, "reset") {
            Ok(CellAttr::Reset)
        } else if str_eq(t, "dim") {
            Ok(CellAttr::Dim)
        } else if str_eq(t, "nohidden") {
            Ok(CellAttr::NoHidden)
        } else {
            Err(())
        }
    }
}

impl std::str::FromStr for CellAttr {
    type Err = ();

    fn from_str(s: &str) -> (r: Result<Self, Self::Err>)
        ensures
            r == (match CellAttr::parsed(s@) {
                Some(c) => Ok(c),
                None => Err(()),
            }),
    {
        CellAttr::parse(s)
    }
}

/// Every attribute name is read back as its attribute.
pub proof fn lemma_cell_attr_round_trip(c: CellAttr)
    ensures
        CellAttr::parsed(c.name()) == Some(c),
{
    reveal_strlit("bold");
    reveal_strlit("italic");
    reveal_strlit("underline");
    reveal_strlit("reset");
    reveal_strlit("dim");
    reveal_strlit("nohidden");
    assert("bold"@.len() == 4);
    assert("italic"@.len() == 6);
    assert("underline"@.len() == 9);
    assert("reset"@.len() == 5);
    assert("dim"@.len() == 3);
    assert("nohidden"@.len() == 8);
    assert(ascii_chars(c.name()));
    assert(ascii_lower_seq(c.name()) =~= c.name());
}


// ---------------------------------------------------------------------------
// Pinned packages
// ---------------------------------------------------------------------------

/// A mod whose version the user pinned.
#[derive(Debug)]
pub struct Package {
    pub mod_id: String,
    pub pinned_version: Option<String>,
}

impl Default for Package {
    fn default() -> (r: Self)
        ensures
            r.mod_id@ == Seq::<char>::empty(),
            r.pinned_version is None,
    {
        Package { mod_id: String::new(), pinned_version: None }
    }
}

/// Lowering an ASCII text twice is lowering it once, and it stays ASCII.
proof fn lemma_ascii_lower_twice(s: Seq<char>)
    requires
        ascii_chars(s),
    ensures
        ascii_chars(ascii_lower_seq(s)),
        ascii_lower_seq(ascii_lower_seq(s)) == ascii_lower_seq(s),
        lowered(ascii_lower_seq(s)) == ascii_lower_seq(s),
        lowered(s) == ascii_lower_seq(s),
{
    let l = ascii_lower_seq(s);
    assert forall|i: int| 0 <= i < l.len() implies crate::text::is_ascii_char(#[trigger] l[i]) && !('A' <= l[i]
        && l[i] <= 'Z') by {
        assert(crate::text::is_ascii_char(s[i]));
    }
    assert(ascii_lower_seq(l) =~= l);
}

/// A list column's name is read back as its column in any ASCII letter
/// case (`MOD_ID` as well as `mod_id`), except that of `LastUpdateLocal`,
/// which is not read at all; distinct columns have distinct names.
pub proof fn lemma_list_column_names(c: ListColumn, d: ListColumn, s: Seq<char>)
    requires
        ascii_chars(s),
        ascii_lower_seq(s) == c.name(),
    ensures
        c != ListColumn::LastUpdateLocal ==> ListColumn::parsed(s) == Some(c),
        c == ListColumn::LastUpdateLocal ==> ListColumn::parsed(s) is None,
        c != d ==> c.name() != d.name(),
{
    lemma_ascii_lower_twice(s);
    lemma_list_column_round_trip(c);
    lemma_list_column_round_trip(d);
}

/// A search column's name is read back as its column in any ASCII letter
/// case; distinct columns have distinct names.
pub proof fn lemma_search_column_names(c: SearchColumn, d: SearchColumn, s: Seq<char>)
    requires
        ascii_chars(s),
        ascii_lower_seq(s) == c.name(),
    ensures
        SearchColumn::parsed(s) == Some(c),
        c != d ==> c.name() != d.name(),
{
    lemma_ascii_lower_twice(s);
    lemma_search_column_round_trip(c);
    lemma_search_column_round_trip(d);
}

} // verus!
