//! Data returned by the mods website and read from `modinfo.json` files.
use vstd::prelude::*;
use crate::text::{clone_opt_string, clone_strings, decimal, string_from_chars, u64_to_string};

verus! {

/// A field that some mod authors write as text and others as a number.
#[derive(Debug)]
pub enum StringOrInt {
    String(String),
    Int(i64),
}

/// A field that some mod authors write as text and others as a boolean.
#[derive(Debug)]
pub enum StringOrBool {
    String(String),
    Bool(bool),
}

/// Decimal rendering of a signed integer.
pub open spec fn signed_decimal(i: int) -> Seq<char> {
    if i < 0 {
        seq!['-'] + decimal((-i) as nat)
    } else {
        decimal(i as nat)
    }
}

/// Decimal rendering of a signed integer (what `i64::to_string` gives).
pub fn i64_to_string(i: i64) -> (r: String)
    ensures
        r@ == signed_decimal(i as int),
{
    if i < 0 {
        // -(i + 1) cannot overflow, even for i64::MIN
        let m: u64 = ((-(i + 1)) as u64) + 1;
        let digits = u64_to_string(m);
        let mut r = String::new();
        r.push('-');
        r.push_str(digits.as_str());
        r
    } else {
        u64_to_string(i as u64)
    }
}

impl StringOrInt {
    pub open spec fn text(&self) -> Seq<char> {
        match self {
            StringOrInt::String(s) => s@,
            StringOrInt::Int(i) => signed_decimal(*i as int),
        }
    }

    /// The value as text: the string itself, or the number in decimal.
    pub fn to_text(&self) -> (r: String)
        ensures
            r@ == self.text(),
    {
        match self {
            StringOrInt::String(s) => s.clone(),
            StringOrInt::Int(i) => i64_to_string(*i),
        }
    }
}

impl Default for StringOrInt {
    /// The empty text.
    fn default() -> (r: Self)
        ensures
            r matches StringOrInt::String(s) && s@ == Seq::<char>::empty(),
    {
        StringOrInt::String(String::new())
    }
}

impl StringOrBool {
    pub open spec fn text(&self) -> Seq<char> {
        match self {
            StringOrBool::String(s) => s@,
            StringOrBool::Bool(b) => if *b {
                seq!['t', 'r', 'u', 'e']
            } else {
                seq!['f', 'a', 'l', 's', 'e']
            },
        }
    }

    /// The value as text: the string itself, or `true` / `false`.
    pub fn to_text(&self) -> (r: String)
        ensures
            r@ == self.text(),
    {
        match self {
            StringOrBool::String(s) => s.clone(),
            StringOrBool::Bool(b) => {
                let v: Vec<char> = if *b {
                    vec!['t', 'r', 'u', 'e']
                } else {
                    vec!['f', 'a', 'l', 's', 'e']
                };
                string_from_chars(&v)
            },
        }
    }
}

impl Default for StringOrBool {
    /// The empty text.
    fn default() -> (r: Self)
        ensures
            r matches StringOrBool::String(s) && s@ == Seq::<char>::empty(),
    {
        StringOrBool::String(String::new())
    }
}

/// The contents of a mod's `modinfo.json`.
#[derive(Debug)]
pub struct ModInfo {
    pub name: String,
    pub mod_type: StringOrInt,
    pub mod_id: String,
    pub version: Option<String>,
    pub network_version: Option<String>,
    pub texture_size: Option<u32>,
    pub description: Option<String>,
    pub website: Option<String>,
    pub authors: Vec<String>,
    pub contributors: Vec<String>,
    pub side: Option<String>,
    pub required_on_client: Option<StringOrBool>,
    pub required_on_server: Option<StringOrBool>,
    /// (mod id, version) pairs.
    pub dependencies: Vec<(String, String)>,
}

impl ModInfo {
    /// Every field empty or absent.
    pub open spec fn is_blank(&self) -> bool {
        &&& self.name@ == Seq::<char>::empty()
        &&& self.mod_type matches StringOrInt::String(t) && t@ == Seq::<char>::empty()
        &&& self.mod_id@ == Seq::<char>::empty()
        &&& self.version is None
        &&& self.network_version is None
        &&& self.texture_size is None
        &&& self.description is None
        &&& self.website is None
        &&& self.authors@.len() == 0
        &&& self.contributors@.len() == 0
        &&& self.side is None
        &&& self.required_on_client is None
        &&& self.required_on_server is None
        &&& self.dependencies@.len() == 0
    }
}

impl Default for ModInfo {
    fn default() -> (r: Self)
        ensures
            r.is_blank(),
    {
        ModInfo {
            name: String::new(),
            mod_type: StringOrInt::default(),
            mod_id: String::new(),
            version: None,
            network_version: None,
            texture_size: None,
            description: None,
            website: None,
            authors: Vec::new(),
            contributors: Vec::new(),
            side: None,
            required_on_client: None,
            required_on_server: None,
            dependencies: Vec::new(),
        }
    }
}

/// Answer of the `/api/mods` endpoint.
#[derive(Debug)]
pub struct Mods {
    pub mods: Vec<ModApi>,
    pub status_code: String,
}

/// The local search database: every mod of the website and when it was fetched.
#[derive(Debug)]
pub struct ModsSearchFile {
    pub mods: Vec<ModApi>,
    pub last_sync: String,
}

impl ModsSearchFile {
    /// An empty database that was never synced.
    pub fn new() -> (r: Self)
        ensures
            r.mods@.len() == 0,
            r.last_sync@ == Seq::<char>::empty(),
    {
        ModsSearchFile { mods: Vec::new(), last_sync: String::new() }
    }
}

/// One entry of `/api/mods`.
#[derive(Debug)]
pub struct ModApi {
    pub mod_id: u32,
    pub asset_id: u32,
    pub downloads: u32,
    pub follows: u32,
    pub trending_points: u32,
    pub comments: u32,
    pub name: Option<String>,
    pub summary: Option<String>,
    pub mod_id_strs: Vec<String>,
    pub author: Option<String>,
    pub url_alias: Option<String>,
    pub side: Option<String>,
    pub mod_type: Option<String>,
    pub logo: Option<String>,
    pub tags: Vec<String>,
    pub last_released: Option<String>,
}

impl ModApi {
    /// Equal fields, lists compared by their contents.
    pub open spec fn same_as(&self, other: &ModApi) -> bool {
        &&& self.mod_id == other.mod_id
        &&& self.asset_id == other.asset_id
        &&& self.downloads == other.downloads
        &&& self.follows == other.follows
        &&& self.trending_points == other.trending_points
        &&& self.comments == other.comments
        &&& self.name == other.name
        &&& self.summary == other.summary
        &&& self.mod_id_strs@ == other.mod_id_strs@
        &&& self.author == other.author
        &&& self.url_alias == other.url_alias
        &&& self.side == other.side
        &&& self.mod_type == other.mod_type
        &&& self.logo == other.logo
        &&& self.tags@ == other.tags@
        &&& self.last_released == other.last_released
    }

    /// A copy of the entry.
    pub fn duplicate(&self) -> (r: ModApi)
        ensures
            r.same_as(self),
    {
        ModApi {
            mod_id: self.mod_id,
            asset_id: self.asset_id,
            downloads: self.downloads,
            follows: self.follows,
            trending_points: self.trending_points,
            comments: self.comments,
            name: clone_opt_string(&self.name),
            summary: clone_opt_string(&self.summary),
            mod_id_strs: clone_strings(&self.mod_id_strs),
            author: clone_opt_string(&self.author),
            url_alias: clone_opt_string(&self.url_alias),
            side: clone_opt_string(&self.side),
            mod_type: clone_opt_string(&self.mod_type),
            logo: clone_opt_string(&self.logo),
            tags: clone_strings(&self.tags),
            last_released: clone_opt_string(&self.last_released),
        }
    }
}

/// Answer of the `/api/mod/{id}` endpoint.
#[derive(Debug)]
pub struct Mod {
    pub mod_json: ApiModJson,
    pub status_code: String,
}

/// The mod description inside `/api/mod/{id}`.
#[derive(Debug)]
pub struct ApiModJson {
    pub mod_id: u32,
    pub asset_id: u32,
    pub name: Option<String>,
    pub text: Option<String>,
    pub author: Option<String>,
    pub url_alias: Option<String>,
    pub logo_filename: Option<String>,
    pub logo_file: Option<String>,
    pub logo_file_db: Option<String>,
    pub home_page_url: Option<String>,
    pub source_code_url: Option<String>,
    pub trailer_video_url: Option<String>,
    pub issue_tracker_url: Option<String>,
    pub wiki_url: Option<String>,
    pub downloads: u32,
    pub follows: u32,
    pub trending_points: u32,
    pub comments: u32,
    pub side: Option<String>,
    pub mod_type: Option<String>,
    pub created: Option<String>,
    pub last_released: Option<String>,
    pub last_modified: Option<String>,
    pub tags: Vec<String>,
    pub releases: Vec<Releases>,
    pub screenshots: Vec<Screenshots>,
}

/// One release of a mod.
#[derive(Debug)]
pub struct Releases {
    pub release_id: u32,
    pub main_file: Option<String>,
    pub filename: Option<StringOrInt>,
    pub file_id: Option<u32>,
    pub downloads: u32,
    /// The game versions this release declares itself compatible with.
    pub tags: Vec<String>,
    pub modid_str: Option<String>,
    pub mod_version: Option<String>,
    pub created: Option<String>,
    pub changelog: Option<String>,
}

/// One screenshot of a mod.
#[derive(Debug)]
pub struct Screenshots {
    pub file_id: u32,
    pub main_file: Option<String>,
    pub filename: Option<String>,
    pub thumbnail_filename: Option<String>,
    pub created: Option<String>,
}

/// Answer of `/api/tags`.
#[derive(Debug)]
pub struct Tags {
    pub status_code: String,
    pub tags: Vec<Tag>,
}

#[derive(Debug)]
pub struct Tag {
    pub tag_id: u32,
    pub name: String,
    pub color: String,
}

/// Answer of `/api/gameversions`.
#[derive(Debug)]
pub struct GameVersions {
    pub status_code: String,
    pub game_versions: Vec<GameVersion>,
}

#[derive(Debug)]
pub struct GameVersion {
    pub tag_id: u32,
    pub name: String,
    pub color: String,
}

/// Answer of `/api/authors`.
#[derive(Debug)]
pub struct Authors {
    pub status_code: String,
    pub authors: Vec<Author>,
}

#[derive(Debug)]
pub struct Author {
    pub user_id: u32,
    pub name: String,
}

/// Answer of `/api/comments`.
#[derive(Debug)]
pub struct Comments {
    pub status_code: String,
    pub comments: Vec<Comment>,
}

#[derive(Debug)]
pub struct Comment {
    pub comment_id: u32,
    pub asset_id: u32,
    pub user_id: u32,
    pub text: String,
    pub created: String,
    pub last_modified: String,
}

/// Answer of `/api/changelogs`.
#[derive(Debug)]
pub struct ChangeLogs {
    pub status_code: String,
    pub changelogs: Vec<ChangeLog>,
}

#[derive(Debug)]
pub struct ChangeLog {
    pub changelog_id: u32,
    pub asset_id: u32,
    pub user_id: u32,
    pub text: String,
    pub created: String,
    pub last_modified: String,
}

/// The names of the game versions in an `/api/gameversions` answer, in order.
pub fn game_version_names(gvs: &GameVersions) -> (r: Vec<String>)
    ensures
        r@.len() == gvs.game_versions@.len(),
        forall|i: int| 0 <= i < r@.len() ==> r@[i] == gvs.game_versions@[i].name,
{
    let mut r: Vec<String> = Vec::new();
    let mut i: usize = 0;
    while i < gvs.game_versions.len()
        invariant
            i <= gvs.game_versions.len(),
            r@.len() == i,
            forall|k: int| 0 <= k < i ==> r@[k] == gvs.game_versions@[k].name,
        decreases gvs.game_versions.len() - i,
    {
        r.push(gvs.game_versions[i].name.clone());
        i += 1;
    }
    r
}

} // verus!
