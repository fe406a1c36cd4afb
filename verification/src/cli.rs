//! The options of the command line, as plain records.
use vstd::prelude::*;
use crate::config::CellColor;
use crate::modpack::MPCreateArgs;
use crate::search::{Field, SearchCriteria, SearchQuery, SortBy, SortOrder};
use crate::table::TableSubFlags;

verus! {

/// How much the log shows.
#[derive(Debug, Clone, Copy, PartialEq, Eq, Structural)]
pub enum VerboseLevel {
    Verbose,
    Debug,
    Default,
}

/// The whole command line.
#[derive(Debug)]
pub struct Cli {
    pub mods_dir: Option<String>,
    pub command: Commands,
}

/// The commands.
#[derive(Debug)]
pub enum Commands {
    Sync,
    List(ListArgs),
    Update(UpdateArgs),
    Changelog(ChangeLogArgs),
    Install(InstallArgs),
    Info(ModInfoArgs),
    Search(SearchMods),
    ModPack { command: ModpackCommands },
}

#[derive(Debug)]
pub struct ListArgs {
    pub updates: bool,
}

#[derive(Debug)]
pub struct UpdateArgs {
    pub mod_ids: Vec<String>,
    pub all: bool,
    pub keep_old_files: bool,
}

#[derive(Debug)]
pub struct ChangeLogArgs {
    pub name: Option<String>,
}

#[derive(Debug)]
pub struct InstallArgs {
    pub mod_ids: Vec<String>,
    pub ignore_dependencies: bool,
    pub missing_dependencies: bool,
    pub wait: bool,
}

#[derive(Debug)]
pub struct ModInfoArgs {
    pub mod_id: String,
    pub show_description: bool,
    pub show_versions: usize,
}

#[derive(Debug)]
pub struct SearchMods {}

/// `config`.
#[derive(Debug)]
pub struct ConfigCommand {
    pub subcommand: ConfigSubCommand,
}

#[derive(Debug)]
pub enum ConfigSubCommand {
    SetValues(SetArgs),
    List,
    Del(DelArgs),
    Table(TableArgs),
}

/// The settings `config set` can change.
#[derive(Debug)]
pub struct CommonArgs {
    pub mods_dir: Option<String>,
    pub modpacks_dir: Option<String>,
    pub notify_of_unzipped_mods: Option<bool>,
    pub pin_game_version: Option<String>,
    pub backup_mods: Option<bool>,
    pub backup_mods_dir: Option<String>,
    pub game_download_dir: Option<String>,
    pub show_execution_time: Option<bool>,
    pub with_mod: Option<String>,
    pub pin_version: Option<String>,
    pub modpack_disabled: Option<String>,
    pub modpack_enabled: Option<String>,
    pub check_for_updates: Option<bool>,
    pub update_default_windows_loc: Option<bool>,
}

#[derive(Debug)]
pub struct SetArgs {
    pub common: CommonArgs,
}

/// The settings `config del` puts back to their defaults.
#[derive(Debug)]
pub struct DelArgs {
    pub mod_dir: bool,
    pub modpack_dir: bool,
    pub pin_game_version: bool,
    pub backup_mods: bool,
    pub backup_mods_dir: bool,
    pub game_download_dir: bool,
    pub notify_of_unzipped_mods: bool,
    pub check_for_updates: bool,
    pub pinned_mod: Option<String>,
    pub modpack_disabled: Option<String>,
    pub modpack_enabled: Option<String>,
    pub update_default_windows_loc: Option<bool>,
}

/// `config table`.
#[derive(Debug)]
pub struct TableArgs {
    pub subcommand: TableSubCommands,
}

#[derive(Debug)]
pub enum TableSubCommands {
    SetColumns(TableArgsSubCommands),
    Del(TableArgsSubCommands),
    List,
    Reset(ResetArgs),
}

/// Which table an edit is for.
#[derive(Debug)]
pub enum TableArgsSubCommands {
    List(TableSubFlags),
    Search(TableSubFlags),
}

/// Which table to reset.
#[derive(Debug, Clone, Copy, PartialEq, Eq, Structural)]
pub enum ResetArgs {
    List,
    Search,
}

/// `modpack`.
#[derive(Debug)]
pub struct ModpackCommands {
    pub subcommand: ModpackSubCommands,
}

#[derive(Debug)]
pub enum ModpackSubCommands {
    Create(MPCreateArgs),
    Install(MPInstallArgs),
    Update(MPUpdateArgs),
    Enable(MPEnableArgs),
    Disable(MPDisableArgs),
    Delete(MPDeleteArgs),
    List(MPListArgs),
    Info(ModInfoArgs),
}

#[derive(Debug)]
pub struct MPInstallArgs {
    pub mod_id: String,
    pub mod_version: Option<String>,
}

#[derive(Debug)]
pub struct MPUpdateArgs {
    pub mpk_id: String,
}

#[derive(Debug)]
pub struct MPDeleteArgs {
    pub mpk_id: String,
}

#[derive(Debug)]
pub struct MPDisableArgs {
    pub mpk_id: String,
}

#[derive(Debug)]
pub struct MPEnableArgs {
    pub mpk_id: String,
    pub force: bool,
}

#[derive(Debug)]
pub struct MPListArgs {
    pub show_only_updates: bool,
}

#[derive(Debug)]
pub struct MPInfo {}

/// `search`.
#[derive(Debug)]
pub struct SearchArgs {
    pub query: Option<String>,
    pub color: Option<CellColor>,
    pub field: Option<Field>,
    pub author: Option<String>,
    pub tag: Option<String>,
    pub sort_by: Option<SortBy>,
    pub sort_direction: Option<SortOrder>,
}

/// `sync`.
#[derive(Debug)]
pub struct SyncArgs {
    pub ids: bool,
    pub force: bool,
}

/// The former package file: pinned versions by mod id, the game versions
/// and the tags of the mods.
#[derive(Debug)]
pub struct RustiquePkgs {
    pub mods: Vec<(String, RustiquePkgData)>,
    pub game_versions: Vec<String>,
    pub mod_tags: Vec<(String, String)>,
}

#[derive(Debug)]
pub struct RustiquePkgData {
    pub pin_version: String,
}


/// The criteria a search command asks for, in order: the query on its field
/// (or as free text when no field is named), the author, the tag.
pub open spec fn search_criteria(args: SearchArgs) -> Seq<SearchCriteria> {
    let q: Seq<SearchCriteria> = match args.query {
        Some(text) => match args.field {
            Some(f) => seq![SearchCriteria::Field { field: f, value: text }],
            None => seq![SearchCriteria::Text(text)],
        },
        None => Seq::empty(),
    };
    let a: Seq<SearchCriteria> = match args.author {
        Some(who) => seq![SearchCriteria::Field { field: Field::Author, value: who }],
        None => Seq::empty(),
    };
    let t: Seq<SearchCriteria> = match args.tag {
        Some(tag) => seq![SearchCriteria::Tag(tag)],
        None => Seq::empty(),
    };
    q + a + t
}

/// The search a `search` command runs (see `search_criteria`); ascending
/// unless a direction is given, sorted only when a sort field is given.
pub fn build_query(args: SearchArgs) -> (r: SearchQuery)
    ensures
        r.criteria@ == search_criteria(args),
        r.sort_by == args.sort_by,
        r.sort_order == (match args.sort_direction {
            Some(o) => o,
            None => SortOrder::Asc,
        }),
{
    let ghost spec_args = args;
    let SearchArgs { query, color: _, field, author, tag, sort_by, sort_direction } = args;
    let mut q = SearchQuery::new();
    match query {
        Some(text) => match field {
            Some(f) => {
                q = q.add_field_search(f, text);
            },
            None => {
                q = q.add_text_search(text);
            },
        },
        None => {},
    }
    let ghost after_query = q.criteria@;
    match author {
        Some(who) => {
            q = q.add_field_search(Field::Author, who);
        },
        None => {},
    }
    let ghost after_author = q.criteria@;
    match tag {
        Some(t) => {
            q = q.add_tag_search(t);
        },
        None => {},
    }
    match sort_direction {
        Some(o) => {
            q.sort_order = o;
        },
        None => {},
    }
    match sort_by {
        Some(f) => {
            q.sort_by = Some(f);
        },
        None => {},
    }
    assert(q.criteria@ =~= search_criteria(spec_args));
    q
}

} // verus!
