use rustique::api_structs::{ModApi, ModInfo, StringOrInt};
use rustique::config::{CellAttr, CellColor, Package};
use rustique::install::Install;
use rustique::listing::{
    game_version_range, grab_this_mod_deps, join_texts, list_cell, list_header_label, search_cell,
    search_header_label, shows_as_update, sort_by_name, sync_entry_for,
};
use rustique::modpack::{
    collect_mp_create_args, find_mod_id, modpack_dependencies, MPCreateArgs, MPMods, ModPack, ModPackToml,
    ModPackZip, ModpacksConfig,
};
use rustique::sync::ModSyncInfo;
use rustique::table::ColumnProperties;
use rustique::error::RustiqueError;

fn info(name: &str, mod_id: &str, version: Option<&str>, deps: &[(&str, &str)]) -> ModInfo {
    let mut m = ModInfo::default();
    m.name = name.to_string();
    m.mod_id = mod_id.to_string();
    m.version = version.map(|s| s.to_string());
    m.mod_type = StringOrInt::String(String::new());
    m.dependencies = deps.iter().map(|(a, b)| (a.to_string(), b.to_string())).collect();
    m
}

fn dep(id: &str, v: &str) -> Install {
    Install { mod_id: id.to_string(), mod_name: String::new(), version_to_install: v.to_string(), download_url: String::new(), current_file_path: None }
}

fn sync_info(name: &str, file: &str, installed: &str, latest: &str, gv: &[&str]) -> ModSyncInfo {
    ModSyncInfo {
        file_name: file.to_string(),
        mod_name: name.to_string(),
        installed_version: installed.to_string(),
        latest_known_version: latest.to_string(),
        latest_download_url: String::new(),
        game_versions: gv.iter().map(|s| s.to_string()).collect(),
    }
}

fn api(mod_id: u32, name: Option<&str>, strs: &[&str]) -> ModApi {
    ModApi {
        mod_id,
        asset_id: 5,
        downloads: 1234,
        follows: 7,
        trending_points: 0,
        comments: 3,
        name: name.map(|s| s.to_string()),
        summary: None,
        mod_id_strs: strs.iter().map(|s| s.to_string()).collect(),
        author: None,
        url_alias: None,
        side: None,
        mod_type: None,
        logo: None,
        tags: vec!["a".to_string(), "b".to_string()],
        last_released: None,
    }
}

#[test]
fn header_labels() {
    assert_eq!(list_header_label("latest_version", false), Some("Latest Version"));
    assert_eq!(list_header_label("missing_deps", true), None);
    assert_eq!(list_header_label("missing_deps", false), Some("Missing Dependencies"));
    assert_eq!(list_header_label("mod_url", false), Some("N/A"));
    assert_eq!(search_header_label("TRENDING"), "Trending Points");
    assert_eq!(search_header_label("bogus"), "N/A");
}

#[test]
fn search_cells() {
    let m = api(42, Some("Forty Two"), &["ft", "fortytwo"]);
    assert_eq!(search_cell("mod_id", &m), ("42".to_string(), true));
    assert_eq!(search_cell("comments", &m), ("3".to_string(), false));
    assert_eq!(search_cell("modid_strs", &m), ("ft,fortytwo".to_string(), false));
    assert_eq!(search_cell("tags", &m), ("a,b".to_string(), false));
    assert_eq!(search_cell("summary", &m), (String::new(), false));
    assert_eq!(search_cell("nope", &m), (String::new(), false));
}

#[test]
fn deps_text_sorted_deduped() {
    let m = info("A", "moda", None, &[("libx", "1"), ("LibY", "2")]);
    let list = vec![dep("LibY", "2.0"), dep("libx", "1.0"), dep("unrelated", "1"), dep("libx", "1.0")];
    assert_eq!(grab_this_mod_deps(&m, &list), "[LibY@2.0], [libx@1.0]");
    assert_eq!(grab_this_mod_deps(&m, &vec![]), "");
}

#[test]
fn game_versions_as_range() {
    assert_eq!(game_version_range(&vec!["v1.20".to_string(), "v1.19".to_string(), "v1.18".to_string()]), "v1.18 - v1.20");
    assert_eq!(game_version_range(&vec!["v1.20".to_string()]), "v1.20");
    assert_eq!(game_version_range(&vec![]), "");
    assert_eq!(join_texts(&vec!["x".to_string(), "y".to_string()], ", "), "x, y");
}

#[test]
fn list_cells_for_a_mod() {
    let props = ColumnProperties { color: Some(CellColor::Yellow), attribute: None };
    let m = info("My Mod", "", Some("1.2"), &[]);
    let s = sync_info("My Mod", "my.zip", "1.2.0", "1.3.0", &["v1.20", "v1.19"]);
    let pkg = Package { mod_id: "mymod".to_string(), pinned_version: Some("1.2.0".to_string()) };
    let none: Vec<Install> = vec![];
    let enabled = vec!["mymod".to_string()];
    let id = list_cell("mod_id", &props, &m, "my.zip", "mymod", &s, None, &none, &none, true, &enabled).unwrap();
    assert_eq!(id.text, "(enabled) mymod");
    assert_eq!(id.color, Some(CellColor::Green));
    let unknown = list_cell("mod_id", &props, &m, "my.zip", "", &s, None, &none, &none, false, &enabled).unwrap();
    assert_eq!(unknown.text, "UNKNOWN");
    let v = list_cell("version", &props, &m, "my.zip", "", &s, None, &none, &none, false, &enabled).unwrap();
    assert_eq!((v.text.as_str(), v.align_right), ("1.2.0", true));
    let latest = list_cell("latest_version", &props, &m, "my.zip", "", &s, Some(&pkg), &none, &none, false, &enabled).unwrap();
    assert_eq!(latest.text, "1.3.0 (pinned)");
    assert_eq!(latest.color, Some(CellColor::Red));
    assert_eq!(latest.attribute, Some(CellAttr::Bold));
    let pinned = list_cell("pinned_version", &props, &m, "my.zip", "", &s, Some(&pkg), &none, &none, false, &enabled).unwrap();
    assert_eq!(pinned.text, "1.2.0");
    let gv = list_cell("game_version", &props, &m, "my.zip", "", &s, None, &none, &none, false, &enabled).unwrap();
    assert_eq!(gv.text, "v1.19 - v1.20");
    assert!(list_cell("missing_deps", &props, &m, "my.zip", "", &s, None, &none, &none, true, &enabled).is_none());
    let ch = list_cell("changelog", &props, &m, "my.zip", "", &s, None, &none, &none, false, &enabled).unwrap();
    assert_eq!(ch.text, "NOT IMPLEMENTED");
}

#[test]
fn description_cell_is_sanitised() {
    let props = ColumnProperties { color: None, attribute: None };
    let mut m = info("X", "x", Some("1.0.0"), &[]);
    m.description = Some("  Line one\n\tline   two ".to_string());
    let s = sync_info("X", "x.zip", "1.0.0", "1.0.0", &[]);
    let none: Vec<Install> = vec![];
    let d = list_cell("description", &props, &m, "x.zip", "", &s, None, &none, &none, false, &vec![]).unwrap();
    assert_eq!(d.text, "Line one line two");
}

#[test]
fn sync_entry_matching_and_update_filter() {
    let sync = vec![
        ("a".to_string(), sync_info("Other", "o.zip", "1", "1", &[])),
        ("b".to_string(), sync_info("Mine", "m.zip", "1.0.0", "2.0.0", &[])),
    ];
    let m = info("Mine", "", None, &[]);
    assert_eq!(sync_entry_for(&sync, &m, "zzz.zip"), Some(1));
    assert_eq!(sync_entry_for(&sync, &m, "o.zip"), Some(0));
    assert!(shows_as_update(&sync, "Mine"));
    assert!(!shows_as_update(&sync, "Other"));
    assert!(!shows_as_update(&sync, "Nobody"));
}

#[test]
fn installed_sorted_by_name() {
    let installed = vec![
        ("b.zip".to_string(), info("beta", "b", None, &[])),
        ("a.zip".to_string(), info("Alpha", "a", None, &[])),
        ("c.zip".to_string(), info("alpha", "c", None, &[])),
    ];
    assert_eq!(sort_by_name(&installed), vec![1, 2, 0]);
}

#[test]
fn modpack_modinfo() {
    let zip = ModPackZip {
        modpack: ModPack {
            name: "Pack".to_string(),
            mpk_id: "pack".to_string(),
            version: "1.0.0".to_string(),
            game_version: None,
            description: Some("desc".to_string()),
            author: Some("me".to_string()),
            contact: None,
            website: None,
        },
        mods: vec![("A".to_string(), MPMods { mod_id: "moda".to_string(), version: "1.0".to_string() })],
    };
    let mi = zip.gen_modinfo().unwrap();
    assert_eq!(mi.mod_id, "pack");
    assert_eq!(mi.authors, vec!["me".to_string()]);
    assert_eq!(mi.dependencies, vec![("moda".to_string(), "1.0".to_string())]);
    assert_eq!(mi.description, Some("desc".to_string()));
    let toml = ModPackToml { modpack: ModPack::default(), mods: vec![] };
    assert!(toml.create_modpack_zip("/tmp/x").is_ok());
    assert!(toml.gen_modinfo().authors.is_empty());
}

#[test]
fn create_args_become_modinfo() {
    let args = MPCreateArgs {
        interactive: false,
        name: "My Pack".to_string(),
        mpk_id: "mypack".to_string(),
        mpk_version: "0.1.0".to_string(),
        game_version: None,
        description: None,
        author: None,
        contact: None,
        website: Some("https://example.org".to_string()),
        save_path: None,
    };
    let mi = collect_mp_create_args(&args).unwrap();
    assert_eq!(mi.version, Some("0.1.0".to_string()));
    assert_eq!(mi.authors, vec![String::new()]);
    assert_eq!(mi.website, Some("https://example.org".to_string()));
    assert!(mi.dependencies.is_empty());
}

#[test]
fn find_mod_id_ascii_case() {
    let mods = vec![api(9, Some("Carry On"), &[]), api(8, None, &["xlib"])];
    assert_eq!(find_mod_id(&"carry ON".to_string(), &"f.zip".to_string(), &mods).unwrap(), "9");
    assert_eq!(find_mod_id(&"xlib".to_string(), &"f.zip".to_string(), &mods).unwrap(), "8");
    match find_mod_id(&"none".to_string(), &"f.zip".to_string(), &mods) {
        Err(RustiqueError::SimpleError(m)) => assert_eq!(m, "Unable to locate mod_id for none"),
        other => panic!("unexpected {other:?}"),
    }
}

#[test]
fn modpack_dependencies_from_installed() {
    let installed = vec![
        ("a.zip".to_string(), info("A", "moda", Some("1.2"), &[])),
        ("b.zip".to_string(), info("B", "modb", None, &[])),
        ("c.zip".to_string(), info("Unknown", "", Some("1.0.0"), &[])),
        ("d.zip".to_string(), info("D", "modb", Some("bad version"), &[])),
    ];
    let deps = modpack_dependencies(&installed, &vec![]);
    assert_eq!(deps, vec![("moda".to_string(), "1.2.0".to_string()), ("modb".to_string(), "0.0.0".to_string())]);
}

#[test]
fn enabling_and_disabling_modpacks() {
    let mut c = ModpacksConfig { modpack_dir: "/mp".to_string(), enabled: vec![], disabled: vec!["Pack".to_string()] };
    c.record_enabled("pack".to_string());
    assert_eq!(c.enabled, vec!["pack".to_string()]);
    assert!(c.disabled.is_empty());
    c.record_disabled("PACK".to_string());
    assert!(c.enabled.is_empty());
    assert_eq!(c.disabled, vec!["PACK".to_string()]);
    c.record_installed("PACK".to_string());
    assert_eq!(c.disabled.len(), 1);
    c.record_installed("other".to_string());
    assert_eq!(c.disabled.len(), 2);
    c.record_deleted("PACK");
    assert_eq!(c.disabled, vec!["other".to_string()]);
}
