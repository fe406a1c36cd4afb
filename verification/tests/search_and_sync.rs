use rustique::api_structs::{ApiModJson, Mod, ModApi, ModInfo, Releases, StringOrInt};
use rustique::config::Package;
use rustique::search::{parse_sort_order, Field, SearchQuery, SortBy, SortOrder};
use rustique::sync::{
    installed_version_text, locate_mod_id, record_releases, release_info_for, release_info_ready, sync_installed,
    GameVersionSync, ModSyncInfo, RustiqueSyncJson,
};

fn api(mod_id: u32, name: Option<&str>, strs: &[&str], downloads: u32) -> ModApi {
    ModApi {
        mod_id,
        asset_id: mod_id + 1000,
        downloads,
        follows: 0,
        trending_points: 0,
        comments: 0,
        name: name.map(|s| s.to_string()),
        summary: Some("A summary".to_string()),
        mod_id_strs: strs.iter().map(|s| s.to_string()).collect(),
        author: Some("Someone".to_string()),
        url_alias: None,
        side: Some("both".to_string()),
        mod_type: Some("mod".to_string()),
        logo: None,
        tags: vec!["Tweak".to_string()],
        last_released: Some("2024-01-01".to_string()),
    }
}

fn info(name: &str, mod_id: &str, version: Option<&str>, deps: &[(&str, &str)]) -> ModInfo {
    let mut m = ModInfo::default();
    m.name = name.to_string();
    m.mod_id = mod_id.to_string();
    m.version = version.map(|s| s.to_string());
    m.dependencies = deps.iter().map(|(a, b)| (a.to_string(), b.to_string())).collect();
    m.mod_type = StringOrInt::String(String::new());
    m
}

fn release(version: &str, file: &str, tags: &[&str]) -> Releases {
    Releases {
        release_id: 1,
        main_file: Some(file.to_string()),
        filename: None,
        file_id: None,
        downloads: 0,
        tags: tags.iter().map(|s| s.to_string()).collect(),
        modid_str: None,
        mod_version: Some(version.to_string()),
        created: None,
        changelog: None,
    }
}

fn fetched(name: &str, releases: Vec<Releases>) -> Mod {
    Mod {
        mod_json: ApiModJson {
            mod_id: 1,
            asset_id: 2,
            name: Some(name.to_string()),
            text: None,
            author: None,
            url_alias: None,
            logo_filename: None,
            logo_file: None,
            logo_file_db: None,
            home_page_url: None,
            source_code_url: None,
            trailer_video_url: None,
            issue_tracker_url: None,
            wiki_url: None,
            downloads: 0,
            follows: 0,
            trending_points: 0,
            comments: 0,
            side: None,
            mod_type: None,
            created: None,
            last_released: None,
            last_modified: None,
            tags: vec![],
            releases,
            screenshots: vec![],
        },
        status_code: "200".to_string(),
    }
}

#[test]
fn search_by_text_and_sort_by_downloads() {
    let mods = vec![api(1, Some("Alpha Mod"), &["alpha"], 10), api(2, Some("Beta"), &["beta"], 30), api(3, Some("alpha two"), &[], 20)];
    let q = SearchQuery::new().add_text_search("ALPHA".to_string()).with_sort(SortBy::Downloads, SortOrder::Desc);
    let found = q.execute(&mods);
    assert_eq!(found.iter().map(|m| m.mod_id).collect::<Vec<_>>(), vec![3, 1]);
}

#[test]
fn sort_by_name_uses_the_name() {
    let mods = vec![api(1, Some("Zeta"), &[], 5), api(2, Some("Alpha"), &[], 1), api(3, Some("Mid"), &[], 9)];
    let by_name = SearchQuery::new().with_sort(SortBy::Name, SortOrder::Asc).execute(&mods);
    assert_eq!(by_name.iter().map(|m| m.mod_id).collect::<Vec<_>>(), vec![2, 3, 1]);
    let by_id = SearchQuery::new().with_sort(SortBy::ModId, SortOrder::Desc).execute(&mods);
    assert_eq!(by_id.iter().map(|m| m.mod_id).collect::<Vec<_>>(), vec![3, 2, 1]);
}

#[test]
fn unsorted_search_keeps_order_and_narrows() {
    let mods = vec![api(1, Some("Alpha Mod"), &[], 10), api(2, Some("Beta"), &[], 30), api(3, Some("alpha two"), &[], 20)];
    let all = SearchQuery::new().execute(&mods);
    assert_eq!(all.iter().map(|m| m.mod_id).collect::<Vec<_>>(), vec![1, 2, 3]);
    let alpha = SearchQuery::new().add_text_search("alpha".to_string()).execute(&mods);
    assert_eq!(alpha.iter().map(|m| m.mod_id).collect::<Vec<_>>(), vec![1, 3]);
    let narrower = SearchQuery::new().add_text_search("alpha".to_string()).add_text_search("two".to_string()).execute(&mods);
    assert_eq!(narrower.iter().map(|m| m.mod_id).collect::<Vec<_>>(), vec![3]);
}

#[test]
fn search_by_id_field_and_tag() {
    let mods = vec![api(1, Some("Alpha"), &["alpha"], 10), api(2, Some("Beta"), &["beta"], 30)];
    assert_eq!(SearchQuery::new().add_id_search(1002).execute(&mods).len(), 1);
    assert_eq!(SearchQuery::new().add_field_search(Field::ModIdStr, "beta".to_string()).execute(&mods)[0].mod_id, 2);
    assert_eq!(SearchQuery::new().add_tag_search("tweak".to_string()).execute(&mods).len(), 2);
    assert_eq!(SearchQuery::new().add_field_search(Field::Tags, "tweak".to_string()).execute(&mods).len(), 2);
    assert_eq!(SearchQuery::new().add_field_search(Field::Tags, "magic".to_string()).execute(&mods).len(), 0);
    assert_eq!(SearchQuery::new().add_text_search("TWEAK".to_string()).execute(&mods).len(), 2);
    let by_name = SearchQuery::new().sort_by(SortBy::Name).execute(&mods);
    assert_eq!(by_name.len(), 2);
}

#[test]
fn sort_order_parsing() {
    assert!(matches!(parse_sort_order("ASC"), Ok(SortOrder::Asc)));
    assert!(matches!(parse_sort_order("descending"), Ok(SortOrder::Desc)));
    assert_eq!(parse_sort_order("sideways").unwrap_err(), "Invalid sort order: sideways");
}

#[test]
fn locate_mod_id_needs_exactly_one_match() {
    let mods = vec![api(11, Some("Carry On"), &[], 0), api(12, None, &["betterruins"], 0), api(13, Some("carry on"), &[], 0)];
    assert_eq!(locate_mod_id("BetterRuins", &mods), "");
    assert_eq!(locate_mod_id("betterruins", &mods), "12");
    assert_eq!(locate_mod_id("CARRY ON", &mods), "");
    assert_eq!(locate_mod_id("nothing", &mods), "");
}

#[test]
fn installed_version_text_normalises() {
    assert_eq!(installed_version_text(&Some("1.2".to_string())), "1.2.0");
    assert_eq!(installed_version_text(&Some("weird".to_string())), "weird");
    assert_eq!(installed_version_text(&None), "");
}

#[test]
fn sync_installed_first_mod_of_an_id_wins() {
    let installed = vec![
        ("a.zip".to_string(), info("A", "moda", Some("1.0"), &[])),
        ("b.zip".to_string(), info("B", "", Some("2.0.0"), &[])),
        ("a2.zip".to_string(), info("A again", "moda", Some("3.0"), &[])),
    ];
    let search = vec![api(77, Some("b"), &[], 0)];
    let sync = sync_installed(&installed, &search);
    assert_eq!(sync.len(), 2);
    assert_eq!(sync[0].0, "moda");
    assert_eq!(sync[0].1.file_name, "a.zip");
    assert_eq!(sync[0].1.installed_version, "1.0.0");
    assert_eq!(sync[1].0, "77");
    assert_eq!(sync[1].1.mod_name, "B");
}

#[test]
fn release_info_uses_pins_only_when_set() {
    let rs = vec![release("1.0.0", "a.zip", &["v1.19.0"]), release("2.0.0", "b.zip", &["v1.20.0"])];
    let pkgs = vec![Package { mod_id: "moda".to_string(), pinned_version: Some("1.5.0".to_string()) }];
    assert!(release_info_ready("moda", &rs, &pkgs, ""));
    let (v, url, _) = release_info_for("moda", &rs, &pkgs, "");
    assert_eq!((v.as_str(), url.as_str()), ("1.0.0", "a.zip"));
    let (v2, _, _) = release_info_for("other", &rs, &pkgs, "");
    assert_eq!(v2, "2.0.0");
    let (v3, _, _) = release_info_for("other", &rs, &pkgs, "v1.19.5");
    assert_eq!(v3, "1.0.0");
}

#[test]
fn release_info_ready_detects_missing_versions() {
    let mut r = release("1.0.0", "a.zip", &["v1.19.0"]);
    r.mod_version = None;
    let rs = vec![r];
    assert!(!release_info_ready("x", &rs, &vec![], "v1.20.0"));
    assert!(release_info_ready("x", &rs, &vec![], ""));
}

#[test]
fn record_releases_updates_and_adds() {
    let mut sync = vec![("moda".to_string(), ModSyncInfo {
        file_name: "a.zip".to_string(),
        mod_name: "A".to_string(),
        installed_version: "1.0.0".to_string(),
        latest_known_version: String::new(),
        latest_download_url: String::new(),
        game_versions: vec![],
    })];
    let got = vec![
        ("moda".to_string(), fetched("A", vec![release("1.1.0", "a11.zip", &["v1.20.0"])])),
        ("modb".to_string(), fetched("B", vec![release("0.5.0", "b.zip", &[])])),
    ];
    record_releases(&mut sync, &got, &vec![], "");
    assert_eq!(sync.len(), 2);
    assert_eq!(sync[0].1.installed_version, "1.0.0");
    assert_eq!(sync[0].1.latest_known_version, "1.1.0");
    assert_eq!(sync[0].1.latest_download_url, "a11.zip");
    assert_eq!(sync[0].1.game_versions, vec!["v1.20.0".to_string()]);
    assert_eq!(sync[1].0, "modb");
    assert_eq!(sync[1].1.file_name, "None");
    assert_eq!(sync[1].1.installed_version, "None");
    assert_eq!(sync[1].1.mod_name, "B");
}

#[test]
fn fresh_sync_files_are_empty() {
    assert!(RustiqueSyncJson::new().rustique_sync.is_empty());
    let g = GameVersionSync::new();
    assert!(g.game_versions.is_empty());
    assert_eq!(g.last_sync, "");
}
