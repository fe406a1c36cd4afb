use rustique::api_structs::{ApiModJson, Mod, Releases};
use rustique::cli::{build_query, SearchArgs};
use rustique::client::{asset_url, is_supported_platform, platform_bin_name, self_update_needed};
use rustique::config::{CellAttr, CellColor, ListColumn, SearchColumn};
use rustique::error::RustiqueError;
use rustique::modpack::{check_can_disable, modpack_installs, modpack_up_to_date, packages_from_dependencies, ModpacksConfig};
use rustique::search::{Field, SearchCriteria, SortBy};
use rustique::sync::ModSyncInfo;

fn release(version: &str, file: Option<&str>) -> Releases {
    Releases {
        release_id: 1,
        main_file: file.map(|f| f.to_string()),
        filename: None,
        file_id: None,
        downloads: 0,
        tags: vec![],
        modid_str: None,
        mod_version: Some(version.to_string()),
        created: None,
        changelog: None,
    }
}

fn fetched(name: &str, releases: Vec<Releases>) -> Mod {
    Mod {
        mod_json: ApiModJson {
            mod_id: 1,
            asset_id: 2,
            name: Some(name.to_string()),
            text: None,
            author: None,
            url_alias: None,
            logo_filename: None,
            logo_file: None,
            logo_file_db: None,
            home_page_url: None,
            source_code_url: None,
            trailer_video_url: None,
            issue_tracker_url: None,
            wiki_url: None,
            downloads: 0,
            follows: 0,
            trending_points: 0,
            comments: 0,
            side: None,
            mod_type: None,
            created: None,
            last_released: None,
            last_modified: None,
            tags: vec![],
            releases,
            screenshots: vec![],
        },
        status_code: "200".to_string(),
    }
}

fn pairs(v: &[(&str, &str)]) -> Vec<(String, String)> {
    v.iter().map(|(a, b)| (a.to_string(), b.to_string())).collect()
}

#[test]
fn modpack_installs_use_the_pinned_release() {
    let fetched = vec![
        ("alpha".to_string(), fetched("Alpha", vec![release("1.2.0", Some("a12.zip")), release("1.0.0", Some("a10.zip"))])),
        ("beta".to_string(), fetched("Beta", vec![release("2.0.0", None)])),
        ("gamma".to_string(), fetched("Gamma", vec![release("3.0.0", Some("g3.zip"))])),
    ];
    let deps = pairs(&[("alpha", "1.0.0"), ("beta", "2.0.0")]);
    let r = modpack_installs(&fetched, &deps);
    assert_eq!(r.len(), 1);
    assert_eq!(r[0].mod_id, "alpha");
    assert_eq!(r[0].mod_name, "Alpha");
    assert_eq!(r[0].version_to_install, "1.0.0");
    assert_eq!(r[0].download_url, "a10.zip");
    assert!(r[0].current_file_path.is_none());
}

#[test]
fn packages_pin_each_dependency() {
    let pkgs = packages_from_dependencies(&pairs(&[("alpha", "1.0.0"), ("beta", "2.1.0")]));
    assert_eq!(pkgs.len(), 2);
    assert_eq!(pkgs[1].mod_id, "beta");
    assert_eq!(pkgs[1].pinned_version.as_deref(), Some("2.1.0"));
}

#[test]
fn modpack_up_to_date_ignores_ascii_case() {
    let mut i = ModSyncInfo::default();
    i.installed_version = "1.0.0-RC".to_string();
    i.latest_known_version = "1.0.0-rc".to_string();
    assert!(modpack_up_to_date(&i));
    i.latest_known_version = "1.0.1".to_string();
    assert!(!modpack_up_to_date(&i));
}

#[test]
fn only_enabled_packs_can_be_disabled() {
    let enabled = vec!["pack".to_string()];
    assert!(check_can_disable(&enabled, "pack").is_ok());
    match check_can_disable(&enabled, "PACK") {
        Err(RustiqueError::SimpleError(m)) => assert_eq!(m, "Modpack is not enabled"),
        other => panic!("unexpected {other:?}"),
    }
}

#[test]
fn deleting_and_installing_packs() {
    let mut c = ModpacksConfig { modpack_dir: "/p".to_string(), enabled: vec![], disabled: vec!["a".to_string(), "b".to_string()] };
    c.record_deleted("a");
    assert_eq!(c.disabled, vec!["b".to_string()]);
    c.record_installed("b".to_string());
    assert_eq!(c.disabled, vec!["b".to_string()]);
    c.record_installed("c".to_string());
    assert_eq!(c.disabled, vec!["b".to_string(), "c".to_string()]);
    assert_eq!(c.modpack_dir, "/p");
}

#[test]
fn platforms_and_archive_names() {
    assert!(is_supported_platform("linux", "x86_64"));
    assert!(is_supported_platform("macos", "aarch64"));
    assert!(!is_supported_platform("windows", "aarch64"));
    assert!(!is_supported_platform("freebsd", "x86_64"));
    assert_eq!(platform_bin_name("linux", "aarch64"), "rustique-linux-aarch64");
}

#[test]
fn self_update_needed_unless_same_version() {
    assert_eq!(self_update_needed("0.5.0", "0.5.0", false).unwrap(), false);
    assert_eq!(self_update_needed("0.5.0", "0.4.9", false).unwrap(), true);
    assert_eq!(self_update_needed("0.5.0", "0.5.0", true).unwrap(), true);
    assert!(self_update_needed("latest", "0.5.0", false).is_err());
    assert!(self_update_needed("0.5.0", "not a version", true).is_ok());
}

#[test]
fn asset_url_takes_the_first_match() {
    let assets = pairs(&[("a.zip", "u1"), ("rustique-linux-x86_64.zip", "u2"), ("rustique-linux-x86_64.zip", "u3")]);
    assert_eq!(asset_url(&assets, "rustique-linux-x86_64.zip").as_deref(), Some("u2"));
    assert_eq!(asset_url(&assets, "b.zip"), None);
}

#[test]
fn search_arguments_become_criteria() {
    let q = build_query(SearchArgs {
        query: Some("wolf".to_string()),
        color: Some(CellColor::Red),
        field: Some(Field::Name),
        author: Some("me".to_string()),
        tag: None,
        sort_by: Some(SortBy::Downloads),
        sort_direction: None,
    });
    assert_eq!(q.criteria.len(), 2);
    assert!(matches!(&q.criteria[0], SearchCriteria::Field { field: Field::Name, value } if value == "wolf"));
    assert!(matches!(&q.criteria[1], SearchCriteria::Field { field: Field::Author, value } if value == "me"));
    let q = build_query(SearchArgs {
        query: Some("wolf".to_string()),
        color: None,
        field: None,
        author: None,
        tag: Some("Tweak".to_string()),
        sort_by: None,
        sort_direction: None,
    });
    assert!(matches!(&q.criteria[0], SearchCriteria::Text(t) if t == "wolf"));
    assert!(matches!(&q.criteria[1], SearchCriteria::Tag(t) if t == "Tweak"));
}

fn is_minute_stamp(s: &str) -> bool {
    let c: Vec<char> = s.chars().collect();
    let n = c.len();
    if n < 16 {
        return false;
    }
    let two = |i: usize| c[i].to_digit(10).zip(c[i + 1].to_digit(10)).map(|(a, b)| a * 10 + b);
    let year_ok = (c[0].is_ascii_digit() || c[0] == '+' || c[0] == '-') && c[1..n - 12].iter().all(|d| d.is_ascii_digit());
    year_ok
        && c[n - 12] == '-'
        && c[n - 9] == '-'
        && c[n - 6] == ' '
        && c[n - 3] == ':'
        && matches!(two(n - 11), Some(1..=12))
        && matches!(two(n - 8), Some(1..=31))
        && matches!(two(n - 5), Some(0..=23))
        && matches!(two(n - 2), Some(0..=59))
}

#[test]
fn current_time_is_a_minute_stamp() {
    let now = rustique::timing::get_current_time();
    assert!(is_minute_stamp(&now), "{now}");
    let fresh = rustique::sync::RustiqueSyncJson::new();
    assert!(fresh.rustique_sync.is_empty());
    assert!(is_minute_stamp(&fresh.last_sync));
}

#[test]
fn names_parse_through_from_str() {
    assert!(matches!("Dark_Red".parse::<CellColor>(), Ok(CellColor::DarkRed)));
    assert!("grey".parse::<CellColor>().is_err());
    assert!(matches!("mod_id".parse::<ListColumn>(), Ok(ListColumn::ModId)));
    assert!(matches!("MOD_ID".parse::<ListColumn>(), Ok(ListColumn::ModId)));
    assert!(matches!("DOWNLOADS".parse::<SearchColumn>(), Ok(SearchColumn::Downloads)));
    assert!("LAST_UPDATE".parse::<ListColumn>().is_err());
    assert!(matches!("downloads".parse::<SearchColumn>(), Ok(SearchColumn::Downloads)));
    assert!(matches!("bold".parse::<CellAttr>(), Ok(CellAttr::Bold)));
    assert!(matches!("DESC".parse::<rustique::search::SortOrder>(), Ok(rustique::search::SortOrder::Desc)));
    assert_eq!("up".parse::<rustique::search::SortOrder>().unwrap_err(), "Invalid sort order: up");
}

#[test]
fn contains_any_looks_for_the_queries() {
    use_contains_any();
}

fn use_contains_any() {
    let v = vec!["Alchemy".to_string()];
    assert!(!rustique::traits::VecStringExt::contains_any(&v, &["sword"]));
    assert!(rustique::traits::VecStringExt::contains_any(&v, &["sword", "ALCH"]));
    assert!(!rustique::traits::VecStringExt::contains_any(&v, &[]));
    assert!(!rustique::traits::VecStringExt::contains_any(&Vec::<String>::new(), &["a"]));
}
