use rustique::client::{
    api_uri, binary_entry_index, download_uri, github_api_url, update_available, valid_mod_ids, VSExecutabletype,
    VSMirrorType, VSOSType, VSWinInstallerType,
};
use rustique::config::Package;
use rustique::download::{download_target, install_result};
use rustique::error::RustiqueError;
use rustique::install::Install;
use rustique::settings::{SettingChanges, SettingResets};
use rustique::settings::{latest_stable, pin_package, pinned_game_version_choice, sorted_game_versions, unpin_package};
use rustique::timing::{elapsed_more_than, timestamp_older_than_at};

#[test]
fn api_addresses() {
    assert_eq!(api_uri("mods"), "https://mods.vintagestory.at/api/mods");
    assert_eq!(github_api_url("latest"), "https://api.github.com/repos/Tekunogosu/Rustique/releases/latest");
    assert_eq!(VSOSType::OSX.as_str(), "osx");
}

#[test]
fn game_download_names() {
    let (u, f) = download_uri(&VSOSType::Linux, &VSExecutabletype::Client, &VSMirrorType::Stable, "1.20.0", None).unwrap();
    assert_eq!(f, "vs_client_linux-x64_1.20.0.tar.gz");
    assert_eq!(u, "https://cdn.vintagestory.at/gamefiles/stable/vs_client_linux-x64_1.20.0.tar.gz");
    let (_, f2) = download_uri(&VSOSType::Windows, &VSExecutabletype::Server, &VSMirrorType::Unstable, "1.21.0-rc.1", None).unwrap();
    assert_eq!(f2, "vs_server_win-x64_1.21.0-rc.1.zip");
    let (u3, f3) = download_uri(&VSOSType::Windows, &VSExecutabletype::Client, &VSMirrorType::Unstable, "1.20.0", Some(&VSWinInstallerType::Update)).unwrap();
    assert_eq!(f3, "vs_update_win-x64_1.20.0.exe");
    assert!(u3.starts_with("https://cdn.vintagestory.at/gamefiles/unstable/"));
    let (_, f4) = download_uri(&VSOSType::OSX, &VSExecutabletype::Server, &VSMirrorType::Stable, "1.0", None).unwrap();
    assert_eq!(f4, "vs_server_osx-x64_1.0.tar.gz");
}

#[test]
fn valid_ids_drop_empty() {
    assert_eq!(valid_mod_ids(&vec!["a".to_string(), String::new(), "b".to_string()]), vec!["a".to_string(), "b".to_string()]);
}

#[test]
fn self_update_checks() {
    assert_eq!(update_available("v0.5.0", "0.4.2").unwrap(), true);
    assert_eq!(update_available("0.4.2", "0.4.2").unwrap(), false);
    assert!(update_available("latest", "0.4.2").is_err());
    let entries = vec!["README.md".to_string(), "dist/rustique".to_string(), "rustique".to_string()];
    assert_eq!(binary_entry_index(&entries, "rustique").unwrap(), 1);
    assert_eq!(binary_entry_index(&vec!["xrustique".to_string()], "rustique").is_err(), true);
    match binary_entry_index(&vec![], "rq") {
        Err(RustiqueError::SimpleError(m)) => assert_eq!(m, "Failed to locate rq in zip"),
        other => panic!("unexpected {other:?}"),
    }
}

#[test]
fn pin_and_unpin_packages() {
    let mut pkgs = vec![Package { mod_id: "CarryOn".to_string(), pinned_version: None }];
    pin_package(&mut pkgs, "carryon", "1.2.3");
    assert_eq!(pkgs.len(), 1);
    assert_eq!(pkgs[0].mod_id, "CarryOn");
    assert_eq!(pkgs[0].pinned_version, Some("1.2.3".to_string()));
    pin_package(&mut pkgs, "other", "0.1.0");
    assert_eq!(pkgs.len(), 2);
    assert!(unpin_package(&mut pkgs, "carryon"));
    assert_eq!(pkgs.len(), 2);
    assert!(unpin_package(&mut pkgs, "CarryOn"));
    assert_eq!(pkgs.len(), 1);
    let mut empty: Vec<Package> = vec![];
    assert!(!unpin_package(&mut empty, "x"));
}

#[test]
fn game_version_pin_needs_known_version() {
    let known = vec!["v1.20.0".to_string(), "v1.19.8".to_string()];
    assert_eq!(pinned_game_version_choice(&"1.20.0".to_string(), &known), Some("v1.20.0".to_string()));
    assert_eq!(pinned_game_version_choice(&"V1.19.8".to_string(), &known), None);
    assert_eq!(pinned_game_version_choice(&"v1.19.8".to_string(), &known), Some("v1.19.8".to_string()));
    assert_eq!(pinned_game_version_choice(&"1.18.0".to_string(), &known), None);
}

#[test]
fn game_versions_newest_first() {
    let v = vec!["v1.19.8".to_string(), "v1.20.0-rc.2".to_string(), "v1.20.0".to_string(), "v1.18.15".to_string()];
    let sorted = sorted_game_versions(&v);
    assert_eq!(sorted, vec!["v1.20.0".to_string(), "v1.20.0-rc.2".to_string(), "v1.19.8".to_string(), "v1.18.15".to_string()]);
    assert_eq!(latest_stable(&sorted), "v1.20.0");
    assert_eq!(latest_stable(&vec!["v1.21.0-RC.1".to_string(), "v1.20.1".to_string()]), "v1.20.1");
    assert_eq!(latest_stable(&vec!["1.0-rc".to_string()]), "");
}

#[test]
fn elapsed_time_against_hours() {
    assert!(elapsed_more_than(1, (0, 0), (3601, 0)));
    assert!(!elapsed_more_than(1, (0, 0), (3600, 0)));
    assert!(elapsed_more_than(1, (0, 0), (3600, 1)));
    assert!(!elapsed_more_than(0, (10, 0), (5, 0)));
}

#[test]
fn timestamps_of_sync_files() {
    // 2024-01-01 00:00 UTC is 1704067200
    assert!(timestamp_older_than_at(24, "2024-01-01 00:00", (1704067200 + 24 * 3600 + 1, 0)));
    assert!(!timestamp_older_than_at(24, "2024-01-01 00:00", (1704067200 + 3600, 0)));
    // an unreadable timestamp counts as 1970
    assert!(timestamp_older_than_at(24, "yesterday", (1704067200, 0)));
}

#[test]
fn download_target_into_slash_dir() {
    let (_, path) = download_target("/mods/", "https://mods.vintagestory.at/download?dl=x.zip").unwrap();
    assert_eq!(path, "/mods/x.zip");
}

#[test]
fn download_targets() {
    let (url, path) = download_target("/mods", "https://mods.vintagestory.at/download?dl=my mod 1.0.zip").unwrap();
    assert_eq!(path, "/mods/my_mod_1.0.zip");
    assert!(url.starts_with("https://mods.vintagestory.at/download?dl="));
    assert!(matches!(download_target("/mods", "not a url"), Err(RustiqueError::UrlParseError(_))));
}

#[test]
fn download_records() {
    let req = Install {
        mod_id: "a".to_string(),
        mod_name: "A".to_string(),
        version_to_install: "2.0".to_string(),
        download_url: String::new(),
        current_file_path: Some("/m/a1.zip".to_string()),
    };
    let ok = install_result(&req, Some("/m/a2.zip".to_string()));
    assert!(ok.success);
    assert_eq!(ok.old_file_path, Some("/m/a1.zip".to_string()));
    let failed = install_result(&req, None);
    assert!(!failed.success);
    assert_eq!(failed.installed_file_path, None);
}

fn base_config() -> rustique::settings::Config {
    rustique::settings::Config {
        mod_dir: "/mods".to_string(),
        pinned_game_version: "1.20.0".to_string(),
        zip_mod_files: false,
        backup_mods: false,
        backup_mods_dir: String::new(),
        game_download_dir: String::new(),
        notify_of_unzipped_mods: true,
        show_execution_time: false,
        sync_mod_search_file_every: 24,
        sync_latest_game_version_file_every: 24,
        pkg: vec![],
        table: rustique::table::Tables::with_defaults(),
        modpacks: rustique::modpack::ModpacksConfig { modpack_dir: "/packs".to_string(), enabled: vec![], disabled: vec![] },
    }
}

#[test]
fn config_set_and_del_change_only_what_is_named() {
    let mut c = base_config();
    let saved = c.apply_changes(SettingChanges {
        mod_dir: Some("/other".to_string()),
        notify_of_unzipped_mods: None,
        pinned_game_version: None,
        pin: Some(("alchemy".to_string(), "1.2.0".to_string())),
        show_execution_time: Some(true),
        zip_mod_files: None,
        backup_mods: None,
        backup_mods_dir: None,
        game_download_dir: None,
    });
    assert!(saved);
    assert_eq!(c.mod_dir, "/other");
    assert_eq!(c.pinned_game_version, "1.20.0");
    assert!(c.show_execution_time);
    assert_eq!(c.pkg.len(), 1);
    assert_eq!(c.pkg[0].pinned_version.as_deref(), Some("1.2.0"));
    let none = SettingChanges {
        mod_dir: None, notify_of_unzipped_mods: None, pinned_game_version: None, pin: None,
        show_execution_time: None, zip_mod_files: None, backup_mods: None, backup_mods_dir: None, game_download_dir: None,
    };
    assert!(!c.apply_changes(none));
    let defaults = base_config();
    let resets = SettingResets {
        mod_dir: true, pinned_game_version: false, zip_mod_files: false, backup_mods: false,
        backup_mods_dir: false, game_download_dir: false, notify_of_unzipped_mods: false,
        unpin: Some("alchemy".to_string()),
    };
    assert!(c.reset_settings(&resets, &defaults));
    assert_eq!(c.mod_dir, "/mods");
    assert!(c.pkg.is_empty());
    assert!(c.show_execution_time);
}
