use rustique::api_structs::{ModInfo, StringOrInt};
use rustique::error::RustiqueError;
use rustique::install::{
    dependency_installs, finish_processed, gather_dependencies, gather_missing_dependencies, install_requests,
    is_base_game_id, install_round, needed_dependencies, old_files_to_remove, stale_files_of, record_seen, select_updates, update_installs, Install,
    Installed,
};
use rustique::sync::ModSyncInfo;

fn info(mod_id: &str, deps: &[(&str, &str)]) -> ModInfo {
    let mut m = ModInfo::default();
    m.mod_id = mod_id.to_string();
    m.name = mod_id.to_uppercase();
    m.mod_type = StringOrInt::String(String::new());
    m.dependencies = deps.iter().map(|(a, b)| (a.to_string(), b.to_string())).collect();
    m
}

fn sync_entry(id: &str, installed: &str, latest: &str) -> (String, ModSyncInfo) {
    (id.to_string(), ModSyncInfo {
        file_name: format!("{id}.zip"),
        mod_name: format!("Name {id}"),
        installed_version: installed.to_string(),
        latest_known_version: latest.to_string(),
        latest_download_url: format!("https://x/{id}"),
        game_versions: vec![],
    })
}

fn done(id: &str, name: &str, old: Option<&str>, new: Option<&str>) -> Installed {
    Installed {
        mod_id: id.to_string(),
        mod_name: name.to_string(),
        installed_file_path: new.map(|s| s.to_string()),
        old_file_path: old.map(|s| s.to_string()),
        install_version: "1.0.0".to_string(),
        success: new.is_some(),
    }
}

#[test]
fn base_game_ids() {
    assert!(is_base_game_id("game"));
    assert!(is_base_game_id("survival"));
    assert!(is_base_game_id("creativemode"));
    assert!(!is_base_game_id("Game"));
    assert!(!is_base_game_id("carryon"));
}

#[test]
fn missing_dependencies_skip_game_and_synced_mods() {
    let installed = vec![
        ("a.zip".to_string(), info("moda", &[("game", "1.19.0"), ("modb", "1.0.0"), ("modc", "2.0.0")])),
        ("x.zip".to_string(), info("modx", &[("mody", "0.1.0")])),
    ];
    let sync = vec![sync_entry("modb", "1.0.0", "1.0.0")];
    let all = gather_missing_dependencies(&installed, &vec![], &sync);
    let ids: Vec<&str> = all.iter().map(|i| i.mod_id.as_str()).collect();
    assert_eq!(ids, vec!["modc", "mody"]);
    assert_eq!(all[0].current_file_path, Some("a.zip".to_string()));
    assert_eq!(all[0].version_to_install, "2.0.0");
    let only_x = gather_missing_dependencies(&installed, &vec!["modx".to_string()], &sync);
    assert_eq!(only_x.len(), 1);
    assert_eq!(only_x[0].mod_id, "mody");
    let deps = gather_dependencies(&installed);
    assert_eq!(deps.len(), 3);
}

#[test]
fn install_requests_filter_and_force() {
    let sync = vec![sync_entry("moda", "1", "1")];
    let req = vec!["moda".to_string(), "modb".to_string()];
    assert_eq!(install_requests(&req, &sync, false).unwrap(), vec!["modb".to_string()]);
    assert_eq!(install_requests(&req, &sync, true).unwrap(), req);
    assert!(install_requests(&vec!["moda".to_string()], &sync, false).is_err());
    match install_requests(&vec![], &sync, false) {
        Err(RustiqueError::SimpleError(m)) => assert_eq!(m, "No mods to install"),
        other => panic!("unexpected {other:?}"),
    }
}

#[test]
fn select_updates_lowercases_and_reports_unknown() {
    let sync = vec![sync_entry("moda", "1.0.0", "1.1.0"), sync_entry("modb", "2.0.0", "2.0.0")];
    let sel = select_updates(&sync, &vec!["MODA".to_string(), "nope".to_string(), "moda".to_string()]).unwrap();
    assert_eq!(sel.selected.len(), 1);
    assert_eq!(sel.selected[0].0, "moda");
    assert_eq!(sel.invalid, vec!["nope".to_string()]);
    let all = select_updates(&sync, &vec![]).unwrap();
    assert_eq!(all.selected.len(), 2);
    match select_updates(&sync, &vec!["zzz".to_string()]) {
        Err(RustiqueError::SimpleError(m)) => assert_eq!(m, "No valid update ids or the mod dir is empty..\n\r"),
        other => panic!("unexpected {other:?}"),
    }
}

#[test]
fn update_installs_only_for_newer_versions() {
    let sel = vec![sync_entry("ModA", "1.0.0", "1.1.0"), sync_entry("modb", "2.0.0", "2.0.0"), sync_entry("", "1", "2")];
    let ups = update_installs(&sel, "/mods");
    assert_eq!(ups.len(), 1);
    assert_eq!(ups[0].mod_id, "moda");
    assert_eq!(ups[0].version_to_install, "1.1.0");
    assert_eq!(ups[0].current_file_path, Some("/mods/ModA.zip".to_string()));
}

#[test]
fn needed_dependencies_lowercase_and_dedupe() {
    let seen = vec![("known".to_string(), done("known", "K", None, None))];
    let deps = vec![
        ("Known".to_string(), "1".to_string()),
        ("GameDep".to_string(), "1".to_string()),
        ("newmod".to_string(), "1.0".to_string()),
        ("newmod".to_string(), "2.0".to_string()),
    ];
    let needed = needed_dependencies(&deps, &seen);
    assert_eq!(needed, vec![("newmod".to_string(), "2.0".to_string())]);
    let installs = dependency_installs(&vec![deps.clone(), vec![("other".to_string(), "3".to_string())]], &seen);
    let ids: Vec<&str> = installs.iter().map(|i| i.mod_id.as_str()).collect();
    assert_eq!(ids, vec!["newmod", "other"]);
    assert_eq!(installs[0].current_file_path, None);
}

#[test]
fn record_seen_replaces_by_id() {
    let mut seen = vec![("a".to_string(), done("a", "A", None, Some("old.zip")))];
    record_seen(&mut seen, &vec![done("b", "B", None, Some("b.zip")), done("a", "A", None, Some("new.zip"))]);
    assert_eq!(seen.len(), 2);
    assert_eq!(seen[0].1.installed_file_path, Some("new.zip".to_string()));
    assert_eq!(seen[1].0, "b");
}

#[test]
fn install_round_collects_and_finds_new_dependencies() {
    let mut processed = vec![done("a", "A", None, Some("a.zip"))];
    let mut seen = vec![("a".to_string(), done("a", "A", None, Some("a.zip")))];
    let recent = vec![done("b", "B", None, Some("b.zip"))];
    let lists = vec![vec![("a".to_string(), "1".to_string()), ("b".to_string(), "1".to_string()), ("c".to_string(), "2.0".to_string())]];
    let needed = install_round(&mut processed, &mut seen, &recent, &lists);
    assert_eq!(processed.len(), 2);
    assert_eq!(processed[1].mod_id, "b");
    assert_eq!(seen.len(), 2);
    let ids: Vec<&str> = needed.iter().map(|i| i.mod_id.as_str()).collect();
    assert_eq!(ids, vec!["c"]);
    let none = install_round(&mut processed, &mut seen, &vec![], &vec![]);
    assert!(none.is_empty());
}

#[test]
fn finish_processed_sorts_and_dedups() {
    let list = vec![done("z", "zeta", None, None), done("a", "Alpha", None, None), done("a", "alpha", None, None), done("b", "beta", None, None)];
    let out = finish_processed(&list);
    let names: Vec<&str> = out.iter().map(|i| i.mod_name.as_str()).collect();
    assert_eq!(names, vec!["Alpha", "beta", "zeta"]);
    let apart = vec![done("x", "Apple", None, None), done("y", "Banana", None, None), done("x", "cherry", None, None)];
    let out = finish_processed(&apart);
    let names: Vec<&str> = out.iter().map(|i| i.mod_name.as_str()).collect();
    assert_eq!(names, vec!["Apple", "Banana"]);
}

#[test]
fn old_files_only_when_path_changed() {
    let list = vec![
        done("a", "A", Some("/m/a1.zip"), Some("/m/a2.zip")),
        done("b", "B", Some("/m/b.zip"), Some("/m/b.zip")),
        done("c", "C", None, Some("/m/c.zip")),
    ];
    assert_eq!(old_files_to_remove(&list), vec!["/m/a1.zip".to_string()]);
    assert_eq!(stale_files_of(&list, &vec![false, false, false]), vec!["/m/a1.zip".to_string(), "/m/b.zip".to_string()]);
    assert_eq!(stale_files_of(&list, &vec![true, true, false]), Vec::<String>::new());
}

#[test]
fn old_files_compared_as_paths() {
    let list = vec![done("a", "A", Some("/m/./a.zip"), Some("/m/a.zip")), done("b", "B", Some("/m//b.zip"), Some("/m/c.zip"))];
    assert_eq!(old_files_to_remove(&list), vec!["/m//b.zip".to_string()]);
}

#[test]
fn install_struct_holds_what_is_given() {
    let i = Install {
        mod_id: "x".to_string(),
        mod_name: String::new(),
        version_to_install: "1".to_string(),
        download_url: String::new(),
        current_file_path: None,
    };
    assert_eq!(i.mod_id, "x");
}
