use rustique::api_structs::Releases;
use rustique::config::Package;
use rustique::error::RustiqueError;
use rustique::version::{
    compare_versions, parse_download_url_from_version, parse_latest_version, parse_pinned_version, parse_version,
};
use std::cmp::Ordering;

fn release(version: Option<&str>, file: Option<&str>, tags: &[&str]) -> Releases {
    Releases {
        release_id: 1,
        main_file: file.map(|s| s.to_string()),
        filename: None,
        file_id: None,
        downloads: 0,
        tags: tags.iter().map(|s| s.to_string()).collect(),
        modid_str: None,
        mod_version: version.map(|s| s.to_string()),
        created: None,
        changelog: None,
    }
}

#[test]
fn parse_version_reads_lenient_versions() {
    let v = parse_version("1.2").unwrap();
    assert_eq!((v.major, v.minor, v.patch), (1, 2, 0));
    assert_eq!(v.to_text(), "1.2.0");
    let w = parse_version("v1.20.3-rc.1").unwrap();
    assert_eq!(w.to_text(), "1.20.3-rc.1");
    assert!(matches!(parse_version("not a version"), Err(RustiqueError::SimpleError(_))));
}

#[test]
fn compare_versions_orders_and_flips() {
    assert_eq!(compare_versions("1.2.3", "1.10.0").unwrap(), Ordering::Less);
    assert_eq!(compare_versions("1.10.0", "1.2.3").unwrap(), Ordering::Greater);
    assert_eq!(compare_versions("1.0.0-rc.1", "1.0.0").unwrap(), Ordering::Less);
    assert_eq!(compare_versions("2.0", "2.0.0").unwrap(), Ordering::Equal);
    assert!(compare_versions("x", "1.0.0").is_err());
}

#[test]
fn latest_version_picks_newest_parseable() {
    let rs = vec![
        release(Some("1.0.0"), Some("a.zip"), &["v1.19.0"]),
        release(Some("bad"), Some("b.zip"), &[]),
        release(Some("1.2.0"), Some("c.zip"), &["v1.20.0"]),
        release(None, Some("d.zip"), &[]),
        release(Some("1.1.0"), None, &[]),
    ];
    let (v, url, gv) = parse_latest_version(&rs);
    assert_eq!(v, "1.2.0");
    assert_eq!(url, "c.zip");
    assert_eq!(gv, vec!["v1.20.0".to_string()]);
}

#[test]
fn latest_version_prefers_release_over_pre_release() {
    let rs = vec![
        release(Some("1.20.0"), Some("r.zip"), &[]),
        release(Some("1.20.0-rc.1"), Some("rc.zip"), &[]),
        release(Some("1.9.0"), Some("old.zip"), &[]),
    ];
    let (v, url, _) = parse_latest_version(&rs);
    assert_eq!(v, "1.20.0");
    assert_eq!(url, "r.zip");
    assert_eq!(compare_versions("1.20.0-rc.1", "1.20.0").unwrap(), Ordering::Less);
}

#[test]
fn latest_version_of_nothing_is_empty() {
    let (v, url, gv) = parse_latest_version(&[]);
    assert_eq!((v.as_str(), url.as_str(), gv.len()), ("", "", 0));
}

#[test]
fn latest_version_equal_versions_later_wins() {
    let rs = vec![release(Some("1.0"), Some("first.zip"), &[]), release(Some("1.0.0"), Some("second.zip"), &[])];
    let (_, url, _) = parse_latest_version(&rs);
    assert_eq!(url, "second.zip");
}

#[test]
fn download_url_of_exact_version() {
    let rs = vec![
        release(Some("1.0.0"), None, &[]),
        release(Some("1.0.0"), Some("one.zip"), &[]),
        release(Some("2.0.0"), Some("two.zip"), &[]),
    ];
    assert_eq!(parse_download_url_from_version(&rs, "1.0.0").unwrap(), "one.zip");
    match parse_download_url_from_version(&rs, "3.0.0") {
        Err(RustiqueError::SimpleError(m)) => {
            assert_eq!(m, "Version 3.0.0 not found. Use [Rustique info -m modid] for valid versions")
        }
        other => panic!("unexpected {other:?}"),
    }
}

#[test]
fn pinned_version_respects_game_and_mod_pins() {
    let rs = vec![
        release(Some("1.0.0"), Some("a.zip"), &["v1.19.0"]),
        release(Some("1.1.0"), Some("b.zip"), &["v1.19.8"]),
        release(Some("2.0.0"), Some("c.zip"), &["v1.20.0"]),
    ];
    let pkg = Package { mod_id: "mymod".to_string(), pinned_version: None };
    let (v, url, _) = parse_pinned_version(&rs, &pkg, "v1.19.8");
    assert_eq!((v.as_str(), url.as_str()), ("1.1.0", "b.zip"));
    let pinned = Package { mod_id: "mymod".to_string(), pinned_version: Some("1.0.0".to_string()) };
    let (v2, _, _) = parse_pinned_version(&rs, &pinned, "");
    assert_eq!(v2, "1.0.0");
    let (v3, _, _) = parse_pinned_version(&rs, &pkg, "");
    assert_eq!(v3, "2.0.0");
}
