use qwley_launcher::changelog::{check_update_info, roblox_version_info, ChangelogEntry};

fn entry(version: &str) -> ChangelogEntry {
    ChangelogEntry {
        version: version.to_string(),
        date: "2024-01-01".to_string(),
        roblox: String::new(),
        is_new: false,
        items: vec![],
    }
}

#[test]
fn the_newest_release_is_the_first_entry() {
    let info = check_update_info("1.0.0".to_string(), &vec![entry("2.1.0"), entry("2.0.0")], true).unwrap();
    assert_eq!(info.local, "1.0.0");
    assert_eq!(info.remote, "2.1.0");
    assert!(info.needs_update);
    assert!(info.installed);
}

#[test]
fn an_empty_changelog_is_an_error() {
    let r = check_update_info("1.0.0".to_string(), &vec![], false);
    assert!(matches!(r, Err(ref e) if e == "changelog is empty"));
}

#[test]
fn the_client_version_is_required_and_its_upload_defaults_to_empty() {
    let v = roblox_version_info(Some("0.650".to_string()), Some("version-abc".to_string())).unwrap();
    assert_eq!(v.version, "0.650");
    assert_eq!(v.client_version_upload, "version-abc");
    let v = roblox_version_info(Some("0.650".to_string()), None).unwrap();
    assert_eq!(v.client_version_upload, "");
    assert!(matches!(roblox_version_info(None, Some("x".to_string())), Err(ref e) if e == "missing version"));
}
