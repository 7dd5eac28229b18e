use qwley_launcher::versions::{select_roblox_version, VersionFolder};

fn folder(name: &str, has_player: bool, modified_nanos: i128) -> VersionFolder {
    VersionFolder { name: name.to_string(), has_player, modified_nanos }
}

#[test]
fn the_newest_version_folder_with_the_player_is_chosen() {
    let fs = vec![
        folder("version-old", true, 10),
        folder("version-new", true, 30),
        folder("version-empty", false, 99),
        folder("Downloads", true, 100),
        folder("version-mid", true, 20),
    ];
    assert_eq!(select_roblox_version(&fs), Ok("version-new".to_string()));
}

#[test]
fn ties_go_to_the_first_folder() {
    let fs = vec![folder("version-a", true, 5), folder("version-b", true, 5)];
    assert_eq!(select_roblox_version(&fs), Ok("version-a".to_string()));
}

#[test]
fn times_before_the_epoch_are_older() {
    let fs = vec![folder("version-a", true, -5), folder("version-b", true, 0), folder("version-c", true, -1)];
    assert_eq!(select_roblox_version(&fs), Ok("version-b".to_string()));
}

#[test]
fn no_candidate_is_an_error() {
    let msg = "No Roblox version folder found with RobloxPlayerBeta.exe".to_string();
    assert_eq!(select_roblox_version(&vec![]), Err(msg.clone()));
    let fs = vec![folder("version-a", false, 5), folder("Version-b", true, 5)];
    assert_eq!(select_roblox_version(&fs), Err(msg));
}
