use std::collections::BTreeMap;

use qwley_launcher::update::{
    count_change, download_url, plan_file, select_remote_files, stale_paths, stale_step, update_summary,
    FileAction, TreeItem,
};

fn item(path: &str, item_type: &str, sha: &str) -> TreeItem {
    TreeItem { path: path.to_string(), item_type: item_type.to_string(), sha: sha.to_string() }
}

#[test]
fn only_files_with_safe_paths_are_synchronised() {
    let tree = vec![
        item("shaders", "tree", "1"),
        item("shaders/Bloom.fx", "blob", "2"),
        item(".gitattributes", "blob", "3"),
        item("qwleyshade.exe", "blob", "4"),
        item("a/../b", "blob", "5"),
    ];
    let kept = select_remote_files(&tree);
    let paths: Vec<&str> = kept.iter().map(|i| i.path.as_str()).collect();
    assert_eq!(paths, vec!["shaders/Bloom.fx", "qwleyshade.exe"]);
    assert_eq!(kept[1].sha, "4");
}

#[test]
fn download_urls_pick_the_host_by_lfs() {
    assert_eq!(
        download_url("qwleyshade.exe"),
        "https://media.githubusercontent.com/media/daniil179828/QWLEY-SHADE/main/qwleyshade.exe"
    );
    assert_eq!(
        download_url("shaders/My Bloom.fx"),
        "https://raw.githubusercontent.com/daniil179828/QWLEY-SHADE/main/shaders/My%20Bloom.fx"
    );
}

#[test]
fn files_are_fetched_unless_up_to_date_or_running() {
    let it = item("shaders/Bloom.fx", "blob", "abc");
    let same = "abc".to_string();
    let other = "old".to_string();
    assert!(matches!(plan_file(&it, Some(&same), true, false), FileAction::UpToDate));
    assert!(matches!(plan_file(&it, Some(&same), true, true), FileAction::UpToDate));
    assert!(matches!(plan_file(&it, Some(&same), false, true), FileAction::Running));
    match plan_file(&it, Some(&other), true, false) {
        FileAction::Download(u) => {
            assert_eq!(u, "https://raw.githubusercontent.com/daniil179828/QWLEY-SHADE/main/shaders/Bloom.fx")
        }
        _ => panic!("expected a download"),
    }
    assert!(matches!(plan_file(&it, None, true, false), FileAction::Download(_)));
    assert!(matches!(plan_file(&it, Some(&same), false, false), FileAction::Download(_)));
}

#[test]
fn removed_files_are_deleted_when_safe() {
    let recorded = vec![
        "kept.txt".to_string(),
        "gone.txt".to_string(),
        "../evil".to_string(),
        "old/dir/file.bin".to_string(),
    ];
    let remote = vec![item("kept.txt", "blob", "1")];
    assert_eq!(stale_paths(&recorded, &remote), vec!["gone.txt".to_string(), "old/dir/file.bin".to_string()]);
    assert_eq!(stale_paths(&vec![], &remote), Vec::<String>::new());
}

#[test]
fn the_summary_says_whether_anything_changed() {
    assert_eq!(update_summary(0), "[OK] QWLEY SHADE is up to date.");
    assert_eq!(update_summary(3), "[OK] QWLEY SHADE files are ready.");
}

#[test]
fn changes_are_counted_per_action() {
    assert_eq!(count_change(3, &FileAction::UpToDate), 3);
    assert_eq!(count_change(3, &FileAction::Running), 4);
    assert_eq!(count_change(0, &FileAction::Download("u".to_string())), 1);
    assert_eq!(count_change(u32::MAX, &FileAction::Running), u32::MAX);
    assert_eq!(stale_step(2, false, true), (true, 3));
    assert_eq!(stale_step(2, true, true), (false, 2));
    assert_eq!(stale_step(2, false, false), (false, 2));
}

#[test]
fn a_second_synchronisation_changes_nothing() {
    let tree = vec![item("a.txt", "blob", "1"), item("bin/b.exe", "blob", "2"), item("bin", "tree", "3")];
    let remote = select_remote_files(&tree);
    let manifest: BTreeMap<String, String> = remote.iter().map(|x| (x.path.clone(), x.sha.clone())).collect();
    let mut changed = 0u32;
    for it in &remote {
        let action = plan_file(it, manifest.get(&it.path), true, false);
        assert!(matches!(action, FileAction::UpToDate));
        changed = count_change(changed, &action);
    }
    let recorded: Vec<String> = manifest.keys().cloned().collect();
    assert!(stale_paths(&recorded, &remote).is_empty());
    assert_eq!(update_summary(changed), "[OK] QWLEY SHADE is up to date.");
}
