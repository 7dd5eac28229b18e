use qwley_launcher::paths::{archive_entry, encode_path, is_reshade_setup, lfs, safe_path, ArchiveEntry};

#[test]
fn safe_path_accepts_plain_relative_paths() {
    assert!(safe_path("qwleyshade.exe"));
    assert!(safe_path("shaders/Bloom.fx"));
    assert!(safe_path("a/b/c.txt"));
}

#[test]
fn safe_path_rejects_empty_hidden_and_parent_segments() {
    assert!(!safe_path(""));
    assert!(!safe_path("/etc/passwd"));
    assert!(!safe_path("a//b"));
    assert!(!safe_path("a/"));
    assert!(!safe_path(".gitattributes"));
    assert!(!safe_path("shaders/.hidden"));
    assert!(!safe_path("../outside"));
    assert!(!safe_path("a/../b"));
    assert!(!safe_path("."));
}

#[test]
fn lfs_matches_binary_extensions_in_any_case() {
    assert!(lfs("qwleyshade.exe"));
    assert!(lfs("bin/Injector.EXE"));
    assert!(lfs("d3d11.dll"));
    assert!(lfs("ReShade.ini"));
    assert!(!lfs("shaders/Bloom.fx"));
    assert!(!lfs("exe"));
    assert!(!lfs("notes.exe.txt"));
}

#[test]
fn encode_path_keeps_slashes_and_escapes_the_rest() {
    assert_eq!(encode_path("shaders/Bloom.fx"), "shaders/Bloom.fx");
    assert_eq!(encode_path("my dir/a+b.txt"), "my%20dir/a%2Bb.txt");
    assert_eq!(encode_path("~a-b_c.d"), "~a-b_c.d");
    assert_eq!(encode_path("%2F"), "%252F");
    assert_eq!(encode_path("é"), "%C3%A9");
    assert_eq!(encode_path(""), "");
}

#[test]
fn archive_entries_are_placed_under_the_install_folder() {
    assert!(matches!(archive_entry("QWLEY-SHADE-main/", true), ArchiveEntry::Skip));
    assert!(matches!(archive_entry("QWLEY-SHADE-main/.gitattributes", false), ArchiveEntry::Skip));
    match archive_entry("QWLEY-SHADE-main/shaders/", true) {
        ArchiveEntry::Directory(p) => assert_eq!(p, "shaders/"),
        _ => panic!("expected a directory"),
    }
    match archive_entry("QWLEY-SHADE-main/shaders/", false) {
        ArchiveEntry::Directory(p) => assert_eq!(p, "shaders/"),
        _ => panic!("expected a directory"),
    }
    match archive_entry("QWLEY-SHADE-main/shaders/Bloom.fx", false) {
        ArchiveEntry::File(p) => assert_eq!(p, "shaders/Bloom.fx"),
        _ => panic!("expected a file"),
    }
    match archive_entry("README.md", false) {
        ArchiveEntry::File(p) => assert_eq!(p, "README.md"),
        _ => panic!("expected a file"),
    }
}

#[test]
fn reshade_setup_is_recognised_by_name_and_extension() {
    assert!(is_reshade_setup("ReShade_Setup_6.1.1.exe"));
    assert!(is_reshade_setup("ReShade_Setup.EXE"));
    assert!(!is_reshade_setup("ReShade_Setup.zip"));
    assert!(!is_reshade_setup("reshade_setup.exe"));
    assert!(!is_reshade_setup("ReShade_Setup"));
    assert!(!is_reshade_setup(".exe"));
    assert!(!is_reshade_setup(".."));
}

#[test]
fn encoded_paths_decode_back() {
    for p in ["shaders/Bloom.fx", "my dir/a+b.txt", "%2F/x", "é/ü😀", "a/b/c"] {
        assert_eq!(urlencoding::decode(&encode_path(p)).unwrap(), p);
    }
}
