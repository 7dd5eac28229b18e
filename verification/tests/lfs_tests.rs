use qwley_launcher::lfs::{
    lfs_download_href, LfsActions, LfsBatchReply, LfsLink, LfsObjectReply, lfs_resolve_error, parse_lfs_pointer, parse_lfs_pointer_text};

const OID: &str = "4d7a214614ab2935c943f9e0ff69d22eadbb8f32b1258daaa5e2ca24d17e2393";

fn pointer(oid: &str, size: u64) -> String {
    format!("version https://git-lfs.github.com/spec/v1\noid sha256:{}\nsize {}\n", oid, size)
}

#[test]
fn a_written_pointer_reads_back() {
    let text = pointer(OID, 12345);
    assert_eq!(parse_lfs_pointer(text.as_bytes()), Some((OID.to_string(), 12345)));
    assert_eq!(parse_lfs_pointer_text(&pointer("", 0)), Some((String::new(), 0)));
    assert_eq!(parse_lfs_pointer_text(&pointer(OID, u64::MAX)), Some((OID.to_string(), u64::MAX)));
}

#[test]
fn pointer_lines_may_end_in_crlf_and_carry_spaces() {
    let text = format!("version https://git-lfs.github.com/spec/v1\r\noid sha256:  {} \r\nsize +77\r\n", OID);
    assert_eq!(parse_lfs_pointer_text(&text), Some((OID.to_string(), 77)));
}

#[test]
fn the_last_line_of_each_kind_counts() {
    let text = "version https://git-lfs.github.com/spec/v1\nsize 1\noid sha256:aa\noid sha256:bb\nsize 2";
    assert_eq!(parse_lfs_pointer_text(text), Some(("bb".to_string(), 2)));
    let spoiled = "version https://git-lfs.github.com/spec/v1\noid sha256:aa\nsize 2\nsize x\n";
    assert_eq!(parse_lfs_pointer_text(spoiled), None);
}

#[test]
fn other_texts_are_no_pointers() {
    assert_eq!(parse_lfs_pointer(b""), None);
    assert_eq!(parse_lfs_pointer(b"MZ\x90\x00\x03"), None);
    assert_eq!(parse_lfs_pointer_text("version https://git-lfs.github.com/spec/v1\noid sha256:aa\n"), None);
    assert_eq!(parse_lfs_pointer_text("version https://git-lfs.github.com/spec/v1\nsize 5\n"), None);
    assert_eq!(parse_lfs_pointer_text(" version https://git-lfs.github.com/spec/v1\noid sha256:aa\nsize 5\n"), None);
    assert_eq!(parse_lfs_pointer_text("version https://git-lfs.github.com/spec/v1\noid sha256:aa\nsize 18446744073709551616\n"), None);
    assert_eq!(parse_lfs_pointer_text("version https://git-lfs.github.com/spec/v1\noid sha256:aa\nsize -1\n"), None);
}

#[test]
fn invalid_utf8_is_read_lossily() {
    let mut bytes = pointer(OID, 9).into_bytes();
    bytes.extend_from_slice(b"junk \xff\xfe\n");
    assert_eq!(parse_lfs_pointer(&bytes), Some((OID.to_string(), 9)));
}

fn reply(href: Option<&str>) -> LfsBatchReply {
    LfsBatchReply {
        objects: vec![LfsObjectReply {
            actions: Some(LfsActions { download: Some(LfsLink { href: href.map(|h| h.to_string()) }) }),
        }],
    }
}

#[test]
fn lfs_href_is_required() {
    let missing = Err("lfs: no download url in response".to_string());
    assert_eq!(lfs_download_href(&reply(Some("https://x/y"))), Ok("https://x/y".to_string()));
    assert_eq!(lfs_download_href(&reply(None)), missing.clone());
    assert_eq!(lfs_download_href(&LfsBatchReply { objects: vec![] }), missing.clone());
    assert_eq!(lfs_download_href(&LfsBatchReply { objects: vec![LfsObjectReply { actions: None }] }), missing.clone());
    let no_download = LfsObjectReply { actions: Some(LfsActions { download: None }) };
    assert_eq!(lfs_download_href(&LfsBatchReply { objects: vec![no_download] }), missing);
}

#[test]
fn resolve_errors_name_the_file() {
    assert_eq!(lfs_resolve_error("bin/a.exe", "timeout"), "lfs resolve failed for bin/a.exe: timeout");
}
