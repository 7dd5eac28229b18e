use std::io::Write;

use qwley_launcher::archive::{archive_len, extract_step, write_attempt_step, write_failure, WriteStep};
use qwley_launcher::paths::ArchiveEntry;
use zip::write::SimpleFileOptions;

const OID: &str = "4d7a214614ab2935c943f9e0ff69d22eadbb8f32b1258daaa5e2ca24d17e2393";

fn sample_archive() -> Vec<u8> {
    let mut w = zip::ZipWriter::new(std::io::Cursor::new(Vec::new()));
    let opts = SimpleFileOptions::default().compression_method(zip::CompressionMethod::Stored);
    w.add_directory("QWLEY-SHADE-main/", opts).unwrap();
    w.start_file("QWLEY-SHADE-main/.gitattributes", opts).unwrap();
    w.write_all(b"*.exe filter=lfs\n").unwrap();
    w.add_directory("QWLEY-SHADE-main/shaders/", opts).unwrap();
    w.start_file("QWLEY-SHADE-main/shaders/Bloom.fx", opts).unwrap();
    w.write_all(b"float4 main() {}\n").unwrap();
    w.start_file("QWLEY-SHADE-main/qwleyshade.exe", opts).unwrap();
    let pointer = format!("version https://git-lfs.github.com/spec/v1\noid sha256:{}\nsize 4096\n", OID);
    w.write_all(pointer.as_bytes()).unwrap();
    w.finish().unwrap().into_inner()
}

#[test]
fn an_archive_is_unpacked_entry_by_entry() {
    let bytes = sample_archive();
    assert_eq!(archive_len(&bytes), Ok(5));
    let (e0, d0, p0) = extract_step(&bytes, 0).unwrap();
    assert!(matches!(e0, ArchiveEntry::Skip));
    assert!(d0.is_empty() && p0.is_none());
    let (e1, _, _) = extract_step(&bytes, 1).unwrap();
    assert!(matches!(e1, ArchiveEntry::Skip));
    match extract_step(&bytes, 2).unwrap() {
        (ArchiveEntry::Directory(p), d, None) => {
            assert_eq!(p, "shaders/");
            assert!(d.is_empty());
        }
        _ => panic!("expected a directory"),
    }
    match extract_step(&bytes, 3).unwrap() {
        (ArchiveEntry::File(p), d, None) => {
            assert_eq!(p, "shaders/Bloom.fx");
            assert_eq!(d, b"float4 main() {}\n".to_vec());
        }
        _ => panic!("expected a plain file"),
    }
    match extract_step(&bytes, 4).unwrap() {
        (ArchiveEntry::File(p), _, Some((oid, size))) => {
            assert_eq!(p, "qwleyshade.exe");
            assert_eq!(oid, OID);
            assert_eq!(size, 4096);
        }
        _ => panic!("expected an LFS pointer"),
    }
}

#[test]
fn broken_archives_and_missing_entries_are_errors() {
    let open_error = zip::ZipArchive::new(std::io::Cursor::new(&b"not a zip file"[..])).err().unwrap().to_string();
    assert_eq!(archive_len(b"not a zip file"), Err(open_error.clone()));
    assert!(matches!(extract_step(b"not a zip file", 0), Err(ref e) if *e == open_error));
    let bytes = sample_archive();
    let mut a = zip::ZipArchive::new(std::io::Cursor::new(&bytes[..])).unwrap();
    let index_error = a.by_index(5).err().unwrap().to_string();
    assert!(matches!(extract_step(&bytes, 5), Err(ref e) if *e == index_error));
    assert!(!index_error.is_empty());
}

#[test]
fn writes_are_tried_ten_times() {
    assert!(matches!(write_attempt_step(1, true), WriteStep::Written));
    assert!(matches!(write_attempt_step(10, true), WriteStep::Written));
    assert!(matches!(write_attempt_step(1, false), WriteStep::Retry(200)));
    assert!(matches!(write_attempt_step(9, false), WriteStep::Retry(200)));
    assert!(matches!(write_attempt_step(10, false), WriteStep::GiveUp(200)));
    assert_eq!(write_failure("C:\\x\\a.exe"), "failed to write C:\\x\\a.exe");
}
