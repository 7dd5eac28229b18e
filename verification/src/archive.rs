//! Reading the downloaded repository archive, held in memory, entry by
//! entry: where each entry goes and, for files, their contents and whether
//! they are Git LFS pointers to fetch.
use vstd::prelude::*;
use std::io::Read;
use vstd::utf8::{decode_utf8, valid_utf8};
use crate::lfs::{lfs_pointer, parse_lfs_pointer, utf8_lossy};
use crate::paths::{archive_entry, archive_relative, entry_plan, lemma_entry_name, ArchiveEntry};
use crate::text::ends_with_seq;

verus! {

/// What `zip` reads of an archive: the number of its entries, or the text of
/// the error that rejects it.
pub uninterp spec fn zip_entry_count(archive: Seq<u8>) -> Result<nat, Seq<char>>;

/// The name and folder flag of entry `index`, or the text of the error met
/// opening the archive or that entry.
pub uninterp spec fn zip_entry_at(archive: Seq<u8>, index: int) -> Result<(Seq<char>, bool), Seq<char>>;

/// The decompressed contents of entry `index`, or the text of the error met
/// opening the archive or the entry, or reading it to the end.
pub uninterp spec fn zip_entry_data(archive: Seq<u8>, index: int) -> Result<Seq<u8>, Seq<char>>;

/// The header of one archive entry.
pub struct ZipItem {
    pub name: String,
    pub is_dir: bool,
}

/// `zip::ZipArchive::new` over the bytes, then `len`; an error becomes its
/// `to_string()`. Result and error text are functions of the bytes alone;
/// they are named, not stated.
#[verifier::external_body]
fn zip_len(archive: &[u8]) -> (r: Result<usize, String>)
    ensures
        match zip_entry_count(archive@) {
            Ok(n) => r matches Ok(m) && m == n,
            Err(t) => r matches Err(e) && e@ == t,
        },
{
    match zip::ZipArchive::new(std::io::Cursor::new(archive)) {
        Ok(a) => Ok(a.len()),
        Err(e) => Err(e.to_string()),
    }
}

/// `zip::ZipArchive::new`, `by_index`, then the entry's `name` and
/// `is_dir`; an error becomes its `to_string()`. Result and error text are
/// functions of the bytes and the index alone; they are named, not stated.
#[verifier::external_body]
fn zip_item(archive: &[u8], index: usize) -> (r: Result<ZipItem, String>)
    ensures
        match zip_entry_at(archive@, index as int) {
            Ok((n, d)) => r matches Ok(it) && it.name@ == n && it.is_dir == d,
            Err(t) => r matches Err(e) && e@ == t,
        },
{
    let mut a = match zip::ZipArchive::new(std::io::Cursor::new(archive)) {
        Ok(a) => a,
        Err(e) => return Err(e.to_string()),
    };
    let item = match a.by_index(index) {
        Ok(file) => Ok(ZipItem { name: file.name().to_string(), is_dir: file.is_dir() }),
        Err(e) => Err(e.to_string()),
    };
    item
}

/// `zip::ZipArchive::new`, `by_index`, then `Read::read_to_end` on the
/// entry; an error becomes its `to_string()`. Contents and error text are
/// functions of the bytes and the index alone; they are named, not stated.
#[verifier::external_body]
fn zip_read(archive: &[u8], index: usize) -> (r: Result<Vec<u8>, String>)
    ensures
        match zip_entry_data(archive@, index as int) {
            Ok(b) => r matches Ok(d) && d@ == b,
            Err(t) => r matches Err(e) && e@ == t,
        },
{
    let mut a = match zip::ZipArchive::new(std::io::Cursor::new(archive)) {
        Ok(a) => a,
        Err(e) => return Err(e.to_string()),
    };
    let mut file = match a.by_index(index) {
        Ok(f) => f,
        Err(e) => return Err(e.to_string()),
    };
    let mut buf = Vec::new();
    match file.read_to_end(&mut buf) {
        Ok(_) => Ok(buf),
        Err(e) => Err(e.to_string()),
    }
}

/// The number of entries in the archive; on a rejected archive, the text of
/// `zip`'s error.
pub fn archive_len(archive: &[u8]) -> (r: Result<usize, String>)
    ensures
        match zip_entry_count(archive@) {
            Ok(n) => r matches Ok(m) && m == n,
            Err(t) => r matches Err(e) && e@ == t,
        },
{
    zip_len(archive)
}

/// An entry named `name` is written as a file.
pub open spec fn is_file_entry(name: Seq<char>, is_dir: bool) -> bool {
    let rel = archive_relative(name);
    rel.len() > 0 && rel != ".gitattributes"@ && !(is_dir || ends_with_seq(name, "/"@))
}

/// An entry under the archive's top folder that is not flagged as a folder
/// and whose name does not end in `/` has its contents read and written,
/// `.gitattributes` excepted; one flagged as a folder, or whose name ends in
/// `/`, has not.
pub proof fn plain_entries_are_read(root: Seq<char>, rest: Seq<char>, is_dir: bool)
    requires
        forall|k: int| 0 <= k < root.len() ==> #[trigger] root[k] != '/',
        rest.len() > 0,
        rest != ".gitattributes"@,
    ensures
        is_file_entry(root + seq!['/'] + rest, is_dir) <==> (!is_dir && rest.last() != '/'),
{
    lemma_entry_name(root, rest);
}

/// Whatever its name holds, an entry that is not flagged as a folder and
/// whose name does not end in `/` has its contents read, unless its path
/// below the top folder is empty or `.gitattributes`.
pub proof fn unflagged_entries_are_read(name: Seq<char>)
    requires
        !ends_with_seq(name, "/"@),
        archive_relative(name).len() > 0,
        archive_relative(name) != ".gitattributes"@,
    ensures
        is_file_entry(name, false),
{
}

/// What unpacking does with entry `index`: where it goes (see `entry_plan`);
/// for a file, its contents and the LFS object they point to, if they are a
/// pointer. Reading fails, with the text of `zip`'s error, when the entry's
/// header cannot be read, or, for a file, its contents.
pub fn extract_step(archive: &[u8], index: usize) -> (r: Result<
    (ArchiveEntry, Vec<u8>, Option<(String, u64)>),
    String,
>)
    ensures
        zip_entry_at(archive@, index as int) matches Err(t) ==> (r matches Err(e) && e@ == t),
        zip_entry_at(archive@, index as int) matches Ok((n, dir)) ==> {
            &&& !is_file_entry(n, dir) ==> (r matches Ok((e, d, p)) && entry_plan(n, dir, e) && d@.len() == 0 && p is None)
            &&& is_file_entry(n, dir) ==> (zip_entry_data(archive@, index as int) matches Err(t) ==> (r matches Err(e) && e@ == t))
            &&& is_file_entry(n, dir) ==> (zip_entry_data(archive@, index as int) matches Ok(bytes) ==> (r matches Ok((e, d, p)) && entry_plan(n, dir, e) && d@ == bytes && match lfs_pointer(utf8_lossy(bytes)) {
                Some((o, size)) => p matches Some((x, m)) && x@ == o && m == size,
                None => p is None,
            } && (valid_utf8(bytes) ==> match lfs_pointer(decode_utf8(bytes)) {
                Some((o, size)) => p matches Some((x, m)) && x@ == o && m == size,
                None => p is None,
            })))
        },
{
    let item = match zip_item(archive, index) {
        Ok(it) => it,
        Err(e) => return Err(e),
    };
    let entry = archive_entry(item.name.as_str(), item.is_dir);
    match entry {
        ArchiveEntry::File(rel) => {
            let data = match zip_read(archive, index) {
                Ok(d) => d,
                Err(e) => return Err(e),
            };
            let pointer = parse_lfs_pointer(data.as_slice());
            Ok((ArchiveEntry::File(rel), data, pointer))
        },
        other => Ok((other, Vec::new(), None)),
    }
}

/// How many times writing an unpacked file is tried.
pub const WRITE_ATTEMPTS: u32 = 10;

/// The pause after a failed write, in milliseconds.
pub const WRITE_RETRY_MS: u64 = 200;

/// The next step after one try at writing an unpacked file.
pub enum WriteStep {
    /// The file is written.
    Written,
    /// Wait this many milliseconds, then try again.
    Retry(u64),
    /// Wait this many milliseconds, then report the failure: every failed
    /// try is followed by the pause, the last one too.
    GiveUp(u64),
}

/// The step after try number `attempt` (counted from 1) at writing a file
/// came out as `ok`: done on success, another try after a pause while fewer
/// than `WRITE_ATTEMPTS` tries were made, else failure after the pause.
pub fn write_attempt_step(attempt: u32, ok: bool) -> (r: WriteStep)
    ensures
        ok ==> r is Written,
        !ok && attempt < WRITE_ATTEMPTS ==> r == WriteStep::Retry(WRITE_RETRY_MS),
        !ok && attempt >= WRITE_ATTEMPTS ==> r == WriteStep::GiveUp(WRITE_RETRY_MS),
{
    if ok {
        WriteStep::Written
    } else if attempt < WRITE_ATTEMPTS {
        WriteStep::Retry(WRITE_RETRY_MS)
    } else {
        WriteStep::GiveUp(WRITE_RETRY_MS)
    }
}

/// The error reported when a file could not be written: `failed to write
/// <path>`.
pub fn write_failure(path: &str) -> (r: String)
    ensures
        r@ == "failed to write "@ + path@,
{
    let mut r = "failed to write ".to_owned();
    r.append(path);
    r
}

} // verus!
