//! Rules on the relative paths of synchronised and installed files: which
//! paths are safe to write under the install folder, which are stored in Git
//! LFS, how a path is written into a download URL, and how archive entries
//! and setup programs are recognised.
use vstd::prelude::*;
use vstd::utf8::encode_utf8;
use crate::text::{
    chars_of, contains, contains_seq, lemma_piece_end_at, match_at, string_of, sub_chars, ends_with, ends_with_seq, lemma_piece_end, lower_chars, lower_seq, matches_at,
    next_piece_end, piece_end, pieces_from, replace, replace_seq, split_seq,
};

verus! {

// ---------------------------------------------------------------------------
// Safe relative paths
// ---------------------------------------------------------------------------

/// A path segment that may be written: not empty, not hidden, not `..`.
pub open spec fn segment_ok(seg: Seq<char>) -> bool {
    seg.len() > 0 && seg[0] != '.' && seg != seq!['.', '.']
}

/// A non-empty `/`-separated path whose segments are all acceptable.
pub open spec fn is_safe_path(p: Seq<char>) -> bool {
    &&& p.len() > 0
    &&& forall|k: int| 0 <= k < split_seq(p, '/').len() ==> segment_ok(#[trigger] split_seq(p, '/')[k])
}

/// Whether `path` is a safe relative path: non-empty, and every segment
/// between `/` separators is non-empty and does not start with `.`.
pub fn safe_path(path: &str) -> (r: bool)
    ensures
        r == is_safe_path(path@),
{
    let s = chars_of(path);
    if s.len() == 0 {
        return false;
    }
    let ghost all = split_seq(s@, '/');
    let ghost mut done: Seq<Seq<char>> = seq![];
    let mut i: usize = 0;
    loop
        invariant
            i <= s.len(),
            s@ == path@,
            s@.len() > 0,
            all == split_seq(s@, '/'),
            all == done + pieces_from(s@, '/', i as int),
            forall|k: int| 0 <= k < done.len() ==> segment_ok(#[trigger] done[k]),
        decreases s.len() - i,
    {
        let e = next_piece_end(&s, '/', i);
        proof {
            lemma_piece_end(s@, '/', i as int);
        }
        let ghost seg = s@.subrange(i as int, e as int);
        let ghost rest = pieces_from(s@, '/', e + 1);
        assert(pieces_from(s@, '/', i as int) == seq![seg] + rest);
        let ok = e > i && s[i] != '.' && !(e - i == 2 && s[i] == '.' && s[i + 1] == '.');
        assert(ok == segment_ok(seg)) by {
            if e - i == 2 {
                assert(seg =~= seq![s@[i as int], s@[i + 1]]);
            }
            if seg =~= seq!['.', '.'] {
                assert(seg[0] == '.');
            }
        }
        if !ok {
            assert(all[done.len() as int] == seg) by {
                assert((done + (seq![seg] + rest))[done.len() as int] == seg);
                assert(done + (seq![seg] + rest) =~= all);
            }
            return false;
        }
        proof {
            assert(done + (seq![seg] + rest) =~= (done.push(seg)) + rest);
            done = done.push(seg);
        }
        if e == s.len() {
            assert(rest =~= Seq::<Seq<char>>::empty());
            assert(all =~= done);
            return true;
        }
        i = e + 1;
    }
}

/// A safe path never climbs out of the folder it is joined to: it is not
/// absolute, and none of its segments is `.`, `..` or empty.
pub proof fn safe_path_stays_inside(p: Seq<char>)
    requires
        is_safe_path(p),
    ensures
        p[0] != '/',
        forall|k: int|
            0 <= k < split_seq(p, '/').len() ==> {
                let seg = #[trigger] split_seq(p, '/')[k];
                &&& seg.len() > 0
                &&& seg != seq!['.']
                &&& seg != seq!['.', '.']
            },
{
    lemma_piece_end(p, '/', 0);
    let first = split_seq(p, '/')[0];
    assert(first == p.subrange(0, piece_end(p, '/', 0)));
    assert(segment_ok(first));
    assert forall|k: int| 0 <= k < split_seq(p, '/').len() implies {
        let seg = #[trigger] split_seq(p, '/')[k];
        &&& seg.len() > 0
        &&& seg != seq!['.']
        &&& seg != seq!['.', '.']
    } by {
        let seg = split_seq(p, '/')[k];
        assert(segment_ok(seg));
        if seg =~= seq!['.'] {
            assert(seg[0] == '.');
        }
    }
}

/// Position `k` of `p` begins a segment: it is the start, or follows a `/`.
pub open spec fn begins_segment(p: Seq<char>, k: int) -> bool {
    k == 0 || (0 < k <= p.len() && p[k - 1] == '/')
}

proof fn lemma_segments_from(p: Seq<char>, i: int)
    requires
        0 <= i <= p.len(),
        begins_segment(p, i),
    ensures
        (forall|j: int| 0 <= j < pieces_from(p, '/', i).len() ==> segment_ok(#[trigger] pieces_from(p, '/', i)[j]))
            <==> (forall|k: int| i <= k <= p.len() && #[trigger] begins_segment(p, k) ==> k < p.len() && p[k] != '/' && p[k] != '.'),
    decreases p.len() - i,
{
    lemma_piece_end(p, '/', i);
    let e = piece_end(p, '/', i);
    let seg = p.subrange(i, e);
    let rest = pieces_from(p, '/', e + 1);
    let ps = pieces_from(p, '/', i);
    assert(ps == seq![seg] + rest);
    let here = i < p.len() && p[i] != '/' && p[i] != '.';
    assert(segment_ok(seg) == here) by {
        if e > i {
            assert(seg[0] == p[i]);
            if seg =~= seq!['.', '.'] {
                assert(seg[0] == '.');
            }
        }
    }
    assert forall|k: int| i < k <= e && k <= p.len() implies !#[trigger] begins_segment(p, k) by {
        assert(p[k - 1] != '/');
    }
    let all_ps = forall|j: int| 0 <= j < ps.len() ==> segment_ok(#[trigger] ps[j]);
    let all_rest = forall|j: int| 0 <= j < rest.len() ==> segment_ok(#[trigger] rest[j]);
    assert(all_ps == (segment_ok(seg) && all_rest)) by {
        if all_ps {
            assert(ps[0] == seg);
            assert forall|j: int| 0 <= j < rest.len() implies segment_ok(#[trigger] rest[j]) by {
                assert(ps[j + 1] == rest[j]);
            }
        }
        if segment_ok(seg) && all_rest {
            assert forall|j: int| 0 <= j < ps.len() implies segment_ok(#[trigger] ps[j]) by {
                if j > 0 {
                    assert(ps[j] == rest[j - 1]);
                }
            }
        }
    }
    let chars_i = forall|k: int| i <= k <= p.len() && #[trigger] begins_segment(p, k) ==> k < p.len() && p[k] != '/' && p[k] != '.';
    if e < p.len() {
        assert(begins_segment(p, e + 1));
        lemma_segments_from(p, e + 1);
        let chars_e = forall|k: int| e + 1 <= k <= p.len() && #[trigger] begins_segment(p, k) ==> k < p.len() && p[k] != '/' && p[k] != '.';
        assert(chars_i == (here && chars_e)) by {
            if chars_i {
                assert(begins_segment(p, i));
            }
        }
    } else {
        assert(rest =~= Seq::<Seq<char>>::empty());
        assert(chars_i == here) by {
            if chars_i {
                assert(begins_segment(p, i));
            }
        }
    }
}

/// Which paths are safe, character by character: exactly those where every
/// segment start (the first character, and each character after a `/`)
/// exists and is neither `/` nor `.`. So a path is safe whenever its
/// segments are non-empty and none starts with `.`, whatever else they hold.
pub proof fn safe_path_by_characters(p: Seq<char>)
    ensures
        is_safe_path(p) <==> (forall|k: int| 0 <= k <= p.len() && #[trigger] begins_segment(p, k) ==> k < p.len() && p[k] != '/' && p[k] != '.'),
{
    lemma_segments_from(p, 0);
    assert(begins_segment(p, 0));
}

// ---------------------------------------------------------------------------
// Files stored in Git LFS
// ---------------------------------------------------------------------------

/// Executables, libraries and settings files are stored in Git LFS.
pub open spec fn is_lfs_path(p: Seq<char>) -> bool {
    let l = lower_seq(p);
    ends_with_seq(l, ".exe"@) || ends_with_seq(l, ".dll"@) || ends_with_seq(l, ".ini"@)
}

/// Whether `path` names a file kept in Git LFS: its name ends in `.exe`,
/// `.dll` or `.ini`, in any letter case.
pub fn lfs(path: &str) -> (r: bool)
    ensures
        r == is_lfs_path(path@),
{
    let lower = lower_chars(&chars_of(path));
    ends_with(&lower, &chars_of(".exe")) || ends_with(&lower, &chars_of(".dll")) || ends_with(
        &lower,
        &chars_of(".ini"),
    )
}

// ---------------------------------------------------------------------------
// Percent-encoding of paths
// ---------------------------------------------------------------------------

/// Bytes left as they are by percent-encoding: ASCII letters and digits and
/// `-`, `.`, `_`, `~`.
pub open spec fn is_unreserved(b: u8) -> bool {
    ||| (48 <= b && b <= 57)
    ||| (65 <= b && b <= 90)
    ||| (97 <= b && b <= 122)
    ||| b == 45
    ||| b == 46
    ||| b == 95
    ||| b == 126
}

/// An upper-case hexadecimal digit for `d < 16`.
pub open spec fn hex_upper(d: u8) -> char {
    if d < 10 {
        ((48 + d) as u32) as char
    } else {
        ((55 + d) as u32) as char
    }
}

/// One byte percent-encoded: itself if unreserved, else `%XY`.
pub open spec fn encode_byte(b: u8) -> Seq<char> {
    if is_unreserved(b) {
        seq![(b as u32) as char]
    } else {
        seq!['%', hex_upper(b / 16), hex_upper(b % 16)]
    }
}

/// Percent-encoding of a byte string, byte by byte.
pub open spec fn url_encode_bytes(bs: Seq<u8>) -> Seq<char>
    decreases bs.len(),
{
    if bs.len() == 0 {
        seq![]
    } else {
        encode_byte(bs[0]) + url_encode_bytes(bs.drop_first())
    }
}

/// Percent-encoding that leaves the separator `/` (byte 47) as it is.
pub open spec fn path_encode_bytes(bs: Seq<u8>) -> Seq<char>
    decreases bs.len(),
{
    if bs.len() == 0 {
        seq![]
    } else {
        (if bs[0] == 47 {
            seq!['/']
        } else {
            encode_byte(bs[0])
        }) + path_encode_bytes(bs.drop_first())
    }
}

/// `urlencoding::encode`: percent-encodes every byte of the UTF-8 form of
/// `data` except ASCII letters, digits and `-`, `.`, `_`, `~`, writing
/// upper-case hexadecimal digits. The contract states exactly that.
#[verifier::external_body]
fn url_encode(data: &str) -> (r: String)
    ensures
        r@ == url_encode_bytes(encode_utf8(data@)),
{
    urlencoding::encode(data).into_owned()
}

/// Undoing the escape of `/` in a percent-encoded byte string gives the
/// encoding that keeps `/`: `%2F` occurs in an encoding only where it stands
/// for `/`.
pub proof fn lemma_unescape_slashes(bs: Seq<u8>)
    ensures
        replace_seq(url_encode_bytes(bs), seq!['%', '2', 'F'], seq!['/']) == path_encode_bytes(bs),
    decreases bs.len(),
{
    let pat = seq!['%', '2', 'F'];
    let to = seq!['/'];
    if bs.len() > 0 {
        lemma_unescape_slashes(bs.drop_first());
        let b = bs[0];
        let rest = url_encode_bytes(bs.drop_first());
        let s = url_encode_bytes(bs);
        assert(s == encode_byte(b) + rest);
        if is_unreserved(b) {
            assert(s[0] == (b as u32) as char);
            assert(s[0] != '%');
            assert(!matches_at(s, pat, 0)) by {
                if matches_at(s, pat, 0) {
                    assert(s.subrange(0, 3)[0] == pat[0]);
                }
            }
            assert(s.drop_first() =~= rest);
        } else {
            let hi = hex_upper(b / 16);
            let lo = hex_upper(b % 16);
            assert(s.subrange(0, 3) =~= seq!['%', hi, lo]);
            if b == 47 {
                assert(hi == '2' && lo == 'F');
                assert(matches_at(s, pat, 0));
                assert(s.skip(3) =~= rest);
            } else {
                assert(hi != '2' || lo != 'F') by {
                    if hi == '2' && lo == 'F' {
                        assert(b / 16 == 2 && b % 16 == 15);
                    }
                }
                assert(!matches_at(s, pat, 0)) by {
                    if matches_at(s, pat, 0) {
                        assert(s.subrange(0, 3)[1] == pat[1]);
                        assert(s.subrange(0, 3)[2] == pat[2]);
                    }
                }
                let s1 = s.drop_first();
                assert(s1 =~= seq![hi, lo] + rest);
                assert(!matches_at(s1, pat, 0)) by {
                    if matches_at(s1, pat, 0) {
                        assert(s1.subrange(0, 3)[0] == pat[0]);
                    }
                }
                let s2 = s1.drop_first();
                assert(s2 =~= seq![lo] + rest);
                assert(!matches_at(s2, pat, 0)) by {
                    if matches_at(s2, pat, 0) {
                        assert(s2.subrange(0, 3)[0] == pat[0]);
                    }
                }
                assert(s2.drop_first() =~= rest);
                assert(replace_seq(s2, pat, to) == seq![lo] + replace_seq(rest, pat, to));
                assert(replace_seq(s1, pat, to) == seq![hi] + replace_seq(s2, pat, to));
                assert(replace_seq(s, pat, to) == seq!['%'] + replace_seq(s1, pat, to));
                assert(seq!['%'] + (seq![hi] + (seq![lo] + replace_seq(rest, pat, to)))
                    =~= encode_byte(b) + replace_seq(rest, pat, to));
            }
        }
    }
}

/// The value of a hexadecimal digit of either case.
pub open spec fn hex_value(c: char) -> Option<u8> {
    if '0' <= c && c <= '9' {
        Some(((c as u32) - 48) as u8)
    } else if 'A' <= c && c <= 'F' {
        Some(((c as u32) - 55) as u8)
    } else if 'a' <= c && c <= 'f' {
        Some(((c as u32) - 87) as u8)
    } else {
        None
    }
}

/// Percent-decoding of ASCII text into bytes, as `urlencoding::decode_binary`
/// does it: `%` with two hexadecimal digits is that byte; any other
/// character is its own byte.
pub open spec fn percent_decode(s: Seq<char>) -> Seq<u8>
    decreases s.len(),
{
    if s.len() == 0 {
        seq![]
    } else if s[0] == '%' && s.len() >= 3 && hex_value(s[1]) is Some && hex_value(s[2]) is Some {
        seq![(hex_value(s[1]).unwrap() * 16 + hex_value(s[2]).unwrap()) as u8] + percent_decode(s.skip(3))
    } else {
        seq![((s[0] as u32) as u8)] + percent_decode(s.drop_first())
    }
}

/// Encoding a path is undone by percent-decoding: decoding `encode_path`'s
/// result gives back the UTF-8 bytes of the path, so every path is read
/// back as itself.
pub proof fn path_encoding_decodes_back(bs: Seq<u8>)
    ensures
        percent_decode(path_encode_bytes(bs)) == bs,
    decreases bs.len(),
{
    if bs.len() > 0 {
        path_encoding_decodes_back(bs.drop_first());
        let b = bs[0];
        let rest = path_encode_bytes(bs.drop_first());
        let s = path_encode_bytes(bs);
        if b == 47 {
            assert(s =~= seq!['/'] + rest);
            assert(s.drop_first() =~= rest);
            assert(((s[0] as u32) as u8) == 47);
        } else if is_unreserved(b) {
            assert(s =~= seq![(b as u32) as char] + rest);
            assert(s.drop_first() =~= rest);
            assert((((b as u32) as char) as u32) == b as u32);
            assert(s[0] != '%');
        } else {
            let hi = hex_upper(b / 16);
            let lo = hex_upper(b % 16);
            assert(s =~= seq!['%', hi, lo] + rest);
            assert(s.skip(3) =~= rest);
            assert(hex_value(hi) == Some(b / 16));
            assert(hex_value(lo) == Some(b % 16));
            assert((b / 16) * 16 + b % 16 == b);
        }
        assert(percent_decode(s) =~= seq![b] + percent_decode(rest));
        assert(bs =~= seq![b] + bs.drop_first());
    }
}

/// Percent-encodes `path` for a download URL and keeps its `/` separators:
/// the encoding of `urlencoding::encode` with every `%2F` turned back into
/// `/`, which is the encoding that leaves `/` alone; percent-decoding it
/// gives back the UTF-8 bytes of `path`.
pub fn encode_path(path: &str) -> (r: String)
    ensures
        r@ == replace_seq(url_encode_bytes(encode_utf8(path@)), "%2F"@, "/"@),
        r@ == path_encode_bytes(encode_utf8(path@)),
        percent_decode(r@) == encode_utf8(path@),
{
    let encoded = url_encode(path);
    let pat = chars_of("%2F");
    proof {
        reveal_strlit("%2F");
    }
    let r = replace(&chars_of(encoded.as_str()), &pat, &chars_of("/"));
    proof {
        reveal_strlit("/");
        assert("%2F"@ =~= seq!['%', '2', 'F']);
        assert("/"@ =~= seq!['/']);
        lemma_unescape_slashes(encode_utf8(path@));
        path_encoding_decodes_back(encode_utf8(path@));
    }
    r
}

// ---------------------------------------------------------------------------
// Archive entries and setup programs
// ---------------------------------------------------------------------------

/// An archive entry's name without its first component (the archive's
/// top-level folder): what follows the first `/`, or the whole name.
pub open spec fn archive_relative(name: Seq<char>) -> Seq<char> {
    let e = piece_end(name, '/', 0);
    if e < name.len() {
        name.skip(e + 1)
    } else {
        name
    }
}

/// What installing does with one archive entry.
pub enum ArchiveEntry {
    /// Nothing: the archive root itself, or `.gitattributes`.
    Skip,
    /// Create this folder under the install folder.
    Directory(String),
    /// Write the entry's contents to this file under the install folder.
    File(String),
}

/// What happens to an entry named `name`, a folder when `is_dir`.
pub open spec fn entry_plan(name: Seq<char>, is_dir: bool, r: ArchiveEntry) -> bool {
    let rel = archive_relative(name);
    if rel.len() == 0 || rel == ".gitattributes"@ {
        r is Skip
    } else if is_dir || ends_with_seq(name, "/"@) {
        r matches ArchiveEntry::Directory(p) && p@ == rel
    } else {
        r matches ArchiveEntry::File(p) && p@ == rel
    }
}

/// Decides what installing does with the archive entry `name`: entries are
/// placed relative to the archive's top folder; that folder itself and
/// `.gitattributes` are skipped; folders (flagged, or named with a final
/// `/`) are created; anything else is written as a file.
pub fn archive_entry(name: &str, is_dir: bool) -> (r: ArchiveEntry)
    ensures
        entry_plan(name@, is_dir, r),
{
    let s = chars_of(name);
    let e = next_piece_end(&s, '/', 0);
    proof {
        lemma_piece_end(s@, '/', 0);
    }
    let rel = if e < s.len() {
        sub_chars(&s, e + 1, s.len())
    } else {
        sub_chars(&s, 0, s.len())
    };
    assert(rel@ == archive_relative(name@));
    let attrs = chars_of(".gitattributes");
    let is_attrs = rel.len() == attrs.len() && match_at(&rel, &attrs, 0);
    assert(is_attrs == (rel@ == ".gitattributes"@)) by {
        if rel@.len() == attrs@.len() && matches_at(rel@, attrs@, 0) {
            assert(rel@ =~= rel@.subrange(0, attrs@.len() as int));
        }
        if rel@ == attrs@ {
            assert(rel@.subrange(0, attrs@.len() as int) =~= rel@);
        }
    }
    if rel.len() == 0 || is_attrs {
        return ArchiveEntry::Skip;
    }
    let path = string_of(&rel, 0, rel.len());
    assert(rel@.subrange(0, rel@.len() as int) =~= rel@);
    if is_dir || ends_with(&s, &chars_of("/")) {
        ArchiveEntry::Directory(path)
    } else {
        ArchiveEntry::File(path)
    }
}

pub(crate) proof fn lemma_entry_name(root: Seq<char>, rest: Seq<char>)
    requires
        forall|k: int| 0 <= k < root.len() ==> #[trigger] root[k] != '/',
        rest.len() > 0,
    ensures
        archive_relative(root + seq!['/'] + rest) == rest,
        ends_with_seq(root + seq!['/'] + rest, "/"@) <==> rest.last() == '/',
{
    let name = root + seq!['/'] + rest;
    assert forall|k: int| 0 <= k < root.len() implies #[trigger] name[k] != '/' by {
        assert(name[k] == root[k]);
    }
    assert(name[root.len() as int] == '/');
    lemma_piece_end_at(name, '/', 0, root.len() as int);
    assert(name.skip(root.len() as int + 1) =~= rest);
    reveal_strlit("/");
    assert("/"@ =~= seq!['/']);
    assert(name.subrange(name.len() - 1, name.len() as int) =~= seq![name.last()]);
    assert(name.last() == rest.last());
    if ends_with_seq(name, "/"@) {
        assert(seq![name.last()][0] == '/');
    }
}

proof fn lemma_top_level_name(name: Seq<char>)
    requires
        forall|k: int| 0 <= k < name.len() ==> #[trigger] name[k] != '/',
        name.len() > 0,
    ensures
        archive_relative(name) == name,
        !ends_with_seq(name, "/"@),
{
    lemma_piece_end_at(name, '/', 0, name.len() as int);
    reveal_strlit("/");
    assert("/"@ =~= seq!['/']);
    assert(name.subrange(name.len() - 1, name.len() as int) =~= seq![name.last()]);
    assert(name[name.len() - 1] != '/');
    if ends_with_seq(name, "/"@) {
        assert(seq![name.last()][0] == '/');
    }
}

/// An entry under the archive's top folder that is not flagged as a folder
/// and whose name does not end in `/` is written as a file, at its path
/// below the top folder.
pub proof fn plain_entries_are_files(root: Seq<char>, rest: Seq<char>, r: ArchiveEntry)
    requires
        forall|k: int| 0 <= k < root.len() ==> #[trigger] root[k] != '/',
        rest.len() > 0,
        rest.last() != '/',
        rest != ".gitattributes"@,
        entry_plan(root + seq!['/'] + rest, false, r),
    ensures
        r matches ArchiveEntry::File(p) && p@ == rest,
{
    lemma_entry_name(root, rest);
}

/// Whatever its name holds (a dot or none), an entry that is not flagged as
/// a folder and whose name does not end in `/` is written as a file at its
/// path below the top folder, unless that path is empty or `.gitattributes`.
pub proof fn unflagged_entries_are_files(name: Seq<char>, r: ArchiveEntry)
    requires
        !ends_with_seq(name, "/"@),
        archive_relative(name).len() > 0,
        archive_relative(name) != ".gitattributes"@,
        entry_plan(name, false, r),
    ensures
        r matches ArchiveEntry::File(p) && p@ == archive_relative(name),
{
}

/// An entry under the archive's top folder that is flagged as a folder, or
/// whose name ends in `/`, is created as a folder at its path below the top
/// folder.
pub proof fn folder_entries_are_folders(root: Seq<char>, rest: Seq<char>, is_dir: bool, r: ArchiveEntry)
    requires
        forall|k: int| 0 <= k < root.len() ==> #[trigger] root[k] != '/',
        rest.len() > 0,
        is_dir || rest.last() == '/',
        rest != ".gitattributes"@,
        entry_plan(root + seq!['/'] + rest, is_dir, r),
    ensures
        r matches ArchiveEntry::Directory(p) && p@ == rest,
{
    lemma_entry_name(root, rest);
}

/// An entry with no `/` in its name and not flagged as a folder is written
/// as a file under that name.
pub proof fn top_level_entries_are_files(name: Seq<char>, r: ArchiveEntry)
    requires
        forall|k: int| 0 <= k < name.len() ==> #[trigger] name[k] != '/',
        name.len() > 0,
        name != ".gitattributes"@,
        entry_plan(name, false, r),
    ensures
        r matches ArchiveEntry::File(p) && p@ == name,
{
    lemma_top_level_name(name);
}

/// The archive's top folder itself, and `.gitattributes` anywhere below it,
/// are skipped.
pub proof fn root_and_attributes_are_skipped(root: Seq<char>, is_dir: bool, r: ArchiveEntry)
    requires
        forall|k: int| 0 <= k < root.len() ==> #[trigger] root[k] != '/',
        entry_plan(root + seq!['/'], is_dir, r) || entry_plan(root + seq!['/'] + ".gitattributes"@, is_dir, r),
    ensures
        r is Skip,
{
    let name = root + seq!['/'];
    assert forall|k: int| 0 <= k < root.len() implies #[trigger] name[k] != '/' by {
        assert(name[k] == root[k]);
    }
    lemma_piece_end_at(name, '/', 0, root.len() as int);
    assert(name.skip(root.len() as int + 1) =~= Seq::<char>::empty());
    reveal_strlit(".gitattributes");
    lemma_entry_name(root, ".gitattributes"@);
}

/// The last position before `j` that holds `c`.
pub open spec fn rfind_char(s: Seq<char>, c: char, j: int) -> Option<int>
    decreases j,
{
    if j <= 0 {
        None
    } else if s[j - 1] == c {
        Some(j - 1)
    } else {
        rfind_char(s, c, j - 1)
    }
}

/// `Path::extension` of a file name: what follows its last `.`, unless the
/// name has no `.`, starts with its only `.`, or is `..`.
pub open spec fn file_extension(name: Seq<char>) -> Option<Seq<char>> {
    if name == seq!['.', '.'] {
        None
    } else {
        match rfind_char(name, '.', name.len() as int) {
            Some(k) => if k == 0 {
                None
            } else {
                Some(name.skip(k + 1))
            },
            None => None,
        }
    }
}

/// The ReShade installer: a file name with the extension `exe` in any letter
/// case that contains `ReShade_Setup`.
pub open spec fn is_setup_program(name: Seq<char>) -> bool {
    &&& file_extension(name) matches Some(ext) && lower_seq(ext) == "exe"@
    &&& contains_seq(name, "ReShade_Setup"@)
}

/// Whether the file called `file_name` is the ReShade setup program that an
/// installation may start.
pub fn is_reshade_setup(file_name: &str) -> (r: bool)
    ensures
        r == is_setup_program(file_name@),
{
    let s = chars_of(file_name);
    if s.len() == 2 && s[0] == '.' && s[1] == '.' {
        assert(s@ =~= seq!['.', '.']);
        return false;
    }
    assert(s@ != seq!['.', '.']) by {
        if s@ =~= seq!['.', '.'] {
            assert(s@.len() == 2 && s@[0] == '.' && s@[1] == '.');
        }
    }
    let mut j = s.len();
    while j > 0 && s[j - 1] != '.'
        invariant
            j <= s.len(),
            rfind_char(s@, '.', s@.len() as int) == rfind_char(s@, '.', j as int),
        decreases j,
    {
        j = j - 1;
    }
    if j <= 1 {
        return false;
    }
    let ext = lower_chars(&sub_chars(&s, j, s.len()));
    let exe = chars_of("exe");
    let ext_ok = ext.len() == exe.len() && match_at(&ext, &exe, 0);
    assert(ext_ok == (ext@ == exe@)) by {
        if ext@.len() == exe@.len() && matches_at(ext@, exe@, 0) {
            assert(ext@ =~= ext@.subrange(0, exe@.len() as int));
        }
        if ext@ == exe@ {
            assert(ext@.subrange(0, exe@.len() as int) =~= ext@);
        }
    }
    assert(s@.subrange(j as int, s@.len() as int) =~= s@.skip(j as int));
    ext_ok && contains(&s, &chars_of("ReShade_Setup"))
}

} // verus!
