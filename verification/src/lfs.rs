//! Git LFS pointer files: an archive may hold, in place of a large file, a
//! small text that names the real object by its SHA-256 and size.
use vstd::prelude::*;
use vstd::utf8::{decode_utf8, valid_utf8};
use crate::text::{
    chars_of, is_dec_digit, is_hex_digit, is_white_space, lemma_decimal, lemma_lines_cons,
    lemma_parse_decimal, lemma_trim_plain, lemma_piece_end, lines_from, lines_seq, match_at, matches_at, next_piece_end,
    decimal_seq, parse_u64, parse_u64_seq, starts_with_seq, strip_prefix, strip_prefix_seq, string_of,
    sub_chars, trim, trim_seq,
};

verus! {

/// The first line of every Git LFS pointer file.
pub const LFS_HEADER: &'static str = "version https://git-lfs.github.com/spec/v1";

/// What `String::from_utf8_lossy` makes of a byte string.
pub uninterp spec fn utf8_lossy(bytes: Seq<u8>) -> Seq<char>;

/// `String::from_utf8_lossy`: decodes UTF-8, putting U+FFFD in place of
/// invalid sequences. Stated: the result is a function of the bytes alone,
/// and is the plain decoding when the bytes are valid UTF-8; what replaces
/// invalid sequences is left unsaid.
#[verifier::external_body]
pub(crate) fn decode_lossy(bytes: &[u8]) -> (r: String)
    ensures
        r@ == utf8_lossy(bytes@),
        valid_utf8(bytes@) ==> r@ == decode_utf8(bytes@),
{
    String::from_utf8_lossy(bytes).into_owned()
}

/// The object id and size read so far.
pub struct PointerScan {
    pub oid: Option<Seq<char>>,
    pub size: Option<u64>,
}

/// Reading one line: `oid sha256:<id>` sets the id, `size <n>` sets the size
/// (to nothing when `<n>` is not a number); other lines change nothing.
pub open spec fn pointer_step(st: PointerScan, line: Seq<char>) -> PointerScan {
    match strip_prefix_seq(line, "oid sha256:"@) {
        Some(v) => PointerScan { oid: Some(trim_seq(v)), size: st.size },
        None => match strip_prefix_seq(line, "size "@) {
            Some(v) => PointerScan { oid: st.oid, size: parse_u64_seq(trim_seq(v)) },
            None => st,
        },
    }
}

/// Reading lines in order.
pub open spec fn pointer_lines(st: PointerScan, lines: Seq<Seq<char>>) -> PointerScan
    decreases lines.len(),
{
    if lines.len() == 0 {
        st
    } else {
        pointer_lines(pointer_step(st, lines[0]), lines.drop_first())
    }
}

/// The object that the pointer text `text` names: `text` must start with the
/// LFS header, and its lines must give both an id and a size (the last line
/// of each kind counts).
pub open spec fn lfs_pointer(text: Seq<char>) -> Option<(Seq<char>, u64)> {
    if !starts_with_seq(text, LFS_HEADER@) {
        None
    } else {
        let st = pointer_lines(PointerScan { oid: None, size: None }, lines_seq(text));
        match (st.oid, st.size) {
            (Some(o), Some(n)) => Some((o, n)),
            _ => None,
        }
    }
}

/// The executable state of a pointer scan.
struct PointerFields {
    oid: Option<String>,
    size: Option<u64>,
}

impl PointerFields {
    spec fn view_scan(&self) -> PointerScan {
        PointerScan {
            oid: match self.oid {
                Some(o) => Some(o@),
                None => None,
            },
            size: self.size,
        }
    }
}

fn pointer_line(st: &mut PointerFields, line: &Vec<char>)
    ensures
        final(st).view_scan() == pointer_step(old(st).view_scan(), line@),
{
    match strip_prefix(line, &chars_of("oid sha256:")) {
        Some(v) => {
            let t = trim(&v);
            st.oid = Some(string_of(&t, 0, t.len()));
            assert(t@.subrange(0, t@.len() as int) =~= t@);
        },
        None => match strip_prefix(line, &chars_of("size ")) {
            Some(v) => {
                st.size = parse_u64(&trim(&v));
            },
            None => {},
        },
    }
}

/// Reads a Git LFS pointer text: the object id and size it names, or `None`
/// when it is no pointer (see `lfs_pointer`).
pub fn parse_lfs_pointer_text(text: &str) -> (r: Option<(String, u64)>)
    ensures
        match lfs_pointer(text@) {
            Some((o, n)) => r matches Some((x, m)) && x@ == o && m == n,
            None => r is None,
        },
{
    let s = chars_of(text);
    let header = chars_of(LFS_HEADER);
    if !match_at(&s, &header, 0) {
        return None;
    }
    let mut st = PointerFields { oid: None, size: None };
    let ghost init = PointerScan { oid: None, size: None };
    let mut i: usize = 0;
    while i < s.len()
        invariant
            i <= s.len(),
            s@ == text@,
            pointer_lines(init, lines_seq(s@)) == pointer_lines(st.view_scan(), lines_from(s@, i as int)),
        decreases s.len() - i,
    {
        let e = next_piece_end(&s, '\n', i);
        proof {
            lemma_piece_end(s@, '\n', i as int);
        }
        let end = if e < s.len() && e > i && s[e - 1] == '\r' {
            e - 1
        } else {
            e
        };
        let line = sub_chars(&s, i, end);
        let ghost rest = lines_from(s@, e + 1);
        proof {
            let raw = s@.subrange(i as int, e as int);
            if e < s@.len() && raw.len() > 0 && raw.last() == '\r' {
                assert(raw.drop_last() =~= line@);
            } else {
                assert(raw =~= line@);
            }
            assert(lines_from(s@, i as int) == seq![line@] + rest);
            assert((seq![line@] + rest).drop_first() =~= rest);
        }
        let ghost before_line = st.view_scan();
        pointer_line(&mut st, &line);
        assert(pointer_lines(before_line, seq![line@] + rest) == pointer_lines(st.view_scan(), rest));
        if e == s.len() {
            assert(rest =~= Seq::<Seq<char>>::empty());
            i = s.len();
        } else {
            i = e + 1;
        }
    }
    assert(lines_from(s@, i as int) =~= Seq::<Seq<char>>::empty());
    match (st.oid, st.size) {
        (Some(o), Some(n)) => Some((o, n)),
        _ => None,
    }
}

/// Reads the contents of an archive entry as a Git LFS pointer: the bytes
/// are decoded as UTF-8 (invalid sequences replaced) and read with
/// `parse_lfs_pointer_text`.
pub fn parse_lfs_pointer(buf: &[u8]) -> (r: Option<(String, u64)>)
    ensures
        match lfs_pointer(utf8_lossy(buf@)) {
            Some((o, n)) => r matches Some((x, m)) && x@ == o && m == n,
            None => r is None,
        },
        valid_utf8(buf@) ==> match lfs_pointer(decode_utf8(buf@)) {
            Some((o, n)) => r matches Some((x, m)) && x@ == o && m == n,
            None => r is None,
        },
{
    let text = decode_lossy(buf);
    parse_lfs_pointer_text(text.as_str())
}

/// A link in an LFS batch reply.
pub struct LfsLink {
    /// The address, when the reply gives it as text.
    pub href: Option<String>,
}

/// The actions offered for one object.
pub struct LfsActions {
    pub download: Option<LfsLink>,
}

/// One object of an LFS batch reply.
pub struct LfsObjectReply {
    pub actions: Option<LfsActions>,
}

/// An LFS batch reply: the objects, in the order asked for.
pub struct LfsBatchReply {
    pub objects: Vec<LfsObjectReply>,
}

/// The download address of the first object of a reply, if it has one.
pub open spec fn batch_href(reply: LfsBatchReply) -> Option<Seq<char>> {
    if reply.objects@.len() == 0 {
        None
    } else {
        match reply.objects@[0].actions {
            Some(a) => match a.download {
                Some(l) => match l.href {
                    Some(h) => Some(h@),
                    None => None,
                },
                None => None,
            },
            None => None,
        }
    }
}

/// The download address for the one object asked for (`objects[0]`'s
/// `actions.download.href`), or the error that the installer reports when
/// the reply names none.
pub fn lfs_download_href(reply: &LfsBatchReply) -> (r: Result<String, String>)
    ensures
        match batch_href(*reply) {
            Some(h) => r matches Ok(u) && u@ == h,
            None => r matches Err(e) && e@ == "lfs: no download url in response"@,
        },
{
    if reply.objects.len() > 0 {
        if let Some(a) = &reply.objects[0].actions {
            if let Some(l) = &a.download {
                if let Some(h) = &l.href {
                    return Ok(h.clone());
                }
            }
        }
    }
    Err("lfs: no download url in response".to_owned())
}

/// The error that installing reports when the object behind the pointer at
/// `path` could not be fetched: `lfs resolve failed for <path>: <reason>`.
pub fn lfs_resolve_error(path: &str, reason: &str) -> (r: String)
    ensures
        r@ == "lfs resolve failed for "@ + path@ + ": "@ + reason@,
{
    let mut r = "lfs resolve failed for ".to_owned();
    r.append(path);
    r.append(": ");
    r.append(reason);
    r
}

// ---------------------------------------------------------------------------
// Pointer texts as git-lfs writes them
// ---------------------------------------------------------------------------

/// The pointer text for the object `oid` of `size` bytes, as git-lfs writes
/// it: the header, the `oid sha256:` line and the `size` line, each ended by
/// a newline.
pub open spec fn pointer_text(oid: Seq<char>, size: u64) -> Seq<char> {
    LFS_HEADER@ + seq!['\n'] + "oid sha256:"@ + oid + seq!['\n'] + "size "@ + decimal_seq(
        size as nat,
    ) + seq!['\n']
}

proof fn lemma_header_chars()
    ensures
        LFS_HEADER@.len() == 42,
        LFS_HEADER@[0] == 'v',
        LFS_HEADER@[41] == '1',
        forall|k: int| 0 <= k < LFS_HEADER@.len() ==> #[trigger] LFS_HEADER@[k] != '\n',
{
    reveal_strlit("version https://git-lfs.github.com/spec/v1");
}

/// A pointer text as git-lfs writes it reads back as the object it names:
/// for every hexadecimal object id and every size, `parse_lfs_pointer_text`
/// returns that id and that size.
pub proof fn lfs_pointer_roundtrip(oid: Seq<char>, size: u64)
    requires
        forall|k: int| 0 <= k < oid.len() ==> is_hex_digit(#[trigger] oid[k]),
    ensures
        lfs_pointer(pointer_text(oid, size)) == Some((oid, size)),
{
    lemma_header_chars();
    reveal_strlit("oid sha256:");
    reveal_strlit("size ");
    let h = LFS_HEADER@;
    let p1 = "oid sha256:"@;
    let p2 = "size "@;
    let dec = decimal_seq(size as nat);
    lemma_parse_decimal(size);
    lemma_decimal(size as nat);
    let o = p1 + oid;
    let z = p2 + dec;
    let t = pointer_text(oid, size);
    let nl = seq!['\n'];
    assert(t =~= h + nl + o + nl + z + nl);
    let i1: int = h.len() as int + 1;
    let i2: int = i1 + o.len() + 1;
    let i3: int = i2 + z.len() + 1;
    assert(t.len() == i3);

    // The three lines.
    assert(t.subrange(0, h.len() as int) =~= h);
    assert(t[h.len() as int] == '\n');
    lemma_lines_cons(t, 0, h);
    assert(t.subrange(i1, i1 + o.len()) =~= o);
    assert(t[i1 + o.len()] == '\n');
    assert forall|k: int| 0 <= k < o.len() implies #[trigger] o[k] != '\n' by {
        if k >= 11 {
            assert(o[k] == oid[k - 11]);
            assert(is_hex_digit(oid[k - 11]));
        }
    }
    assert(o.last() != '\r') by {
        if oid.len() > 0 {
            assert(o.last() == oid[oid.len() - 1]);
            assert(is_hex_digit(oid[oid.len() - 1]));
        }
    }
    lemma_lines_cons(t, i1, o);
    assert(t.subrange(i2, i2 + z.len()) =~= z);
    assert(t[i2 + z.len()] == '\n');
    assert forall|k: int| 0 <= k < z.len() implies #[trigger] z[k] != '\n' by {
        if k >= 5 {
            assert(z[k] == dec[k - 5]);
            assert(is_dec_digit(dec[k - 5]));
        }
    }
    assert(z.last() == dec[dec.len() - 1]);
    assert(is_dec_digit(dec[dec.len() - 1]));
    lemma_lines_cons(t, i2, z);
    assert(lines_from(t, i3) =~= Seq::<Seq<char>>::empty());
    let ls = lines_seq(t);
    assert(ls =~= seq![h, o, z]);

    // Reading them.
    let init = PointerScan { oid: None, size: None };
    assert(!matches_at(h, p1, 0)) by {
        if matches_at(h, p1, 0) {
            assert(h.subrange(0, 11)[0] == p1[0]);
        }
    }
    assert(!matches_at(h, p2, 0)) by {
        if matches_at(h, p2, 0) {
            assert(h.subrange(0, 5)[0] == p2[0]);
        }
    }
    let st1 = pointer_step(init, h);
    assert(st1 == init);
    assert(o.subrange(0, 11) =~= p1);
    assert(o.skip(11) =~= oid);
    assert forall|k: int| 0 <= k < oid.len() implies !is_white_space(#[trigger] oid[k]) by {
        assert(is_hex_digit(oid[k]));
    }
    lemma_trim_plain(oid);
    let st2 = pointer_step(st1, o);
    assert(st2 == PointerScan { oid: Some(oid), size: None });
    assert(!matches_at(z, p1, 0)) by {
        if matches_at(z, p1, 0) {
            assert(z.subrange(0, 11)[0] == p1[0]);
        }
    }
    assert(z.subrange(0, 5) =~= p2);
    assert(z.skip(5) =~= dec);
    lemma_trim_plain(dec);
    let st3 = pointer_step(st2, z);
    assert(st3 == PointerScan { oid: Some(oid), size: Some(size) });
    assert(ls.drop_first() =~= seq![o, z]);
    assert(seq![o, z].drop_first() =~= seq![z]);
    assert(seq![z].drop_first() =~= Seq::<Seq<char>>::empty());
    assert(ls[0] == h);
    assert(pointer_lines(init, ls) == pointer_lines(st1, seq![o, z]));
    assert(seq![o, z][0] == o);
    assert(pointer_lines(st1, seq![o, z]) == pointer_lines(st2, seq![z]));
    assert(seq![z][0] == z);
    assert(pointer_lines(st2, seq![z]) == pointer_lines(st3, Seq::<Seq<char>>::empty()));
    assert(pointer_lines(init, ls) == st3);
    assert(matches_at(t, h, 0));
}

} // verus!
