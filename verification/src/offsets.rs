//! Reading the memory offsets that the overlay needs out of an
//! `offsets.hpp` header published for a game client version.
use vstd::prelude::*;
use crate::text::{
    chars_of, contains, find_from, lemma_before_after_slashless, is_white_space, lemma_before_padded, lemma_trim_padded, lemma_trim_plain, contains_seq, find, find_seq, hex_digit, is_hex_digit, lemma_find_from,
    lemma_piece_end, lower_chars, lower_seq, next_piece_end, pieces_from, split_seq, string_of,
    sub_chars, trim, trim_seq, before, before_seq, matches_at,
};

verus! {

/// The base address of the offsets service.
pub const OFFSETS_BASE: &'static str = "https://offsets.imtheo.lol";

/// The offsets written for the overlay, each a hexadecimal literal such as
/// `0x1A2B` or the text `Not Found`.
pub struct RobloxOffsets {
    pub version: String,
    pub visual_engine_pointer: String,
    pub visual_engine_to_render_view: String,
    pub render_view_to_device: String,
    pub device_to_swap_chain: String,
}

// ---------------------------------------------------------------------------
// Hexadecimal literals
// ---------------------------------------------------------------------------

/// The end of the run of hexadecimal digits that starts at `i`.
pub open spec fn hex_run_end(s: Seq<char>, i: int) -> int
    decreases s.len() - i,
{
    if i >= s.len() {
        s.len() as int
    } else if is_hex_digit(s[i]) {
        hex_run_end(s, i + 1)
    } else {
        i
    }
}

pub proof fn lemma_hex_run_end(s: Seq<char>, i: int)
    requires
        0 <= i <= s.len(),
    ensures
        i <= hex_run_end(s, i) <= s.len(),
        forall|k: int| i <= k < hex_run_end(s, i) ==> is_hex_digit(#[trigger] s[k]),
        hex_run_end(s, i) < s.len() ==> !is_hex_digit(s[hex_run_end(s, i)]),
    decreases s.len() - i,
{
    if i < s.len() && is_hex_digit(s[i]) {
        lemma_hex_run_end(s, i + 1);
    }
}

/// The first `0x` (in either letter case) of `t` with the hexadecimal digits
/// that follow it.
pub open spec fn extract_hex_seq(t: Seq<char>) -> Option<Seq<char>> {
    match find_seq(lower_seq(t), "0x"@) {
        Some(st) => Some(t.subrange(st, hex_run_end(t, st + 2))),
        None => None,
    }
}

fn extract_hex_chars(t: &Vec<char>) -> (r: Option<String>)
    ensures
        match extract_hex_seq(t@) {
            Some(h) => r matches Some(x) && x@ == h,
            None => r is None,
        },
{
    let lower = lower_chars(t);
    let pat = chars_of("0x");
    match find(&lower, &pat) {
        Some(st) => {
            proof {
                lemma_find_from(lower@, pat@, 0);
                reveal_strlit("0x");
            }
            assert(pat@.len() == 2);
            assert(matches_at(lower@, pat@, st as int));
            assert(lower@.len() == t@.len());
            let n = lower.len();
            assert(st + 2 <= n);
            let mut end = st + 2;
            while end < t.len() && hex_digit(t[end])
                invariant
                    st + 2 <= end <= t.len(),
                    hex_run_end(t@, st + 2) == hex_run_end(t@, end as int),
                decreases t.len() - end,
            {
                end = end + 1;
            }
            Some(string_of(t, st, end))
        },
        None => None,
    }
}

/// The hexadecimal literal in `text`: from its first `0x` (or `0X`) on, as
/// long as hexadecimal digits follow; `None` when `text` holds no `0x`.
pub fn extract_hex(text: &str) -> (r: Option<String>)
    ensures
        match extract_hex_seq(text@) {
            Some(h) => r matches Some(x) && x@ == h,
            None => r is None,
        },
{
    extract_hex_chars(&chars_of(text))
}

/// What `extract_hex` finds starts at an `0x` of the text and is followed by
/// hexadecimal digits only, as many as stand there.
pub proof fn extract_hex_shape(t: Seq<char>)
    requires
        extract_hex_seq(t) is Some,
    ensures
        ({
            let h = extract_hex_seq(t).unwrap();
            &&& h.len() >= 2
            &&& h[0] == '0'
            &&& (h[1] == 'x' || h[1] == 'X')
            &&& forall|k: int| 2 <= k < h.len() ==> is_hex_digit(#[trigger] h[k])
            &&& exists|st: int| 0 <= st && st + h.len() <= t.len() && #[trigger] t.subrange(st, st + h.len()) == h
        }),
{
    let l = lower_seq(t);
    let pat = "0x"@;
    reveal_strlit("0x");
    lemma_find_from(l, pat, 0);
    let st = find_seq(l, pat).unwrap();
    lemma_hex_run_end(t, st + 2);
    let h = t.subrange(st, hex_run_end(t, st + 2));
    assert(l.subrange(st, st + 2)[0] == '0');
    assert(l.subrange(st, st + 2)[1] == 'x');
    assert(l[st] == '0' && l[st + 1] == 'x');
    assert(h[0] == t[st]);
    assert(h[1] == t[st + 1]);
    assert forall|k: int| 2 <= k < h.len() implies is_hex_digit(#[trigger] h[k]) by {
        assert(h[k] == t[st + k]);
    }
    assert(t.subrange(st, st + h.len()) == h);
}

// ---------------------------------------------------------------------------
// Scanning the header
// ---------------------------------------------------------------------------

/// What has been read so far: whether the scan is inside the `VisualEngine`
/// block, and the four values found.
pub struct ScanView {
    pub inside: bool,
    pub pointer: Seq<char>,
    pub render_view: Seq<char>,
    pub device: Seq<char>,
    pub swap_chain: Seq<char>,
}

/// Before any line is read: outside the block, nothing found.
pub open spec fn initial_scan() -> ScanView {
    ScanView {
        inside: false,
        pointer: "Not Found"@,
        render_view: "Not Found"@,
        device: "Not Found"@,
        swap_chain: "Not Found"@,
    }
}

/// A line without its `//` and `/*` comments, trimmed.
pub open spec fn clean_line(line: Seq<char>) -> Seq<char> {
    trim_seq(before_seq(before_seq(line, "//"@), "/*"@))
}

/// The hexadecimal literal of `clean` if there is one, else `old`.
pub open spec fn hex_or(clean: Seq<char>, old: Seq<char>) -> Seq<char> {
    match extract_hex_seq(clean) {
        Some(h) => h,
        None => old,
    }
}

/// Reading one line. A line that names `VisualEngine` together with
/// `namespace` or `struct` (any letter case) opens the block and is not
/// read further; a line `}` or `};` closes it. Inside the block a
/// `uintptr_t` line naming `Pointer` or `RenderView` gives that value; any
/// line naming `DeviceD3D11` or `JobStart` (any letter case) gives the
/// device or the swap-chain value.
pub open spec fn scan_step(st: ScanView, line: Seq<char>) -> ScanView {
    let clean = clean_line(line);
    let lower = lower_seq(clean);
    if contains_seq(lower, "visualengine"@) && (contains_seq(lower, "namespace"@) || contains_seq(
        lower,
        "struct"@,
    )) {
        ScanView { inside: true, ..st }
    } else {
        let inside = if clean == "}"@ || clean == "};"@ {
            false
        } else {
            st.inside
        };
        let typed = contains_seq(clean, "uintptr_t"@);
        ScanView {
            inside: inside,
            pointer: if inside && typed && contains_seq(clean, "Pointer"@) {
                hex_or(clean, st.pointer)
            } else {
                st.pointer
            },
            render_view: if inside && typed && contains_seq(clean, "RenderView"@) {
                hex_or(clean, st.render_view)
            } else {
                st.render_view
            },
            device: if contains_seq(lower, "deviced3d11"@) {
                hex_or(clean, st.device)
            } else {
                st.device
            },
            swap_chain: if contains_seq(lower, "jobstart"@) {
                hex_or(clean, st.swap_chain)
            } else {
                st.swap_chain
            },
        }
    }
}

/// Reading lines in order.
pub open spec fn scan_lines(st: ScanView, lines: Seq<Seq<char>>) -> ScanView
    decreases lines.len(),
{
    if lines.len() == 0 {
        st
    } else {
        scan_lines(scan_step(st, lines[0]), lines.drop_first())
    }
}

/// Reading a whole header, line by line (`split('\n')`).
pub open spec fn scan_header(body: Seq<char>) -> ScanView {
    scan_lines(initial_scan(), split_seq(body, '\n'))
}

/// White space around a header line does not change what the scan reads
/// from it: indentation and trailing blanks are ignored, in every state.
pub proof fn whitespace_around_line_is_ignored(st: ScanView, l: Seq<char>, w1: Seq<char>, w2: Seq<char>)
    requires
        forall|k: int| 0 <= k < w1.len() ==> is_white_space(#[trigger] w1[k]),
        forall|k: int| 0 <= k < w2.len() ==> is_white_space(#[trigger] w2[k]),
    ensures
        scan_step(st, w1 + l + w2) == scan_step(st, l),
{
    reveal_strlit("//");
    reveal_strlit("/*");
    let c1 = "//"@;
    let c2 = "/*"@;
    lemma_before_padded(w1, l, w2, c1);
    let b1 = before_seq(l, c1);
    let w2b = if find_seq(l, c1) is Some {
        Seq::<char>::empty()
    } else {
        w2
    };
    assert forall|k: int| 0 <= k < w2b.len() implies is_white_space(#[trigger] w2b[k]) by {
        assert(w2b[k] == w2[k]);
    }
    lemma_before_padded(w1, b1, w2b, c2);
    let b2 = before_seq(b1, c2);
    let w2c = if find_seq(b1, c2) is Some {
        Seq::<char>::empty()
    } else {
        w2b
    };
    assert forall|k: int| 0 <= k < w2c.len() implies is_white_space(#[trigger] w2c[k]) by {
        assert(w2c[k] == w2b[k]);
    }
    lemma_trim_padded(w1, b2, w2c);
    assert(clean_line(w1 + l + w2) == clean_line(l));
}

/// A `//` or `/*` comment at the end of a header line does not change what
/// the scan reads from it, in every state, when the part before the comment
/// holds no `/`.
pub proof fn trailing_comment_is_ignored(st: ScanView, l: Seq<char>, c: Seq<char>)
    requires
        forall|k: int| 0 <= k < l.len() ==> #[trigger] l[k] != '/',
    ensures
        scan_step(st, l + "//"@ + c) == scan_step(st, l),
        scan_step(st, l + "/*"@ + c) == scan_step(st, l),
{
    reveal_strlit("//");
    reveal_strlit("/*");
    let c1 = "//"@;
    let c2 = "/*"@;
    let e = Seq::<char>::empty();
    assert(l + e =~= l);
    assert(find_from(e, c1, 0) is None);
    assert(find_from(e, c2, 0) is None);
    lemma_before_after_slashless(l, e, c1);
    lemma_before_after_slashless(l, e, c2);
    assert(before_seq(l, c1) == l);
    assert(before_seq(l, c2) == l);
    // a line comment: the text before `//` is the line part
    let y1 = c1 + c;
    assert(l + c1 + c =~= l + y1);
    assert(y1.subrange(0, 2) =~= c1);
    assert(matches_at(y1, c1, 0));
    assert(before_seq(y1, c1) =~= e);
    lemma_before_after_slashless(l, y1, c1);
    assert(before_seq(l + y1, c1) =~= l);
    // a block comment: the text before `//` still starts with `/*`
    let y2 = c2 + c;
    assert(l + c2 + c =~= l + y2);
    lemma_find_from(y2, c1, 0);
    assert(!matches_at(y2, c1, 0)) by {
        if matches_at(y2, c1, 0) {
            assert(y2.subrange(0, 2)[1] == c1[1]);
        }
    }
    assert(!matches_at(y2, c1, 1)) by {
        if matches_at(y2, c1, 1) {
            assert(y2.subrange(1, 3)[0] == c1[0]);
        }
    }
    let z = before_seq(y2, c1);
    assert(z.len() >= 2 && z[0] == '/' && z[1] == '*');
    assert(z.subrange(0, 2) =~= c2);
    assert(matches_at(z, c2, 0));
    assert(before_seq(z, c2) =~= e);
    lemma_before_after_slashless(l, y2, c1);
    lemma_before_after_slashless(l, z, c2);
    assert(before_seq(before_seq(l + y2, c1), c2) =~= l);
    assert(clean_line(l + c1 + c) == clean_line(l));
    assert(clean_line(l + c2 + c) == clean_line(l));
}

/// A line that is `}` or `};` once white space around it is dropped closes
/// the `VisualEngine` block, from any state.
pub proof fn closing_line_leaves_block(st: ScanView, w1: Seq<char>, w2: Seq<char>)
    requires
        forall|k: int| 0 <= k < w1.len() ==> is_white_space(#[trigger] w1[k]),
        forall|k: int| 0 <= k < w2.len() ==> is_white_space(#[trigger] w2[k]),
    ensures
        !scan_step(st, w1 + "}"@ + w2).inside,
        !scan_step(st, w1 + "};"@ + w2).inside,
{
    whitespace_around_line_is_ignored(st, "}"@, w1, w2);
    whitespace_around_line_is_ignored(st, "};"@, w1, w2);
    reveal_strlit("}");
    reveal_strlit("};");
    reveal_strlit("//");
    reveal_strlit("/*");
    reveal_strlit("visualengine");
    let a = "}"@;
    let b = "};"@;
    assert(!matches_at(b, "//"@, 0)) by {
        if matches_at(b, "//"@, 0) {
            assert(b.subrange(0, 2)[0] == "//"@[0]);
        }
    }
    assert(!matches_at(b, "/*"@, 0)) by {
        if matches_at(b, "/*"@, 0) {
            assert(b.subrange(0, 2)[0] == "/*"@[0]);
        }
    }
    assert(find_from(b, "//"@, 1) is None);
    assert(find_from(b, "/*"@, 1) is None);
    assert(before_seq(a, "//"@) == a);
    assert(before_seq(a, "/*"@) == a);
    assert(before_seq(b, "//"@) == b);
    assert(before_seq(b, "/*"@) == b);
    lemma_trim_plain(a);
    lemma_trim_plain(b);
    assert(clean_line(a) == a);
    assert(clean_line(b) == b);
    assert(!contains_seq(lower_seq(a), "visualengine"@));
    assert(!contains_seq(lower_seq(b), "visualengine"@));
}

/// A value that can stand in `offsets.json`: `Not Found`, or `0x` (either
/// case of `x`) followed by hexadecimal digits.
pub open spec fn is_offset_value(v: Seq<char>) -> bool {
    ||| v == "Not Found"@
    ||| {
        &&& v.len() >= 2
        &&& v[0] == '0'
        &&& (v[1] == 'x' || v[1] == 'X')
        &&& forall|k: int| 2 <= k < v.len() ==> is_hex_digit(#[trigger] v[k])
    }
}

pub open spec fn scan_values_ok(st: ScanView) -> bool {
    &&& is_offset_value(st.pointer)
    &&& is_offset_value(st.render_view)
    &&& is_offset_value(st.device)
    &&& is_offset_value(st.swap_chain)
}

proof fn lemma_hex_or(clean: Seq<char>, old: Seq<char>)
    requires
        is_offset_value(old),
    ensures
        is_offset_value(hex_or(clean, old)),
{
    if extract_hex_seq(clean) is Some {
        extract_hex_shape(clean);
    }
}

proof fn lemma_scan_lines_values(st: ScanView, lines: Seq<Seq<char>>)
    requires
        scan_values_ok(st),
    ensures
        scan_values_ok(scan_lines(st, lines)),
    decreases lines.len(),
{
    if lines.len() > 0 {
        let clean = clean_line(lines[0]);
        lemma_hex_or(clean, st.pointer);
        lemma_hex_or(clean, st.render_view);
        lemma_hex_or(clean, st.device);
        lemma_hex_or(clean, st.swap_chain);
        lemma_scan_lines_values(scan_step(st, lines[0]), lines.drop_first());
    }
}

/// Whatever header is read, every offset written out is either `Not Found`
/// or a hexadecimal literal `0x...` (or `0X...`).
pub proof fn offsets_are_hex_or_not_found(body: Seq<char>)
    ensures
        scan_values_ok(scan_header(body)),
{
    lemma_scan_lines_values(initial_scan(), split_seq(body, '\n'));
}

/// The executable scan state.
pub struct OffsetScan {
    pub inside: bool,
    pub pointer: String,
    pub render_view: String,
    pub device: String,
    pub swap_chain: String,
}

impl View for OffsetScan {
    type V = ScanView;

    open spec fn view(&self) -> ScanView {
        ScanView {
            inside: self.inside,
            pointer: self.pointer@,
            render_view: self.render_view@,
            device: self.device@,
            swap_chain: self.swap_chain@,
        }
    }
}

fn clean_chars(line: &Vec<char>) -> (r: Vec<char>)
    ensures
        r@ == clean_line(line@),
{
    let a = before(line, &chars_of("//"));
    let b = before(&a, &chars_of("/*"));
    trim(&b)
}

fn same_chars(a: &Vec<char>, b: &Vec<char>) -> (r: bool)
    ensures
        r == (a@ == b@),
{
    if a.len() != b.len() {
        return false;
    }
    let mut i: usize = 0;
    while i < a.len()
        invariant
            a.len() == b.len(),
            i <= a.len(),
            forall|k: int| 0 <= k < i ==> a@[k] == b@[k],
        decreases a.len() - i,
    {
        if a[i] != b[i] {
            return false;
        }
        i = i + 1;
    }
    assert(a@ =~= b@);
    true
}

fn take_hex(clean: &Vec<char>, slot: &mut String)
    ensures
        final(slot)@ == hex_or(clean@, old(slot)@),
{
    if let Some(h) = extract_hex_chars(clean) {
        *slot = h;
    }
}

fn scan_line(st: &mut OffsetScan, line: &Vec<char>)
    ensures
        final(st)@ == scan_step(old(st)@, line@),
{
    let clean = clean_chars(line);
    let lower = lower_chars(&clean);
    if contains(&lower, &chars_of("visualengine")) && (contains(&lower, &chars_of("namespace"))
        || contains(&lower, &chars_of("struct"))) {
        st.inside = true;
        return ;
    }
    if same_chars(&clean, &chars_of("}")) || same_chars(&clean, &chars_of("};")) {
        st.inside = false;
    }
    if st.inside {
        let typed = contains(&clean, &chars_of("uintptr_t"));
        if typed && contains(&clean, &chars_of("Pointer")) {
            take_hex(&clean, &mut st.pointer);
        }
        if typed && contains(&clean, &chars_of("RenderView")) {
            take_hex(&clean, &mut st.render_view);
        }
    }
    if contains(&lower, &chars_of("deviced3d11")) {
        take_hex(&clean, &mut st.device);
    }
    if contains(&lower, &chars_of("jobstart")) {
        take_hex(&clean, &mut st.swap_chain);
    }
}

/// Reads the offsets of the client `version` out of the `offsets.hpp` text
/// `body`, line by line (see `scan_step`); a value that no line gives stays
/// `Not Found`.
pub fn parse_offsets(version: &str, body: &str) -> (r: RobloxOffsets)
    ensures
        r.version@ == version@,
        r.visual_engine_pointer@ == scan_header(body@).pointer,
        r.visual_engine_to_render_view@ == scan_header(body@).render_view,
        r.render_view_to_device@ == scan_header(body@).device,
        r.device_to_swap_chain@ == scan_header(body@).swap_chain,
{
    let s = chars_of(body);
    let mut st = OffsetScan {
        inside: false,
        pointer: "Not Found".to_owned(),
        render_view: "Not Found".to_owned(),
        device: "Not Found".to_owned(),
        swap_chain: "Not Found".to_owned(),
    };
    let mut i: usize = 0;
    loop
        invariant
            i <= s.len(),
            s@ == body@,
            scan_header(body@) == scan_lines(st@, pieces_from(s@, '\n', i as int)),
        ensures
            scan_header(body@) == st@,
        decreases s.len() - i,
    {
        let e = next_piece_end(&s, '\n', i);
        proof {
            lemma_piece_end(s@, '\n', i as int);
        }
        let line = sub_chars(&s, i, e);
        let ghost rest = pieces_from(s@, '\n', e + 1);
        assert(pieces_from(s@, '\n', i as int) == seq![line@] + rest);
        assert((seq![line@] + rest).drop_first() =~= rest);
        let ghost before_line = st@;
        scan_line(&mut st, &line);
        assert(scan_lines(before_line, seq![line@] + rest) == scan_lines(st@, rest));
        if e == s.len() {
            assert(rest =~= Seq::<Seq<char>>::empty());
            assert(scan_lines(st@, rest) == st@);
            break;
        }
        i = e + 1;
    }
    RobloxOffsets {
        version: version.to_owned(),
        visual_engine_pointer: st.pointer,
        visual_engine_to_render_view: st.render_view,
        render_view_to_device: st.device,
        device_to_swap_chain: st.swap_chain,
    }
}

/// The address of the `offsets.hpp` header for the client `version`:
/// `<OFFSETS_BASE>/version-<version>/offsets.hpp`.
pub fn offsets_url(version: &str) -> (r: String)
    ensures
        r@ == OFFSETS_BASE@ + "/version-"@ + version@ + "/offsets.hpp"@,
{
    let mut r = OFFSETS_BASE.to_owned();
    r.append("/version-");
    r.append(version);
    r.append("/offsets.hpp");
    r
}

} // verus!
