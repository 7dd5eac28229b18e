//! Character-level text model shared by the parsers: ASCII case folding,
//! Unicode white space, substring search, trimming, line splitting and
//! decimal numbers, each as a spec function over `Seq<char>` with a verified
//! executable counterpart over `Vec<char>`.
use vstd::prelude::*;

verus! {

// ---------------------------------------------------------------------------
// Character classes
// ---------------------------------------------------------------------------

/// `char::to_ascii_lowercase`.
pub open spec fn lower_char(c: char) -> char {
    if 'A' <= c && c <= 'Z' {
        ((c as u32) + 32) as char
    } else {
        c
    }
}

/// `str::to_ascii_lowercase`, char by char.
pub open spec fn lower_seq(s: Seq<char>) -> Seq<char> {
    s.map_values(|c: char| lower_char(c))
}

/// `char::is_ascii_hexdigit`.
pub open spec fn is_hex_digit(c: char) -> bool {
    ('0' <= c && c <= '9') || ('a' <= c && c <= 'f') || ('A' <= c && c <= 'F')
}

/// `char::is_ascii_digit`.
pub open spec fn is_dec_digit(c: char) -> bool {
    '0' <= c && c <= '9'
}

/// `char::is_whitespace`: the Unicode `White_Space` property.
pub open spec fn is_white_space(c: char) -> bool {
    ||| ('\u{9}' <= c && c <= '\u{d}')
    ||| c == ' '
    ||| c == '\u{85}'
    ||| c == '\u{a0}'
    ||| c == '\u{1680}'
    ||| ('\u{2000}' <= c && c <= '\u{200a}')
    ||| c == '\u{2028}'
    ||| c == '\u{2029}'
    ||| c == '\u{202f}'
    ||| c == '\u{205f}'
    ||| c == '\u{3000}'
}

pub fn to_lower(c: char) -> (r: char)
    ensures
        r == lower_char(c),
{
    if 'A' <= c && c <= 'Z' {
        ((c as u8) + 32) as char
    } else {
        c
    }
}

pub fn hex_digit(c: char) -> (r: bool)
    ensures
        r == is_hex_digit(c),
{
    ('0' <= c && c <= '9') || ('a' <= c && c <= 'f') || ('A' <= c && c <= 'F')
}

pub fn white_space(c: char) -> (r: bool)
    ensures
        r == is_white_space(c),
{
    ('\u{9}' <= c && c <= '\u{d}') || c == ' ' || c == '\u{85}' || c == '\u{a0}' || c
        == '\u{1680}' || ('\u{2000}' <= c && c <= '\u{200a}') || c == '\u{2028}' || c
        == '\u{2029}' || c == '\u{202f}' || c == '\u{205f}' || c == '\u{3000}'
}

// ---------------------------------------------------------------------------
// Conversions between `str`, `String` and `Vec<char>`
// ---------------------------------------------------------------------------

/// `String::push`: appends one character.
#[verifier::external_body]
pub(crate) fn push_char(s: &mut String, c: char)
    ensures
        final(s)@ == old(s)@.push(c),
{
    s.push(c);
}

/// The characters of a string slice.
pub fn chars_of(s: &str) -> (v: Vec<char>)
    ensures
        v@ == s@,
{
    let mut v: Vec<char> = Vec::new();
    for c in it: s.chars()
        invariant
            v@ == it.seq().take(it.index() as int),
            it.seq() == s@,
    {
        v.push(c);
    }
    v
}

/// The characters `s[from..to]` as a `String`.
pub fn string_of(s: &Vec<char>, from: usize, to: usize) -> (r: String)
    requires
        from <= to <= s.len(),
    ensures
        r@ == s@.subrange(from as int, to as int),
{
    let mut r = String::new();
    let mut i = from;
    while i < to
        invariant
            from <= i <= to <= s.len(),
            r@ == s@.subrange(from as int, i as int),
        decreases to - i,
    {
        push_char(&mut r, s[i]);
        i = i + 1;
    }
    r
}

/// The characters `s[from..to]`.
pub fn sub_chars(s: &Vec<char>, from: usize, to: usize) -> (r: Vec<char>)
    requires
        from <= to <= s.len(),
    ensures
        r@ == s@.subrange(from as int, to as int),
{
    let mut r: Vec<char> = Vec::new();
    let mut i = from;
    while i < to
        invariant
            from <= i <= to <= s.len(),
            r@ == s@.subrange(from as int, i as int),
        decreases to - i,
    {
        r.push(s[i]);
        i = i + 1;
    }
    r
}

/// ASCII lower case of every character.
pub fn lower_chars(s: &Vec<char>) -> (r: Vec<char>)
    ensures
        r@ == lower_seq(s@),
{
    let mut r: Vec<char> = Vec::new();
    let mut i: usize = 0;
    while i < s.len()
        invariant
            i <= s.len(),
            r@ == lower_seq(s@.take(i as int)),
        decreases s.len() - i,
    {
        r.push(to_lower(s[i]));
        assert(s@.take(i + 1) == s@.take(i as int).push(s@[i as int]));
        i = i + 1;
    }
    assert(s@.take(s@.len() as int) == s@);
    r
}

// ---------------------------------------------------------------------------
// Substring search
// ---------------------------------------------------------------------------

/// `pat` occurs in `s` at position `i`.
pub open spec fn matches_at(s: Seq<char>, pat: Seq<char>, i: int) -> bool {
    0 <= i && i + pat.len() <= s.len() && s.subrange(i, i + pat.len()) == pat
}

/// The first position at or after `i` where `pat` occurs (`str::find` from `i`).
pub open spec fn find_from(s: Seq<char>, pat: Seq<char>, i: int) -> Option<int>
    decreases s.len() + 1 - i,
{
    if i < 0 || i + pat.len() > s.len() {
        None
    } else if matches_at(s, pat, i) {
        Some(i)
    } else {
        find_from(s, pat, i + 1)
    }
}

/// `str::find`.
pub open spec fn find_seq(s: Seq<char>, pat: Seq<char>) -> Option<int> {
    find_from(s, pat, 0)
}

/// `str::contains`.
pub open spec fn contains_seq(s: Seq<char>, pat: Seq<char>) -> bool {
    find_seq(s, pat) is Some
}

/// The part of `s` before the first occurrence of `pat`, or all of `s`
/// (`s.split(pat).next()`).
pub open spec fn before_seq(s: Seq<char>, pat: Seq<char>) -> Seq<char> {
    match find_seq(s, pat) {
        Some(i) => s.take(i),
        None => s,
    }
}

/// What `find_from` returns is a match, and nothing before it from `i` on is.
pub proof fn lemma_find_from(s: Seq<char>, pat: Seq<char>, i: int)
    requires
        0 <= i,
    ensures
        find_from(s, pat, i) matches Some(k) ==> i <= k && matches_at(s, pat, k),
        forall|j: int| i <= j && (find_from(s, pat, i) matches Some(k) ==> j < k) ==> !#[trigger] matches_at(s, pat, j),
    decreases s.len() + 1 - i,
{
    if i + pat.len() > s.len() {
    } else if matches_at(s, pat, i) {
    } else {
        lemma_find_from(s, pat, i + 1);
    }
}

/// Whether `pat` occurs in `s` at `i`.
pub fn match_at(s: &Vec<char>, pat: &Vec<char>, i: usize) -> (r: bool)
    ensures
        r == matches_at(s@, pat@, i as int),
{
    if i > s.len() || pat.len() > s.len() - i {
        return false;
    }
    let mut j: usize = 0;
    while j < pat.len()
        invariant
            i + pat.len() <= s.len(),
            j <= pat.len(),
            forall|k: int| 0 <= k < j ==> s@[i + k] == pat@[k],
        decreases pat.len() - j,
    {
        if s[i + j] != pat[j] {
            assert(s@.subrange(i as int, i + pat.len())[j as int] != pat@[j as int]);
            return false;
        }
        j = j + 1;
    }
    assert(s@.subrange(i as int, i + pat.len()) =~= pat@);
    true
}

/// `str::find` over characters.
pub fn find(s: &Vec<char>, pat: &Vec<char>) -> (r: Option<usize>)
    ensures
        match find_seq(s@, pat@) {
            Some(k) => r matches Some(j) && j == k,
            None => r is None,
        },
{
    if pat.len() > s.len() {
        return None;
    }
    let last = s.len() - pat.len();
    let mut i: usize = 0;
    loop
        invariant
            last + pat.len() == s.len(),
            i <= last,
            find_from(s@, pat@, 0) == find_from(s@, pat@, i as int),
        decreases last - i,
    {
        if match_at(s, pat, i) {
            return Some(i);
        }
        if i == last {
            assert(find_from(s@, pat@, i + 1) is None);
            return None;
        }
        i = i + 1;
    }
}

pub fn contains(s: &Vec<char>, pat: &Vec<char>) -> (r: bool)
    ensures
        r == contains_seq(s@, pat@),
{
    find(s, pat).is_some()
}

/// `s.split(pat).next()`: the part before the first occurrence of `pat`.
pub fn before(s: &Vec<char>, pat: &Vec<char>) -> (r: Vec<char>)
    ensures
        r@ == before_seq(s@, pat@),
{
    match find(s, pat) {
        Some(k) => {
            proof {
                lemma_find_from(s@, pat@, 0);
            }
            sub_chars(s, 0, k)
        },
        None => sub_chars(s, 0, s.len()),
    }
}

// ---------------------------------------------------------------------------
// Trimming white space (`str::trim`)
// ---------------------------------------------------------------------------

/// The first index at or after `i` that does not hold white space.
pub open spec fn lead_end(s: Seq<char>, i: int) -> int
    decreases s.len() - i,
{
    if i >= s.len() {
        s.len() as int
    } else if is_white_space(s[i]) {
        lead_end(s, i + 1)
    } else {
        i
    }
}

/// The end of `s[lo..j]` once trailing white space is dropped.
pub open spec fn trail_end(s: Seq<char>, lo: int, j: int) -> int
    decreases j - lo,
{
    if j <= lo {
        lo
    } else if is_white_space(s[j - 1]) {
        trail_end(s, lo, j - 1)
    } else {
        j
    }
}

/// `str::trim`.
pub open spec fn trim_seq(s: Seq<char>) -> Seq<char> {
    let lo = lead_end(s, 0);
    s.subrange(lo, trail_end(s, lo, s.len() as int))
}

/// The bounds `(lo, hi)` of `str::trim` applied to `s`.
pub fn trim_bounds(s: &Vec<char>) -> (r: (usize, usize))
    ensures
        r.0 as int == lead_end(s@, 0),
        r.1 as int == trail_end(s@, r.0 as int, s@.len() as int),
        r.0 <= r.1 <= s.len(),
{
    let mut lo: usize = 0;
    while lo < s.len() && white_space(s[lo])
        invariant
            lo <= s.len(),
            lead_end(s@, 0) == lead_end(s@, lo as int),
        decreases s.len() - lo,
    {
        lo = lo + 1;
    }
    let mut hi: usize = s.len();
    while hi > lo && white_space(s[hi - 1])
        invariant
            lo <= hi <= s.len(),
            trail_end(s@, lo as int, s@.len() as int) == trail_end(s@, lo as int, hi as int),
        decreases hi - lo,
    {
        hi = hi - 1;
    }
    (lo, hi)
}

/// `str::trim`.
pub fn trim(s: &Vec<char>) -> (r: Vec<char>)
    ensures
        r@ == trim_seq(s@),
{
    let (lo, hi) = trim_bounds(s);
    sub_chars(s, lo, hi)
}

// ---------------------------------------------------------------------------
// Splitting into lines
// ---------------------------------------------------------------------------

/// The index of the first `sep` at or after `i`, or the length of `s`.
pub open spec fn piece_end(s: Seq<char>, sep: char, i: int) -> int
    decreases s.len() - i,
{
    if i >= s.len() {
        s.len() as int
    } else if s[i] == sep {
        i
    } else {
        piece_end(s, sep, i + 1)
    }
}

pub proof fn lemma_piece_end(s: Seq<char>, sep: char, i: int)
    requires
        0 <= i <= s.len(),
    ensures
        i <= piece_end(s, sep, i) <= s.len(),
        piece_end(s, sep, i) < s.len() ==> s[piece_end(s, sep, i)] == sep,
        forall|k: int| i <= k < piece_end(s, sep, i) ==> #[trigger] s[k] != sep,
    decreases s.len() - i,
{
    if i < s.len() && s[i] != sep {
        lemma_piece_end(s, sep, i + 1);
    }
}

/// `s[i..].split(sep)`: every piece, the last one too, even when empty.
pub open spec fn pieces_from(s: Seq<char>, sep: char, i: int) -> Seq<Seq<char>>
    decreases s.len() + 1 - i,
{
    if i < 0 || i > s.len() {
        seq![]
    } else {
        let e = piece_end(s, sep, i);
        proof {
            lemma_piece_end(s, sep, i);
        }
        seq![s.subrange(i, e)] + pieces_from(s, sep, e + 1)
    }
}

/// `str::split(sep)` for a single character.
pub open spec fn split_seq(s: Seq<char>, sep: char) -> Seq<Seq<char>> {
    pieces_from(s, sep, 0)
}

/// `s[i..].lines()`: pieces ended by `'\n'` lose it and a `'\r'` before it;
/// no empty line follows a final `'\n'`.
pub open spec fn lines_from(s: Seq<char>, i: int) -> Seq<Seq<char>>
    decreases s.len() + 1 - i,
{
    if i < 0 || i >= s.len() {
        seq![]
    } else {
        let e = piece_end(s, '\n', i);
        proof {
            lemma_piece_end(s, '\n', i);
        }
        let raw = s.subrange(i, e);
        let line = if e < s.len() && raw.len() > 0 && raw.last() == '\r' {
            raw.drop_last()
        } else {
            raw
        };
        seq![line] + lines_from(s, e + 1)
    }
}

/// `str::lines`.
pub open spec fn lines_seq(s: Seq<char>) -> Seq<Seq<char>> {
    lines_from(s, 0)
}

/// The index of the first `sep` at or after `i`, or the length of `s`.
pub fn next_piece_end(s: &Vec<char>, sep: char, i: usize) -> (e: usize)
    requires
        i <= s.len(),
    ensures
        e as int == piece_end(s@, sep, i as int),
{
    let mut e = i;
    while e < s.len() && s[e] != sep
        invariant
            i <= e <= s.len(),
            piece_end(s@, sep, i as int) == piece_end(s@, sep, e as int),
        decreases s.len() - e,
    {
        e = e + 1;
    }
    e
}

// ---------------------------------------------------------------------------
// Prefixes
// ---------------------------------------------------------------------------

/// `str::strip_prefix`.
pub open spec fn strip_prefix_seq(s: Seq<char>, pre: Seq<char>) -> Option<Seq<char>> {
    if matches_at(s, pre, 0) {
        Some(s.skip(pre.len() as int))
    } else {
        None
    }
}

/// `str::strip_prefix`.
pub fn strip_prefix(s: &Vec<char>, pre: &Vec<char>) -> (r: Option<Vec<char>>)
    ensures
        match strip_prefix_seq(s@, pre@) {
            Some(t) => r matches Some(v) && v@ == t,
            None => r is None,
        },
{
    if match_at(s, pre, 0) {
        Some(sub_chars(s, pre.len(), s.len()))
    } else {
        None
    }
}

// ---------------------------------------------------------------------------
// Decimal numbers (`u64::from_str`)
// ---------------------------------------------------------------------------

pub open spec fn all_dec_digits(s: Seq<char>) -> bool {
    forall|i: int| 0 <= i < s.len() ==> is_dec_digit(#[trigger] s[i])
}

/// The number that a string of decimal digits writes.
pub open spec fn digits_value(s: Seq<char>) -> nat
    decreases s.len(),
{
    if s.len() == 0 {
        0
    } else {
        digits_value(s.drop_last()) * 10 + ((s.last() as u32) - ('0' as u32)) as nat
    }
}

/// `s` without one leading `'+'`.
pub open spec fn unsigned_digits(s: Seq<char>) -> Seq<char> {
    if s.len() > 0 && s[0] == '+' {
        s.drop_first()
    } else {
        s
    }
}

/// `u64::from_str(s).ok()`: an optional `'+'`, then at least one decimal
/// digit, with a value that fits in 64 bits.
pub open spec fn parse_u64_seq(s: Seq<char>) -> Option<u64> {
    let d = unsigned_digits(s);
    if d.len() > 0 && all_dec_digits(d) && digits_value(d) <= u64::MAX {
        Some(digits_value(d) as u64)
    } else {
        None
    }
}

/// A longer run of digits never writes a smaller number.
pub proof fn lemma_digits_value_prefix(s: Seq<char>, k: int)
    requires
        0 <= k <= s.len(),
        all_dec_digits(s),
    ensures
        digits_value(s.take(k)) <= digits_value(s),
    decreases s.len() - k,
{
    if k < s.len() {
        lemma_digits_value_prefix(s, k + 1);
        let t = s.take(k + 1);
        assert(t.drop_last() =~= s.take(k));
        assert(is_dec_digit(s[k]));
    } else {
        assert(s.take(k) =~= s);
    }
}

/// `u64::from_str(s).ok()`.
pub fn parse_u64(s: &Vec<char>) -> (r: Option<u64>)
    ensures
        r == parse_u64_seq(s@),
{
    let start: usize = if s.len() > 0 && s[0] == '+' {
        1
    } else {
        0
    };
    let ghost d = unsigned_digits(s@);
    assert(d =~= s@.skip(start as int));
    if start >= s.len() {
        assert(d.len() == 0);
        assert(parse_u64_seq(s@) is None);
        return None;
    }
    let mut i = start;
    while i < s.len()
        invariant
            start <= i <= s.len(),
            d =~= s@.skip(start as int),
            d == unsigned_digits(s@),
            forall|k: int| start <= k < i ==> is_dec_digit(#[trigger] s@[k]),
        decreases s.len() - i,
    {
        if !('0' <= s[i] && s[i] <= '9') {
            assert(!is_dec_digit(d[i - start]));
            assert(!all_dec_digits(d));
            return None;
        }
        i = i + 1;
    }
    assert(all_dec_digits(d)) by {
        assert forall|k: int| 0 <= k < d.len() implies is_dec_digit(#[trigger] d[k]) by {
            assert(d[k] == s@[start + k]);
        }
    }
    let mut acc: u64 = 0;
    let mut j = start;
    while j < s.len()
        invariant
            start <= j <= s.len(),
            d =~= s@.skip(start as int),
            d == unsigned_digits(s@),
            all_dec_digits(d),
            acc as nat == digits_value(d.take(j - start)),
        decreases s.len() - j,
    {
        let c = s[j];
        assert(d[j - start] == c);
        assert(is_dec_digit(c));
        let digit = (c as u32 - '0' as u32) as u64;
        let ghost t = d.take(j + 1 - start);
        assert(t.drop_last() =~= d.take(j - start));
        assert(t.last() == c);
        proof {
            lemma_digits_value_prefix(d, j + 1 - start);
        }
        if acc > (u64::MAX - digit) / 10 {
            assert(digits_value(t) > u64::MAX) by (nonlinear_arith)
                requires
                    digits_value(t) == acc * 10 + digit,
                    acc > (u64::MAX - digit) / 10,
                    digit <= 9,
            ;
            assert(digits_value(t) <= digits_value(d));
            assert(digits_value(d) > u64::MAX);
            return None;
        }
        assert(acc * 10 + digit <= u64::MAX) by (nonlinear_arith)
            requires
                acc <= (u64::MAX - digit) / 10,
                digit <= 9,
        ;
        acc = acc * 10 + digit;
        j = j + 1;
    }
    assert(d.take(s.len() - start) =~= d);
    Some(acc)
}

// ---------------------------------------------------------------------------
// Suffixes, replacement and decimal output
// ---------------------------------------------------------------------------

/// `str::starts_with`.
pub open spec fn starts_with_seq(s: Seq<char>, pre: Seq<char>) -> bool {
    matches_at(s, pre, 0)
}

/// `str::ends_with`.
pub open spec fn ends_with_seq(s: Seq<char>, suf: Seq<char>) -> bool {
    suf.len() <= s.len() && s.subrange(s.len() - suf.len(), s.len() as int) == suf
}

pub fn ends_with(s: &Vec<char>, suf: &Vec<char>) -> (r: bool)
    ensures
        r == ends_with_seq(s@, suf@),
{
    if suf.len() > s.len() {
        return false;
    }
    match_at(s, suf, s.len() - suf.len())
}

/// `str::replace(pat, to)` for a non-empty `pat`: occurrences of `pat` are
/// replaced from the left, and a replaced occurrence is not searched again.
pub open spec fn replace_seq(s: Seq<char>, pat: Seq<char>, to: Seq<char>) -> Seq<char>
    decreases s.len(),
{
    if s.len() == 0 {
        seq![]
    } else if pat.len() > 0 && matches_at(s, pat, 0) {
        to + replace_seq(s.skip(pat.len() as int), pat, to)
    } else {
        seq![s[0]] + replace_seq(s.drop_first(), pat, to)
    }
}

/// `str::replace(pat, to)` over characters, for a non-empty `pat`.
pub fn replace(s: &Vec<char>, pat: &Vec<char>, to: &Vec<char>) -> (r: String)
    requires
        pat@.len() > 0,
    ensures
        r@ == replace_seq(s@, pat@, to@),
{
    let mut out = String::new();
    let mut i: usize = 0;
    assert(s@.skip(0) =~= s@);
    while i < s.len()
        invariant
            i <= s.len(),
            replace_seq(s@, pat@, to@) == out@ + replace_seq(s@.skip(i as int), pat@, to@),
        decreases s.len() - i,
    {
        let ghost rest = s@.skip(i as int);
        if pat.len() > 0 && match_at(s, pat, i) {
            assert(rest.subrange(0, pat@.len() as int) =~= s@.subrange(i as int, i + pat@.len()));
            assert(rest.skip(pat@.len() as int) =~= s@.skip(i + pat@.len()));
            let ghost out0 = out@;
            let mut j: usize = 0;
            while j < to.len()
                invariant
                    j <= to.len(),
                    out@ == out0 + to@.take(j as int),
                decreases to.len() - j,
            {
                push_char(&mut out, to[j]);
                assert(to@.take(j + 1) =~= to@.take(j as int).push(to@[j as int]));
                j = j + 1;
            }
            assert(to@.take(to@.len() as int) =~= to@);
            i = i + pat.len();
        } else {
            proof {
                if pat@.len() > 0 && matches_at(rest, pat@, 0) {
                    assert(rest.subrange(0, pat@.len() as int) =~= s@.subrange(i as int, i + pat@.len()));
                }
            }
            assert(rest.drop_first() =~= s@.skip(i + 1));
            push_char(&mut out, s[i]);
            i = i + 1;
        }
    }
    assert(s@.skip(i as int) =~= Seq::<char>::empty());
    out
}

/// The decimal digit `d` (below ten) as a character.
pub open spec fn digit_char(d: nat) -> char {
    ((48 + d) as u32) as char
}

/// `n.to_string()` for an unsigned number.
pub open spec fn decimal_seq(n: nat) -> Seq<char>
    decreases n,
{
    if n < 10 {
        seq![digit_char(n)]
    } else {
        decimal_seq(n / 10).push(digit_char(n % 10))
    }
}

/// Appends `n` in decimal.
pub fn push_decimal(s: &mut String, n: u64)
    ensures
        final(s)@ == old(s)@ + decimal_seq(n as nat),
    decreases n,
{
    if n >= 10 {
        push_decimal(s, n / 10);
    }
    let d = (n % 10) as u8;
    push_char(s, (48u8 + d) as char);
}

// ---------------------------------------------------------------------------
// Facts about known texts
// ---------------------------------------------------------------------------

/// A piece that is free of `sep` and followed by `sep` (or the end) ends
/// where `piece_end` says.
pub proof fn lemma_piece_end_at(s: Seq<char>, sep: char, i: int, e: int)
    requires
        0 <= i <= e <= s.len(),
        forall|k: int| i <= k < e ==> #[trigger] s[k] != sep,
        e == s.len() || s[e] == sep,
    ensures
        piece_end(s, sep, i) == e,
    decreases e - i,
{
    if i < e {
        lemma_piece_end_at(s, sep, i + 1, e);
    }
}

/// A line `a` (without `'\n'`, not ending in `'\r'`) followed by a newline at
/// position `i` is the first of the lines from `i`.
pub proof fn lemma_lines_cons(s: Seq<char>, i: int, a: Seq<char>)
    requires
        0 <= i,
        i + a.len() < s.len(),
        s.subrange(i, i + a.len()) == a,
        s[i + a.len()] == '\n',
        forall|k: int| 0 <= k < a.len() ==> #[trigger] a[k] != '\n',
        a.len() == 0 || a.last() != '\r',
    ensures
        lines_from(s, i) == seq![a] + lines_from(s, i + a.len() + 1),
{
    assert forall|k: int| i <= k < i + a.len() implies #[trigger] s[k] != '\n' by {
        assert(s.subrange(i, i + a.len())[k - i] == s[k]);
    }
    lemma_piece_end_at(s, '\n', i, i + a.len());
}

/// Text without white space is its own trim.
pub proof fn lemma_trim_plain(s: Seq<char>)
    requires
        forall|k: int| 0 <= k < s.len() ==> !is_white_space(#[trigger] s[k]),
    ensures
        trim_seq(s) == s,
{
    assert(lead_end(s, 0) == 0);
    assert(trail_end(s, 0, s.len() as int) == s.len());
    assert(s.subrange(0, s.len() as int) =~= s);
}

/// The decimal form of a number is a non-empty run of digits that writes it.
pub proof fn lemma_decimal(n: nat)
    ensures
        decimal_seq(n).len() > 0,
        all_dec_digits(decimal_seq(n)),
        digits_value(decimal_seq(n)) == n,
    decreases n,
{
    assert((digit_char(n % 10) as u32) == 48 + n % 10);
    if n >= 10 {
        lemma_decimal(n / 10);
        let d = decimal_seq(n);
        assert(d.drop_last() =~= decimal_seq(n / 10));
        assert(d.last() == digit_char(n % 10));
        assert(digits_value(d) == digits_value(decimal_seq(n / 10)) * 10 + n % 10);
        assert((n / 10) * 10 + n % 10 == n);
        assert forall|k: int| 0 <= k < d.len() implies is_dec_digit(#[trigger] d[k]) by {
            if k < d.len() - 1 {
                assert(d[k] == decimal_seq(n / 10)[k]);
            }
        }
    } else {
        let d = decimal_seq(n);
        assert(d.drop_last() =~= Seq::<char>::empty());
        assert(digits_value(d.drop_last()) == 0);
    }
}

/// A number written in decimal reads back as itself.
pub proof fn lemma_parse_decimal(n: u64)
    ensures
        parse_u64_seq(decimal_seq(n as nat)) == Some(n),
        forall|k: int| 0 <= k < decimal_seq(n as nat).len() ==> !is_white_space(#[trigger] decimal_seq(n as nat)[k]),
{
    lemma_decimal(n as nat);
    let d = decimal_seq(n as nat);
    assert(is_dec_digit(d[0]));
    assert(unsigned_digits(d) == d);
    assert forall|k: int| 0 <= k < d.len() implies !is_white_space(#[trigger] d[k]) by {
        assert(is_dec_digit(d[k]));
    }
}

// ---------------------------------------------------------------------------
// Search, trimming and white space around a text
// ---------------------------------------------------------------------------

/// The first match at or after `i` is where `find_from` says.
pub proof fn lemma_find_from_at(s: Seq<char>, pat: Seq<char>, i: int, m: int)
    requires
        0 <= i <= m,
        matches_at(s, pat, m),
        forall|j: int| i <= j < m ==> !#[trigger] matches_at(s, pat, j),
    ensures
        find_from(s, pat, i) == Some(m),
    decreases m - i,
{
    if i < m {
        lemma_find_from_at(s, pat, i + 1, m);
    }
}

/// With no match at or after `i`, `find_from` finds nothing.
pub proof fn lemma_find_from_none(s: Seq<char>, pat: Seq<char>, i: int)
    requires
        0 <= i,
        forall|j: int| i <= j ==> !#[trigger] matches_at(s, pat, j),
    ensures
        find_from(s, pat, i) is None,
    decreases s.len() + 1 - i,
{
    if i + pat.len() <= s.len() {
        assert(!matches_at(s, pat, i));
        lemma_find_from_none(s, pat, i + 1);
    }
}

/// Text padded with white space holds a two-character pattern without white
/// space exactly where the text holds it; so the part before the pattern
/// keeps its leading padding, and keeps the trailing padding only when the
/// pattern does not occur.
pub proof fn lemma_before_padded(w1: Seq<char>, x: Seq<char>, w2: Seq<char>, pat: Seq<char>)
    requires
        pat.len() == 2,
        !is_white_space(pat[0]),
        !is_white_space(pat[1]),
        forall|k: int| 0 <= k < w1.len() ==> is_white_space(#[trigger] w1[k]),
        forall|k: int| 0 <= k < w2.len() ==> is_white_space(#[trigger] w2[k]),
    ensures
        before_seq(w1 + x + w2, pat) == w1 + before_seq(x, pat) + (if find_seq(x, pat) is Some {
            Seq::<char>::empty()
        } else {
            w2
        }),
{
    let s = w1 + x + w2;
    let n1 = w1.len() as int;
    let xl = x.len() as int;
    assert forall|j: int| #[trigger] matches_at(s, pat, j) <==> (j >= n1 && matches_at(x, pat, j - n1)) by {
        if matches_at(s, pat, j) {
            assert(s.subrange(j, j + 2)[0] == pat[0]);
            assert(s.subrange(j, j + 2)[1] == pat[1]);
            assert(s[j] == pat[0] && s[j + 1] == pat[1]);
            if j < n1 {
                assert(s[j] == w1[j]);
            }
            if j + 1 >= n1 + xl {
                assert(s[j + 1] == w2[j + 1 - n1 - xl]);
            }
            assert(x.subrange(j - n1, j - n1 + 2) =~= s.subrange(j, j + 2));
        }
        if j >= n1 && matches_at(x, pat, j - n1) {
            assert(x.subrange(j - n1, j - n1 + 2) =~= s.subrange(j, j + 2));
        }
    }
    lemma_find_from(x, pat, 0);
    match find_seq(x, pat) {
        Some(k) => {
            assert(matches_at(s, pat, n1 + k));
            assert forall|j: int| 0 <= j < n1 + k implies !#[trigger] matches_at(s, pat, j) by {
                if matches_at(s, pat, j) {
                    assert(matches_at(x, pat, j - n1));
                }
            }
            lemma_find_from_at(s, pat, 0, n1 + k);
            assert(s.take(n1 + k) =~= w1 + x.take(k) + Seq::<char>::empty());
        },
        None => {
            assert forall|j: int| 0 <= j implies !#[trigger] matches_at(s, pat, j) by {
                if matches_at(s, pat, j) {
                    assert(matches_at(x, pat, j - n1));
                }
            }
            lemma_find_from_none(s, pat, 0);
        },
    }
}

pub proof fn lemma_lead_end(s: Seq<char>, i: int)
    requires
        0 <= i <= s.len(),
    ensures
        i <= lead_end(s, i) <= s.len(),
        forall|k: int| i <= k < lead_end(s, i) ==> is_white_space(#[trigger] s[k]),
        lead_end(s, i) < s.len() ==> !is_white_space(s[lead_end(s, i)]),
    decreases s.len() - i,
{
    if i < s.len() && is_white_space(s[i]) {
        lemma_lead_end(s, i + 1);
    }
}

pub proof fn lemma_trail_end(s: Seq<char>, lo: int, j: int)
    requires
        0 <= lo <= j <= s.len(),
    ensures
        lo <= trail_end(s, lo, j) <= j,
        forall|k: int| trail_end(s, lo, j) <= k < j ==> is_white_space(#[trigger] s[k]),
        trail_end(s, lo, j) > lo ==> !is_white_space(s[trail_end(s, lo, j) - 1]),
    decreases j - lo,
{
    if j > lo && is_white_space(s[j - 1]) {
        lemma_trail_end(s, lo, j - 1);
    }
}

/// `lead_end` is the first index from `i` on that holds no white space.
pub proof fn lemma_lead_end_at(s: Seq<char>, i: int, l: int)
    requires
        0 <= i <= l <= s.len(),
        forall|k: int| i <= k < l ==> is_white_space(#[trigger] s[k]),
        l == s.len() || !is_white_space(s[l]),
    ensures
        lead_end(s, i) == l,
    decreases l - i,
{
    if i < l {
        lemma_lead_end_at(s, i + 1, l);
    }
}

/// `trail_end` is the last end before `j` not preceded by white space.
pub proof fn lemma_trail_end_at(s: Seq<char>, lo: int, j: int, t: int)
    requires
        0 <= lo <= t <= j <= s.len(),
        forall|k: int| t <= k < j ==> is_white_space(#[trigger] s[k]),
        t == lo || !is_white_space(s[t - 1]),
    ensures
        trail_end(s, lo, j) == t,
    decreases j - t,
{
    if t < j {
        lemma_trail_end_at(s, lo, j - 1, t);
    }
}

/// White space around a text does not change its trim.
pub proof fn lemma_trim_padded(w1: Seq<char>, x: Seq<char>, w2: Seq<char>)
    requires
        forall|k: int| 0 <= k < w1.len() ==> is_white_space(#[trigger] w1[k]),
        forall|k: int| 0 <= k < w2.len() ==> is_white_space(#[trigger] w2[k]),
    ensures
        trim_seq(w1 + x + w2) == trim_seq(x),
{
    let s = w1 + x + w2;
    let n1 = w1.len() as int;
    let xl = x.len() as int;
    lemma_lead_end(x, 0);
    let lx = lead_end(x, 0);
    if lx == xl {
        assert forall|k: int| 0 <= k < s.len() implies is_white_space(#[trigger] s[k]) by {
            if k < n1 {
                assert(s[k] == w1[k]);
            } else if k < n1 + xl {
                assert(s[k] == x[k - n1]);
            } else {
                assert(s[k] == w2[k - n1 - xl]);
            }
        }
        lemma_lead_end_at(s, 0, s.len() as int);
        assert(trim_seq(s) =~= Seq::<char>::empty());
        assert(trim_seq(x) =~= Seq::<char>::empty());
    } else {
        assert forall|k: int| 0 <= k < n1 + lx implies is_white_space(#[trigger] s[k]) by {
            if k < n1 {
                assert(s[k] == w1[k]);
            } else {
                assert(s[k] == x[k - n1]);
            }
        }
        assert(s[n1 + lx] == x[lx]);
        lemma_lead_end_at(s, 0, n1 + lx);
        lemma_trail_end(x, lx, xl);
        let tx = trail_end(x, lx, xl);
        assert(tx > lx) by {
            if tx == lx {
                assert(is_white_space(x[lx]));
            }
        }
        assert forall|k: int| n1 + tx <= k < s.len() implies is_white_space(#[trigger] s[k]) by {
            if k < n1 + xl {
                assert(s[k] == x[k - n1]);
            } else {
                assert(s[k] == w2[k - n1 - xl]);
            }
        }
        assert(s[n1 + tx - 1] == x[tx - 1]);
        lemma_trail_end_at(s, n1 + lx, s.len() as int, n1 + tx);
        assert(s.subrange(n1 + lx, n1 + tx) =~= x.subrange(lx, tx));
    }
}

/// Before a text with no `/`, a pattern that starts with `/` cannot begin:
/// the part before its first occurrence keeps that text whole.
pub proof fn lemma_before_after_slashless(l: Seq<char>, y: Seq<char>, pat: Seq<char>)
    requires
        forall|k: int| 0 <= k < l.len() ==> #[trigger] l[k] != '/',
        pat.len() == 2,
        pat[0] == '/',
    ensures
        before_seq(l + y, pat) == l + before_seq(y, pat),
{
    let s = l + y;
    let n = l.len() as int;
    assert forall|j: int| #[trigger] matches_at(s, pat, j) <==> (j >= n && matches_at(y, pat, j - n)) by {
        if matches_at(s, pat, j) {
            assert(s.subrange(j, j + 2)[0] == pat[0]);
            if j < n {
                assert(s[j] == l[j]);
            }
            assert(y.subrange(j - n, j - n + 2) =~= s.subrange(j, j + 2));
        }
        if j >= n && matches_at(y, pat, j - n) {
            assert(y.subrange(j - n, j - n + 2) =~= s.subrange(j, j + 2));
        }
    }
    lemma_find_from(y, pat, 0);
    match find_seq(y, pat) {
        Some(k) => {
            assert(matches_at(s, pat, n + k));
            assert forall|j: int| 0 <= j < n + k implies !#[trigger] matches_at(s, pat, j) by {
                if matches_at(s, pat, j) {
                    assert(matches_at(y, pat, j - n));
                }
            }
            lemma_find_from_at(s, pat, 0, n + k);
            assert(s.take(n + k) =~= l + y.take(k));
        },
        None => {
            assert forall|j: int| 0 <= j implies !#[trigger] matches_at(s, pat, j) by {
                if matches_at(s, pat, j) {
                    assert(matches_at(y, pat, j - n));
                }
            }
            lemma_find_from_none(s, pat, 0);
        },
    }
}

} // verus!
