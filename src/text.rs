//! Character-level helpers on paths and file names.
use vstd::prelude::*;

verus! {

/// Relies on `String::push`: appends one character at the end.
pub assume_specification[ String::push ](s: &mut String, ch: char)
    ensures
        final(s)@ == old(s)@.push(ch),
;

/// Relies on `str::chars`: the characters of `s`, in order.
#[verifier::external_body]
pub fn chars_of(s: &str) -> (r: Vec<char>)
    ensures
        r@ == s@,
{
    s.chars().collect()
}

/// Name for what `str::to_lowercase` returns on a character sequence.
pub uninterp spec fn lower_of(s: Seq<char>) -> Seq<char>;

/// Relies on `str::to_lowercase`: Unicode lowercase mapping of the whole text.
#[verifier::external_body]
pub fn lowercase(s: &str) -> (r: String)
    ensures
        r@ == lower_of(s@),
{
    s.to_lowercase()
}

/// Unicode `White_Space` characters, which `str::trim` removes.
pub open spec fn is_ws(c: char) -> bool {
    c == ' ' || c == '\t' || c == '\n' || c == '\r' || c == '\x0B' || c == '\x0C' || c
        == '\u{85}' || c == '\u{A0}' || c == '\u{1680}' || ('\u{2000}' <= c && c <= '\u{200A}')
        || c == '\u{2028}' || c == '\u{2029}' || c == '\u{202F}' || c == '\u{205F}' || c
        == '\u{3000}'
}

pub open spec fn trim_start(s: Seq<char>) -> Seq<char>
    decreases s.len(),
{
    if s.len() > 0 && is_ws(s[0]) {
        trim_start(s.drop_first())
    } else {
        s
    }
}

pub open spec fn trim_end(s: Seq<char>) -> Seq<char>
    decreases s.len(),
{
    if s.len() > 0 && is_ws(s.last()) {
        trim_end(s.drop_last())
    } else {
        s
    }
}

/// What `str::trim` leaves of `s`.
pub open spec fn trim(s: Seq<char>) -> Seq<char> {
    trim_end(trim_start(s))
}

/// `s` with every leading `c` removed.
pub open spec fn strip_leading(s: Seq<char>, c: char) -> Seq<char>
    decreases s.len(),
{
    if s.len() > 0 && s[0] == c {
        strip_leading(s.drop_first(), c)
    } else {
        s
    }
}

/// `s` with every leading `/` and `./` removed, in any interleaving.
pub open spec fn strip_root(s: Seq<char>) -> Seq<char>
    decreases s.len(),
{
    if s.len() >= 1 && s[0] == '/' {
        strip_root(s.drop_first())
    } else if s.len() >= 2 && s[0] == '.' && s[1] == '/' {
        strip_root(s.skip(2))
    } else {
        s
    }
}

pub open spec fn slash_of(c: char) -> char {
    if c == '\\' {
        '/'
    } else {
        c
    }
}

/// A member path normalised: trimmed, backslashes turned into forward slashes, then every
/// leading `/` and `./` removed.
pub open spec fn normalized_path(s: Seq<char>) -> Seq<char> {
    strip_root(trim(s).map_values(|c: char| slash_of(c)))
}

proof fn lemma_strip_root_shape(s: Seq<char>)
    requires
        forall|i: int| 0 <= i < s.len() ==> s[i] != '\\',
    ensures
        !(strip_root(s).len() >= 1 && strip_root(s)[0] == '/'),
        !(strip_root(s).len() >= 2 && strip_root(s)[0] == '.' && strip_root(s)[1] == '/'),
        forall|i: int| 0 <= i < strip_root(s).len() ==> strip_root(s)[i] != '\\',
    decreases s.len(),
{
    if s.len() >= 1 && s[0] == '/' {
        lemma_strip_root_shape(s.drop_first());
    } else if s.len() >= 2 && s[0] == '.' && s[1] == '/' {
        lemma_strip_root_shape(s.skip(2));
    }
}

/// A normalised path starts with neither `/` nor `./` and holds no backslash.
pub proof fn lemma_normalized_shape(s: Seq<char>)
    ensures
        !(normalized_path(s).len() >= 1 && normalized_path(s)[0] == '/'),
        !(normalized_path(s).len() >= 2 && normalized_path(s)[0] == '.' && normalized_path(s)[1] == '/'),
        forall|i: int| 0 <= i < normalized_path(s).len() ==> normalized_path(s)[i] != '\\',
{
    lemma_strip_root_shape(trim(s).map_values(|c: char| slash_of(c)));
}

pub open spec fn ascii_lower_char(c: char) -> char {
    if 'A' <= c && c <= 'Z' {
        ((c as u8) + 32) as char
    } else {
        c
    }
}

/// What `str::to_ascii_lowercase` returns.
pub open spec fn ascii_lower(s: Seq<char>) -> Seq<char> {
    s.map_values(|c: char| ascii_lower_char(c))
}

/// Index of the last `c` in `s`, or -1.
pub open spec fn last_index_of(s: Seq<char>, c: char) -> int
    decreases s.len(),
{
    if s.len() == 0 {
        -1
    } else if s.last() == c {
        s.len() - 1
    } else {
        last_index_of(s.drop_last(), c)
    }
}

/// Index of the first `c` in `s`, or -1.
pub open spec fn first_index_of(s: Seq<char>, c: char) -> int
    decreases s.len(),
{
    if s.len() == 0 {
        -1
    } else if s[0] == c {
        0
    } else if first_index_of(s.drop_first(), c) < 0 {
        -1
    } else {
        first_index_of(s.drop_first(), c) + 1
    }
}

pub open spec fn ends_with(s: Seq<char>, suffix: Seq<char>) -> bool {
    suffix.len() <= s.len() && s.subrange(s.len() - suffix.len(), s.len() as int) == suffix
}

pub open spec fn starts_with(s: Seq<char>, prefix: Seq<char>) -> bool {
    prefix.len() <= s.len() && s.subrange(0, prefix.len() as int) == prefix
}

pub open spec fn contains(s: Seq<char>, needle: Seq<char>) -> bool {
    exists|i: int| 0 <= i && i + needle.len() <= s.len() && #[trigger] s.subrange(i, i + needle.len()) == needle
}

pub fn is_ws_char(c: char) -> (r: bool)
    ensures
        r == is_ws(c),
{
    c == ' ' || c == '\t' || c == '\n' || c == '\r' || c == '\x0B' || c == '\x0C' || c == '\u{85}'
        || c == '\u{A0}' || c == '\u{1680}' || ('\u{2000}' <= c && c <= '\u{200A}') || c
        == '\u{2028}' || c == '\u{2029}' || c == '\u{202F}' || c == '\u{205F}' || c == '\u{3000}'
}

/// Bounds `[start, end)` of the trimmed part of `v`.
pub fn trim_bounds(v: &Vec<char>, lo: usize, hi: usize) -> (r: (usize, usize))
    requires
        lo <= hi <= v@.len(),
    ensures
        lo <= r.0 <= r.1 <= hi,
        v@.subrange(r.0 as int, r.1 as int) == trim(v@.subrange(lo as int, hi as int)),
{
    let mut i = lo;
    while i < hi && is_ws_char(v[i])
        invariant
            lo <= i <= hi <= v@.len(),
            trim_start(v@.subrange(i as int, hi as int)) == trim_start(v@.subrange(lo as int, hi as int)),
        decreases hi - i,
    {
        assert(v@.subrange(i as int, hi as int).drop_first() == v@.subrange(i + 1, hi as int));
        i = i + 1;
    }
    let mut j = hi;
    while j > i && is_ws_char(v[j - 1])
        invariant
            lo <= i <= j <= hi <= v@.len(),
            trim_end(v@.subrange(i as int, j as int)) == trim(v@.subrange(lo as int, hi as int)),
        decreases j - i,
    {
        assert(v@.subrange(i as int, j as int).drop_last() == v@.subrange(i as int, j - 1));
        j = j - 1;
    }
    (i, j)
}

/// The characters `v[lo..hi]` as a `String`.
pub fn string_from(v: &Vec<char>, lo: usize, hi: usize) -> (r: String)
    requires
        lo <= hi <= v@.len(),
    ensures
        r@ == v@.subrange(lo as int, hi as int),
{
    let mut out = String::new();
    let mut i = lo;
    while i < hi
        invariant
            lo <= i <= hi <= v@.len(),
            out@ == v@.subrange(lo as int, i as int),
        decreases hi - i,
    {
        out.push(v[i]);
        assert(v@.subrange(lo as int, i + 1) == v@.subrange(lo as int, i as int).push(v@[i as int]));
        i = i + 1;
    }
    out
}

/// Whether `v` holds exactly the characters of `lit`.
pub fn seq_eq_str(v: &Vec<char>, lo: usize, hi: usize, lit: &str) -> (r: bool)
    requires
        lo <= hi <= v@.len(),
    ensures
        r == (v@.subrange(lo as int, hi as int) == lit@),
{
    let n = lit.unicode_len();
    if hi - lo != n {
        return false;
    }
    let mut k: usize = 0;
    while k < n
        invariant
            n == lit@.len(),
            hi - lo == n,
            lo <= hi <= v@.len(),
            k <= n,
            forall|t: int| 0 <= t < k ==> v@[lo + t] == lit@[t],
        decreases n - k,
    {
        if v[lo + k] != lit.get_char(k) {
            return false;
        }
        k = k + 1;
    }
    assert(v@.subrange(lo as int, hi as int) =~= lit@);
    true
}

/// Whether `v[lo..hi]` ends with the characters of `suffix`.
pub fn ends_with_str(v: &Vec<char>, lo: usize, hi: usize, suffix: &str) -> (r: bool)
    requires
        lo <= hi <= v@.len(),
    ensures
        r == ends_with(v@.subrange(lo as int, hi as int), suffix@),
{
    let n = suffix.unicode_len();
    if n > hi - lo {
        return false;
    }
    let r = seq_eq_str(v, hi - n, hi, suffix);
    assert(v@.subrange(lo as int, hi as int).subrange(hi - lo - n, hi - lo) == v@.subrange(hi - n, hi as int));
    r
}

/// Whether `v[lo..hi]` contains the characters of `needle` somewhere.
pub fn contains_str(v: &Vec<char>, lo: usize, hi: usize, needle: &str) -> (r: bool)
    requires
        lo <= hi <= v@.len(),
    ensures
        r == contains(v@.subrange(lo as int, hi as int), needle@),
{
    let ghost s = v@.subrange(lo as int, hi as int);
    let n = needle.unicode_len();
    if n > hi - lo {
        assert(!contains(s, needle@));
        return false;
    }
    if n == 0 {
        assert(s.subrange(0, 0) =~= needle@);
        assert(s.subrange(0, 0 + needle@.len() as int) == needle@);
        return true;
    }
    let mut i = lo;
    while i <= hi - n
        invariant
            n == needle@.len(),
            n > 0,
            lo <= i,
            i <= hi - n + 1,
            n <= hi - lo,
            hi <= v@.len(),
            s == v@.subrange(lo as int, hi as int),
            forall|t: int| 0 <= t < i - lo ==> #[trigger] s.subrange(t, t + n) != needle@,
        decreases hi - i,
    {
        assert(s.subrange(i - lo, i - lo + n) == v@.subrange(i as int, i + n));
        if seq_eq_str(v, i, i + n, needle) {
            return true;
        }
        i = i + 1;
    }
    assert forall|t: int| 0 <= t && t + needle@.len() <= s.len() implies #[trigger] s.subrange(t, t + needle@.len()) != needle@ by {
        assert(t < i - lo);
    }
    false
}

/// The characters of `s`, ASCII-lowercased.
pub fn ascii_lowercase(v: &Vec<char>, lo: usize, hi: usize) -> (r: Vec<char>)
    requires
        lo <= hi <= v@.len(),
    ensures
        r@ == ascii_lower(v@.subrange(lo as int, hi as int)),
{
    let mut out: Vec<char> = Vec::new();
    let mut i = lo;
    while i < hi
        invariant
            lo <= i <= hi <= v@.len(),
            out@ == ascii_lower(v@.subrange(lo as int, i as int)),
        decreases hi - i,
    {
        let c = v[i];
        let l = if 'A' <= c && c <= 'Z' {
            ((c as u8) + 32) as char
        } else {
            c
        };
        out.push(l);
        assert(ascii_lower(v@.subrange(lo as int, i + 1)) == ascii_lower(v@.subrange(lo as int, i as int)).push(l));
        i = i + 1;
    }
    out
}

} // verus!
