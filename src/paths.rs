//! Member paths, file names and extensions.
use vstd::prelude::*;

use crate::text::{
    ascii_lower, ascii_lowercase, chars_of, contains, contains_str, ends_with, ends_with_str,
    last_index_of, first_index_of, lower_of, lowercase, seq_eq_str, strip_root, strip_leading,
    trim, trim_bounds, normalized_path, slash_of, string_from,
};

verus! {

/// The part of `s` after the last `c` (all of `s` when there is none).
pub open spec fn after_last(s: Seq<char>, c: char) -> Seq<char> {
    s.subrange(last_index_of(s, c) + 1, s.len() as int)
}

/// Index (relative to `lo`) of the last `c` in `v[lo..hi]`, or `None`.
pub fn find_last(v: &Vec<char>, lo: usize, hi: usize, c: char) -> (r: Option<usize>)
    requires
        lo <= hi <= v@.len(),
    ensures
        r is None <==> last_index_of(v@.subrange(lo as int, hi as int), c) < 0,
        r is Some ==> r->Some_0 as int == last_index_of(v@.subrange(lo as int, hi as int), c),
        r is Some ==> r->Some_0 < hi - lo,
{
    let mut j = hi;
    while j > lo
        invariant
            lo <= j <= hi <= v@.len(),
            last_index_of(v@.subrange(lo as int, hi as int), c) == last_index_of(
                v@.subrange(lo as int, j as int),
                c,
            ),
        decreases j - lo,
    {
        if v[j - 1] == c {
            return Some(j - 1 - lo);
        }
        assert(v@.subrange(lo as int, j as int).drop_last() == v@.subrange(lo as int, j - 1));
        j = j - 1;
    }
    None
}

/// Index (relative to `lo`) of the first `c` in `v[lo..hi]`, or `None`.
pub fn find_first(v: &Vec<char>, lo: usize, hi: usize, c: char) -> (r: Option<usize>)
    requires
        lo <= hi <= v@.len(),
    ensures
        r is None <==> first_index_of(v@.subrange(lo as int, hi as int), c) < 0,
        r is Some ==> r->Some_0 as int == first_index_of(v@.subrange(lo as int, hi as int), c),
        r is Some ==> r->Some_0 < hi - lo,
{
    let mut i = lo;
    while i < hi
        invariant
            lo <= i <= hi <= v@.len(),
            first_index_of(v@.subrange(lo as int, hi as int), c) == (if first_index_of(
                v@.subrange(i as int, hi as int),
                c,
            ) < 0 {
                -1
            } else {
                first_index_of(v@.subrange(i as int, hi as int), c) + (i - lo)
            }),
        decreases hi - i,
    {
        if v[i] == c {
            return Some(i - lo);
        }
        assert(v@.subrange(i as int, hi as int).drop_first() == v@.subrange(i + 1, hi as int));
        i = i + 1;
    }
    assert(v@.subrange(i as int, hi as int).len() == 0);
    None
}

/// Bounds of `v[lo..hi]` once every leading `c` is removed.
pub fn skip_leading(v: &Vec<char>, lo: usize, hi: usize, c: char) -> (r: usize)
    requires
        lo <= hi <= v@.len(),
    ensures
        lo <= r <= hi,
        v@.subrange(r as int, hi as int) == strip_leading(v@.subrange(lo as int, hi as int), c),
{
    let mut i = lo;
    while i < hi && v[i] == c
        invariant
            lo <= i <= hi <= v@.len(),
            strip_leading(v@.subrange(i as int, hi as int), c) == strip_leading(
                v@.subrange(lo as int, hi as int),
                c,
            ),
        decreases hi - i,
    {
        assert(v@.subrange(i as int, hi as int).drop_first() == v@.subrange(i + 1, hi as int));
        i = i + 1;
    }
    i
}

/// Normalises a member path: trims it, removes leading `./` and `/`, and turns
/// backslashes into forward slashes.
pub fn normalize_member_path_str(path: &str) -> (r: String)
    ensures
        r@ == normalized_path(path@),
{
    let v = chars_of(path);
    let (lo, hi) = trim_bounds(&v, 0, v.len());
    assert(v@.subrange(0, v@.len() as int) == v@);
    let mut m: Vec<char> = Vec::new();
    let mut i = lo;
    while i < hi
        invariant
            lo <= i <= hi <= v@.len(),
            m@ == v@.subrange(lo as int, i as int).map_values(|c: char| slash_of(c)),
        decreases hi - i,
    {
        let c = v[i];
        m.push(if c == '\\' { '/' } else { c });
        assert(v@.subrange(lo as int, i + 1).map_values(|c: char| slash_of(c)) == v@.subrange(
            lo as int,
            i as int,
        ).map_values(|c: char| slash_of(c)).push(slash_of(c)));
        i = i + 1;
    }
    let n = m.len();
    let mut a: usize = 0;
    assert(m@.subrange(0, n as int) == m@);
    while (a < n && m[a] == '/') || (n - a >= 2 && m[a] == '.' && m[a + 1] == '/')
        invariant
            a <= n == m@.len(),
            strip_root(m@.subrange(a as int, n as int)) == strip_root(m@),
        decreases n - a,
    {
        if m[a] == '/' {
            assert(m@.subrange(a as int, n as int).drop_first() == m@.subrange(a + 1, n as int));
            a = a + 1;
        } else {
            assert(m@.subrange(a as int, n as int).skip(2) == m@.subrange(a + 2, n as int));
            a = a + 2;
        }
    }
    string_from(&m, a, n)
}

/// The lowercase extension of a file name, as `ext_from_filename` computes it.
pub open spec fn file_ext(name: Seq<char>) -> Option<Seq<char>> {
    let base = after_last(trim(name), '/');
    let ext = if last_index_of(base, '.') < 0 {
        Seq::<char>::empty()
    } else {
        after_last(base, '.')
    };
    let cleaned = ascii_lower(strip_leading(trim(ext), '.'));
    if cleaned.len() == 0 {
        None
    } else {
        Some(cleaned)
    }
}

/// Extension of the last path component of `name` (after its last `.`), trimmed,
/// without leading dots and ASCII-lowercased; `None` when that is empty.
pub fn ext_from_filename(name: &str) -> (r: Option<String>)
    ensures
        r is None <==> file_ext(name@) is None,
        r is Some ==> r->Some_0@ == file_ext(name@)->Some_0,
{
    let v = chars_of(name);
    let (lo, hi) = trim_bounds(&v, 0, v.len());
    assert(v@.subrange(0, v@.len() as int) == v@);
    let ghost t = trim(name@);
    proof {
        lemma_last_index_in_range(t, '/');
    }
    let base_lo = match find_last(&v, lo, hi, '/') {
        Some(k) => lo + k + 1,
        None => lo,
    };
    let ghost base = after_last(t, '/');
    assert(v@.subrange(base_lo as int, hi as int) == base);
    proof {
        lemma_last_index_in_range(base, '.');
    }
    let (elo, ehi) = match find_last(&v, base_lo, hi, '.') {
        Some(k) => (base_lo + k + 1, hi),
        None => (hi, hi),
    };
    let ghost ext = if last_index_of(base, '.') < 0 {
        Seq::<char>::empty()
    } else {
        after_last(base, '.')
    };
    assert(v@.subrange(elo as int, ehi as int) == ext);
    let (tlo, thi) = trim_bounds(&v, elo, ehi);
    let slo = skip_leading(&v, tlo, thi, '.');
    let lowered = ascii_lowercase(&v, slo, thi);
    if lowered.len() == 0 {
        None
    } else {
        Some(string_from(&lowered, 0, lowered.len()))
    }
}

proof fn lemma_last_index_in_range(s: Seq<char>, c: char)
    ensures
        -1 <= last_index_of(s, c) < s.len(),
    decreases s.len(),
{
    if s.len() > 0 && s.last() != c {
        lemma_last_index_in_range(s.drop_last(), c);
    }
}

/// MIME type served for a media extension.
pub open spec fn mime_of(e: Seq<char>) -> Seq<char> {
    if e == "mp4"@ {
        "video/mp4"@
    } else if e == "wav"@ {
        "audio/wav"@
    } else if e == "mp3"@ {
        "audio/mpeg"@
    } else if e == "flac"@ {
        "audio/flac"@
    } else if e == "m4a"@ {
        "audio/mp4"@
    } else if e == "ogg"@ {
        "audio/ogg"@
    } else if e == "opus"@ {
        "audio/opus"@
    } else if e == "aac"@ {
        "audio/aac"@
    } else {
        "application/octet-stream"@
    }
}

/// MIME type for an extension, after trimming, removing leading dots and
/// ASCII-lowercasing it.
pub fn mime_for_ext(ext: &str) -> (r: &'static str)
    ensures
        r@ == mime_of(ascii_lower(strip_leading(trim(ext@), '.'))),
{
    let v = chars_of(ext);
    let (lo, hi) = trim_bounds(&v, 0, v.len());
    assert(v@.subrange(0, v@.len() as int) == v@);
    let s = skip_leading(&v, lo, hi, '.');
    let e = ascii_lowercase(&v, s, hi);
    let n = e.len();
    assert(e@.subrange(0, n as int) == e@);
    if seq_eq_str(&e, 0, n, "mp4") {
        "video/mp4"
    } else if seq_eq_str(&e, 0, n, "wav") {
        "audio/wav"
    } else if seq_eq_str(&e, 0, n, "mp3") {
        "audio/mpeg"
    } else if seq_eq_str(&e, 0, n, "flac") {
        "audio/flac"
    } else if seq_eq_str(&e, 0, n, "m4a") {
        "audio/mp4"
    } else if seq_eq_str(&e, 0, n, "ogg") {
        "audio/ogg"
    } else if seq_eq_str(&e, 0, n, "opus") {
        "audio/opus"
    } else if seq_eq_str(&e, 0, n, "aac") {
        "audio/aac"
    } else {
        "application/octet-stream"
    }
}

/// Extensions whose bytes are kept for inline playback.
pub open spec fn is_media_ext(e: Seq<char>) -> bool {
    e == "mp4"@ || e == "wav"@ || e == "mp3"@ || e == "flac"@ || e == "m4a"@ || e == "ogg"@ || e
        == "opus"@ || e == "aac"@
}

/// Whether `ext` names a playable media type.
pub fn is_media_extension(ext: &str) -> (r: bool)
    ensures
        r == is_media_ext(ext@),
{
    let e = chars_of(ext);
    let n = e.len();
    assert(e@.subrange(0, n as int) == e@);
    seq_eq_str(&e, 0, n, "mp4") || seq_eq_str(&e, 0, n, "wav") || seq_eq_str(&e, 0, n, "mp3")
        || seq_eq_str(&e, 0, n, "flac") || seq_eq_str(&e, 0, n, "m4a") || seq_eq_str(
        &e,
        0,
        n,
        "ogg",
    ) || seq_eq_str(&e, 0, n, "opus") || seq_eq_str(&e, 0, n, "aac")
}

/// The archive suffixes read as TAR streams (plain, gzip, zstd).
pub open spec fn has_tar_suffix(l: Seq<char>) -> bool {
    ends_with(l, ".tar"@) || ends_with(l, ".tar.gz"@) || ends_with(l, ".tgz"@) || ends_with(
        l,
        ".tar.zst"@,
    ) || ends_with(l, ".tar.zstd"@)
}

fn tar_suffixed(v: &Vec<char>) -> (r: bool)
    ensures
        r == has_tar_suffix(v@),
{
    let n = v.len();
    assert(v@.subrange(0, n as int) == v@);
    ends_with_str(v, 0, n, ".tar") || ends_with_str(v, 0, n, ".tar.gz") || ends_with_str(
        v,
        0,
        n,
        ".tgz",
    ) || ends_with_str(v, 0, n, ".tar.zst") || ends_with_str(v, 0, n, ".tar.zstd")
}

/// Whether a remote file name denotes a TAR archive (trimmed, ASCII-lowercased).
pub fn looks_like_tar(filename: &str) -> (r: bool)
    ensures
        r == has_tar_suffix(ascii_lower(trim(filename@))),
{
    let v = chars_of(filename);
    let (lo, hi) = trim_bounds(&v, 0, v.len());
    assert(v@.subrange(0, v@.len() as int) == v@);
    let l = ascii_lowercase(&v, lo, hi);
    tar_suffixed(&l)
}

/// Whether a local file name denotes a WebDataset shard (a TAR archive).
pub fn looks_like_wds_shard(filename: &str) -> (r: bool)
    ensures
        r == has_tar_suffix(lower_of(filename@)),
{
    let l = lowercase(filename);
    let v = chars_of(l.as_str());
    tar_suffixed(&v)
}

/// Whether a local file name denotes an MDS shard.
pub fn looks_like_mds_shard(filename: &str) -> (r: bool)
    ensures
        r == (ends_with(lower_of(filename@), ".mds"@) || ends_with(lower_of(filename@), ".mds.zst"@)
            || ends_with(lower_of(filename@), ".mds.zstd"@)),
{
    let l = lowercase(filename);
    let v = chars_of(l.as_str());
    let n = v.len();
    assert(v@.subrange(0, n as int) == v@);
    ends_with_str(&v, 0, n, ".mds") || ends_with_str(&v, 0, n, ".mds.zst") || ends_with_str(
        &v,
        0,
        n,
        ".mds.zstd",
    )
}

/// Whether a local file name looks like a LitData index or chunk.
pub fn looks_like_litdata_file(filename: &str) -> (r: bool)
    ensures
        r == ({
            let l = lower_of(filename@);
            contains(l, "index.json"@) || ends_with(l, ".bin"@) || contains(l, ".bin."@) || (
            ends_with(l, ".zst"@) && !has_tar_suffix(lower_of(l)))
        }),
{
    let l = lowercase(filename);
    let v = chars_of(l.as_str());
    let n = v.len();
    assert(v@.subrange(0, n as int) == v@);
    if contains_str(&v, 0, n, "index.json") {
        return true;
    }
    if ends_with_str(&v, 0, n, ".bin") || contains_str(&v, 0, n, ".bin.") {
        return true;
    }
    if ends_with_str(&v, 0, n, ".zst") && !looks_like_wds_shard(l.as_str()) {
        return true;
    }
    false
}

/// Whether a remote file name has the `zip` extension.
pub fn looks_like_zip(filename: &str) -> (r: bool)
    ensures
        r == (file_ext(filename@) == Some("zip"@)),
{
    match ext_from_filename(filename) {
        Some(e) => {
            let v = chars_of(e.as_str());
            let n = v.len();
            assert(v@.subrange(0, n as int) == v@);
            seq_eq_str(&v, 0, n, "zip")
        },
        None => false,
    }
}

pub open spec fn is_ascii_alnum(c: char) -> bool {
    ('a' <= c && c <= 'z') || ('A' <= c && c <= 'Z') || ('0' <= c && c <= '9')
}

pub open spec fn dash_safe(c: char) -> char {
    if is_ascii_alnum(c) {
        c
    } else {
        '-'
    }
}

/// Replaces every character but ASCII letters and digits with `-`, for local file names.
pub fn sanitize(input: &str) -> (r: String)
    ensures
        r@ == input@.map_values(|c: char| dash_safe(c)),
{
    let v = chars_of(input);
    let mut out = String::new();
    let mut i: usize = 0;
    while i < v.len()
        invariant
            i <= v@.len(),
            v@ == input@,
            out@ == v@.subrange(0, i as int).map_values(|c: char| dash_safe(c)),
        decreases v@.len() - i,
    {
        let c = v[i];
        let keep = ('a' <= c && c <= 'z') || ('A' <= c && c <= 'Z') || ('0' <= c && c <= '9');
        out.push(if keep { c } else { '-' });
        assert(v@.subrange(0, i + 1).map_values(|c: char| dash_safe(c)) == v@.subrange(
            0,
            i as int,
        ).map_values(|c: char| dash_safe(c)).push(dash_safe(c)));
        i = i + 1;
    }
    assert(v@.subrange(0, v@.len() as int) == v@);
    out
}

pub open spec fn file_name_safe(c: char) -> char {
    if is_ascii_alnum(c) || c == '-' || c == '_' || c == '.' || c == '+' {
        c
    } else {
        '_'
    }
}

/// Replaces every character but ASCII letters, digits and `-_.+` with `_`, for names of
/// downloaded files.
pub fn sanitize_file_name(input: &str) -> (r: String)
    ensures
        r@ == input@.map_values(|c: char| file_name_safe(c)),
{
    let v = chars_of(input);
    let mut out = String::new();
    let mut i: usize = 0;
    while i < v.len()
        invariant
            i <= v@.len(),
            v@ == input@,
            out@ == v@.subrange(0, i as int).map_values(|c: char| file_name_safe(c)),
        decreases v@.len() - i,
    {
        let c = v[i];
        let keep = ('a' <= c && c <= 'z') || ('A' <= c && c <= 'Z') || ('0' <= c && c <= '9') || c
            == '-' || c == '_' || c == '.' || c == '+';
        out.push(if keep { c } else { '_' });
        assert(v@.subrange(0, i + 1).map_values(|c: char| file_name_safe(c)) == v@.subrange(
            0,
            i as int,
        ).map_values(|c: char| file_name_safe(c)).push(file_name_safe(c)));
        i = i + 1;
    }
    assert(v@.subrange(0, v@.len() as int) == v@);
    out
}

} // verus!
