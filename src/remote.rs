//! Helpers of the remote collaborators: `Content-Range` headers, MIME types, dataset
//! splits and repository names.
use vstd::prelude::*;

use crate::error::{invalid, missing, AppError};
use crate::paths::{find_first, is_ascii_alnum};
use crate::types::HfConfigSummary;
use crate::text::{chars_of, seq_eq_str, string_from, trim, trim_bounds, lower_of, lowercase};

verus! {

pub open spec fn is_digit(c: char) -> bool {
    '0' <= c && c <= '9'
}

pub open spec fn decimal_value(s: Seq<char>) -> nat
    decreases s.len(),
{
    if s.len() == 0 {
        0
    } else {
        decimal_value(s.drop_last()) * 10 + ((s.last() as int - 48) as nat)
    }
}

/// What `str::parse::<u64>` accepts: an optional `+` and at least one decimal digit, with
/// a value that fits.
pub open spec fn parse_u64_spec(s: Seq<char>) -> Option<u64> {
    digits_value(if s.len() > 0 && s[0] == '+' { s.drop_first() } else { s })
}

/// The value of a non-empty run of decimal digits that fits in a `u64`.
pub open spec fn digits_value(d: Seq<char>) -> Option<u64> {
    if d.len() > 0 && all_digits(d) && decimal_value(d) <= u64::MAX {
        Some(decimal_value(d) as u64)
    } else {
        None
    }
}

pub open spec fn all_digits(d: Seq<char>) -> bool {
    forall|i: int| 0 <= i < d.len() ==> is_digit(#[trigger] d[i])
}

proof fn lemma_decimal_monotone(d: Seq<char>, k: int)
    requires
        0 <= k <= d.len(),
        all_digits(d),
    ensures
        decimal_value(d) >= decimal_value(d.take(k)),
    decreases d.len() - k,
{
    if k < d.len() {
        lemma_decimal_monotone(d, k + 1);
        assert(d.take(k + 1).drop_last() == d.take(k));
    } else {
        assert(d.take(k) == d);
    }
}

/// Parses `v[lo..hi]` as an unsigned decimal number.
pub fn parse_u64(v: &Vec<char>, lo: usize, hi: usize) -> (r: Option<u64>)
    requires
        lo <= hi <= v@.len(),
    ensures
        r == parse_u64_spec(v@.subrange(lo as int, hi as int)),
{
    let ghost s = v@.subrange(lo as int, hi as int);
    let start = if lo < hi && v[lo] == '+' { lo + 1 } else { lo };
    let ghost d = v@.subrange(start as int, hi as int);
    assert(d == (if s.len() > 0 && s[0] == '+' { s.drop_first() } else { s }));
    if start == hi {
        return None;
    }
    let mut acc: u64 = 0;
    let mut i = start;
    while i < hi
        invariant
            start <= i <= hi <= v@.len(),
            start < hi,
            d == v@.subrange(start as int, hi as int),
            s == v@.subrange(lo as int, hi as int),
            d == (if s.len() > 0 && s[0] == '+' { s.drop_first() } else { s }),
            acc as nat == decimal_value(v@.subrange(start as int, i as int)),
            forall|k: int| 0 <= k < i - start ==> is_digit(#[trigger] d[k]),
        decreases hi - i,
    {
        let c = v[i];
        assert(v@.subrange(start as int, i + 1).drop_last() == v@.subrange(start as int, i as int));
        if !('0' <= c && c <= '9') {
            assert(!is_digit(d[i - start]));
            assert(!all_digits(d));
            assert(digits_value(d) is None);
            return None;
        }
        let digit = (c as u32 - 48) as u64;
        if acc > (u64::MAX - digit) / 10 {
            proof {
                let t = d.take(i - start + 1);
                assert(t == v@.subrange(start as int, i + 1));
                assert(t.drop_last() == v@.subrange(start as int, i as int));
                assert(decimal_value(t) == acc * 10 + digit);
                assert(acc * 10 + digit > u64::MAX) by (nonlinear_arith)
                    requires
                        acc > (u64::MAX - digit) / 10,
                        digit <= 9,
                ;
                if all_digits(d) {
                    lemma_decimal_monotone(d, i - start + 1);
                }
                assert(digits_value(d) is None);
            }
            return None;
        }
        acc = acc * 10 + digit;
        i = i + 1;
    }
    assert(v@.subrange(start as int, hi as int) == d);
    Some(acc)
}

/// The total length of a `Content-Range` value: what follows the first `/` up to a
/// second one, unless it is `*`.
pub open spec fn content_range_total(s: Seq<char>) -> Option<u64> {
    let k = crate::text::first_index_of(s, '/');
    if k < 0 {
        None
    } else {
        let rest = s.subrange(k + 1, s.len() as int);
        let k2 = crate::text::first_index_of(rest, '/');
        let total = if k2 < 0 { rest } else { rest.subrange(0, k2) };
        if total == "*"@ {
            None
        } else {
            parse_u64_spec(total)
        }
    }
}

proof fn lemma_first_index_range(s: Seq<char>, c: char)
    ensures
        -1 <= crate::text::first_index_of(s, c) < s.len(),
    decreases s.len(),
{
    if s.len() > 0 && s[0] != c {
        lemma_first_index_range(s.drop_first(), c);
    }
}

/// The total resource length a `Content-Range` header value discloses.
pub fn parse_content_range_total(value: &str) -> (r: Option<u64>)
    ensures
        r == content_range_total(value@),
{
    let v = chars_of(value);
    let n = v.len();
    assert(v@.subrange(0, n as int) == v@);
    let k = match find_first(&v, 0, n, '/') {
        Some(k) => k,
        None => return None,
    };
    let ghost rest = v@.subrange(k + 1, n as int);
    let end = match find_first(&v, k + 1, n, '/') {
        Some(k2) => k + 1 + k2,
        None => n,
    };
    proof {
        lemma_first_index_range(rest, '/');
    }
    assert(v@.subrange(k + 1, end as int) == (if crate::text::first_index_of(rest, '/') < 0 { rest } else { rest.subrange(0, crate::text::first_index_of(rest, '/')) }));
    if seq_eq_str(&v, k + 1, end, "*") {
        return None;
    }
    parse_u64(&v, k + 1, end)
}

/// The `(start, end, total)` of a `Content-Range` value `bytes <start>-<end>/<total>`.
pub open spec fn content_range(s: Seq<char>) -> Option<(u64, u64, u64)> {
    let t = trim(s);
    if !(t.len() >= 6 && t.subrange(0, 6) == "bytes "@) {
        None
    } else {
        range_body(t.subrange(6, t.len() as int))
    }
}

/// The `(start, end, total)` of the part of a value after `bytes `.
pub open spec fn range_body(body: Seq<char>) -> Option<(u64, u64, u64)> {
    let k = crate::text::first_index_of(body, '/');
    if k < 0 {
        None
    } else {
        let range = body.subrange(0, k);
        let dash = crate::text::first_index_of(range, '-');
        if dash < 0 {
            None
        } else {
            match (parse_u64_spec(body.subrange(k + 1, body.len() as int)), parse_u64_spec(range.subrange(0, dash)), parse_u64_spec(range.subrange(dash + 1, range.len() as int))) {
                (Some(total), Some(start), Some(end)) => Some((start, end, total)),
                _ => None,
            }
        }
    }
}

fn parse_range_body(v: &Vec<char>, b: usize, hi: usize) -> (r: Option<(u64, u64, u64)>)
    requires
        b <= hi <= v@.len(),
    ensures
        r == range_body(v@.subrange(b as int, hi as int)),
{
    let ghost body = v@.subrange(b as int, hi as int);
    let k = match find_first(v, b, hi, '/') {
        Some(k) => k,
        None => return None,
    };
    let ghost range = body.subrange(0, k as int);
    assert(range == v@.subrange(b as int, (b + k) as int));
    let dash = match find_first(v, b, b + k, '-') {
        Some(d) => d,
        None => return None,
    };
    assert(body.subrange(k + 1, body.len() as int) == v@.subrange((b + k + 1) as int, hi as int));
    assert(range.subrange(0, dash as int) == v@.subrange(b as int, (b + dash) as int));
    assert(range.subrange(dash + 1, range.len() as int) == v@.subrange((b + dash + 1) as int, (b + k) as int));
    let total = parse_u64(v, b + k + 1, hi);
    let start = parse_u64(v, b, b + dash);
    let end = parse_u64(v, b + dash + 1, b + k);
    match (total, start, end) {
        (Some(total), Some(start), Some(end)) => Some((start, end, total)),
        _ => None,
    }
}

/// Parses a `Content-Range` header value such as `bytes 0-255/8127399532`.
pub fn parse_content_range(value: &str) -> (r: Option<(u64, u64, u64)>)
    ensures
        r == content_range(value@),
{
    let v = chars_of(value);
    let (lo, hi) = trim_bounds(&v, 0, v.len());
    assert(v@.subrange(0, v@.len() as int) == v@);
    let ghost t = trim(value@);
    proof {
        reveal_strlit("bytes ");
    }
    if !(hi - lo >= 6 && seq_eq_str(&v, lo, lo + 6, "bytes ")) {
        assert(t.len() >= 6 ==> t.subrange(0, 6) == v@.subrange(lo as int, lo + 6));
        return None;
    }
    assert(t.subrange(0, 6) == v@.subrange(lo as int, lo + 6));
    assert(t.subrange(6, t.len() as int) == v@.subrange(lo + 6, hi as int));
    parse_range_body(&v, lo + 6, hi)
}

/// Extension for an asset MIME type (compared trimmed and lowercased).
pub open spec fn mime_ext(m: Seq<char>) -> Option<Seq<char>> {
    if m == "audio/wav"@ || m == "audio/x-wav"@ {
        Some("wav"@)
    } else if m == "audio/mpeg"@ || m == "audio/mp3"@ {
        Some("mp3"@)
    } else if m == "audio/flac"@ || m == "audio/x-flac"@ {
        Some("flac"@)
    } else if m == "audio/ogg"@ {
        Some("ogg"@)
    } else if m == "audio/opus"@ {
        Some("opus"@)
    } else if m == "audio/aac"@ {
        Some("aac"@)
    } else if m == "audio/mp4"@ {
        Some("m4a"@)
    } else if m == "image/jpeg"@ {
        Some("jpg"@)
    } else if m == "image/png"@ {
        Some("png"@)
    } else {
        None
    }
}

/// The file extension of an asset's MIME type.
pub fn ext_from_mime(mime: &str) -> (r: Option<&'static str>)
    ensures
        r is None <==> mime_ext(lower_of(trim(mime@))) is None,
        r is Some ==> r->Some_0@ == mime_ext(lower_of(trim(mime@)))->Some_0,
{
    let v = chars_of(mime);
    let (lo, hi) = trim_bounds(&v, 0, v.len());
    assert(v@.subrange(0, v@.len() as int) == v@);
    let t = string_from(&v, lo, hi);
    let l = lowercase(t.as_str());
    let m = chars_of(l.as_str());
    let n = m.len();
    assert(m@.subrange(0, n as int) == m@);
    let eq = |s: &str| -> (b: bool)
        ensures b == (m@ == s@)
    { seq_eq_str(&m, 0, n, s) };
    if eq("audio/wav") || eq("audio/x-wav") {
        Some("wav")
    } else if eq("audio/mpeg") || eq("audio/mp3") {
        Some("mp3")
    } else if eq("audio/flac") || eq("audio/x-flac") {
        Some("flac")
    } else if eq("audio/ogg") {
        Some("ogg")
    } else if eq("audio/opus") {
        Some("opus")
    } else if eq("audio/aac") {
        Some("aac")
    } else if eq("audio/mp4") {
        Some("m4a")
    } else if eq("image/jpeg") {
        Some("jpg")
    } else if eq("image/png") {
        Some("png")
    } else {
        None
    }
}

pub open spec fn repo_char(c: char) -> bool {
    is_ascii_alnum(c) || c == '-' || c == '_' || c == '.'
}

/// Whether a repository namespace or name is non-empty and made of ASCII letters, digits
/// and `-_.`.
pub fn validate_repo_segment(segment: &str) -> (r: bool)
    ensures
        r == (segment@.len() > 0 && forall|i: int| 0 <= i < segment@.len() ==> repo_char(#[trigger] segment@[i])),
{
    let v = chars_of(segment);
    if v.len() == 0 {
        return false;
    }
    let mut i: usize = 0;
    while i < v.len()
        invariant
            i <= v@.len(),
            v@ == segment@,
            forall|k: int| 0 <= k < i ==> repo_char(#[trigger] v@[k]),
        decreases v@.len() - i,
    {
        let c = v[i];
        if !(('a' <= c && c <= 'z') || ('A' <= c && c <= 'Z') || ('0' <= c && c <= '9') || c == '-' || c == '_' || c == '.') {
            return false;
        }
        i = i + 1;
    }
    true
}

pub open spec fn label_safe(c: char) -> char {
    if is_ascii_alnum(c) || c == '-' || c == '_' {
        c
    } else {
        '_'
    }
}

/// Replaces every character but ASCII letters, digits, `-` and `_` with `_`.
pub fn sanitize_label(value: &str) -> (r: String)
    ensures
        r@ == value@.map_values(|c: char| label_safe(c)),
{
    let v = chars_of(value);
    let mut out = String::new();
    let mut i: usize = 0;
    while i < v.len()
        invariant
            i <= v@.len(),
            v@ == value@,
            out@ == v@.subrange(0, i as int).map_values(|c: char| label_safe(c)),
        decreases v@.len() - i,
    {
        let c = v[i];
        let keep = ('a' <= c && c <= 'z') || ('A' <= c && c <= 'Z') || ('0' <= c && c <= '9') || c == '-' || c == '_';
        out.push(if keep { c } else { '_' });
        assert(v@.subrange(0, i + 1).map_values(|c: char| label_safe(c)) == v@.subrange(0, i as int).map_values(|c: char| label_safe(c)).push(label_safe(c)));
        i = i + 1;
    }
    assert(v@.subrange(0, v@.len() as int) == v@);
    out
}

/// Picks the split to show from the sorted split names of a configuration.
pub fn pick_default_split(splits: &Vec<String>) -> (r: String)
    ensures
        (exists|i: int| 0 <= i < splits@.len() && splits@[i]@ == "train"@) ==> r@ == "train"@,
        !(exists|i: int| 0 <= i < splits@.len() && splits@[i]@ == "train"@) ==> (
            (exists|i: int| 0 <= i < splits@.len() && crate::text::starts_with(splits@[i]@, "train"@) && r@ == splits@[i]@
                && forall|j: int| 0 <= j < i ==> !crate::text::starts_with(splits@[j]@, "train"@))
            || (!(exists|i: int| 0 <= i < splits@.len() && crate::text::starts_with(splits@[i]@, "train"@))
                && (if splits@.len() > 0 { r@ == splits@[0]@ } else { r@ == "train"@ }))),
{
    proof {
        reveal_strlit("train");
    }
    let mut i: usize = 0;
    while i < splits.len()
        invariant
            i <= splits@.len(),
            forall|j: int| 0 <= j < i ==> splits@[j]@ != "train"@,
        decreases splits@.len() - i,
    {
        proof {
            reveal_strlit("train");
        }
        let v = chars_of(splits[i].as_str());
        let n = v.len();
        assert(v@.subrange(0, n as int) == v@);
        if seq_eq_str(&v, 0, n, "train") {
            return "train".to_owned();
        }
        i = i + 1;
    }
    let mut k: usize = 0;
    while k < splits.len()
        invariant
            k <= splits@.len(),
            forall|j: int| 0 <= j < splits@.len() ==> splits@[j]@ != "train"@,
            forall|j: int| 0 <= j < k ==> !crate::text::starts_with(splits@[j]@, "train"@),
        decreases splits@.len() - k,
    {
        proof {
            reveal_strlit("train");
        }
        let v = chars_of(splits[k].as_str());
        if v.len() >= 5 && seq_eq_str(&v, 0, 5, "train") {
            assert(crate::text::starts_with(splits@[k as int]@, "train"@));
            return splits[k].clone();
        }
        assert(!crate::text::starts_with(splits@[k as int]@, "train"@));
        k = k + 1;
    }
    if splits.len() > 0 {
        splits[0].clone()
    } else {
        "train".to_owned()
    }
}

/// The trimmed text of a request parameter, when it is given and not blank.
pub open spec fn given(o: Option<Seq<char>>) -> Option<Seq<char>> {
    match o {
        Some(t) => if trim(t).len() > 0 { Some(trim(t)) } else { None },
        None => None,
    }
}

fn given_text(o: &Option<String>) -> (r: Option<String>)
    ensures
        (match r { Some(t) => Some(t@), None => None }) == given(match o { Some(t) => Some(t@), None => None }),
{
    match o {
        Some(t) => {
            let v = chars_of(t.as_str());
            let (lo, hi) = trim_bounds(&v, 0, v.len());
            assert(v@.subrange(0, v@.len() as int) == v@);
            if lo == hi { None } else { Some(string_from(&v, lo, hi)) }
        },
        None => None,
    }
}

/// Picks the configuration (the one asked for, else the first) and split (the one asked
/// for, else the default split) of a dataset whose configurations are listed in order.
pub fn select_config_split(configs: &Vec<HfConfigSummary>, config: &Option<String>, split: &Option<String>) -> (r: Result<(usize, String), AppError>)
    ensures
        configs@.len() == 0 ==> r is Err && r->Err_0 is Missing,
        r is Ok ==> r->Ok_0.0 < configs@.len(),
        r is Ok ==> configs@[r->Ok_0.0 as int].config@ == (match given(match config { Some(t) => Some(t@), None => None }) {
            Some(c) => c,
            None => configs@[0].config@,
        }),
        r is Ok ==> exists|j: int| 0 <= j < configs@[r->Ok_0.0 as int].splits@.len()
            && configs@[r->Ok_0.0 as int].splits@[j]@ == r->Ok_0.1@,
        r is Ok && given(match split { Some(t) => Some(t@), None => None }) is Some ==> r->Ok_0.1@
            == given(match split { Some(t) => Some(t@), None => None })->Some_0,
        r is Err ==> r->Err_0 is Missing || r->Err_0 is Invalid,
{
    if configs.len() == 0 {
        return Err(missing("No supported splits found for dataset."));
    }
    let wanted = match given_text(config) {
        Some(c) => c,
        None => configs[0].config.clone(),
    };
    let ghost want = match given(match config { Some(t) => Some(t@), None => None }) {
        Some(c) => c,
        None => configs@[0].config@,
    };
    assert(wanted@ == want);
    let mut i: usize = 0;
    while i < configs.len()
        invariant
            i <= configs@.len(),
        ensures
            i <= configs@.len(),
            i < configs@.len() ==> configs@[i as int].config@ == wanted@,
        decreases configs@.len() - i,
    {
        if configs[i].config.eq(&wanted) {
            break;
        }
        i = i + 1;
    }
    if i == configs.len() {
        return Err(invalid("Unknown config for dataset."));
    }
    let splits = &configs[i].splits;
    let chosen = match given_text(split) {
        Some(s) => s,
        None => pick_default_split(splits),
    };
    let ghost g = given(match split { Some(t) => Some(t@), None => None });
    assert(g matches Some(x) ==> chosen@ == x);
    let mut j: usize = 0;
    while j < splits.len()
        invariant
            j <= splits@.len(),
            i < configs@.len(),
            configs@.len() > 0,
            configs@[i as int].config@ == want,
            want == (match given(match config { Some(t) => Some(t@), None => None }) {
                Some(c) => c,
                None => configs@[0].config@,
            }),
            g == given(match split { Some(t) => Some(t@), None => None }),
            *splits == configs@[i as int].splits,
            g matches Some(x) ==> chosen@ == x,
        decreases splits@.len() - j,
    {
        if splits[j].eq(&chosen) {
            assert(configs@[i as int].splits@[j as int]@ == chosen@);
            let r: Result<(usize, String), AppError> = Ok((i, chosen));
            assert(configs@[r->Ok_0.0 as int].splits@[j as int]@ == r->Ok_0.1@);
            return r;
        }
        j = j + 1;
    }
    Err(invalid("Unknown split for config."))
}

} // verus!
