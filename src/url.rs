//! Checks on dataset and content URLs, over the parts a parsed URL is made of.
use vstd::prelude::*;

use crate::error::{invalid, AppError};
use crate::remote::{all_digits, digits_value, parse_u64, validate_repo_segment, repo_char};
use crate::text::{ascii_lower, chars_of, ends_with, ends_with_str, seq_eq_str, string_from, trim, trim_bounds};

verus! {

/// The parts of a parsed URL that the checks read.
#[derive(Clone, Debug)]
pub struct UrlParts {
    pub scheme: String,
    pub host: Option<String>,
    /// Path segments split at `/`, absent for URLs that cannot be a base.
    pub segments: Option<Vec<String>>,
}

pub struct UrlView {
    pub scheme: Seq<char>,
    pub host: Option<Seq<char>>,
    pub segments: Option<Seq<Seq<char>>>,
}

pub open spec fn strings_view(v: Seq<String>) -> Seq<Seq<char>> {
    v.map_values(|s: String| s@)
}

impl UrlParts {
    pub open spec fn view(&self) -> UrlView {
        UrlView {
            scheme: self.scheme@,
            host: match self.host {
                Some(h) => Some(h@),
                None => None,
            },
            segments: match self.segments {
                Some(s) => Some(strings_view(s@)),
                None => None,
            },
        }
    }
}

/// Name for the parts `url::Url::parse` yields for a text, `None` when it does not parse.
pub uninterp spec fn parsed_url(s: Seq<char>) -> Option<UrlView>;

/// Relies on `url::Url::parse`, read through `scheme`, `host_str` and `path_segments`.
#[verifier::external_body]
pub fn parse_url(s: &str) -> (r: Option<UrlParts>)
    ensures
        r is None <==> parsed_url(s@) is None,
        r is Some ==> r->Some_0.view() == parsed_url(s@)->Some_0,
{
    url::Url::parse(s).ok().map(|u| UrlParts {
        scheme: u.scheme().to_string(),
        host: u.host_str().map(|h| h.to_string()),
        segments: u.path_segments().map(|it| it.map(|x| x.to_string()).collect()),
    })
}

/// The non-empty segments, in order.
pub open spec fn non_empty(s: Seq<Seq<char>>) -> Seq<Seq<char>>
    decreases s.len(),
{
    if s.len() == 0 {
        s
    } else if s.last().len() == 0 {
        non_empty(s.drop_last())
    } else {
        non_empty(s.drop_last()).push(s.last())
    }
}

/// The non-empty path segments of a URL (none when it has no path segments).
pub open spec fn segs(u: UrlView) -> Seq<Seq<char>> {
    match u.segments {
        Some(s) => non_empty(s),
        None => seq![],
    }
}

fn non_empty_segments(u: &UrlParts) -> (r: Vec<String>)
    ensures
        strings_view(r@) == segs(u.view()),
{
    let mut out: Vec<String> = Vec::new();
    match &u.segments {
        None => {
            assert(strings_view(out@) =~= Seq::<Seq<char>>::empty());
            out
        },
        Some(s) => {
            let mut i: usize = 0;
            assert(strings_view(out@) =~= non_empty(strings_view(s@).subrange(0, 0)));
            while i < s.len()
                invariant
                    i <= s@.len(),
                    strings_view(out@) == non_empty(strings_view(s@).subrange(0, i as int)),
                decreases s@.len() - i,
            {
                assert(strings_view(s@).subrange(0, i + 1).drop_last() == strings_view(s@).subrange(0, i as int));
                if !s[i].as_str().is_empty() {
                    let c = s[i].clone();
                    let ghost before = out@;
                    out.push(c);
                    assert(strings_view(out@) == strings_view(before).push(c@));
                }
                i = i + 1;
            }
            assert(strings_view(s@).subrange(0, s@.len() as int) == strings_view(s@));
            out
        },
    }
}

fn text_is(s: &String, lit: &str) -> (r: bool)
    ensures
        r == (s@ == lit@),
{
    let v = chars_of(s.as_str());
    let n = v.len();
    assert(v@.subrange(0, n as int) == v@);
    seq_eq_str(&v, 0, n, lit)
}

/// Whether a host is Zenodo's (trimmed, ASCII case ignored).
pub open spec fn zenodo_host(h: Seq<char>) -> bool {
    ascii_lower(trim(h)) == "zenodo.org"@ || ends_with(ascii_lower(trim(h)), ".zenodo.org"@)
}

/// Whether a host name is `zenodo.org` or one of its subdomains.
pub fn is_allowed_zenodo_host(host: &str) -> (r: bool)
    ensures
        r == zenodo_host(host@),
{
    let v = chars_of(host);
    let (lo, hi) = trim_bounds(&v, 0, v.len());
    assert(v@.subrange(0, v@.len() as int) == v@);
    let l = crate::text::ascii_lowercase(&v, lo, hi);
    let n = l.len();
    assert(l@.subrange(0, n as int) == l@);
    seq_eq_str(&l, 0, n, "zenodo.org") || ends_with_str(&l, 0, n, ".zenodo.org")
}

/// Whether a URL is http(s) on a Zenodo host.
pub open spec fn zenodo_url(u: UrlView) -> bool {
    (u.scheme == "https"@ || u.scheme == "http"@) && (u.host matches Some(h) && zenodo_host(h))
}

/// Whether a URL is an http(s) URL of a Zenodo host.
pub fn validate_zenodo_url(u: &UrlParts) -> (r: bool)
    ensures
        r == zenodo_url(u.view()),
{
    (text_is(&u.scheme, "https") || text_is(&u.scheme, "http")) && match &u.host {
        Some(h) => is_allowed_zenodo_host(h.as_str()),
        None => false,
    }
}

/// Whether a segment is digits only (possibly none).
pub fn all_ascii_digits(s: &String) -> (r: bool)
    ensures
        r == all_digits(s@),
{
    let v = chars_of(s.as_str());
    let mut i: usize = 0;
    while i < v.len()
        invariant
            i <= v@.len(),
            v@ == s@,
            forall|k: int| 0 <= k < i ==> crate::remote::is_digit(#[trigger] v@[k]),
        decreases v@.len() - i,
    {
        if !('0' <= v[i] && v[i] <= '9') {
            return false;
        }
        i = i + 1;
    }
    true
}

/// The record id of a URL: the first `records`/`record` segment followed by a digits-only
/// segment that parses; the search ends when such a segment is last.
pub open spec fn record_id_from(s: Seq<Seq<char>>, i: int) -> Option<u64>
    decreases s.len() - i,
{
    if i < 0 || i >= s.len() {
        None
    } else if s[i] != "records"@ && s[i] != "record"@ {
        record_id_from(s, i + 1)
    } else if i + 1 >= s.len() {
        None
    } else if !all_digits(s[i + 1]) || digits_value(s[i + 1]) is None {
        record_id_from(s, i + 1)
    } else {
        digits_value(s[i + 1])
    }
}

/// The record id a Zenodo record URL names.
pub fn extract_record_id_from_url(u: &UrlParts) -> (r: Option<u64>)
    ensures
        r == record_id_from(segs(u.view()), 0),
{
    let s = non_empty_segments(u);
    let mut i: usize = 0;
    while i < s.len()
        invariant
            i <= s@.len(),
            strings_view(s@) == segs(u.view()),
            record_id_from(strings_view(s@), 0) == record_id_from(strings_view(s@), i as int),
        decreases s@.len() - i,
    {
        if !text_is(&s[i], "records") && !text_is(&s[i], "record") {
            i = i + 1;
            continue;
        }
        if i + 1 >= s.len() {
            return None;
        }
        let id = &s[i + 1];
        if !all_ascii_digits(id) {
            i = i + 1;
            continue;
        }
        let v = chars_of(id.as_str());
        let n = v.len();
        assert(v@.subrange(0, n as int) == v@);
        match parse_u64(&v, 0, n) {
            Some(x) => {
                proof {
                    lemma_digits_parse(v@);
                }
                return Some(x);
            },
            None => {
                proof {
                    lemma_digits_parse(v@);
                }
                i = i + 1;
            },
        }
    }
    None
}

proof fn lemma_digits_parse(d: Seq<char>)
    requires
        all_digits(d),
    ensures
        crate::remote::parse_u64_spec(d) == digits_value(d),
{
    if d.len() > 0 {
        assert(crate::remote::is_digit(d[0]));
    }
}

/// The outcome of reading a Zenodo record URL.
pub open spec fn record_input(t: Seq<char>) -> Option<u64> {
    if t.len() == 0 {
        None
    } else {
    match parsed_url(t) {
        None => None,
        Some(u) => if !zenodo_url(u) { None } else { record_id_from(segs(u), 0) },
    }
    }
}

/// Reads a Zenodo record URL (trimmed) into its parts and record id.
pub fn extract_record_id(input: &str) -> (r: Result<(UrlParts, u64), AppError>)
    ensures
        r is Ok <==> record_input(trim(input@)) is Some,
        r matches Ok((u, id)) ==> Some(id) == record_input(trim(input@)) && Some(u.view()) == parsed_url(trim(input@)),
        r is Err ==> r->Err_0 is Invalid,
{
    let v = chars_of(input);
    let (lo, hi) = trim_bounds(&v, 0, v.len());
    assert(v@.subrange(0, v@.len() as int) == v@);
    let t = string_from(&v, lo, hi);
    if t.as_str().is_empty() {
        return Err(invalid("Provide a Zenodo record URL like https://zenodo.org/records/<id>."));
    }
    let u = match parse_url(t.as_str()) {
        Some(u) => u,
        None => return Err(invalid("Unsupported input. Provide a Zenodo record URL like https://zenodo.org/records/<id>.")),
    };
    if !validate_zenodo_url(&u) {
        return Err(invalid("Unsupported Zenodo host or scheme."));
    }
    match extract_record_id_from_url(&u) {
        Some(id) => Ok((u, id)),
        None => Err(invalid("Unsupported Zenodo URL. Expected https://zenodo.org/records/<id>.")),
    }
}

/// Whether a URL is a Zenodo file content URL: `/api/records/<digits>/files/.../content`
/// with at least six non-empty segments.
pub open spec fn content_url(u: UrlView) -> bool {
    let s = segs(u);
    zenodo_url(u) && s.len() >= 6 && s[0] == "api"@ && s[1] == "records"@ && all_digits(s[2]) && s[3] == "files"@
        && s.last() == "content"@
}

/// Whether a URL may be fetched as a Zenodo file content URL.
pub fn allowed_content_url(u: &UrlParts) -> (r: bool)
    ensures
        r == content_url(u.view()),
{
    if !validate_zenodo_url(u) {
        return false;
    }
    let s = non_empty_segments(u);
    if s.len() < 6 {
        return false;
    }
    text_is(&s[0], "api") && text_is(&s[1], "records") && all_ascii_digits(&s[2]) && text_is(&s[3], "files")
        && text_is(&s[s.len() - 1], "content")
}

/// The record id segment of a content URL (`/api/records/<id>/...`).
pub fn record_id_from_content_url(u: &UrlParts) -> (r: Option<String>)
    ensures
        ({
            let s = segs(u.view());
            &&& (s.len() >= 3 && s[0] == "api"@ && s[1] == "records"@) ==> r is Some && r->Some_0@ == s[2]
            &&& !(s.len() >= 3 && s[0] == "api"@ && s[1] == "records"@) ==> r is None
        }),
{
    let s = non_empty_segments(u);
    if s.len() < 3 {
        return None;
    }
    if !text_is(&s[0], "api") || !text_is(&s[1], "records") {
        return None;
    }
    Some(s[2].clone())
}

/// Whether an asset may be downloaded: http(s) on one of the dataset hosts.
pub open spec fn asset_url(u: UrlView) -> bool {
    (u.scheme == "https"@ || u.scheme == "http"@) && (u.host matches Some(h) && (h == "datasets-server.huggingface.co"@
        || h == "huggingface.co"@ || h == "hf.co"@ || h == "cdn-lfs.huggingface.co"@))
}

/// Whether an asset URL points at a dataset host over http(s).
pub fn allowed_asset_url(u: &UrlParts) -> (r: bool)
    ensures
        r == asset_url(u.view()),
{
    if !text_is(&u.scheme, "https") && !text_is(&u.scheme, "http") {
        return false;
    }
    match &u.host {
        Some(h) => text_is(h, "datasets-server.huggingface.co") || text_is(h, "huggingface.co") || text_is(h, "hf.co")
            || text_is(h, "cdn-lfs.huggingface.co"),
        None => false,
    }
}

pub open spec fn valid_segment(s: Seq<char>) -> bool {
    s.len() > 0 && forall|i: int| 0 <= i < s.len() ==> repo_char(#[trigger] s[i])
}

/// `s` up to its first `@`.
pub open spec fn before_at(s: Seq<char>) -> Seq<char> {
    let k = crate::text::first_index_of(s, '@');
    if k < 0 { s } else { s.subrange(0, k) }
}

/// Index of the first `datasets` segment.
pub open spec fn datasets_index(s: Seq<Seq<char>>) -> int
    decreases s.len(),
{
    if s.len() == 0 {
        -1
    } else if s[0] == "datasets"@ {
        0
    } else if datasets_index(s.drop_first()) < 0 {
        -1
    } else {
        datasets_index(s.drop_first()) + 1
    }
}

/// The `namespace/name` a dataset URL names: `hf://datasets/<ns>/<name>[@rev]/...`, or
/// `https://huggingface.co/datasets/<ns>/<name>` (also on `hf.co`).
pub open spec fn repo_id_from(u: UrlView) -> Option<Seq<char>> {
    let s = segs(u);
    if s.len() == 0 {
        None
    } else if u.scheme == "hf"@ && u.host == Some("datasets"@) {
        if s.len() < 2 {
            None
        } else if valid_segment(s[0]) && valid_segment(before_at(s[1])) {
            Some(s[0] + seq!['/'] + before_at(s[1]))
        } else {
            None
        }
    } else if u.host == Some("huggingface.co"@) || u.host == Some("hf.co"@) {
        let idx = datasets_index(s);
        if idx < 0 || s.len() < idx + 3 {
            None
        } else if valid_segment(s[idx + 1]) && valid_segment(s[idx + 2]) {
            Some(s[idx + 1] + seq!['/'] + s[idx + 2])
        } else {
            None
        }
    } else {
        None
    }
}

fn join_repo(org: &String, v: &Vec<char>, lo: usize, hi: usize) -> (r: String)
    requires
        lo <= hi <= v@.len(),
    ensures
        r@ == org@ + seq!['/'] + v@.subrange(lo as int, hi as int),
{
    let mut out = org.clone();
    out.push('/');
    let mut i = lo;
    let ghost base = out@;
    while i < hi
        invariant
            lo <= i <= hi <= v@.len(),
            out@ == base + v@.subrange(lo as int, i as int),
        decreases hi - i,
    {
        out.push(v[i]);
        assert(v@.subrange(lo as int, i + 1) == v@.subrange(lo as int, i as int).push(v@[i as int]));
        i = i + 1;
    }
    out
}

proof fn lemma_datasets_index(s: Seq<Seq<char>>, i: int)
    requires
        0 <= i <= s.len(),
        forall|j: int| 0 <= j < i ==> s[j] != "datasets"@,
    ensures
        datasets_index(s) == (if datasets_index(s.subrange(i, s.len() as int)) < 0 { -1 } else { datasets_index(s.subrange(i, s.len() as int)) + i }),
    decreases i,
{
    if i > 0 {
        lemma_datasets_index(s, i - 1);
        assert(s.subrange(i - 1, s.len() as int).drop_first() == s.subrange(i, s.len() as int));
    } else {
        assert(s.subrange(0, s.len() as int) == s);
    }
}

/// The dataset repository a URL names, as `namespace/name`.
pub fn extract_repo_id_from_url(u: &UrlParts) -> (r: Option<String>)
    ensures
        r is None <==> repo_id_from(u.view()) is None,
        r is Some ==> r->Some_0@ == repo_id_from(u.view())->Some_0,
{
    let s = non_empty_segments(u);
    if s.len() == 0 {
        return None;
    }
    let hf_host = match &u.host {
        Some(h) => text_is(h, "datasets"),
        None => false,
    };
    if text_is(&u.scheme, "hf") && hf_host {
        if s.len() < 2 {
            return None;
        }
        let v = chars_of(s[1].as_str());
        let n = v.len();
        assert(v@.subrange(0, n as int) == v@);
        let end = match crate::paths::find_first(&v, 0, n, '@') {
            Some(k) => k,
            None => n,
        };
        let name = string_from(&v, 0, end);
        if validate_repo_segment(s[0].as_str()) && validate_repo_segment(name.as_str()) {
            return Some(join_repo(&s[0], &v, 0, end));
        }
        return None;
    }
    let site = match &u.host {
        Some(h) => text_is(h, "huggingface.co") || text_is(h, "hf.co"),
        None => false,
    };
    if !site {
        return None;
    }
    let mut idx: usize = 0;
    while idx < s.len() && !text_is(&s[idx], "datasets")
        invariant
            idx <= s@.len(),
            forall|j: int| 0 <= j < idx ==> strings_view(s@)[j] != "datasets"@,
        decreases s@.len() - idx,
    {
        idx = idx + 1;
    }
    proof {
        lemma_datasets_index(strings_view(s@), idx as int);
        if idx < s@.len() {
            assert(strings_view(s@).subrange(idx as int, s@.len() as int)[0] == "datasets"@);
        } else {
            assert(strings_view(s@).subrange(idx as int, s@.len() as int).len() == 0);
        }
    }
    if idx == s.len() || s.len() - idx < 3 {
        return None;
    }
    if validate_repo_segment(s[idx + 1].as_str()) && validate_repo_segment(s[idx + 2].as_str()) {
        let v = chars_of(s[idx + 2].as_str());
        assert(v@.subrange(0, v@.len() as int) == v@);
        return Some(join_repo(&s[idx + 1], &v, 0, v.len()));
    }
    None
}

} // verus!
