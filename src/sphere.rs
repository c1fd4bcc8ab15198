//! The text header of NIST SPHERE audio files.
use vstd::prelude::*;

use crate::remote::{parse_u64, parse_u64_spec};
use crate::sniff::{is_sphere_file, sphere_magic};
use crate::tar::{lossy_utf8, strip_cr, utf8_lossy};
use crate::text::{chars_of, first_index_of, is_ws, is_ws_char, seq_eq_str, string_from, trim, trim_bounds};

verus! {

/// The fields of a SPHERE header that decoding needs.
#[derive(Clone, Debug)]
pub struct SphereHeader {
    pub channel_count: u16,
    pub sample_rate: u32,
    pub sample_n_bytes: u16,
    pub sample_byte_format: Option<String>,
    pub sample_coding: Option<String>,
}

/// Number of leading whitespace characters.
pub open spec fn lead_ws(s: Seq<char>) -> nat
    decreases s.len(),
{
    if s.len() > 0 && is_ws(s[0]) {
        1 + lead_ws(s.drop_first())
    } else {
        0
    }
}

/// Length of the leading run of non-whitespace characters.
pub open spec fn word_len(s: Seq<char>) -> nat
    decreases s.len(),
{
    if s.len() > 0 && !is_ws(s[0]) {
        1 + word_len(s.drop_first())
    } else {
        0
    }
}

proof fn lemma_runs_bounded(s: Seq<char>)
    ensures
        lead_ws(s) <= s.len(),
        word_len(s) <= s.len(),
    decreases s.len(),
{
    if s.len() > 0 {
        lemma_runs_bounded(s.drop_first());
    }
}

/// The whitespace-separated words of `s`, as `str::split_whitespace` yields them.
pub open spec fn words(s: Seq<char>) -> Seq<Seq<char>>
    decreases s.len(),
{
    let t = s.skip(lead_ws(s) as int);
    if lead_ws(s) >= s.len() || word_len(t) == 0 || word_len(t) > t.len() {
        seq![]
    } else {
        seq![t.take(word_len(t) as int)] + words(t.skip(word_len(t) as int))
    }
}

/// Words joined with single spaces.
pub open spec fn join_words(ws: Seq<Seq<char>>) -> Seq<char>
    decreases ws.len(),
{
    if ws.len() == 0 {
        seq![]
    } else if ws.len() == 1 {
        ws[0]
    } else {
        ws[0] + seq![' '] + join_words(ws.drop_first())
    }
}

/// The `(key, value)` a header line defines: lines read `<key> <type> <value...>`; blank
/// lines, the magic and `end_head` define nothing, nor do lines without a value.
pub open spec fn line_entry(line: Seq<char>) -> Option<(Seq<char>, Seq<char>)> {
    let t = trim(line);
    let ws = words(t);
    if t.len() == 0 || t == "NIST_1A"@ || t == "end_head"@ || ws.len() < 3 {
        None
    } else {
        Some((ws[0], join_words(ws.skip(2))))
    }
}

/// The entries of the lines of `s`, in order (lines as `str::lines` splits them).
pub open spec fn header_entries(s: Seq<char>) -> Seq<(Seq<char>, Seq<char>)>
    decreases s.len(),
{
    if s.len() == 0 {
        seq![]
    } else {
        let nl = first_index_of(s, '\n');
        let (line, rest) = if nl < 0 || nl >= s.len() {
            (s, Seq::<char>::empty())
        } else {
            (strip_cr(s.take(nl)), s.skip(nl + 1))
        };
        let here = match line_entry(line) {
            Some(e) => seq![e],
            None => seq![],
        };
        here + header_entries(rest)
    }
}

/// The value of the last entry with `key`.
pub open spec fn lookup(es: Seq<(Seq<char>, Seq<char>)>, key: Seq<char>) -> Option<Seq<char>>
    decreases es.len(),
{
    if es.len() == 0 {
        None
    } else if es.last().0 == key {
        Some(es.last().1)
    } else {
        lookup(es.drop_last(), key)
    }
}

/// Bytes of the size field (bytes 8 to 16) before its first line break.
pub open spec fn size_field(d: Seq<u8>) -> Seq<u8> {
    let f = d.subrange(8, 16);
    f.take(line_end(f) as int)
}

pub open spec fn line_end(f: Seq<u8>) -> nat
    decreases f.len(),
{
    if f.len() > 0 && f[0] != 10 && f[0] != 13 {
        1 + line_end(f.drop_first())
    } else {
        0
    }
}

/// The header length declared by a SPHERE file.
pub open spec fn declared_header_len(d: Seq<u8>) -> Option<u64> {
    parse_u64_spec(trim(lossy_utf8(size_field(d))))
}

/// The parse of a number field value of at most `max`.
pub open spec fn bounded_value(v: Option<Seq<char>>, max: u64) -> Option<u64> {
    match v {
        Some(t) => match parse_u64_spec(t) {
            Some(n) => if n <= max { Some(n) } else { None },
            None => None,
        },
        None => None,
    }
}

fn words_of(v: &Vec<char>, lo: usize, hi: usize) -> (r: Vec<String>)
    requires
        lo <= hi <= v@.len(),
    ensures
        r@.map_values(|w: String| w@) == words(v@.subrange(lo as int, hi as int)),
{
    let mut out: Vec<String> = Vec::new();
    let mut i = lo;
    assert(out@.map_values(|w: String| w@) + words(v@.subrange(i as int, hi as int)) == words(v@.subrange(lo as int, hi as int)));
    while i < hi
        invariant
            lo <= i <= hi <= v@.len(),
            out@.map_values(|w: String| w@) + words(v@.subrange(i as int, hi as int)) == words(v@.subrange(lo as int, hi as int)),
        decreases hi - i,
    {
        let ghost s = v@.subrange(i as int, hi as int);
        let mut a = i;
        while a < hi && is_ws_char(v[a])
            invariant
                i <= a <= hi <= v@.len(),
                s == v@.subrange(i as int, hi as int),
                lead_ws(s) == (a - i) + lead_ws(v@.subrange(a as int, hi as int)),
            decreases hi - a,
        {
            assert(v@.subrange(a as int, hi as int).drop_first() == v@.subrange(a + 1, hi as int));
            a = a + 1;
        }
        assert(a < hi ==> !is_ws(v@.subrange(a as int, hi as int)[0]));
        assert(s.skip(lead_ws(s) as int) == v@.subrange(a as int, hi as int));
        proof {
            lemma_runs_bounded(v@.subrange(a as int, hi as int));
        }
        if a == hi {
            assert(words(s) == Seq::<Seq<char>>::empty());
            assert(out@.map_values(|w: String| w@) + Seq::<Seq<char>>::empty() == out@.map_values(|w: String| w@));
            return out;
        }
        let ghost t = v@.subrange(a as int, hi as int);
        let mut b = a;
        while b < hi && !is_ws_char(v[b])
            invariant
                a <= b <= hi <= v@.len(),
                t == v@.subrange(a as int, hi as int),
                word_len(t) == (b - a) + word_len(v@.subrange(b as int, hi as int)),
            decreases hi - b,
        {
            assert(v@.subrange(b as int, hi as int).drop_first() == v@.subrange(b + 1, hi as int));
            b = b + 1;
        }
        assert(b < hi ==> is_ws(v@.subrange(b as int, hi as int)[0]));
        assert(t.take(word_len(t) as int) == v@.subrange(a as int, b as int));
        assert(t.skip(word_len(t) as int) == v@.subrange(b as int, hi as int));
        let w = string_from(v, a, b);
        let ghost before = out@.map_values(|w: String| w@);
        out.push(w);
        assert(out@.map_values(|w: String| w@) == before.push(w@));
        assert(before.push(w@) + words(v@.subrange(b as int, hi as int)) == before + (seq![w@] + words(v@.subrange(b as int, hi as int))));
        i = b;
    }
    assert(words(v@.subrange(i as int, hi as int)) == Seq::<Seq<char>>::empty());
    assert(out@.map_values(|w: String| w@) + Seq::<Seq<char>>::empty() == out@.map_values(|w: String| w@));
    out
}

fn join_from(ws: &Vec<String>, k: usize) -> (r: String)
    requires
        k <= ws@.len(),
    ensures
        r@ == join_words(ws@.map_values(|w: String| w@).skip(k as int)),
    decreases ws@.len() - k,
{
    let ghost all = ws@.map_values(|w: String| w@);
    if k == ws.len() {
        assert(all.skip(k as int).len() == 0);
        return String::new();
    }
    let mut out = ws[k].clone();
    assert(all.skip(k as int)[0] == ws@[k as int]@);
    if k + 1 == ws.len() {
        assert(all.skip(k as int).len() == 1);
        return out;
    }
    let rest = join_from(ws, k + 1);
    assert(all.skip(k as int).drop_first() == all.skip(k + 1));
    out.push(' ');
    let v = chars_of(rest.as_str());
    let mut i: usize = 0;
    let ghost base = out@;
    while i < v.len()
        invariant
            i <= v@.len(),
            v@ == rest@,
            out@ == base + v@.subrange(0, i as int),
        decreases v@.len() - i,
    {
        out.push(v[i]);
        assert(v@.subrange(0, i + 1) == v@.subrange(0, i as int).push(v@[i as int]));
        i = i + 1;
    }
    assert(v@.subrange(0, v@.len() as int) == v@);
    out
}

fn line_entry_of(v: &Vec<char>, lo: usize, hi: usize) -> (r: Option<(String, String)>)
    requires
        lo <= hi <= v@.len(),
    ensures
        r is None <==> line_entry(v@.subrange(lo as int, hi as int)) is None,
        r matches Some((k, x)) ==> line_entry(v@.subrange(lo as int, hi as int)) == Some((k@, x@)),
{
    let (a, b) = trim_bounds(v, lo, hi);
    if a == b || seq_eq_str(v, a, b, "NIST_1A") || seq_eq_str(v, a, b, "end_head") {
        return None;
    }
    let ws = words_of(v, a, b);
    if ws.len() < 3 {
        return None;
    }
    let key = ws[0].clone();
    let value = join_from(&ws, 2);
    Some((key, value))
}

/// The header entries, in order, and the value of the last one with each key asked for.
fn value_of(es: &Vec<(String, String)>, key: &str) -> (r: Option<String>)
    ensures
        r is None <==> lookup(entries_view(es@), key@) is None,
        r is Some ==> r->Some_0@ == lookup(entries_view(es@), key@)->Some_0,
{
    let mut j = es.len();
    assert(entries_view(es@).take(j as int) == entries_view(es@));
    while j > 0
        invariant
            j <= es@.len(),
            lookup(entries_view(es@), key@) == lookup(entries_view(es@).take(j as int), key@),
        decreases j,
    {
        let k = chars_of(es[j - 1].0.as_str());
        let n = k.len();
        assert(k@.subrange(0, n as int) == k@);
        assert(entries_view(es@).take(j as int).last() == (es@[j - 1].0@, es@[j - 1].1@));
        assert(entries_view(es@).take(j as int).drop_last() == entries_view(es@).take(j - 1));
        if seq_eq_str(&k, 0, n, key) {
            return Some(es[j - 1].1.clone());
        }
        j = j - 1;
    }
    None
}

pub open spec fn entries_view(es: Seq<(String, String)>) -> Seq<(Seq<char>, Seq<char>)> {
    es.map_values(|e: (String, String)| (e.0@, e.1@))
}

fn collect_entries(v: &Vec<char>) -> (r: Vec<(String, String)>)
    ensures
        entries_view(r@) == header_entries(v@),
{
    let n = v.len();
    let mut out: Vec<(String, String)> = Vec::new();
    let mut pos: usize = 0;
    assert(v@.subrange(0, n as int) == v@);
    assert(entries_view(out@) + header_entries(v@) == header_entries(v@));
    while pos < n
        invariant
            pos <= n == v@.len(),
            entries_view(out@) + header_entries(v@.subrange(pos as int, n as int)) == header_entries(v@),
        decreases n - pos,
    {
        let ghost s = v@.subrange(pos as int, n as int);
        let (end, next) = match crate::paths::find_first(v, pos, n, '\n') {
            None => (n, n),
            Some(k) => {
                let e = pos + k;
                if e > pos && v[e - 1] == '\r' {
                    (e - 1, e + 1)
                } else {
                    (e, e + 1)
                }
            },
        };
        proof {
            crate::tar::lemma_first_index_range_pub(s, '\n');
            let nl = first_index_of(s, '\n');
            if nl >= 0 {
                assert(s.take(nl) == v@.subrange(pos as int, pos + nl));
                assert(strip_cr(s.take(nl)) == v@.subrange(pos as int, end as int));
                assert(s.skip(nl + 1) == v@.subrange(next as int, n as int));
            } else {
                assert(s == v@.subrange(pos as int, end as int));
                assert(v@.subrange(next as int, n as int).len() == 0);
            }
        }
        let ghost before = entries_view(out@);
        let ghost rest = header_entries(v@.subrange(next as int, n as int));
        let ghost line = v@.subrange(pos as int, end as int);
        proof {
            let nl = first_index_of(s, '\n');
            if nl < 0 {
                assert(v@.subrange(next as int, n as int) =~= Seq::<char>::empty());
            }
            let here = match line_entry(line) {
                Some(e) => seq![e],
                None => Seq::<(Seq<char>, Seq<char>)>::empty(),
            };
            assert(header_entries(s) == here + rest);
        }
        match line_entry_of(v, pos, end) {
            Some(e) => {
                out.push(e);
                assert(entries_view(out@) == before.push((e.0@, e.1@)));
                assert(before.push((e.0@, e.1@)) + rest == before + (seq![(e.0@, e.1@)] + rest));
            },
            None => {
                assert(Seq::<(Seq<char>, Seq<char>)>::empty() + rest == rest);
            },
        }
        pos = next;
    }
    assert(header_entries(v@.subrange(pos as int, n as int)) == Seq::<(Seq<char>, Seq<char>)>::empty());
    assert(entries_view(out@) + Seq::<(Seq<char>, Seq<char>)>::empty() == entries_view(out@));
    out
}

fn parse_bounded(v: &Option<String>, max: u64) -> (r: Option<u64>)
    ensures
        r == bounded_value(match v { Some(s) => Some(s@), None => None }, max),
{
    match v {
        Some(s) => {
            let c = chars_of(s.as_str());
            assert(c@.subrange(0, c@.len() as int) == c@);
            match parse_u64(&c, 0, c.len()) {
                Some(n) => if n <= max { Some(n) } else { None },
                None => None,
            }
        },
        None => None,
    }
}

/// Parses a SPHERE header: the length field at bytes 8 to 16, then `<key> <type> <value>`
/// lines within that length; `channel_count` (or `channel_count:`), `sample_rate` and
/// `sample_n_bytes` are required numbers, `sample_byte_format` and `sample_coding`
/// optional texts. Returns the fields and the header length.
pub fn parse_sphere_header(data: &[u8]) -> (r: Result<(SphereHeader, usize), String>)
    ensures
        !sphere_magic(data@) || data@.len() < 16 ==> r is Err,
        r matches Ok((h, n)) ==> sphere_magic(data@) && data@.len() >= 16 && declared_header_len(data@) == Some(n as u64)
            && 0 < n <= data@.len() && ({
                let es = header_entries(lossy_utf8(data@.take(n as int)));
                let cc = match lookup(es, "channel_count"@) { Some(v) => Some(v), None => lookup(es, "channel_count:"@) };
                &&& bounded_value(cc, u16::MAX as u64) == Some(h.channel_count as u64)
                &&& bounded_value(lookup(es, "sample_rate"@), u32::MAX as u64) == Some(h.sample_rate as u64)
                &&& bounded_value(lookup(es, "sample_n_bytes"@), u16::MAX as u64) == Some(h.sample_n_bytes as u64)
                &&& (match h.sample_byte_format { Some(s) => Some(s@), None => None }) == lookup(es, "sample_byte_format"@)
                &&& (match h.sample_coding { Some(s) => Some(s@), None => None }) == lookup(es, "sample_coding"@)
            }),
        (r is Err && sphere_magic(data@) && data@.len() >= 16 && declared_header_len(data@) is Some
            && 0 < declared_header_len(data@)->Some_0 <= data@.len()) ==> ({
                let n = declared_header_len(data@)->Some_0;
                let es = header_entries(lossy_utf8(data@.take(n as int)));
                let cc = match lookup(es, "channel_count"@) { Some(v) => Some(v), None => lookup(es, "channel_count:"@) };
                bounded_value(cc, u16::MAX as u64) is None
                    || bounded_value(lookup(es, "sample_rate"@), u32::MAX as u64) is None
                    || bounded_value(lookup(es, "sample_n_bytes"@), u16::MAX as u64) is None
            }),
{
    if !is_sphere_file(data) {
        return Err("Not a SPHERE file.".to_owned());
    }
    if data.len() < 16 {
        return Err("SPHERE file is too short.".to_owned());
    }
    let mut e: usize = 8;
    while e < 16 && data[e] != 10 && data[e] != 13
        invariant
            8 <= e <= 16 <= data@.len(),
            line_end(data@.subrange(8, 16)) == (e - 8) + line_end(data@.subrange(e as int, 16)),
        decreases 16 - e,
    {
        assert(data@.subrange(e as int, 16).drop_first() == data@.subrange(e + 1, 16));
        e = e + 1;
    }
    assert(data@.subrange(8, e as int) == size_field(data@));
    let digits = utf8_lossy(&data[8..e]);
    let dv = chars_of(digits.as_str());
    let (a, b) = trim_bounds(&dv, 0, dv.len());
    assert(dv@.subrange(0, dv@.len() as int) == dv@);
    let header_len = match parse_u64(&dv, a, b) {
        Some(n) => n,
        None => return Err("Unable to parse SPHERE header size.".to_owned()),
    };
    if header_len == 0 || header_len > data.len() as u64 {
        return Err("Invalid SPHERE header size.".to_owned());
    }
    let hb = header_len as usize;
    let text = utf8_lossy(&data[0..hb]);
    assert(data@.subrange(0, hb as int) == data@.take(hb as int));
    let tv = chars_of(text.as_str());
    let es = collect_entries(&tv);
    let cc = match value_of(&es, "channel_count") {
        Some(v) => Some(v),
        None => value_of(&es, "channel_count:"),
    };
    let channel_count = match parse_bounded(&cc, u16::MAX as u64) {
        Some(n) => n as u16,
        None => return Err("Missing or invalid `channel_count` in SPHERE header.".to_owned()),
    };
    let sample_rate = match parse_bounded(&value_of(&es, "sample_rate"), u32::MAX as u64) {
        Some(n) => n as u32,
        None => return Err("Missing or invalid `sample_rate` in SPHERE header.".to_owned()),
    };
    let sample_n_bytes = match parse_bounded(&value_of(&es, "sample_n_bytes"), u16::MAX as u64) {
        Some(n) => n as u16,
        None => return Err("Missing or invalid `sample_n_bytes` in SPHERE header.".to_owned()),
    };
    let header = SphereHeader {
        channel_count,
        sample_rate,
        sample_n_bytes,
        sample_byte_format: value_of(&es, "sample_byte_format"),
        sample_coding: value_of(&es, "sample_coding"),
    };
    Ok((header, hb))
}

} // verus!
