//! Streaming TAR decoding.
//!
//! A [`TarDecoder`] is driven block by block: the caller reads 512-byte header
//! blocks and the payloads the decoder asks for, and the decoder decides what each
//! block means (end of archive, long-name or PAX continuation, regular entry).
use vstd::prelude::*;
use vstd::utf8::{decode_utf8, valid_utf8};

use crate::error::{invalid, AppError};
use crate::paths::normalize_member_path_str;
use crate::text::{
    chars_of, first_index_of, normalized_path, string_from, trim, trim_bounds,
};

verus! {

/// Size of a TAR header or data block.
pub const TAR_BLOCK: u64 = 512;

/// Largest long-name or PAX payload that is accepted.
pub const MAX_TAR_META_BYTES: u64 = 1048576;

/// Name for what `String::from_utf8_lossy` returns on a byte sequence.
pub uninterp spec fn lossy_utf8(b: Seq<u8>) -> Seq<char>;

/// Relies on `String::from_utf8_lossy`: decodes the bytes, replacing invalid sequences;
/// valid UTF-8 is decoded as it is.
#[verifier::external_body]
pub fn utf8_lossy(b: &[u8]) -> (r: String)
    ensures
        r@ == lossy_utf8(b@),
        valid_utf8(b@) ==> r@ == decode_utf8(b@),
{
    String::from_utf8_lossy(b).into_owned()
}

/// Index of the first NUL byte of `b`, or its length.
pub open spec fn nul_index(b: Seq<u8>) -> int
    decreases b.len(),
{
    if b.len() == 0 {
        0
    } else if b[0] == 0 {
        0
    } else {
        1 + nul_index(b.drop_first())
    }
}

/// The bytes of `b` before its first NUL.
pub open spec fn until_nul(b: Seq<u8>) -> Seq<u8> {
    b.take(nul_index(b))
}

fn nul_position(b: &[u8], lo: usize, hi: usize) -> (r: usize)
    requires
        lo <= hi <= b@.len(),
    ensures
        lo <= r <= hi,
        r - lo == nul_index(b@.subrange(lo as int, hi as int)),
{
    let mut i = lo;
    while i < hi && b[i] != 0
        invariant
            lo <= i <= hi <= b@.len(),
            nul_index(b@.subrange(lo as int, hi as int)) == (i - lo) + nul_index(
                b@.subrange(i as int, hi as int),
            ),
        decreases hi - i,
    {
        assert(b@.subrange(i as int, hi as int).drop_first() == b@.subrange(i + 1, hi as int));
        i = i + 1;
    }
    i
}

/// A text field of a header or payload: the bytes before the first NUL, decoded and trimmed.
pub open spec fn tar_string(b: Seq<u8>) -> Seq<char> {
    trim(lossy_utf8(until_nul(b)))
}

/// Decodes a NUL-terminated text field, trimming surrounding whitespace.
pub fn parse_tar_string(data: &[u8], lo: usize, hi: usize) -> (r: String)
    requires
        lo <= hi <= data@.len(),
    ensures
        r@ == tar_string(data@.subrange(lo as int, hi as int)),
{
    let end = nul_position(data, lo, hi);
    let raw = utf8_lossy(&data[lo..end]);
    assert(data@.subrange(lo as int, end as int) == until_nul(data@.subrange(lo as int, hi as int)));
    let v = chars_of(raw.as_str());
    let (a, b) = trim_bounds(&v, 0, v.len());
    assert(v@.subrange(0, v@.len() as int) == v@);
    string_from(&v, a, b)
}

/// Bytes left out of a numeric field wherever they stand.
pub open spec fn is_fill(b: u8) -> bool {
    b == 32 || b == 10 || b == 13 || b == 9
}

/// `b` without its fill bytes.
pub open spec fn drop_fill(b: Seq<u8>) -> Seq<u8>
    decreases b.len(),
{
    if b.len() == 0 {
        b
    } else if is_fill(b.last()) {
        drop_fill(b.drop_last())
    } else {
        drop_fill(b.drop_last()).push(b.last())
    }
}

/// Vertical tab and form feed: ASCII whitespace that survives the fill filter and is
/// trimmed at either end.
pub open spec fn is_edge_space(b: u8) -> bool {
    b == 11 || b == 12
}

pub open spec fn octal_value(d: Seq<u8>) -> nat
    decreases d.len(),
{
    if d.len() == 0 {
        0
    } else {
        octal_value(d.drop_last()) * 8 + (d.last() - 48) as nat
    }
}

pub open spec fn all_octal(d: Seq<u8>) -> bool {
    forall|i: int| 0 <= i < d.len() ==> 48 <= #[trigger] d[i] <= 55
}

pub open spec fn edge_start(c: Seq<u8>) -> Seq<u8>
    decreases c.len(),
{
    if c.len() > 0 && is_edge_space(c[0]) {
        edge_start(c.drop_first())
    } else {
        c
    }
}

pub open spec fn edge_end(c: Seq<u8>) -> Seq<u8>
    decreases c.len(),
{
    if c.len() > 0 && is_edge_space(c.last()) {
        edge_end(c.drop_last())
    } else {
        c
    }
}

/// The value of an octal numeric header field.
///
/// The field ends at its first NUL; spaces, tabs and line breaks are ignored wherever they
/// stand, vertical tabs and form feeds at either end. What is left must be an optional `+`
/// followed by octal digits whose value fits in a `u64`. An empty field is zero.
pub open spec fn tar_octal(field: Seq<u8>) -> Option<u64> {
    let c = drop_fill(until_nul(field));
    let t = edge_end(edge_start(c));
    if c.len() == 0 {
        Some(0)
    } else if exists|i: int| 0 <= i < c.len() && c[i] >= 128 {
        None
    } else if t.len() == 0 {
        Some(0)
    } else {
        let d = if t[0] == 43 {
            t.drop_first()
        } else {
            t
        };
        if d.len() > 0 && all_octal(d) && octal_value(d) <= u64::MAX {
            Some(octal_value(d) as u64)
        } else {
            None
        }
    }
}

/// The value of a numeric header field; see [`tar_octal`].
pub fn parse_tar_octal(slice: &[u8]) -> (r: Option<u64>)
    ensures
        r == tar_octal(slice@),
{
    let end = nul_position(slice, 0, slice.len());
    assert(slice@.subrange(0, slice@.len() as int) == slice@);
    let ghost raw = until_nul(slice@);
    assert(slice@.subrange(0, end as int) == raw);
    let mut cleaned: Vec<u8> = Vec::new();
    let mut i: usize = 0;
    while i < end
        invariant
            end <= slice@.len(),
            raw == slice@.subrange(0, end as int),
            i <= end,
            cleaned@ == drop_fill(raw.subrange(0, i as int)),
        decreases end - i,
    {
        let b = slice[i];
        assert(raw.subrange(0, i + 1).drop_last() == raw.subrange(0, i as int));
        if !(b == 32 || b == 10 || b == 13 || b == 9) {
            cleaned.push(b);
        }
        i = i + 1;
    }
    assert(raw.subrange(0, end as int) == raw);
    let ghost c = cleaned@;
    let n = cleaned.len();
    if n == 0 {
        return Some(0);
    }
    let mut k: usize = 0;
    while k < n
        invariant
            n == c.len(),
            n > 0,
            c == cleaned@,
            c == drop_fill(until_nul(slice@)),
            forall|j: int| 0 <= j < k ==> c[j] < 128,
        decreases n - k,
    {
        if cleaned[k] >= 128 {
            assert(0 <= k < c.len() && c[k as int] >= 128);
            return None;
        }
        k = k + 1;
    }
    assert(!(exists|i: int| 0 <= i < c.len() && c[i] >= 128));
    assert(c.subrange(0, n as int) == c);
    let mut lo: usize = 0;
    while lo < n && (cleaned[lo] == 11 || cleaned[lo] == 12)
        invariant
            lo <= n == c.len(),
            c == cleaned@,
            edge_start(c.subrange(lo as int, n as int)) == edge_start(c),
        decreases n - lo,
    {
        assert(c.subrange(lo as int, n as int).drop_first() == c.subrange(lo + 1, n as int));
        lo = lo + 1;
    }
    let mut hi: usize = n;
    while hi > lo && (cleaned[hi - 1] == 11 || cleaned[hi - 1] == 12)
        invariant
            lo <= hi <= n == c.len(),
            c == cleaned@,
            edge_end(c.subrange(lo as int, hi as int)) == edge_end(edge_start(c)),
        decreases hi - lo,
    {
        assert(c.subrange(lo as int, hi as int).drop_last() == c.subrange(lo as int, hi - 1));
        hi = hi - 1;
    }
    let ghost t = c.subrange(lo as int, hi as int);
    assert(t == edge_end(edge_start(c)));
    if lo == hi {
        return Some(0);
    }
    let start = if cleaned[lo] == 43 {
        lo + 1
    } else {
        lo
    };
    let ghost d = c.subrange(start as int, hi as int);
    assert(d == (if t[0] == 43 { t.drop_first() } else { t }));
    if start == hi {
        return None;
    }
    let mut acc: u64 = 0;
    let mut j = start;
    while j < hi
        invariant
            start <= j <= hi <= n == c.len(),
            n > 0,
            c == cleaned@,
            c == drop_fill(until_nul(slice@)),
            !(exists|i: int| 0 <= i < c.len() && c[i] >= 128),
            t == edge_end(edge_start(c)),
            t.len() > 0,
            d == (if t[0] == 43 { t.drop_first() } else { t }),
            d.len() > 0,
            d == c.subrange(start as int, hi as int),
            acc as nat == octal_value(c.subrange(start as int, j as int)),
            all_octal(c.subrange(start as int, j as int)),
        decreases hi - j,
    {
        let b = cleaned[j];
        assert(c.subrange(start as int, j + 1).drop_last() == c.subrange(start as int, j as int));
        if b < 48 || b > 55 {
            assert(!all_octal(d)) by {
                assert(d[j - start] == b);
            }
            return None;
        }
        let digit = (b - 48) as u64;
        if acc > (u64::MAX - digit) / 8 {
            proof {
                assert(d.take(j - start + 1) == c.subrange(start as int, j + 1));
                if all_octal(d) {
                    lemma_octal_monotone(d, j - start + 1);
                }
            }
            return None;
        }
        acc = acc * 8 + digit;
        j = j + 1;
    }
    assert(c.subrange(start as int, hi as int) == d);
    Some(acc)
}

proof fn lemma_octal_monotone(d: Seq<u8>, k: int)
    requires
        0 <= k <= d.len(),
        all_octal(d),
    ensures
        octal_value(d) >= octal_value(d.take(k)),
    decreases d.len() - k,
{
    if k < d.len() {
        lemma_octal_monotone(d, k + 1);
        assert(d.take(k + 1).drop_last() == d.take(k));
        assert(d.take(k + 1).last() == d[k]);
    } else {
        assert(d.take(k) == d);
    }
}

/// The size field of a header block (bytes 124 to 136).
pub fn parse_tar_size(header: &[u8]) -> (r: Option<u64>)
    requires
        header@.len() == 512,
    ensures
        r == tar_octal(header@.subrange(124, 136)),
{
    let field = &header[124..136];
    parse_tar_octal(field)
}

/// The entry path a ustar header names: its prefix and name fields joined by `/`, or
/// whichever of them is not empty.
pub open spec fn ustar_path(h: Seq<u8>) -> Seq<char> {
    let name = tar_string(h.subrange(0, 100));
    let prefix = tar_string(h.subrange(345, 500));
    if prefix.len() == 0 {
        name
    } else if name.len() == 0 {
        prefix
    } else {
        prefix + seq!['/'] + name
    }
}

/// The path of a ustar header block.
pub fn parse_ustar_path(header: &[u8]) -> (r: String)
    requires
        header@.len() == 512,
    ensures
        r@ == ustar_path(header@),
{
    let name = parse_tar_string(header, 0, 100);
    let prefix = parse_tar_string(header, 345, 500);
    if prefix.as_str().is_empty() {
        name
    } else if name.as_str().is_empty() {
        prefix
    } else {
        let mut out = prefix;
        out.push('/');
        let v = chars_of(name.as_str());
        let mut i: usize = 0;
        let ghost base = out@;
        while i < v.len()
            invariant
                i <= v@.len(),
                v@ == name@,
                out@ == base + v@.subrange(0, i as int),
            decreases v@.len() - i,
        {
            out.push(v[i]);
            assert(v@.subrange(0, i + 1) == v@.subrange(0, i as int).push(v@[i as int]));
            i = i + 1;
        }
        assert(v@.subrange(0, v@.len() as int) == v@);
        out
    }
}

/// `s` without its trailing NUL characters.
pub open spec fn strip_trailing_nul(s: Seq<char>) -> Seq<char>
    decreases s.len(),
{
    if s.len() > 0 && s.last() == '\0' {
        strip_trailing_nul(s.drop_last())
    } else {
        s
    }
}

/// The path a single PAX record line sets, if it is a non-empty `path` record.
///
/// A line reads `<len> <key>=<value>`: the length runs to the first space and the key to
/// the first `=` after it.
pub open spec fn pax_line_path(line: Seq<char>) -> Option<Seq<char>> {
    let sp = first_index_of(line, ' ');
    let rest = line.subrange(sp + 1, line.len() as int);
    let eq = first_index_of(rest, '=');
    if sp < 0 || eq < 0 {
        None
    } else if rest.subrange(0, eq) != "path"@ {
        None
    } else {
        let v = strip_trailing_nul(trim(rest.subrange(eq + 1, rest.len() as int)));
        if v.len() == 0 {
            None
        } else {
            Some(v)
        }
    }
}

/// A line as `str::lines` yields it: a `\r` before the `\n` is dropped.
pub open spec fn strip_cr(line: Seq<char>) -> Seq<char> {
    if line.len() > 0 && line.last() == '\r' {
        line.drop_last()
    } else {
        line
    }
}

/// The path of the first usable `path` record among the lines of `s`.
pub open spec fn pax_path_of(s: Seq<char>) -> Option<Seq<char>>
    decreases s.len(),
{
    if s.len() == 0 {
        None
    } else {
        let nl = first_index_of(s, '\n');
        if nl < 0 || nl >= s.len() {
            pax_line_path(s)
        } else {
            match pax_line_path(strip_cr(s.take(nl))) {
                Some(p) => Some(p),
                None => pax_path_of(s.skip(nl + 1)),
            }
        }
    }
}

proof fn lemma_first_index_range(s: Seq<char>, c: char)
    ensures
        -1 <= first_index_of(s, c) < s.len(),
    decreases s.len(),
{
    if s.len() > 0 && s[0] != c {
        lemma_first_index_range(s.drop_first(), c);
    }
}

/// `first_index_of` lies within the sequence or is -1.
pub proof fn lemma_first_index_range_pub(s: Seq<char>, c: char)
    ensures
        -1 <= first_index_of(s, c) < s.len(),
{
    lemma_first_index_range(s, c);
}

fn first_in(v: &Vec<char>, lo: usize, hi: usize, c: char) -> (r: Option<usize>)
    requires
        lo <= hi <= v@.len(),
    ensures
        r is None <==> first_index_of(v@.subrange(lo as int, hi as int), c) < 0,
        r is Some ==> r->Some_0 as int == first_index_of(v@.subrange(lo as int, hi as int), c),
        r is Some ==> r->Some_0 < hi - lo,
{
    crate::paths::find_first(v, lo, hi, c)
}

/// The value of a line's `path` record, when the line is one and the value is not empty.
fn pax_line(v: &Vec<char>, lo: usize, hi: usize) -> (r: Option<String>)
    requires
        lo <= hi <= v@.len(),
    ensures
        r is None <==> pax_line_path(v@.subrange(lo as int, hi as int)) is None,
        r is Some ==> r->Some_0@ == pax_line_path(v@.subrange(lo as int, hi as int))->Some_0,
{
    let ghost line = v@.subrange(lo as int, hi as int);
    let sp = match first_in(v, lo, hi, ' ') {
        Some(k) => k,
        None => return None,
    };
    let rlo = lo + sp + 1;
    let ghost rest = line.subrange(sp + 1, line.len() as int);
    assert(rest == v@.subrange(rlo as int, hi as int));
    let eq = match first_in(v, rlo, hi, '=') {
        Some(k) => k,
        None => return None,
    };
    assert(rest.subrange(0, eq as int) == v@.subrange(rlo as int, (rlo + eq) as int));
    if !crate::text::seq_eq_str(v, rlo, rlo + eq, "path") {
        return None;
    }
    let vlo = rlo + eq + 1;
    assert(rest.subrange(eq + 1, rest.len() as int) == v@.subrange(vlo as int, hi as int));
    let (a, b0) = trim_bounds(v, vlo, hi);
    let mut b = b0;
    while b > a && v[b - 1] == '\0'
        invariant
            a <= b <= b0 <= v@.len(),
            strip_trailing_nul(v@.subrange(a as int, b as int)) == strip_trailing_nul(
                v@.subrange(a as int, b0 as int),
            ),
        decreases b - a,
    {
        assert(v@.subrange(a as int, b as int).drop_last() == v@.subrange(a as int, b - 1));
        b = b - 1;
    }
    if a == b {
        return None;
    }
    Some(string_from(v, a, b))
}

/// The path override that a PAX extended header sets, if any.
pub fn parse_pax_path(data: &[u8]) -> (r: Option<String>)
    ensures
        r is None <==> pax_path_of(lossy_utf8(data@)) is None,
        r is Some ==> r->Some_0@ == pax_path_of(lossy_utf8(data@))->Some_0,
{
    let text = utf8_lossy(data);
    let v = chars_of(text.as_str());
    let n = v.len();
    let mut pos: usize = 0;
    assert(v@.subrange(0, n as int) == v@);
    while pos < n
        invariant
            pos <= n == v@.len(),
            v@ == lossy_utf8(data@),
            pax_path_of(v@) == pax_path_of(v@.subrange(pos as int, n as int)),
        decreases n - pos,
    {
        let ghost s = v@.subrange(pos as int, n as int);
        match first_in(&v, pos, n, '\n') {
            None => {
                return pax_line(&v, pos, n);
            },
            Some(k) => {
                proof {
                    lemma_first_index_range(s, '\n');
                }
                let mut end = pos + k;
                assert(s.take(k as int) == v@.subrange(pos as int, end as int));
                if end > pos && v[end - 1] == '\r' {
                    end = end - 1;
                    assert(strip_cr(s.take(k as int)) == v@.subrange(pos as int, end as int));
                } else {
                    assert(strip_cr(s.take(k as int)) == v@.subrange(pos as int, end as int));
                }
                match pax_line(&v, pos, end) {
                    Some(p) => {
                        return Some(p);
                    },
                    None => {},
                }
                assert(s.skip(k + 1) == v@.subrange(pos + k + 1, n as int));
                pos = pos + k + 1;
            },
        }
    }
    None
}

/// Which continuation payload a meta header announced.
#[derive(PartialEq, Eq, Structural, Clone, Copy, Debug)]
pub enum MetaKind {
    /// GNU long name (`L`): the next entry's path.
    LongName,
    /// PAX extended header (`x` or `g`): records, of which `path` is used.
    Pax,
}

/// Where the decoder stands in the stream.
#[derive(PartialEq, Eq, Structural, Clone, Copy, Debug)]
pub enum TarPhase {
    /// A header block is expected.
    Header,
    /// One all-zero block was seen; another one ends the archive.
    AfterZero,
    /// The payload of a meta header, of the given size, is expected.
    Meta(MetaKind, u64),
    /// The archive has ended.
    Done,
}

/// Metadata of one entry of a TAR stream.
#[derive(Clone, Debug)]
pub struct TarEntryMeta {
    /// Normalised relative path with forward slashes.
    pub path: String,
    /// Size of the entry's data in bytes.
    pub size: u64,
    /// Whether the header declares a directory.
    pub is_dir: bool,
}

/// What the reader must do after a header block.
#[derive(Clone, Debug)]
pub enum TarStep {
    /// Read the next header block.
    NeedHeader,
    /// Read exactly this many payload bytes plus padding, then call `accept_meta`.
    ReadMeta(u64),
    /// An entry: its data (`size` bytes plus padding) follows and must be consumed.
    Entry(TarEntryMeta),
    /// An entry that is not reported: skip this many data bytes plus padding.
    Skip(u64),
    /// End of archive.
    End,
}

/// Abstract state of a decoder.
pub struct DecoderView {
    pub phase: TarPhase,
    pub longname: Option<Seq<char>>,
    pub pax: Option<Seq<char>>,
    pub list_dirs: bool,
}

/// Abstract outcome of a header block.
pub enum StepView {
    NeedHeader,
    ReadMeta(u64),
    Entry(Seq<char>, u64, bool),
    Skip(u64),
    End,
    Failed,
}

pub open spec fn opt_view(o: Option<String>) -> Option<Seq<char>> {
    match o {
        Some(s) => Some(s@),
        None => None,
    }
}

pub open spec fn step_view(r: Result<TarStep, AppError>) -> StepView {
    match r {
        Ok(TarStep::NeedHeader) => StepView::NeedHeader,
        Ok(TarStep::ReadMeta(n)) => StepView::ReadMeta(n),
        Ok(TarStep::Entry(m)) => StepView::Entry(m.path@, m.size, m.is_dir),
        Ok(TarStep::Skip(n)) => StepView::Skip(n),
        Ok(TarStep::End) => StepView::End,
        Err(_) => StepView::Failed,
    }
}

pub open spec fn all_zero(b: Seq<u8>) -> bool {
    forall|i: int| 0 <= i < b.len() ==> b[i] == 0
}

/// The declared data size of a header; an unreadable size field counts as zero.
pub open spec fn header_size(h: Seq<u8>) -> u64 {
    match tar_octal(h.subrange(124, 136)) {
        Some(v) => v,
        None => 0,
    }
}

/// The path an entry header stands for: a pending PAX path, else a pending long name,
/// else the path of the header itself.
pub open spec fn effective_path(
    longname: Option<Seq<char>>,
    pax: Option<Seq<char>>,
    h: Seq<u8>,
) -> Seq<char> {
    match pax {
        Some(p) => p,
        None => match longname {
            Some(l) => l,
            None => ustar_path(h),
        },
    }
}

/// How a header block that is not all zero changes the decoder, and what it asks for.
pub open spec fn header_step(d: DecoderView, h: Seq<u8>) -> (DecoderView, StepView) {
    let size = header_size(h);
    let tf = h[156];
    if tf == 76 || tf == 120 || tf == 103 {
        if size > MAX_TAR_META_BYTES {
            (d, StepView::Failed)
        } else {
            let kind = if tf == 76 {
                MetaKind::LongName
            } else {
                MetaKind::Pax
            };
            (DecoderView { phase: TarPhase::Meta(kind, size), ..d }, StepView::ReadMeta(size))
        }
    } else {
        let path = normalized_path(effective_path(d.longname, d.pax, h));
        let next = DecoderView { phase: TarPhase::Header, longname: None, pax: None, ..d };
        if (tf == 53 && !d.list_dirs) || path.len() == 0 {
            (next, StepView::Skip(size))
        } else {
            (next, StepView::Entry(path, size, tf == 53))
        }
    }
}

/// How one read of a header block changes the decoder: `None` when the stream ended at a
/// block boundary, a block shorter than 512 bytes when it ended inside one (truncated).
pub open spec fn block_step(d: DecoderView, block: Option<Seq<u8>>) -> (DecoderView, StepView) {
    match block {
        _ if d.phase == TarPhase::Done => (d, StepView::End),
        None => (DecoderView { phase: TarPhase::Done, ..d }, StepView::End),
        Some(b) => if b.len() < 512 {
            (d, StepView::Failed)
        } else if all_zero(b) {
            if d.phase == TarPhase::AfterZero {
                (DecoderView { phase: TarPhase::Done, ..d }, StepView::End)
            } else {
                (DecoderView { phase: TarPhase::AfterZero, ..d }, StepView::NeedHeader)
            }
        } else {
            header_step(d, b)
        },
    }
}

/// How a meta payload changes the decoder.
pub open spec fn meta_step(d: DecoderView, kind: MetaKind, data: Seq<u8>) -> DecoderView {
    match kind {
        MetaKind::LongName => DecoderView {
            phase: TarPhase::Header,
            longname: Some(tar_string(data)),
            ..d
        },
        MetaKind::Pax => DecoderView {
            phase: TarPhase::Header,
            pax: match pax_path_of(lossy_utf8(data)) {
                Some(p) => Some(p),
                None => d.pax,
            },
            ..d
        },
    }
}

/// Padding that follows `size` data bytes up to the next block boundary.
pub fn padding_after(size: u64) -> (r: u64)
    ensures
        r == (512 - size % 512) % 512,
        r < 512,
{
    (512 - size % 512) % 512
}

/// Decision state of a TAR stream reader: where it stands and which path overrides
/// are pending for the next entry.
pub struct TarDecoder {
    pub phase: TarPhase,
    pub pending_longname: Option<String>,
    pub pending_pax_path: Option<String>,
    /// Whether directory entries are reported (they are skipped otherwise).
    pub list_dirs: bool,
}

impl TarDecoder {
    pub open spec fn view(&self) -> DecoderView {
        DecoderView {
            phase: self.phase,
            longname: opt_view(self.pending_longname),
            pax: opt_view(self.pending_pax_path),
            list_dirs: self.list_dirs,
        }
    }

    /// A decoder at the start of a stream.
    pub fn new(list_dirs: bool) -> (r: Self)
        ensures
            r.view() == (DecoderView {
                phase: TarPhase::Header,
                longname: None,
                pax: None,
                list_dirs,
            }),
    {
        TarDecoder { phase: TarPhase::Header, pending_longname: None, pending_pax_path: None, list_dirs }
    }

    /// Whether the decoder waits for a payload rather than a header block.
    pub open spec fn awaits_meta(&self) -> bool {
        self.phase is Meta
    }

    /// Handles the next header block: `None` when the stream ended at a block boundary, a
    /// short block when it ended inside one, which is a truncated stream.
    pub fn on_header(&mut self, block: Option<&[u8]>) -> (r: Result<TarStep, AppError>)
        requires
            !old(self).awaits_meta(),
            block matches Some(b) ==> b@.len() <= 512,
        ensures
            ({
                let bv = match block {
                    Some(b) => Some(b@),
                    None => None,
                };
                (final(self).view(), step_view(r)) == block_step(old(self).view(), bv)
            }),
            r is Err ==> r->Err_0 is Invalid,
    {
        if self.phase == TarPhase::Done {
            return Ok(TarStep::End);
        }
        let b = match block {
            None => {
                self.phase = TarPhase::Done;
                return Ok(TarStep::End);
            },
            Some(b) => b,
        };
        if b.len() < 512 {
            return Err(invalid("tar stream truncated"));
        }
        let mut i: usize = 0;
        while i < b.len() && b[i] == 0
            invariant
                i <= b@.len(),
                forall|k: int| 0 <= k < i ==> b@[k] == 0,
            decreases b@.len() - i,
        {
            i = i + 1;
        }
        if i == b.len() {
            if self.phase == TarPhase::AfterZero {
                self.phase = TarPhase::Done;
                return Ok(TarStep::End);
            }
            self.phase = TarPhase::AfterZero;
            return Ok(TarStep::NeedHeader);
        }
        assert(!all_zero(b@));
        self.process_header(b)
    }

    fn process_header(&mut self, header: &[u8]) -> (r: Result<TarStep, AppError>)
        requires
            header@.len() == 512,
        ensures
            (final(self).view(), step_view(r)) == header_step(old(self).view(), header@),
            r is Err ==> r->Err_0 is Invalid,
    {
        let size = match parse_tar_size(header) {
            Some(v) => v,
            None => 0,
        };
        let typeflag = header[156];
        if typeflag == 76 || typeflag == 120 || typeflag == 103 {
            if size > MAX_TAR_META_BYTES {
                return Err(invalid("tar extended header entry is too large"));
            }
            let kind = if typeflag == 76 {
                MetaKind::LongName
            } else {
                MetaKind::Pax
            };
            self.phase = TarPhase::Meta(kind, size);
            return Ok(TarStep::ReadMeta(size));
        }
        let longname = self.pending_longname.take();
        let pax = self.pending_pax_path.take();
        let path = match pax {
            Some(p) => p,
            None => match longname {
                Some(l) => l,
                None => parse_ustar_path(header),
            },
        };
        let normalized = normalize_member_path_str(path.as_str());
        self.phase = TarPhase::Header;
        if (typeflag == 53 && !self.list_dirs) || normalized.as_str().is_empty() {
            return Ok(TarStep::Skip(size));
        }
        Ok(TarStep::Entry(TarEntryMeta { path: normalized, size, is_dir: typeflag == 53 }))
    }

    /// Takes the payload of the meta header announced by the last step.
    pub fn accept_meta(&mut self, data: &[u8])
        requires
            old(self).phase matches TarPhase::Meta(_, n) && data@.len() == n,
        ensures
            final(self).view() == meta_step(
                old(self).view(),
                old(self).phase->Meta_0,
                data@,
            ),
    {
        match self.phase {
            TarPhase::Meta(MetaKind::LongName, _) => {
                self.pending_longname = Some(parse_tar_string(data, 0, data.len()));
                assert(data@.subrange(0, data@.len() as int) == data@);
            },
            _ => {
                match parse_pax_path(data) {
                    Some(p) => {
                        self.pending_pax_path = Some(p);
                    },
                    None => {},
                }
            },
        }
        self.phase = TarPhase::Header;
    }
}

/// A path override, once consumed by an entry header, is gone: the next entry header
/// is named by its own ustar fields again.
pub proof fn lemma_override_used_once(d: DecoderView, h1: Seq<u8>, h2: Seq<u8>)
    requires
        h1.len() == 512,
        h2.len() == 512,
        !(h1[156] == 76 || h1[156] == 120 || h1[156] == 103),
        !(h2[156] == 76 || h2[156] == 120 || h2[156] == 103),
    ensures
        ({
            let (d1, s1) = header_step(d, h1);
            let (d2, s2) = header_step(d1, h2);
            &&& s1 matches StepView::Entry(p, _, _) ==> p == normalized_path(
                effective_path(d.longname, d.pax, h1),
            )
            &&& d1.longname is None && d1.pax is None
            &&& s2 matches StepView::Entry(p, _, _) ==> p == normalized_path(ustar_path(h2))
        }),
{
}

/// A long-name payload followed by an entry header names that entry by the long name,
/// unless a PAX path is also pending, which takes precedence.
pub proof fn lemma_long_name_applies(d: DecoderView, data: Seq<u8>, h: Seq<u8>)
    requires
        h.len() == 512,
        !(h[156] == 76 || h[156] == 120 || h[156] == 103),
        d.pax is None,
    ensures
        ({
            let d1 = meta_step(d, MetaKind::LongName, data);
            let (_, s) = header_step(d1, h);
            s matches StepView::Entry(p, _, _) ==> p == normalized_path(tar_string(data))
        }),
{
}

/// Padding after `n` data bytes.
pub open spec fn pad_of(n: u64) -> int {
    (512 - n % 512) % 512
}

/// The entries `(path, size, is_dir)` a decoder in state `d` reports from `data[pos..]`,
/// when the stream is read from memory; `None` when a payload or data region is cut short
/// or a meta payload is too large, or the stream ends inside a header block. A stream that
/// ends at a block boundary ends the archive.
#[verifier::opaque]
pub open spec fn scan_from(d: DecoderView, data: Seq<u8>, pos: int) -> Option<Seq<(Seq<char>, u64, bool)>>
    decreases data.len() - pos,
{
    if pos < 0 || pos >= data.len() || d.phase == TarPhase::Done || d.phase is Meta {
        Some(seq![])
    } else if pos + 512 > data.len() {
        None
    } else {
        let next = pos + 512;
        let (d1, step) = block_step(d, Some(data.subrange(pos, next)));
        match step {
            StepView::End => Some(seq![]),
            StepView::Failed => None,
            StepView::NeedHeader => scan_from(d1, data, next),
            StepView::ReadMeta(n) => if next + n + pad_of(n) > data.len() {
                None
            } else {
                scan_from(
                    meta_step(d1, d1.phase->Meta_0, data.subrange(next, next + n)),
                    data,
                    next + n + pad_of(n),
                )
            },
            StepView::Skip(n) => if next + n + pad_of(n) > data.len() {
                None
            } else {
                scan_from(d1, data, next + n + pad_of(n))
            },
            StepView::Entry(p, n, dir) => if next + n + pad_of(n) > data.len() {
                None
            } else {
                match scan_from(d1, data, next + n + pad_of(n)) {
                    None => None,
                    Some(rest) => Some(seq![(p, n, dir)] + rest),
                }
            },
        }
    }
}

pub open spec fn metas_view(s: Seq<TarEntryMeta>) -> Seq<(Seq<char>, u64, bool)> {
    s.map_values(|m: TarEntryMeta| (m.path@, m.size, m.is_dir))
}

/// One step of reading a stream from memory: what it yields and where it continues.
pub struct MemStep {
    pub entry: Option<TarEntryMeta>,
    pub next: usize,
    pub done: bool,
}

pub open spec fn prepend(e: Option<TarEntryMeta>, rest: Option<Seq<(Seq<char>, u64, bool)>>) -> Option<Seq<(Seq<char>, u64, bool)>> {
    match rest {
        None => None,
        Some(r) => match e {
            None => Some(r),
            Some(m) => Some(seq![(m.path@, m.size, m.is_dir)] + r),
        },
    }
}

fn mem_step(dec: &mut TarDecoder, data: &[u8], pos: usize) -> (r: Result<MemStep, AppError>)
    requires
        pos <= data@.len(),
        !(old(dec).phase is Meta),
    ensures
        r is Err ==> scan_from(old(dec).view(), data@, pos as int) is None && r->Err_0 is Invalid,
        r matches Ok(st) ==> (st.done ==> scan_from(old(dec).view(), data@, pos as int) == Some(Seq::<(Seq<char>, u64, bool)>::empty())),
        r matches Ok(st) ==> (!st.done ==> pos < st.next <= data@.len() && !(final(dec).phase is Meta)
            && scan_from(old(dec).view(), data@, pos as int) == prepend(st.entry, scan_from(final(dec).view(), data@, st.next as int))),
{
    reveal(scan_from);
    let n = data.len();
    if n == pos || dec.phase == TarPhase::Done {
        return Ok(MemStep { entry: None, next: pos, done: true });
    }
    if n - pos < 512 {
        return Err(invalid("tar stream truncated"));
    }
    let next = pos + 512;
    let step = dec.on_header(Some(&data[pos..next]))?;
    match step {
        TarStep::End => Ok(MemStep { entry: None, next: pos, done: true }),
        TarStep::NeedHeader => Ok(MemStep { entry: None, next, done: false }),
        TarStep::ReadMeta(size) => {
            let pad = padding_after(size);
            if size > (n - next) as u64 || pad > (n - next) as u64 - size {
                return Err(invalid("tar stream truncated"));
            }
            let end = next + size as usize;
            dec.accept_meta(&data[next..end]);
            Ok(MemStep { entry: None, next: end + pad as usize, done: false })
        },
        TarStep::Skip(size) => {
            let pad = padding_after(size);
            if size > (n - next) as u64 || pad > (n - next) as u64 - size {
                return Err(invalid("tar stream truncated"));
            }
            Ok(MemStep { entry: None, next: next + size as usize + pad as usize, done: false })
        },
        TarStep::Entry(meta) => {
            let size = meta.size;
            let pad = padding_after(size);
            if size > (n - next) as u64 || pad > (n - next) as u64 - size {
                return Err(invalid("tar stream truncated"));
            }
            Ok(MemStep { entry: Some(meta), next: next + size as usize + pad as usize, done: false })
        },
    }
}

/// The entries of a TAR stream held in memory.
pub fn tar_entries_in(data: &[u8], list_dirs: bool) -> (r: Result<Vec<TarEntryMeta>, AppError>)
    ensures
        ({
            let start = DecoderView { phase: TarPhase::Header, longname: None, pax: None, list_dirs };
            &&& r is Ok <==> scan_from(start, data@, 0) is Some
            &&& r matches Ok(v) ==> Some(metas_view(v@)) == scan_from(start, data@, 0)
        }),
        r is Err ==> r->Err_0 is Invalid,
{
    let mut dec = TarDecoder::new(list_dirs);
    let ghost start = dec.view();
    assert(start == DecoderView { phase: TarPhase::Header, longname: None, pax: None, list_dirs });
    let mut out: Vec<TarEntryMeta> = Vec::new();
    let mut pos: usize = 0;
    let n = data.len();
    assert(metas_view(out@) =~= Seq::<(Seq<char>, u64, bool)>::empty());
    assert(scan_from(start, data@, 0) is Some ==> metas_view(out@) + scan_from(start, data@, 0)->Some_0 == scan_from(start, data@, 0)->Some_0);
    loop
        invariant
            n == data@.len(),
            pos <= n,
            start == (DecoderView { phase: TarPhase::Header, longname: None, pax: None, list_dirs }),
            !(dec.phase is Meta),
            scan_from(start, data@, 0) == match scan_from(dec.view(), data@, pos as int) {
                None => None,
                Some(rest) => Some(metas_view(out@) + rest),
            },
        decreases n - pos,
    {
        let ghost before = out@;
        let st = match mem_step(&mut dec, data, pos) {
            Ok(st) => st,
            Err(e) => {
                return Err(e);
            },
        };
        if st.done {
            assert(metas_view(out@) + Seq::<(Seq<char>, u64, bool)>::empty() == metas_view(out@));
            return Ok(out);
        }
        let ghost rest = scan_from(dec.view(), data@, st.next as int);
        match st.entry {
            Some(meta) => {
                out.push(meta);
                proof {
                    assert(metas_view(out@) == metas_view(before).push((meta.path@, meta.size, meta.is_dir)));
                    if rest is Some {
                        assert(metas_view(before) + (seq![(meta.path@, meta.size, meta.is_dir)] + rest->Some_0) == metas_view(out@) + rest->Some_0);
                    }
                }
            },
            None => {},
        }
        pos = st.next;
    }
}

} // verus!
