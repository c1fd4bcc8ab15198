//! Content sniffing and previews: magic-byte extensions, text and hex snippets.
use vstd::prelude::*;
use vstd::utf8::{decode_utf8, valid_utf8};

use crate::paths::{find_last, skip_leading};
use crate::text::{chars_of, last_index_of, lower_of, lowercase, string_from, strip_leading, trim, trim_bounds};

verus! {

/// What a preview of a member or field shows.
#[derive(Clone, Debug)]
pub struct FieldPreview {
    pub preview_text: Option<String>,
    /// Lowercase hex of at most the first 48 bytes.
    pub hex_snippet: String,
    pub guessed_ext: Option<String>,
    /// Whether no text could be shown.
    pub is_binary: bool,
    /// Declared size, saturated to `u32`.
    pub size: u32,
}

pub open spec fn hex_digit(v: int) -> char {
    if v < 10 {
        (48 + v) as char
    } else {
        (87 + v) as char
    }
}

/// Lowercase hexadecimal rendering, two digits per byte.
pub open spec fn hex_of(b: Seq<u8>) -> Seq<char>
    decreases b.len(),
{
    if b.len() == 0 {
        seq![]
    } else {
        hex_of(b.drop_last()) + seq![hex_digit((b.last() / 16) as int), hex_digit((b.last() % 16) as int)]
    }
}

/// Relies on `hex::encode`: two lowercase hexadecimal digits per byte, in order.
#[verifier::external_body]
fn hex_encode(b: &[u8]) -> (r: String)
    ensures
        r@ == hex_of(b@),
{
    hex::encode(b)
}

/// Number of bytes shown as hex in a preview.
pub const HEX_SNIPPET_BYTES: usize = 48;

/// Hex rendering of the first 48 bytes of `data`.
pub fn hex_snippet(data: &[u8]) -> (r: String)
    ensures
        r@ == hex_of(data@.take(if data@.len() < 48 { data@.len() as int } else { 48 })),
{
    let n = if data.len() < HEX_SNIPPET_BYTES { data.len() } else { HEX_SNIPPET_BYTES };
    hex_encode(&data[0..n])
}

/// Name for the extension `infer::get` recognises from leading bytes.
pub uninterp spec fn inferred_ext(b: Seq<u8>) -> Option<Seq<char>>;

/// Relies on `infer::get` and `Type::extension`: the extension of the recognised file type.
#[verifier::external_body]
fn infer_ext(b: &[u8]) -> (r: Option<String>)
    ensures
        r is None <==> inferred_ext(b@) is None,
        r is Some ==> r->Some_0@ == inferred_ext(b@)->Some_0,
{
    infer::get(b).map(|t| t.extension().to_string())
}

/// Relies on `std::str::from_utf8`: text exactly when the bytes are valid UTF-8.
#[verifier::external_body]
fn utf8_text(b: &[u8]) -> (r: Option<String>)
    ensures
        r is Some <==> valid_utf8(b@),
        r is Some ==> r->Some_0@ == decode_utf8(b@),
{
    std::str::from_utf8(b).ok().map(|s| s.to_string())
}

/// Relies on `std::str::from_utf8` and `Utf8Error`: `None` for valid UTF-8, otherwise the
/// length of the valid prefix and whether the input merely ended inside a character.
#[verifier::external_body]
fn utf8_error(b: &[u8]) -> (r: Option<(usize, bool)>)
    ensures
        r is None <==> valid_utf8(b@),
        r matches Some((n, _)) ==> n < b@.len() && valid_utf8(b@.take(n as int)),
{
    std::str::from_utf8(b).err().map(|e| (e.valid_up_to(), e.error_len().is_none()))
}

/// The first `n` characters of `s`.
pub fn take_chars(s: &str, n: usize) -> (r: String)
    ensures
        r@ == s@.take(if s@.len() < n { s@.len() as int } else { n as int }),
{
    let v = chars_of(s);
    let k = if v.len() < n { v.len() } else { n };
    string_from(&v, 0, k)
}

/// Characters of text shown in a member preview.
pub const PREVIEW_TEXT_CHARS: usize = 8192;

/// Characters of text shown in a remote preview.
pub const REMOTE_PREVIEW_CHARS: usize = 400;

/// Text of a preview of possibly truncated bytes: valid UTF-8, or valid UTF-8 cut inside
/// its last character, gives its (complete) characters, at most `PREVIEW_TEXT_CHARS` of them.
pub fn preview_utf8_text(data: &[u8]) -> (r: Option<String>)
    ensures
        valid_utf8(data@) ==> r is Some && r->Some_0@ == decode_utf8(data@).take(
            if decode_utf8(data@).len() < PREVIEW_TEXT_CHARS { decode_utf8(data@).len() as int } else { PREVIEW_TEXT_CHARS as int }),
{
    let text = match utf8_error(data) {
        None => utf8_text(data),
        Some((n, true)) => utf8_text(&data[0..n]),
        Some((_, false)) => None,
    };
    match text {
        Some(t) => Some(take_chars(t.as_str(), PREVIEW_TEXT_CHARS)),
        None => None,
    }
}

/// All of the bytes as text, when they are valid UTF-8.
pub fn remote_text_full(data: &[u8]) -> (r: Option<String>)
    ensures
        r is Some <==> valid_utf8(data@),
        r is Some ==> r->Some_0@ == decode_utf8(data@),
{
    utf8_text(data)
}

/// Text of a remote preview: the first 400 characters when all bytes are valid UTF-8.
pub fn remote_preview_text(data: &[u8]) -> (r: Option<String>)
    ensures
        r is Some <==> valid_utf8(data@),
        r is Some ==> r->Some_0@ == decode_utf8(data@).take(
            if decode_utf8(data@).len() < REMOTE_PREVIEW_CHARS { decode_utf8(data@).len() as int } else { REMOTE_PREVIEW_CHARS as int }),
{
    match utf8_text(data) {
        Some(t) => Some(take_chars(t.as_str(), REMOTE_PREVIEW_CHARS)),
        None => None,
    }
}

/// Whether the bytes start with the NIST SPHERE magic `NIST_1A`.
pub open spec fn sphere_magic(d: Seq<u8>) -> bool {
    d.len() >= 7 && d[0] == 78 && d[1] == 73 && d[2] == 83 && d[3] == 84 && d[4] == 95 && d[5] == 49
        && d[6] == 65
}

/// Whether `data` is a NIST SPHERE audio file.
pub fn is_sphere_file(data: &[u8]) -> (r: bool)
    ensures
        r == sphere_magic(data@),
{
    data.len() >= 7 && data[0] == 78 && data[1] == 73 && data[2] == 83 && data[3] == 84 && data[4]
        == 95 && data[5] == 49 && data[6] == 65
}

/// The audio extension that leading magic bytes announce.
pub open spec fn magic_ext(d: Seq<u8>) -> Option<Seq<char>> {
    if sphere_magic(d) {
        Some("sph"@)
    } else if d.len() >= 12 && d[0] == 82 && d[1] == 73 && d[2] == 70 && d[3] == 70 && d[8] == 87
        && d[9] == 65 && d[10] == 86 && d[11] == 69 {
        Some("wav"@)
    } else if d.len() >= 3 && d[0] == 73 && d[1] == 68 && d[2] == 51 {
        Some("mp3"@)
    } else if d.len() >= 2 && d[0] == 0xFF && (d[1] & 0xE0) == 0xE0 {
        Some("mp3"@)
    } else if d.len() >= 4 && d[0] == 102 && d[1] == 76 && d[2] == 97 && d[3] == 67 {
        Some("flac"@)
    } else {
        None
    }
}

/// Recognises SPHERE, WAV, MP3 and FLAC data by their leading bytes.
pub fn detect_magic_ext(data: &[u8]) -> (r: Option<String>)
    ensures
        r is None <==> magic_ext(data@) is None,
        r is Some ==> r->Some_0@ == magic_ext(data@)->Some_0,
{
    if is_sphere_file(data) {
        return Some("sph".to_owned());
    }
    if data.len() >= 12 && data[0] == 82 && data[1] == 73 && data[2] == 70 && data[3] == 70 && data[8]
        == 87 && data[9] == 65 && data[10] == 86 && data[11] == 69 {
        return Some("wav".to_owned());
    }
    if data.len() >= 3 && data[0] == 73 && data[1] == 68 && data[2] == 51 {
        return Some("mp3".to_owned());
    }
    if data.len() >= 2 && data[0] == 0xFF && (data[1] & 0xE0) == 0xE0 {
        return Some("mp3".to_owned());
    }
    if data.len() >= 4 && data[0] == 102 && data[1] == 76 && data[2] == 97 && data[3] == 67 {
        return Some("flac".to_owned());
    }
    None
}

/// The extension of a file name guessed for preview: the name's own, else the magic-byte
/// one, else the one `infer` recognises.
pub fn guess_ext(name_ext: Option<String>, data: &[u8]) -> (r: Option<String>)
    ensures
        name_ext is Some ==> r == name_ext,
        name_ext is None && magic_ext(data@) is Some ==> r is Some && r->Some_0@ == magic_ext(data@)->Some_0,
        name_ext is None && magic_ext(data@) is None ==> (r is None <==> inferred_ext(data@) is None),
        name_ext is None && magic_ext(data@) is None && r is Some ==> r->Some_0@ == inferred_ext(data@)->Some_0,
{
    if name_ext.is_some() {
        return name_ext;
    }
    match detect_magic_ext(data) {
        Some(e) => Some(e),
        None => infer_ext(data),
    }
}

/// A preview of the leading bytes of a remote member: its text (when valid UTF-8), its hex
/// snippet, and an extension from its name or, failing that, from `infer`.
pub fn remote_preview(data: &[u8], name_ext: Option<String>, declared_size: u64) -> (r: FieldPreview)
    ensures
        r.is_binary == !valid_utf8(data@),
        r.preview_text is Some <==> valid_utf8(data@),
        r.hex_snippet@ == hex_of(data@.take(if data@.len() < 48 { data@.len() as int } else { 48 })),
        r.size == (if declared_size > u32::MAX { u32::MAX } else { declared_size as u32 }),
        name_ext is Some ==> r.guessed_ext == name_ext,
        name_ext is None ==> (r.guessed_ext is None <==> inferred_ext(data@) is None),
{
    let text = remote_preview_text(data);
    let guessed_ext = if name_ext.is_some() {
        name_ext
    } else {
        infer_ext(data)
    };
    let is_binary = text.is_none();
    FieldPreview {
        preview_text: text,
        hex_snippet: hex_snippet(data),
        guessed_ext,
        is_binary,
        size: if declared_size > u32::MAX as u64 { u32::MAX } else { declared_size as u32 },
    }
}

/// Decimal digits of `n`.
pub open spec fn decimal_of(n: nat) -> Seq<char>
    decreases n,
{
    if n < 10 {
        seq![(48 + n) as char]
    } else {
        decimal_of(n / 10).push((48 + n % 10) as char)
    }
}

/// Decimal rendering of a signed value.
pub open spec fn signed_decimal(v: int) -> Seq<char> {
    if v < 0 {
        seq!['-'] + decimal_of((-v) as nat)
    } else {
        decimal_of(v as nat)
    }
}

fn push_decimal(out: &mut String, n: u64)
    ensures
        final(out)@ == old(out)@ + decimal_of(n as nat),
    decreases n,
{
    if n >= 10 {
        push_decimal(out, n / 10);
    }
    let d = (n % 10) as u8;
    out.push((48u8 + d) as char);
    assert(decimal_of(n as nat) == if n < 10 { seq![(48 + n) as char] } else { decimal_of((n / 10) as nat).push((48 + n % 10) as char) });
}

/// Decimal text of an unsigned value.
pub fn u64_to_text(n: u64) -> (r: String)
    ensures
        r@ == decimal_of(n as nat),
{
    let mut out = String::new();
    push_decimal(&mut out, n);
    out
}

/// Decimal text of a signed value.
pub fn i64_to_text(v: i64) -> (r: String)
    ensures
        r@ == signed_decimal(v as int),
{
    let mut out = String::new();
    if v < 0 {
        out.push('-');
        let m: u64 = if v == i64::MIN { 9223372036854775808u64 } else { (-v) as u64 };
        push_decimal(&mut out, m);
    } else {
        push_decimal(&mut out, v as u64);
    }
    out
}

/// The raw extension of a member path: what follows the last `.` of its last component
/// (after the last `/`), unless that `.` is the component's first character.
pub open spec fn raw_member_ext(p: Seq<char>) -> Option<Seq<char>> {
    let base = p.subrange(last_index_of(p, '/') + 1, p.len() as int);
    let k = last_index_of(base, '.');
    if k <= 0 {
        None
    } else {
        Some(base.subrange(k + 1, base.len() as int))
    }
}

/// The extension of a member path, trimmed, without leading dots and lowercased; `None`
/// when that is empty.
pub open spec fn member_ext(p: Seq<char>) -> Option<Seq<char>> {
    match raw_member_ext(p) {
        Some(e) => {
            let c = lower_of(strip_leading(trim(e), '.'));
            if c.len() == 0 { None } else { Some(c) }
        },
        None => None,
    }
}

proof fn lemma_last_index_range(s: Seq<char>, c: char)
    ensures
        -1 <= last_index_of(s, c) < s.len(),
    decreases s.len(),
{
    if s.len() > 0 && s.last() != c {
        lemma_last_index_range(s.drop_last(), c);
    }
}

fn raw_ext_bounds(v: &Vec<char>) -> (r: Option<(usize, usize)>)
    ensures
        r is None <==> raw_member_ext(v@) is None,
        r matches Some((a, b)) ==> a <= b <= v@.len() && raw_member_ext(v@) == Some(v@.subrange(a as int, b as int)),
{
    let n = v.len();
    assert(v@.subrange(0, n as int) == v@);
    proof {
        lemma_last_index_range(v@, '/');
    }
    let base_lo = match find_last(v, 0, n, '/') {
        Some(k) => k + 1,
        None => 0,
    };
    let ghost base = v@.subrange(last_index_of(v@, '/') + 1, n as int);
    assert(v@.subrange(base_lo as int, n as int) == base);
    proof {
        lemma_last_index_range(base, '.');
    }
    match find_last(v, base_lo, n, '.') {
        Some(k) => {
            if k == 0 {
                None
            } else {
                assert(base.subrange(k + 1, base.len() as int) == v@.subrange((base_lo + k + 1) as int, n as int));
                Some((base_lo + k + 1, n))
            }
        },
        None => None,
    }
}

/// Guesses the extension of an archive member: its path's own, else magic bytes, else
/// what `infer` recognises.
pub fn guess_ext_from_member(member_path: &str, data: &[u8]) -> (r: Option<String>)
    ensures
        member_ext(member_path@) is Some ==> r is Some && r->Some_0@ == member_ext(member_path@)->Some_0,
        member_ext(member_path@) is None && magic_ext(data@) is Some ==> r is Some && r->Some_0@ == magic_ext(data@)->Some_0,
        member_ext(member_path@) is None && magic_ext(data@) is None ==> (r is None <==> inferred_ext(data@) is None),
{
    let pv = chars_of(member_path);
    let ext = match raw_ext_bounds(&pv) {
        Some((ea, eb)) => {
            let e = string_from(&pv, ea, eb);
            let v = chars_of(e.as_str());
            let (lo, hi) = trim_bounds(&v, 0, v.len());
            assert(v@.subrange(0, v@.len() as int) == v@);
            let s = skip_leading(&v, lo, hi, '.');
            let stripped = string_from(&v, s, hi);
            let l = lowercase(stripped.as_str());
            if l.as_str().is_empty() { None } else { Some(l) }
        },
        None => None,
    };
    guess_ext(ext, data)
}

} // verus!
