//! MDS shard decoding: the sample offset table, variable-size field headers, and the
//! byte range of each field.
use vstd::prelude::*;

use crate::bytes::{le16_at, le32_at, le64_at};
use crate::error::{invalid, missing, AppError};
use crate::sniff::{decimal_of, detect_magic_ext, i64_to_text, magic_ext, signed_decimal, u64_to_text};
use crate::tar::{lossy_utf8, utf8_lossy};
use crate::text::{chars_of, ends_with, ends_with_str, lower_of, lowercase, starts_with, trim, trim_bounds};

verus! {

/// Size and name of one stored shard file.
#[derive(Clone, Debug)]
pub struct FileInfo {
    pub basename: String,
    pub bytes: u64,
    /// Named digests of the file.
    pub hashes: Vec<(String, String)>,
}

/// Declared layout of one MDS shard.
#[derive(Clone, Debug)]
pub struct MdsShard {
    pub column_encodings: Vec<String>,
    pub column_names: Vec<String>,
    /// Declared size per column; `None` for variable-size columns.
    pub column_sizes: Vec<Option<u32>>,
    pub compression: Option<String>,
    pub format: String,
    pub hashes: Vec<String>,
    pub raw_data: FileInfo,
    pub samples: u32,
    pub size_limit: Option<u64>,
    pub version: u32,
    pub zip_data: Option<FileInfo>,
}

/// Largest number of samples listed per shard.
pub const MAX_LISTED_SAMPLES: u32 = 5000;

/// Number of variable-size columns.
pub open spec fn var_count(cs: Seq<Option<u32>>) -> nat
    decreases cs.len(),
{
    if cs.len() == 0 {
        0
    } else {
        var_count(cs.drop_last()) + if cs.last() is None { 1nat } else { 0nat }
    }
}

/// Byte position of the offset pair of sample `idx` in the shard file.
pub fn sample_offsets_position(idx: u32) -> (r: u64)
    ensures
        r == 4 * (idx + 1),
{
    (1u64 + idx as u64) * 4
}

/// Reads the offset pair `[begin, end)` of a sample from its 8 bytes.
pub fn parse_sample_offsets(pair: &[u8]) -> (r: Result<(u32, u32), AppError>)
    requires
        pair@.len() == 8,
    ensures
        r is Ok <==> le32_at(pair@, 4) >= le32_at(pair@, 0),
        r matches Ok((b, e)) ==> b == le32_at(pair@, 0) && e == le32_at(pair@, 4),
        r is Err ==> r->Err_0 is MalformedChunk,
{
    let begin = crate::bytes::read_u32_le(pair, 0);
    let end = crate::bytes::read_u32_le(pair, 4);
    match (begin, end) {
        (Ok(b), Ok(e)) => {
            if e < b {
                Err(AppError::MalformedChunk)
            } else {
                Ok((b, e))
            }
        },
        _ => Err(AppError::MalformedChunk),
    }
}

/// Length of the variable-size header at the start of each sample: four bytes per
/// variable-size column.
pub fn variable_header_len(column_sizes: &Vec<Option<u32>>) -> (r: usize)
    requires
        column_sizes@.len() < usize::MAX / 4,
    ensures
        r == 4 * var_count(column_sizes@),
{
    let mut n: usize = 0;
    let mut i: usize = 0;
    while i < column_sizes.len()
        invariant
            i <= column_sizes@.len() < usize::MAX / 4,
            n == var_count(column_sizes@.subrange(0, i as int)),
            n <= i,
        decreases column_sizes@.len() - i,
    {
        assert(column_sizes@.subrange(0, i + 1).drop_last() == column_sizes@.subrange(0, i as int));
        if column_sizes[i].is_none() {
            n = n + 1;
        }
        i = i + 1;
    }
    assert(column_sizes@.subrange(0, column_sizes@.len() as int) == column_sizes@);
    n * 4
}

/// The size of every column of a sample: the declared size of fixed columns, and for
/// variable ones the little-endian `u32` of the header, in column order.
pub open spec fn resolved_sizes(cs: Seq<Option<u32>>, header: Seq<u8>) -> Seq<u32>
    decreases cs.len(),
{
    if cs.len() == 0 {
        seq![]
    } else {
        let prev = resolved_sizes(cs.drop_last(), header);
        match cs.last() {
            Some(sz) => prev.push(sz),
            None => prev.push(le32_at(header, (4 * var_count(cs.drop_last())) as int)),
        }
    }
}

proof fn lemma_resolved_len(cs: Seq<Option<u32>>, header: Seq<u8>)
    ensures
        resolved_sizes(cs, header).len() == cs.len(),
    decreases cs.len(),
{
    if cs.len() > 0 {
        lemma_resolved_len(cs.drop_last(), header);
    }
}

/// The size of every column of a sample whose variable-size header is `header`.
pub fn read_variable_sizes(column_sizes: &Vec<Option<u32>>, header: &[u8]) -> (r: Vec<u32>)
    requires
        header@.len() == 4 * var_count(column_sizes@),
    ensures
        r@ == resolved_sizes(column_sizes@, header@),
{
    let _len = header.len();
    let mut sizes: Vec<u32> = Vec::new();
    let mut var_idx: usize = 0;
    let mut i: usize = 0;
    while i < column_sizes.len()
        invariant
            i <= column_sizes@.len(),
            header@.len() == 4 * var_count(column_sizes@),
            header@.len() <= usize::MAX,
            var_idx == var_count(column_sizes@.subrange(0, i as int)),
            sizes@ == resolved_sizes(column_sizes@.subrange(0, i as int), header@),
        decreases column_sizes@.len() - i,
    {
        let ghost pre = column_sizes@.subrange(0, i as int);
        assert(column_sizes@.subrange(0, i + 1).drop_last() == pre);
        proof {
            lemma_var_count_prefix(column_sizes@, i as int + 1);
        }
        match column_sizes[i] {
            Some(sz) => {
                sizes.push(sz);
            },
            None => {
                assert(var_idx + 1 <= var_count(column_sizes@));
                let start = var_idx * 4;
                let v = header[start] as u32 | ((header[start + 1] as u32) << 8u32) | ((header[start + 2] as u32) << 16u32) | ((header[start + 3] as u32) << 24u32);
                sizes.push(v);
                var_idx = var_idx + 1;
            },
        }
        i = i + 1;
    }
    assert(column_sizes@.subrange(0, column_sizes@.len() as int) == column_sizes@);
    sizes
}

proof fn lemma_var_count_prefix(cs: Seq<Option<u32>>, k: int)
    requires
        0 <= k <= cs.len(),
    ensures
        var_count(cs.subrange(0, k)) <= var_count(cs),
        k > 0 && cs[k - 1] is None ==> var_count(cs.subrange(0, k)) >= 1 && var_count(cs.subrange(0, k - 1)) + 1 == var_count(cs.subrange(0, k)),
    decreases cs.len() - k,
{
    if k < cs.len() {
        lemma_var_count_prefix(cs, k + 1);
        assert(cs.subrange(0, k + 1).drop_last() == cs.subrange(0, k));
    } else {
        assert(cs.subrange(0, k) == cs);
    }
    if k > 0 {
        assert(cs.subrange(0, k).drop_last() == cs.subrange(0, k - 1));
    }
}

/// Sum of the first `k` sizes.
pub open spec fn size_prefix_sum(sizes: Seq<u32>, k: int) -> nat
    decreases k,
{
    if k <= 0 {
        0
    } else {
        size_prefix_sum(sizes, k - 1) + sizes[k - 1] as nat
    }
}

/// Start offset of field `k` of a sample starting at `begin`: fields follow the
/// variable-size header contiguously, in column order.
pub open spec fn field_start(begin: u32, cs: Seq<Option<u32>>, sizes: Seq<u32>, k: int) -> int {
    begin + 4 * var_count(cs) + size_prefix_sum(sizes, k)
}

/// Start offset and size of field `field_index` of a sample starting at `begin`.
pub fn field_start_offset(begin: u32, column_sizes: &Vec<Option<u32>>, field_index: usize, sizes: &Vec<u32>) -> (r: Result<(u64, u32), AppError>)
    requires
        column_sizes@.len() < usize::MAX / 4,
    ensures
        field_index >= sizes@.len() ==> (r is Err && r->Err_0 is Invalid),
        field_index < sizes@.len() ==> (r is Ok <==> field_start(begin, column_sizes@, sizes@, field_index as int) <= u64::MAX),
        r is Err ==> r->Err_0 is Invalid,
        r matches Ok((s, n)) ==> field_index < sizes@.len() && n == sizes@[field_index as int]
            && s == field_start(begin, column_sizes@, sizes@, field_index as int),
{
    if field_index >= sizes.len() {
        return Err(invalid("field index out of range"));
    }
    let header_len = variable_header_len(column_sizes) as u64;
    if header_len > u64::MAX - begin as u64 {
        proof {
            lemma_prefix_sum_monotone(sizes@, 0, field_index as int);
        }
        return Err(invalid("field offset overflow"));
    }
    let mut cursor: u64 = begin as u64 + header_len;
    let mut idx: usize = 0;
    while idx < field_index
        invariant
            field_index < sizes@.len(),
            idx <= field_index,
            header_len == 4 * var_count(column_sizes@),
            cursor == field_start(begin, column_sizes@, sizes@, idx as int),
        decreases field_index - idx,
    {
        if cursor > u64::MAX - sizes[idx] as u64 {
            proof {
                lemma_prefix_sum_monotone(sizes@, idx + 1, field_index as int);
            }
            return Err(invalid("field offset overflow"));
        }
        cursor = cursor + sizes[idx] as u64;
        idx = idx + 1;
    }
    Ok((cursor, sizes[field_index]))
}

proof fn lemma_prefix_sum_monotone(sizes: Seq<u32>, a: int, b: int)
    requires
        0 <= a <= b <= sizes.len(),
    ensures
        size_prefix_sum(sizes, a) <= size_prefix_sum(sizes, b),
    decreases b - a,
{
    if a < b {
        lemma_prefix_sum_monotone(sizes, a, b - 1);
    }
}

/// Checks that a field lies within its sample, whose span ends at `end`.
pub fn check_field_bounds(end: u32, field_start: u64, field_size: u32) -> (r: Result<(), AppError>)
    ensures
        r is Ok <==> field_start + field_size <= end,
        r is Err ==> r->Err_0 is MalformedChunk,
{
    if field_start > end as u64 {
        return Err(AppError::MalformedChunk);
    }
    let available = end as u64 - field_start;
    if available < field_size as u64 {
        return Err(AppError::MalformedChunk);
    }
    Ok(())
}

/// Resolves field `field_index` of the sample `[begin, end)`, whose variable-size header
/// is `header`: its start and size, never reaching past the sample's end.
pub fn resolve_field(begin: u32, end: u32, column_sizes: &Vec<Option<u32>>, header: &[u8], field_index: usize) -> (r: Result<(u64, u32), AppError>)
    requires
        column_sizes@.len() < usize::MAX / 4,
        header@.len() == 4 * var_count(column_sizes@),
    ensures
        ({
            let sizes = resolved_sizes(column_sizes@, header@);
            &&& field_index >= sizes.len() ==> (r is Err && r->Err_0 is Invalid)
            &&& field_index < sizes.len() ==> ({
                let s = field_start(begin, column_sizes@, sizes, field_index as int);
                &&& s + sizes[field_index as int] <= end ==> r == Ok::<(u64, u32), AppError>((s as u64, sizes[field_index as int]))
                &&& s + sizes[field_index as int] > end ==> r is Err
                &&& s + sizes[field_index as int] > end && s <= u64::MAX ==> r->Err_0 is MalformedChunk
            })
        }),
        r matches Ok((s, n)) ==> begin <= s && s + n <= end,
{
    let sizes = read_variable_sizes(column_sizes, header);
    proof {
        lemma_resolved_len(column_sizes@, header@);
    }
    let (start, size) = field_start_offset(begin, column_sizes, field_index, &sizes)?;
    check_field_bounds(end, start, size)?;
    Ok((start, size))
}

/// Number of samples listed for a shard: the lesser of the file's own count and the
/// index's, capped.
pub fn listed_sample_count(count_in_file: u32, count_in_index: u32) -> (r: u32)
    ensures
        r as int == vstd::math::min(vstd::math::min(count_in_file as int, count_in_index as int), MAX_LISTED_SAMPLES as int),
{
    let total = if count_in_index < count_in_file { count_in_index } else { count_in_file };
    if total < MAX_LISTED_SAMPLES { total } else { MAX_LISTED_SAMPLES }
}

/// Position of the shard whose raw or compressed file is named `shard_filename` (trimmed).
pub fn shard_for_filename(shards: &Vec<MdsShard>, shard_filename: &str) -> (r: Result<usize, AppError>)
    ensures
        r matches Ok(i) ==> i < shards@.len() && shard_named(shards@[i as int], trim(shard_filename@))
            && forall|j: int| 0 <= j < i ==> !shard_named(#[trigger] shards@[j], trim(shard_filename@)),
        r matches Err(e) ==> (e is Invalid && trim(shard_filename@).len() == 0) || (e is Missing
            && trim(shard_filename@).len() > 0
            && forall|j: int| 0 <= j < shards@.len() ==> !shard_named(#[trigger] shards@[j], trim(shard_filename@))),
{
    let v = chars_of(shard_filename);
    let (lo, hi) = trim_bounds(&v, 0, v.len());
    assert(v@.subrange(0, v@.len() as int) == v@);
    let name = crate::text::string_from(&v, lo, hi);
    if name.as_str().is_empty() {
        return Err(invalid("missing shard filename"));
    }
    let mut i: usize = 0;
    while i < shards.len()
        invariant
            i <= shards@.len(),
            name@ == trim(shard_filename@),
            forall|j: int| 0 <= j < i ==> !shard_named(#[trigger] shards@[j], name@),
        decreases shards@.len() - i,
    {
        let s = &shards[i];
        let hit = s.raw_data.basename.eq(&name) || match &s.zip_data {
            Some(z) => z.basename.eq(&name),
            None => false,
        };
        if hit {
            return Ok(i);
        }
        i = i + 1;
    }
    Err(missing("unknown shard"))
}

/// Whether a shard's raw or compressed file has the given name.
pub open spec fn shard_named(s: MdsShard, name: Seq<char>) -> bool {
    s.raw_data.basename@ == name || (s.zip_data matches Some(z) && z.basename@ == name)
}

/// `zstd` when the declared compression starts with it or the file name ends with
/// `.zst`/`.zstd`, compared in lowercase.
pub fn compression_kind(value: Option<&str>, filename: &str) -> (r: Option<String>)
    ensures
        r is Some ==> r->Some_0@ == "zstd"@,
        r is Some <==> ({
            let declared = match value { Some(v) => v@, None => Seq::<char>::empty() };
            starts_with(lower_of(trim(declared)), "zstd"@) || ends_with(lower_of(filename@), ".zst"@)
                || ends_with(lower_of(filename@), ".zstd"@)
        }),
{
    let declared = match value {
        Some(v) => v,
        None => "",
    };
    proof {
        if value is None {
            reveal_strlit("");
        }
    }
    let dv = chars_of(declared);
    let (lo, hi) = trim_bounds(&dv, 0, dv.len());
    assert(dv@.subrange(0, dv@.len() as int) == dv@);
    let trimmed = crate::text::string_from(&dv, lo, hi);
    let lower = lowercase(trimmed.as_str());
    let lv = chars_of(lower.as_str());
    proof {
        reveal_strlit("zstd");
    }
    let ghost declared_view = match value { Some(v) => v@, None => Seq::<char>::empty() };
    assert(declared@ == declared_view);
    assert(lv@ == lower_of(trim(declared_view)));
    let zstd_prefix = lv.len() >= 4 && crate::text::seq_eq_str(&lv, 0, 4, "zstd");
    assert(zstd_prefix == starts_with(lv@, "zstd"@));
    if zstd_prefix {
        return Some("zstd".to_string());
    }
    let lf = lowercase(filename);
    let fv = chars_of(lf.as_str());
    let n = fv.len();
    assert(fv@.subrange(0, n as int) == fv@);
    if ends_with_str(&fv, 0, n, ".zst") || ends_with_str(&fv, 0, n, ".zstd") {
        return Some("zstd".to_string());
    }
    None
}

/// Extension named by a known column encoding.
pub open spec fn encoding_table(e: Seq<char>) -> Option<Seq<char>> {
    if e == "jpeg"@ || e == "jpg"@ {
        Some("jpg"@)
    } else if e == "pil"@ || e == "png"@ {
        Some("png"@)
    } else if e == "tiff"@ {
        Some("tiff"@)
    } else if is_text_encoding(e) {
        Some("txt"@)
    } else if e == "json"@ {
        Some("json"@)
    } else if e == "bytes"@ {
        Some("bin"@)
    } else if e == "pkl"@ {
        Some("pkl"@)
    } else {
        None
    }
}

/// Encodings whose values are shown as text.
pub open spec fn is_text_encoding(e: Seq<char>) -> bool {
    e == "str"@ || e == "str_int"@ || e == "str_float"@ || e == "str_decimal"@ || is_numeric_encoding(e)
}

/// Fixed-width numeric encodings, read in full and decoded.
pub open spec fn is_numeric_encoding(e: Seq<char>) -> bool {
    e == "int"@ || e == "int8"@ || e == "int16"@ || e == "int32"@ || e == "int64"@ || e == "uint8"@
        || e == "uint16"@ || e == "uint32"@ || e == "uint64"@ || e == "float16"@ || e == "float32"@
        || e == "float64"@
}

fn table_ext(e: &Vec<char>) -> (r: Option<&'static str>)
    ensures
        r is None <==> encoding_table(e@) is None,
        r is Some ==> r->Some_0@ == encoding_table(e@)->Some_0,
{
    let n = e.len();
    assert(e@.subrange(0, n as int) == e@);
    let eq = |s: &str| -> (b: bool)
        ensures b == (e@ == s@)
    { crate::text::seq_eq_str(e, 0, n, s) };
    if eq("jpeg") || eq("jpg") {
        Some("jpg")
    } else if eq("pil") || eq("png") {
        Some("png")
    } else if eq("tiff") {
        Some("tiff")
    } else if eq("str") || eq("str_int") || eq("str_float") || eq("str_decimal") || eq("int") || eq("int8")
        || eq("int16") || eq("int32") || eq("int64") || eq("uint8") || eq("uint16") || eq("uint32")
        || eq("uint64") || eq("float16") || eq("float32") || eq("float64") {
        Some("txt")
    } else if eq("json") {
        Some("json")
    } else if eq("bytes") {
        Some("bin")
    } else if eq("pkl") {
        Some("pkl")
    } else {
        None
    }
}

/// Whether a column encoding is read in full and decoded as a number.
pub fn is_numeric_column(encoding: Option<&str>) -> (r: bool)
    ensures
        r == (match encoding { Some(e) => is_numeric_encoding(lower_of(trim(e@))), None => false }),
{
    match encoding {
        None => false,
        Some(e) => {
            let v = chars_of(e);
            let (lo, hi) = trim_bounds(&v, 0, v.len());
            assert(v@.subrange(0, v@.len() as int) == v@);
            let t = crate::text::string_from(&v, lo, hi);
            let l = lowercase(t.as_str());
            let lv = chars_of(l.as_str());
            let n = lv.len();
            assert(lv@.subrange(0, n as int) == lv@);
            let eq = |s: &str| -> (b: bool)
                ensures b == (lv@ == s@)
            { crate::text::seq_eq_str(&lv, 0, n, s) };
            eq("int") || eq("int8") || eq("int16") || eq("int32") || eq("int64") || eq("uint8") || eq("uint16")
                || eq("uint32") || eq("uint64") || eq("float16") || eq("float32") || eq("float64")
        },
    }
}

/// Bytes read for a field preview: all of a numeric field, else at most `preview_bytes`.
pub fn preview_read_len(numeric: bool, field_size: u32, preview_bytes: u32) -> (r: u32)
    ensures
        r == (if numeric || field_size <= preview_bytes { field_size } else { preview_bytes }),
{
    if numeric || field_size <= preview_bytes {
        field_size
    } else {
        preview_bytes
    }
}

/// Guesses the extension of an MDS field from its column encoding and bytes.
///
/// Without an encoding the bytes decide (magic numbers, then `infer`). Known encodings map
/// to their extension (raw `bytes` may still be recognised by magic); `audio` is recognised
/// by magic or taken as WAV; `kind:subtype` yields the subtype; anything else is
/// recognised by magic, else taken as text when it is non-blank UTF-8, else left to `infer`.
pub fn mds_guess_ext(encoding: Option<&str>, data: &[u8]) -> (r: Option<String>)
    ensures
        ({
            let e = match encoding { Some(x) => trim(x@), None => Seq::<char>::empty() };
            let l = lower_of(e);
            &&& e.len() > 0 && encoding_table(l) is Some && l != "bytes"@ && l != "audio"@
                ==> r is Some && r->Some_0@ == encoding_table(l)->Some_0
            &&& e.len() > 0 && l == "bytes"@ ==> r is Some && r->Some_0@ == (
                match magic_ext(data@) { Some(m) => m, None => "bin"@ })
            &&& e.len() > 0 && l == "audio"@ ==> r is Some && r->Some_0@ == (
                match magic_ext(data@) { Some(m) => m, None => "wav"@ })
            &&& e.len() == 0 && magic_ext(data@) is Some ==> r is Some && r->Some_0@ == magic_ext(data@)->Some_0
        }),
{
    let raw = match encoding {
        Some(x) => x,
        None => "",
    };
    proof {
        reveal_strlit("");
        reveal_strlit("bin");
        reveal_strlit("bytes");
        reveal_strlit("audio");
    }
    let v = chars_of(raw);
    let (lo, hi) = trim_bounds(&v, 0, v.len());
    assert(v@.subrange(0, v@.len() as int) == v@);
    if lo == hi {
        return match detect_magic_ext(data) {
            Some(m) => Some(m),
            None => crate::sniff::guess_ext(None, data),
        };
    }
    let t = crate::text::string_from(&v, lo, hi);
    let l = lowercase(t.as_str());
    let lv = chars_of(l.as_str());
    let n = lv.len();
    assert(lv@.subrange(0, n as int) == lv@);
    let ghost ev = match encoding { Some(x) => trim(x@), None => Seq::<char>::empty() };
    assert(lv@ == lower_of(ev));
    if crate::text::seq_eq_str(&lv, 0, n, "audio") {
        assert(lv@ == "audio"@);
        assert("audio"@ != "bytes"@) by {
            assert("audio"@[0] != "bytes"@[0]);
        }
        return match detect_magic_ext(data) {
            Some(m) => Some(m),
            None => Some("wav".to_owned()),
        };
    }
    match table_ext(&lv) {
        Some(ext) => {
            if crate::text::seq_eq_str(&lv, 0, n, "bytes") {
                return match detect_magic_ext(data) {
                    Some(m) => Some(m),
                    None => Some("bin".to_owned()),
                };
            }
            return Some(ext.to_owned());
        },
        None => {},
    }
    match crate::paths::find_first(&lv, 0, n, ':') {
        Some(k) => {
            let (slo, shi) = trim_bounds(&lv, k + 1, n);
            let s = skip_leading_dots(&lv, slo, shi);
            if s < shi {
                return Some(crate::text::string_from(&lv, s, shi));
            }
        },
        None => {},
    }
    if let Some(m) = detect_magic_ext(data) {
        return Some(m);
    }
    if non_blank_utf8(data) {
        return Some("txt".to_owned());
    }
    crate::sniff::guess_ext(None, data)
}

fn skip_leading_dots(v: &Vec<char>, lo: usize, hi: usize) -> (r: usize)
    requires
        lo <= hi <= v@.len(),
    ensures
        lo <= r <= hi,
{
    crate::paths::skip_leading(v, lo, hi, '.')
}

/// Whether the bytes are valid UTF-8 with a non-whitespace character.
fn non_blank_utf8(data: &[u8]) -> bool {
    match crate::sniff::remote_text_full(data) {
        Some(t) => {
            let v = chars_of(t.as_str());
            let (lo, hi) = trim_bounds(&v, 0, v.len());
            lo < hi
        },
        None => false,
    }
}

/// Text of a scalar field of the given encoding.
pub open spec fn scalar_text(enc: Seq<char>, d: Seq<u8>) -> Option<Seq<char>> {
    if enc == "str"@ || enc == "str_int"@ || enc == "str_float"@ || enc == "str_decimal"@ || enc == "json"@ {
        Some(lossy_utf8(d))
    } else if enc == "int"@ || enc == "int64"@ {
        if d.len() == 8 { Some(signed_decimal((le64_at(d, 0) as i64) as int)) } else { None }
    } else if enc == "int32"@ {
        if d.len() == 4 { Some(signed_decimal((le32_at(d, 0) as i32) as int)) } else { None }
    } else if enc == "int16"@ {
        if d.len() == 2 { Some(signed_decimal((le16_at(d, 0) as i16) as int)) } else { None }
    } else if enc == "int8"@ {
        if d.len() == 1 { Some(signed_decimal((d[0] as i8) as int)) } else { None }
    } else if enc == "uint64"@ {
        if d.len() == 8 { Some(decimal_of(le64_at(d, 0) as nat)) } else { None }
    } else if enc == "uint32"@ {
        if d.len() == 4 { Some(decimal_of(le32_at(d, 0) as nat)) } else { None }
    } else if enc == "uint16"@ {
        if d.len() == 2 { Some(decimal_of(le16_at(d, 0) as nat)) } else { None }
    } else if enc == "uint8"@ {
        if d.len() == 1 { Some(decimal_of(d[0] as nat)) } else { None }
    } else {
        None
    }
}

/// Decodes a scalar field as text: string encodings as (lossy) UTF-8, integer encodings
/// from their little-endian bytes. Floating-point encodings are not decoded here.
pub fn decode_scalar_to_text(encoding: &str, data: &[u8]) -> (r: Option<String>)
    ensures
        r is None <==> scalar_text(lower_of(trim(encoding@)), data@) is None,
        r is Some ==> r->Some_0@ == scalar_text(lower_of(trim(encoding@)), data@)->Some_0,
{
    let v = chars_of(encoding);
    let (lo, hi) = trim_bounds(&v, 0, v.len());
    assert(v@.subrange(0, v@.len() as int) == v@);
    let t = crate::text::string_from(&v, lo, hi);
    let l = lowercase(t.as_str());
    let e = chars_of(l.as_str());
    let n = e.len();
    assert(e@.subrange(0, n as int) == e@);
    let eq = |s: &str| -> (b: bool)
        ensures b == (e@ == s@)
    { crate::text::seq_eq_str(&e, 0, n, s) };
    if eq("str") || eq("str_int") || eq("str_float") || eq("str_decimal") || eq("json") {
        return Some(utf8_lossy(data));
    }
    if eq("int") || eq("int64") {
        if data.len() != 8 {
            return None;
        }
        let x = crate::bytes::read_u64_le(data, 0);
        return match x {
            Ok(x) => Some(i64_to_text(x as i64)),
            Err(_) => None,
        };
    }
    if eq("int32") {
        if data.len() != 4 {
            return None;
        }
        return match crate::bytes::read_u32_le(data, 0) {
            Ok(x) => Some(i64_to_text((x as i32) as i64)),
            Err(_) => None,
        };
    }
    if eq("int16") {
        if data.len() != 2 {
            return None;
        }
        return match crate::bytes::read_u16_le(data, 0) {
            Ok(x) => Some(i64_to_text((x as i16) as i64)),
            Err(_) => None,
        };
    }
    if eq("int8") {
        if data.len() != 1 {
            return None;
        }
        return Some(i64_to_text((data[0] as i8) as i64));
    }
    if eq("uint64") {
        if data.len() != 8 {
            return None;
        }
        return match crate::bytes::read_u64_le(data, 0) {
            Ok(x) => Some(u64_to_text(x)),
            Err(_) => None,
        };
    }
    if eq("uint32") {
        if data.len() != 4 {
            return None;
        }
        return match crate::bytes::read_u32_le(data, 0) {
            Ok(x) => Some(u64_to_text(x as u64)),
            Err(_) => None,
        };
    }
    if eq("uint16") {
        if data.len() != 2 {
            return None;
        }
        return match crate::bytes::read_u16_le(data, 0) {
            Ok(x) => Some(u64_to_text(x as u64)),
            Err(_) => None,
        };
    }
    if eq("uint8") {
        if data.len() != 1 {
            return None;
        }
        return Some(u64_to_text(data[0] as u64));
    }
    None
}

/// Largest field materialised as a file.
pub const MAX_OPEN_BYTES: u64 = 268435456;

/// Refuses a field or member larger than `limit` bytes.
pub fn check_open_size(size: u64, limit: u64) -> (r: Result<(), AppError>)
    ensures
        r is Ok <==> size <= limit,
        r is Err ==> r->Err_0 is Invalid,
{
    if size > limit {
        Err(invalid("too large to open"))
    } else {
        Ok(())
    }
}

/// Checks that an index describes MDS version 2 shards, judged by its first shard.
pub fn validate_index(shards: &Vec<MdsShard>) -> (r: Result<(), AppError>)
    ensures
        r is Ok <==> shards@.len() > 0 && shards@[0].version == 2 && lower_of(shards@[0].format@) == "mds"@,
        r is Err ==> r->Err_0 is Invalid,
{
    if shards.len() == 0 {
        return Err(invalid("index.json contains no shards"));
    }
    let first = &shards[0];
    if first.version != 2 {
        return Err(invalid("unsupported MDS version (expected 2)"));
    }
    let l = lowercase(first.format.as_str());
    let v = chars_of(l.as_str());
    let n = v.len();
    assert(v@.subrange(0, n as int) == v@);
    if !crate::text::seq_eq_str(&v, 0, n, "mds") {
        return Err(invalid("unsupported dataset format (expected mds)"));
    }
    Ok(())
}

} // verus!
