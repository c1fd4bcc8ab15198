//! Records handed to the interface: summaries, previews and outcomes of open requests.
use vstd::prelude::*;

use crate::paths::{ext_from_filename, file_ext, mime_for_ext, mime_of};
use crate::text::{ascii_lower, strip_leading, trim};
use crate::zip::{ZipEntryIndex, ZipIndex};

verus! {

/// One data chunk of an indexed dataset.
#[derive(Clone, Debug)]
pub struct ChunkSummary {
    pub filename: String,
    pub path: String,
    pub chunk_size: u32,
    pub chunk_bytes: u64,
    pub dim: Option<u32>,
    pub exists: bool,
}

/// Size of one field of an item.
#[derive(Clone, Copy, Debug, PartialEq, Eq, Structural)]
pub struct FieldMeta {
    pub field_index: usize,
    pub size: u32,
}

/// One item of a shard and the sizes of its fields.
#[derive(Clone, Debug)]
pub struct ItemMeta {
    pub item_index: u32,
    pub total_bytes: u64,
    pub fields: Vec<FieldMeta>,
}

/// Outcome of materialising a member and handing it to a viewer.
#[derive(Clone, Debug)]
pub struct OpenLeafResponse {
    pub path: String,
    pub size: u32,
    pub ext: String,
    pub opened: bool,
    pub needs_opener: bool,
    pub message: String,
}

/// A member materialised as a local file for preview.
#[derive(Clone, Debug)]
pub struct PreparedFileResponse {
    pub path: String,
    pub size: u32,
    pub ext: String,
}

/// Member bytes for inline playback.
#[derive(Clone, Debug)]
pub struct InlineMediaResponse {
    pub base64: String,
    pub mime: String,
    pub size: u32,
    pub ext: String,
}

/// One WebDataset shard of a directory.
#[derive(Clone, Debug)]
pub struct WdsShardSummary {
    pub filename: String,
    pub path: String,
    pub bytes: u64,
    pub exists: bool,
}

/// The shards of a WebDataset directory.
#[derive(Clone, Debug)]
pub struct WdsDirSummary {
    pub dir_path: String,
    pub shards: Vec<WdsShardSummary>,
}

/// Kind of local dataset found at a path.
#[derive(Clone, Debug)]
pub enum LocalDatasetDetectResponse {
    LitdataIndex { index_path: String },
    MdsIndex { index_path: String },
    WebdatasetDir { dir_path: String },
}

/// One entry of a remote ZIP, as listed.
#[derive(Clone, Debug)]
pub struct ZenodoZipEntrySummary {
    pub name: String,
    pub method: u16,
    pub compressed_size: u64,
    pub uncompressed_size: u64,
    pub is_dir: bool,
}

/// Creator of a record.
#[derive(Clone, Debug)]
pub struct ZenodoCreator {
    pub name: String,
    pub affiliation: Option<String>,
    pub orcid: Option<String>,
}

/// One file of a record.
#[derive(Clone, Debug)]
pub struct ZenodoFileSummary {
    pub key: String,
    pub size: u64,
    pub checksum: Option<String>,
    pub content_url: String,
}

/// Metadata of a record and its files.
#[derive(Clone, Debug)]
pub struct ZenodoRecordSummary {
    pub record_id: u64,
    pub title: String,
    pub doi: Option<String>,
    pub doi_url: Option<String>,
    pub publication_date: Option<String>,
    pub version: Option<String>,
    pub access_right: Option<String>,
    pub record_url: Option<String>,
    pub creators: Vec<ZenodoCreator>,
    pub files: Vec<ZenodoFileSummary>,
}

/// A configuration of a hosted dataset and its splits.
#[derive(Clone, Debug)]
pub struct HfConfigSummary {
    pub config: String,
    pub splits: Vec<String>,
}

/// A size saturated to `u32`.
pub open spec fn sat_u32(v: u64) -> u32 {
    if v > u32::MAX {
        u32::MAX
    } else {
        v as u32
    }
}

/// Saturates a size to `u32`.
pub fn size_u32(v: u64) -> (r: u32)
    ensures
        r == sat_u32(v),
{
    if v > u32::MAX as u64 {
        u32::MAX
    } else {
        v as u32
    }
}

/// The item of a shard whose span is `[begin, end)` and whose field sizes are `sizes`.
pub fn item_meta(item_index: u32, begin: u32, end: u32, sizes: &Vec<u32>) -> (r: ItemMeta)
    requires
        begin <= end,
    ensures
        r.item_index == item_index,
        r.total_bytes == end - begin,
        r.fields@.len() == sizes@.len(),
        forall|i: int| 0 <= i < sizes@.len() ==> r.fields@[i] == (FieldMeta { field_index: i as usize, size: sizes@[i] }),
{
    let mut fields: Vec<FieldMeta> = Vec::new();
    let mut i: usize = 0;
    while i < sizes.len()
        invariant
            i <= sizes@.len(),
            fields@.len() == i,
            forall|k: int| 0 <= k < i ==> fields@[k] == (FieldMeta { field_index: k as usize, size: sizes@[k] }),
        decreases sizes@.len() - i,
    {
        fields.push(FieldMeta { field_index: i, size: sizes[i] });
        i = i + 1;
    }
    ItemMeta { item_index, total_bytes: (end - begin) as u64, fields }
}

/// The listing of a ZIP index, in directory order.
pub fn zip_entry_summaries(index: &ZipIndex) -> (r: Vec<ZenodoZipEntrySummary>)
    ensures
        r@.len() == index.entries@.len(),
        forall|i: int| 0 <= i < r@.len() ==> summarises(#[trigger] r@[i], index.entries@[i]),
{
    let mut out: Vec<ZenodoZipEntrySummary> = Vec::new();
    let mut i: usize = 0;
    while i < index.entries.len()
        invariant
            i <= index.entries@.len(),
            out@.len() == i,
            forall|k: int| 0 <= k < i ==> summarises(#[trigger] out@[k], index.entries@[k]),
        decreases index.entries@.len() - i,
    {
        let e = &index.entries[i];
        out.push(ZenodoZipEntrySummary {
            name: e.name.clone(),
            method: e.method,
            compressed_size: e.compressed_size,
            uncompressed_size: e.uncompressed_size,
            is_dir: e.is_dir,
        });
        i = i + 1;
    }
    out
}

pub open spec fn summarises(s: ZenodoZipEntrySummary, e: ZipEntryIndex) -> bool {
    s.name@ == e.name@ && s.method == e.method && s.compressed_size == e.compressed_size
        && s.uncompressed_size == e.uncompressed_size && s.is_dir == e.is_dir
}

/// Character of a 6-bit value in the standard base64 alphabet.
pub open spec fn b64_char(v: int) -> char {
    if v < 26 {
        (65 + v) as char
    } else if v < 52 {
        (71 + v) as char
    } else if v < 62 {
        (v - 4) as char
    } else if v == 62 {
        '+'
    } else {
        '/'
    }
}

/// Standard, padded base64: each group of three bytes becomes four characters; a final
/// group of one or two bytes is padded with `=`.
pub open spec fn base64_of(b: Seq<u8>) -> Seq<char>
    decreases b.len(),
{
    if b.len() == 0 {
        seq![]
    } else if b.len() == 1 {
        seq![b64_char(b[0] as int / 4), b64_char((b[0] as int % 4) * 16), '=', '=']
    } else if b.len() == 2 {
        seq![
            b64_char(b[0] as int / 4),
            b64_char((b[0] as int % 4) * 16 + b[1] as int / 16),
            b64_char((b[1] as int % 16) * 4),
            '=',
        ]
    } else {
        seq![
            b64_char(b[0] as int / 4),
            b64_char((b[0] as int % 4) * 16 + b[1] as int / 16),
            b64_char((b[1] as int % 16) * 4 + b[2] as int / 64),
            b64_char(b[2] as int % 64),
        ] + base64_of(b.skip(3))
    }
}

/// Relies on `base64::Engine::encode` with the `STANDARD` engine: standard, padded base64.
#[verifier::external_body]
fn base64_encode(b: &[u8]) -> (r: String)
    ensures
        r@ == base64_of(b@),
{
    base64::Engine::encode(&base64::engine::general_purpose::STANDARD, b)
}

/// The extension used for a member when its name has none.
pub open spec fn ext_or_bin(name: Seq<char>) -> Seq<char> {
    match file_ext(name) {
        Some(e) => e,
        None => "bin"@,
    }
}

/// Inline media for the bytes of member `name`: base64 text, MIME type and extension
/// from the name's extension (`bin` without one), and the saturated size.
pub fn inline_media_response(bytes: &[u8], name: &str) -> (r: InlineMediaResponse)
    ensures
        r.base64@ == base64_of(bytes@),
        r.ext@ == ext_or_bin(name@),
        r.mime@ == mime_of(ascii_lower(strip_leading(trim(ext_or_bin(name@)), '.'))),
        r.size == sat_u32(bytes@.len() as u64),
{
    let ext = match ext_from_filename(name) {
        Some(e) => e,
        None => "bin".to_owned(),
    };
    let mime = mime_for_ext(ext.as_str()).to_owned();
    InlineMediaResponse {
        base64: base64_encode(bytes),
        mime,
        size: size_u32(bytes.len() as u64),
        ext,
    }
}

} // verus!
