//! Remote ZIP indexing: locating the end-of-central-directory record (with the ZIP64
//! fallback), parsing the central directory, and bounded extraction of single entries.
//!
//! Range reads are the caller's: the functions here say which byte range to fetch next
//! and interpret what came back.
use vstd::prelude::*;

use crate::bytes::{le16_at, le32_at, le64_at, read_u16_le, read_u32_le, read_u64_le};
use crate::error::{invalid, missing, AppError};
use crate::inflate::{inflate_deflate_with_limit, raw_inflate_of, DeflatePreview};
use crate::tar::{lossy_utf8, utf8_lossy};
use crate::text::chars_of;

verus! {

/// Size of the tail fetched first when looking for the end record.
pub const ZIP_TAIL_INITIAL_BYTES: u64 = 1048576;

/// Largest tail fetched when looking for the end record.
pub const ZIP_TAIL_MAX_BYTES: u64 = 8388608;

/// Largest central directory that is fetched and parsed.
pub const ZIP_MAX_CENTRAL_DIR_BYTES: u64 = 67108864;

/// Signature of the end-of-central-directory record.
pub const EOCD_SIG: u32 = 0x06054b50;

/// Signature of the ZIP64 end-of-central-directory locator.
pub const ZIP64_LOCATOR_SIG: u32 = 0x07064b50;

/// Signature of the ZIP64 end-of-central-directory record.
pub const ZIP64_EOCD_SIG: u32 = 0x06064b50;

/// Signature of a central directory entry.
pub const CENTRAL_ENTRY_SIG: u32 = 0x02014b50;

/// Signature of a local file header.
pub const LOCAL_HEADER_SIG: u32 = 0x04034b50;

/// Whether an end record whose comment length agrees with the buffer's end starts at `i`.
pub open spec fn eocd_at(b: Seq<u8>, i: int) -> bool {
    &&& 0 <= i
    &&& i + 22 <= b.len()
    &&& b[i] == 0x50 && b[i + 1] == 0x4b && b[i + 2] == 5 && b[i + 3] == 6
    &&& i + 22 + le16_at(b, i + 20) == b.len()
}

/// First position searched: the record is at most 22 + 65535 bytes from the end.
pub open spec fn eocd_search_start(len: int) -> int {
    if len > 22 + 65535 {
        len - (22 + 65535)
    } else {
        0
    }
}

/// Finds the last end-of-central-directory record of a tail buffer whose comment
/// length field runs exactly to the end of the buffer.
pub fn find_zip_eocd(buf: &[u8]) -> (r: Option<usize>)
    ensures
        r matches Some(i) ==> eocd_at(buf@, i as int) && i >= eocd_search_start(buf@.len() as int)
            && forall|j: int| i < j && #[trigger] eocd_at(buf@, j) ==> false,
        r is None ==> forall|j: int|
            eocd_search_start(buf@.len() as int) <= j ==> !#[trigger] eocd_at(buf@, j),
{
    if buf.len() < 22 {
        return None;
    }
    let start = if buf.len() > 22 + 65535 {
        buf.len() - (22 + 65535)
    } else {
        0
    };
    let mut i = buf.len() - 22 + 1;
    while i > start
        invariant
            start <= i <= buf@.len() - 22 + 1,
            start == eocd_search_start(buf@.len() as int),
            buf@.len() >= 22,
            forall|j: int| i <= j ==> !#[trigger] eocd_at(buf@, j),
        decreases i - start,
    {
        let k = i - 1;
        if buf[k] == 0x50 && buf[k + 1] == 0x4b && buf[k + 2] == 5 && buf[k + 3] == 6 {
            let comment_len = (buf[k + 20] as u16 | ((buf[k + 21] as u16) << 8u16)) as usize;
            if buf.len() - k - 22 == comment_len {
                return Some(k);
            }
        }
        i = k;
    }
    None
}

/// What a search for the end record does after looking at a tail.
#[derive(PartialEq, Eq, Structural, Clone, Copy, Debug)]
pub enum EocdProgress {
    /// The record starts at this position of the tail.
    Found(usize),
    /// Fetch a longer tail of this many bytes and look again.
    Retry(u64),
    /// The record is not within the largest tail.
    GiveUp,
}

/// The tail length tried after `len`: double it, up to the ceiling; `None` at the ceiling.
pub open spec fn next_tail_len(len: u64) -> Option<u64> {
    if len >= ZIP_TAIL_MAX_BYTES {
        None
    } else if len * 2 > ZIP_TAIL_MAX_BYTES {
        Some(ZIP_TAIL_MAX_BYTES)
    } else {
        Some((len * 2) as u64)
    }
}

/// Looks for the end record in a tail fetched with length `tail_len`, and says what to
/// do when it is not there.
pub fn locate_eocd_step(tail: &[u8], tail_len: u64) -> (r: EocdProgress)
    ensures
        r matches EocdProgress::Found(i) ==> eocd_at(tail@, i as int) && i >= eocd_search_start(tail@.len() as int)
            && forall|j: int| i < j && #[trigger] eocd_at(tail@, j) ==> false,
        r is Retry <==> find_eocd_none(tail@) && next_tail_len(tail_len) is Some,
        r matches EocdProgress::Retry(n) ==> next_tail_len(tail_len) == Some(n),
        r is GiveUp <==> find_eocd_none(tail@) && next_tail_len(tail_len) is None,
{
    match find_zip_eocd(tail) {
        Some(i) => {
            proof {
                lemma_found_not_none(tail@, i as int);
            }
            EocdProgress::Found(i)
        },
        None => {
            if tail_len >= ZIP_TAIL_MAX_BYTES {
                EocdProgress::GiveUp
            } else if tail_len > ZIP_TAIL_MAX_BYTES / 2 {
                EocdProgress::Retry(ZIP_TAIL_MAX_BYTES)
            } else {
                EocdProgress::Retry(tail_len * 2)
            }
        },
    }
}

/// Whether a tail holds no usable end record in its searched window.
pub open spec fn find_eocd_none(b: Seq<u8>) -> bool {
    forall|j: int| eocd_search_start(b.len() as int) <= j ==> !#[trigger] eocd_at(b, j)
}

proof fn lemma_found_not_none(b: Seq<u8>, i: int)
    requires
        eocd_at(b, i),
        i >= eocd_search_start(b.len() as int),
    ensures
        !find_eocd_none(b),
{
}

/// Tail length of the `k`-th fetch of a search that never finds the record.
pub open spec fn tail_len_at(k: nat) -> Option<u64>
    decreases k,
{
    if k == 0 {
        Some(ZIP_TAIL_INITIAL_BYTES)
    } else {
        match tail_len_at((k - 1) as nat) {
            Some(l) => next_tail_len(l),
            None => None,
        }
    }
}

/// The search fetches a tail of 1 MiB, then 2, 4 and 8 MiB, and gives up after that:
/// it never makes more than four fetches.
pub proof fn lemma_eocd_search_bounded()
    ensures
        tail_len_at(0) == Some(1048576u64),
        tail_len_at(1) == Some(2097152u64),
        tail_len_at(2) == Some(4194304u64),
        tail_len_at(3) == Some(8388608u64),
        forall|k: nat| k >= 4 ==> #[trigger] tail_len_at(k) is None,
{
    reveal_with_fuel(tail_len_at, 5);
    assert forall|k: nat| k >= 4 implies #[trigger] tail_len_at(k) is None by {
        lemma_tail_len_after_ceiling(k);
    }
}

proof fn lemma_tail_len_after_ceiling(k: nat)
    requires
        k >= 4,
    ensures
        tail_len_at(k) is None,
    decreases k,
{
    if k > 4 {
        lemma_tail_len_after_ceiling((k - 1) as nat);
    } else {
        reveal_with_fuel(tail_len_at, 5);
        assert(tail_len_at(3) == Some(8388608u64));
    }
}

/// Where the central directory lies and how many entries it declares.
#[derive(PartialEq, Eq, Structural, Clone, Copy, Debug)]
pub struct ZipCentralDirectory {
    pub total_entries: u64,
    pub central_dir_size: u64,
    pub central_dir_offset: u64,
}

/// What the end record says about the central directory.
#[derive(PartialEq, Eq, Structural, Clone, Copy, Debug)]
pub enum CentralDirPlan {
    /// The 32-bit fields hold the location.
    Direct(ZipCentralDirectory),
    /// A field holds its ZIP64 sentinel: fetch the 20-byte ZIP64 locator at this inclusive
    /// byte range.
    NeedZip64Locator(u64, u64),
}

/// Reads the end record at `rel` of a tail that starts at absolute offset `tail_start`.
pub fn read_eocd(tail: &[u8], rel: usize, tail_start: u64) -> (r: Result<CentralDirPlan, AppError>)
    ensures
        r matches Ok(CentralDirPlan::Direct(cd)) ==> rel + 22 <= tail@.len() && le32_at(tail@, rel as int) == EOCD_SIG
            && cd.total_entries == le16_at(tail@, rel + 10) as u64
            && cd.central_dir_size == le32_at(tail@, rel + 12) as u64
            && cd.central_dir_offset == le32_at(tail@, rel + 16) as u64
            && le16_at(tail@, rel + 10) != 0xFFFF
            && le32_at(tail@, rel + 12) != 0xFFFF_FFFF
            && le32_at(tail@, rel + 16) != 0xFFFF_FFFF,
        r matches Ok(CentralDirPlan::NeedZip64Locator(s, e)) ==> rel + 22 <= tail@.len()
            && le32_at(tail@, rel as int) == EOCD_SIG
            && (le16_at(tail@, rel + 10) == 0xFFFF || le32_at(tail@, rel + 12) == 0xFFFF_FFFF
                || le32_at(tail@, rel + 16) == 0xFFFF_FFFF)
            && s + 20 == tail_start + rel && e + 1 == tail_start + rel,
        r is Err ==> r->Err_0 is Invalid,
        rel + 22 <= tail@.len() && le32_at(tail@, rel as int) == EOCD_SIG && 20 <= tail_start + rel <= u64::MAX
            ==> r is Ok,
        rel + 22 <= tail@.len() && le32_at(tail@, rel as int) == EOCD_SIG && le16_at(tail@, rel + 10) != 0xFFFF
            && le32_at(tail@, rel + 12) != 0xFFFF_FFFF && le32_at(tail@, rel + 16) != 0xFFFF_FFFF ==> r is Ok,
{
    let sig = read_u32_le(tail, rel)?;
    if sig != EOCD_SIG {
        return Err(invalid("Invalid ZIP EOCD signature."));
    }
    if rel > tail.len() || tail.len() - rel < 22 {
        return Err(invalid("Unexpected EOF while parsing ZIP."));
    }
    let entries = read_u16_le(tail, rel + 10)?;
    let size = read_u32_le(tail, rel + 12)?;
    let offset = read_u32_le(tail, rel + 16)?;
    if entries != 0xFFFF && size != 0xFFFF_FFFF && offset != 0xFFFF_FFFF {
        return Ok(
            CentralDirPlan::Direct(
                ZipCentralDirectory {
                    total_entries: entries as u64,
                    central_dir_size: size as u64,
                    central_dir_offset: offset as u64,
                },
            ),
        );
    }
    let abs = match tail_start.checked_add(rel as u64) {
        Some(v) => v,
        None => return Err(invalid("ZIP offset overflow.")),
    };
    if abs < 20 {
        return Err(invalid("ZIP64 locator is out of bounds."));
    }
    Ok(CentralDirPlan::NeedZip64Locator(abs - 20, abs - 1))
}

/// Reads the ZIP64 locator and returns the inclusive byte range of the ZIP64 end record.
pub fn read_zip64_locator(locator: &[u8]) -> (r: Result<(u64, u64), AppError>)
    ensures
        r matches Ok((s, e)) ==> locator@.len() >= 20 && le32_at(locator@, 0) == ZIP64_LOCATOR_SIG
            && s == le64_at(locator@, 8) && e == s + 55,
        r is Err ==> r->Err_0 is Invalid,
        locator@.len() >= 20 && le32_at(locator@, 0) == ZIP64_LOCATOR_SIG && le64_at(locator@, 8)
            + 55 <= u64::MAX ==> r is Ok,
{
    if locator.len() < 20 || read_u32_le(locator, 0)? != ZIP64_LOCATOR_SIG {
        return Err(invalid("Missing ZIP64 locator."));
    }
    let start = read_u64_le(locator, 8)?;
    if start > u64::MAX - 55 {
        return Err(invalid("ZIP range overflow."));
    }
    Ok((start, start + 55))
}

/// Reads the central directory location from a ZIP64 end record.
pub fn read_zip64_eocd(rec: &[u8]) -> (r: Result<ZipCentralDirectory, AppError>)
    ensures
        rec@.len() >= 56 && le32_at(rec@, 0) == ZIP64_EOCD_SIG <==> r is Ok,
        r matches Ok(cd) ==> cd.total_entries == le64_at(rec@, 32) && cd.central_dir_size
            == le64_at(rec@, 40) && cd.central_dir_offset == le64_at(rec@, 48),
        r is Err ==> r->Err_0 is Invalid,
{
    if rec.len() < 56 || read_u32_le(rec, 0)? != ZIP64_EOCD_SIG {
        return Err(invalid("Missing ZIP64 EOCD record."));
    }
    let total_entries = read_u64_le(rec, 32)?;
    let central_dir_size = read_u64_le(rec, 40)?;
    let central_dir_offset = read_u64_le(rec, 48)?;
    Ok(ZipCentralDirectory { total_entries, central_dir_size, central_dir_offset })
}

/// The inclusive byte range of the central directory, refused before any fetch when it is
/// empty or larger than the ceiling.
pub fn central_dir_range(cd: &ZipCentralDirectory) -> (r: Result<(u64, u64), AppError>)
    ensures
        r is Ok <==> 0 < cd.central_dir_size <= ZIP_MAX_CENTRAL_DIR_BYTES
            && cd.central_dir_offset + cd.central_dir_size <= u64::MAX,
        r matches Ok((s, e)) ==> s == cd.central_dir_offset && e + 1 == cd.central_dir_offset
            + cd.central_dir_size,
        r is Err ==> r->Err_0 is Invalid,
{
    if cd.central_dir_size == 0 || cd.central_dir_size > ZIP_MAX_CENTRAL_DIR_BYTES {
        return Err(invalid("ZIP central directory is too large to parse."));
    }
    if cd.central_dir_offset > u64::MAX - cd.central_dir_size {
        return Err(invalid("ZIP central directory range overflow."));
    }
    Ok((cd.central_dir_offset, cd.central_dir_offset + cd.central_dir_size - 1))
}

/// Offset of an entry's data from the start of its local header.
pub fn local_header_data_offset(local_header: &[u8]) -> (r: Result<u64, AppError>)
    ensures
        local_header@.len() >= 30 && le32_at(local_header@, 0) == LOCAL_HEADER_SIG <==> r is Ok,
        r matches Ok(n) ==> n == 30 + le16_at(local_header@, 26) + le16_at(local_header@, 28),
        r is Err ==> r->Err_0 is Invalid,
{
    if local_header.len() < 30 || read_u32_le(local_header, 0)? != LOCAL_HEADER_SIG {
        return Err(invalid("Invalid ZIP local header."));
    }
    let name_len = read_u16_le(local_header, 26)? as u64;
    let extra_len = read_u16_le(local_header, 28)? as u64;
    Ok(30 + name_len + extra_len)
}

/// The values read from a ZIP64 record whose data is `e[c..end]`: uncompressed size,
/// compressed size and local header offset, in that order, each present only when
/// asked for (absent ones take no room). `None` when one runs past the record.
pub open spec fn zip64_values(e: Seq<u8>, c: int, end: int, nu: bool, nc: bool, no: bool) -> Option<(Option<u64>, Option<u64>, Option<u64>)> {
    let c1 = if nu { c + 8 } else { c };
    let c2 = if nc { c1 + 8 } else { c1 };
    if (nu && c + 8 > end) || (nc && c1 + 8 > end) || (no && c2 + 8 > end) {
        None
    } else {
        Some((
            if nu { Some(le64_at(e, c)) } else { None },
            if nc { Some(le64_at(e, c1)) } else { None },
            if no { Some(le64_at(e, c2)) } else { None },
        ))
    }
}

/// The ZIP64 values of an extra field, from its records starting at `pos`: the first
/// record with header id 1 is read; the scan stops with no values at a record that runs
/// past the end.
pub open spec fn zip64_extra(e: Seq<u8>, pos: int, nu: bool, nc: bool, no: bool) -> Option<(Option<u64>, Option<u64>, Option<u64>)>
    decreases e.len() - pos,
{
    if pos < 0 || pos + 4 > e.len() {
        Some((None, None, None))
    } else {
        let id = le16_at(e, pos);
        let size = le16_at(e, pos + 2);
        let data = pos + 4;
        if data + size > e.len() {
            Some((None, None, None))
        } else if id == 1 {
            zip64_values(e, data, data + size, nu, nc, no)
        } else {
            zip64_extra(e, data + size, nu, nc, no)
        }
    }
}

/// Reads the sentinel-replacing values from the ZIP64 extended information record of an
/// extra field.
pub fn parse_zip64_extra(extra: &[u8], need_uncompressed: bool, need_compressed: bool, need_local_offset: bool) -> (r: Result<(Option<u64>, Option<u64>, Option<u64>), AppError>)
    ensures
        r is Ok <==> zip64_extra(extra@, 0, need_uncompressed, need_compressed, need_local_offset) is Some,
        r matches Ok(v) ==> Some(v) == zip64_extra(extra@, 0, need_uncompressed, need_compressed, need_local_offset),
        r is Err ==> r->Err_0 is Invalid,
{
    let mut pos: usize = 0;
    while pos <= extra.len() && extra.len() - pos >= 4
        invariant
            pos <= extra@.len() + 4,
            zip64_extra(extra@, 0, need_uncompressed, need_compressed, need_local_offset) == zip64_extra(extra@, pos as int, need_uncompressed, need_compressed, need_local_offset),
        decreases extra@.len() - pos,
    {
        let header_id = read_u16_le(extra, pos)?;
        let data_size = read_u16_le(extra, pos + 2)? as usize;
        let data = pos + 4;
        if data_size > extra.len() - data {
            return Ok((None, None, None));
        }
        if header_id == 1 {
            let end = data + data_size;
            let mut cursor = data;
            let mut uncompressed: Option<u64> = None;
            let mut compressed: Option<u64> = None;
            let mut local_offset: Option<u64> = None;
            if need_uncompressed {
                if end - cursor < 8 {
                    return Err(invalid("Truncated ZIP64 extra field."));
                }
                uncompressed = Some(read_u64_le(extra, cursor)?);
                cursor = cursor + 8;
            }
            if need_compressed {
                if end < cursor || end - cursor < 8 {
                    return Err(invalid("Truncated ZIP64 extra field."));
                }
                compressed = Some(read_u64_le(extra, cursor)?);
                cursor = cursor + 8;
            }
            if need_local_offset {
                if end < cursor || end - cursor < 8 {
                    return Err(invalid("Truncated ZIP64 extra field."));
                }
                local_offset = Some(read_u64_le(extra, cursor)?);
            }
            return Ok((uncompressed, compressed, local_offset));
        }
        pos = data + data_size;
    }
    Ok((None, None, None))
}

/// One central directory record.
#[derive(Clone, Debug)]
pub struct ZipEntryIndex {
    pub name: String,
    /// Compression method (0 stored, 8 deflate).
    pub method: u16,
    /// General purpose flags; bit 0 marks encryption.
    pub flags: u16,
    pub compressed_size: u64,
    pub uncompressed_size: u64,
    pub local_header_offset: u64,
    /// Whether the name ends with `/`.
    pub is_dir: bool,
}

pub struct ZipEntryView {
    pub name: Seq<char>,
    pub method: u16,
    pub flags: u16,
    pub compressed_size: u64,
    pub uncompressed_size: u64,
    pub local_header_offset: u64,
    pub is_dir: bool,
}

impl ZipEntryIndex {
    pub open spec fn view(&self) -> ZipEntryView {
        ZipEntryView {
            name: self.name@,
            method: self.method,
            flags: self.flags,
            compressed_size: self.compressed_size,
            uncompressed_size: self.uncompressed_size,
            local_header_offset: self.local_header_offset,
            is_dir: self.is_dir,
        }
    }
}

pub open spec fn entries_view(s: Seq<ZipEntryIndex>) -> Seq<ZipEntryView> {
    s.map_values(|e: ZipEntryIndex| e.view())
}

/// Value of an entry field: the ZIP64 value when there is one, else the 32-bit one.
pub open spec fn or_u32(v: Option<u64>, d: u32) -> u64 {
    match v {
        Some(x) => x,
        None => d as u64,
    }
}

/// The entry whose record starts at `pos`, given its ZIP64 values.
pub open spec fn entry_at(b: Seq<u8>, pos: int, z: (Option<u64>, Option<u64>, Option<u64>)) -> ZipEntryView {
    let ns = pos + 46;
    let name = lossy_utf8(b.subrange(ns, ns + le16_at(b, pos + 28)));
    ZipEntryView {
        name,
        method: le16_at(b, pos + 10),
        flags: le16_at(b, pos + 8),
        compressed_size: or_u32(z.1, le32_at(b, pos + 20)),
        uncompressed_size: or_u32(z.0, le32_at(b, pos + 24)),
        local_header_offset: or_u32(z.2, le32_at(b, pos + 42)),
        is_dir: name.len() > 0 && name.last() == '/',
    }
}

/// The extra field of the record at `pos`, or nothing when it runs past the buffer.
pub open spec fn extra_at(b: Seq<u8>, pos: int) -> Seq<u8> {
    let ne = pos + 46 + le16_at(b, pos + 28);
    let ee = ne + le16_at(b, pos + 30);
    if ee <= b.len() {
        b.subrange(ne, ee)
    } else {
        Seq::<u8>::empty()
    }
}

/// The entries of a central directory buffer from `pos` on, in order; parsing stops at
/// the end of the buffer or at the first record without the entry signature. `None` when
/// a record's name runs past the buffer or its ZIP64 values cannot be read.
pub open spec fn central_entries(b: Seq<u8>, pos: int) -> Option<Seq<ZipEntryView>>
    decreases b.len() - pos,
{
    if pos < 0 || pos + 46 > b.len() || le32_at(b, pos) != CENTRAL_ENTRY_SIG {
        Some(seq![])
    } else {
        let ne = pos + 46 + le16_at(b, pos + 28);
        let end = ne + le16_at(b, pos + 30) + le16_at(b, pos + 32);
        if end > usize::MAX || ne > b.len() {
            None
        } else {
            match zip64_extra(
                extra_at(b, pos),
                0,
                le32_at(b, pos + 24) == 0xFFFF_FFFF,
                le32_at(b, pos + 20) == 0xFFFF_FFFF,
                le32_at(b, pos + 42) == 0xFFFF_FFFF,
            ) {
                None => None,
                Some(z) => match (if end > b.len() { Some(seq![]) } else { central_entries(b, end) }) {
                    None => None,
                    Some(rest) => Some(seq![entry_at(b, pos, z)] + rest),
                },
            }
        }
    }
}

/// Whether a text ends with `/`.
fn ends_with_slash(s: &str) -> (r: bool)
    ensures
        r == (s@.len() > 0 && s@.last() == '/'),
{
    let v = chars_of(s);
    v.len() > 0 && v[v.len() - 1] == '/'
}

/// The record end of the entry at `pos`.
pub open spec fn record_end(b: Seq<u8>, pos: int) -> int {
    pos + 46 + le16_at(b, pos + 28) + le16_at(b, pos + 30) + le16_at(b, pos + 32)
}

/// Reads the entry record at `pos`, which starts with the entry signature, and returns it
/// with the position where the next record starts.
fn read_central_entry(buf: &[u8], pos: usize) -> (r: Result<(ZipEntryIndex, usize), AppError>)
    requires
        pos + 46 <= buf@.len(),
        le32_at(buf@, pos as int) == CENTRAL_ENTRY_SIG,
    ensures
        r is Err ==> central_entries(buf@, pos as int) is None,
        r matches Ok((e, next)) ==> next == record_end(buf@, pos as int) && central_entries(buf@, pos as int)
            == match (if next > buf@.len() { Some(seq![]) } else { central_entries(buf@, next as int) }) {
                None => None,
                Some(rest) => Some(seq![e.view()] + rest),
            },
        r is Err ==> r->Err_0 is Invalid,
{
    let _n = buf.len();
    let flags = read_u16_le(buf, pos + 8)?;
    let method = read_u16_le(buf, pos + 10)?;
    let compressed_u32 = read_u32_le(buf, pos + 20)?;
    let uncompressed_u32 = read_u32_le(buf, pos + 24)?;
    let name_len = read_u16_le(buf, pos + 28)? as usize;
    let extra_len = read_u16_le(buf, pos + 30)? as usize;
    let comment_len = read_u16_le(buf, pos + 32)? as usize;
    let offset_u32 = read_u32_le(buf, pos + 42)?;
    let name_start = pos + 46;
    let tail = name_len + extra_len + comment_len;
    if name_start > usize::MAX - tail {
        return Err(invalid("ZIP header overflow."));
    }
    let name_end = name_start + name_len;
    let extra_end = name_end + extra_len;
    let next = extra_end + comment_len;
    if name_end > buf.len() {
        return Err(invalid("Malformed ZIP central directory entry."));
    }
    let extra: &[u8] = if extra_end <= buf.len() {
        &buf[name_end..extra_end]
    } else {
        &buf[0..0]
    };
    assert(extra@ == extra_at(buf@, pos as int));
    let z = parse_zip64_extra(
        extra,
        uncompressed_u32 == 0xFFFF_FFFF,
        compressed_u32 == 0xFFFF_FFFF,
        offset_u32 == 0xFFFF_FFFF,
    )?;
    let name = utf8_lossy(&buf[name_start..name_end]);
    let is_dir = ends_with_slash(name.as_str());
    let entry = ZipEntryIndex {
        name,
        method,
        flags,
        compressed_size: match z.1 {
            Some(v) => v,
            None => compressed_u32 as u64,
        },
        uncompressed_size: match z.0 {
            Some(v) => v,
            None => uncompressed_u32 as u64,
        },
        local_header_offset: match z.2 {
            Some(v) => v,
            None => offset_u32 as u64,
        },
        is_dir,
    };
    assert(entry.view() == entry_at(buf@, pos as int, z));
    Ok((entry, next))
}

/// Parses every entry of a central directory buffer, in directory order.
pub fn parse_central_directory_entries(buf: &[u8]) -> (r: Result<Vec<ZipEntryIndex>, AppError>)
    ensures
        r is Ok <==> central_entries(buf@, 0) is Some,
        r matches Ok(v) ==> Some(entries_view(v@)) == central_entries(buf@, 0),
        r is Err ==> r->Err_0 is Invalid,
{
    let mut entries: Vec<ZipEntryIndex> = Vec::new();
    let mut pos: usize = 0;
    assert(entries_view(entries@) + central_entries(buf@, 0)->Some_0 == central_entries(buf@, 0)->Some_0);
    while pos <= buf.len() && buf.len() - pos >= 46
        invariant
            pos <= buf@.len(),
            central_entries(buf@, 0) == match central_entries(buf@, pos as int) {
                None => None,
                Some(rest) => Some(entries_view(entries@) + rest),
            },
        ensures
            central_entries(buf@, pos as int) == Some(Seq::<ZipEntryView>::empty()),
            central_entries(buf@, 0) == match central_entries(buf@, pos as int) {
                None => None,
                Some(rest) => Some(entries_view(entries@) + rest),
            },
        decreases buf@.len() - pos,
    {
        let sig = read_u32_le(buf, pos)?;
        if sig != CENTRAL_ENTRY_SIG {
            break;
        }
        let (entry, next) = read_central_entry(buf, pos)?;
        let ghost before = entries@;
        let ghost rest = if next > buf@.len() { Seq::<ZipEntryView>::empty() } else { central_entries(buf@, next as int)->Some_0 };
        entries.push(entry);
        assert(entries_view(entries@) == entries_view(before) + seq![entry.view()]);
        assert(entries_view(before) + seq![entry.view()] + rest == entries_view(before) + (seq![entry.view()] + rest));
        if next > buf.len() {
            pos = buf.len();
            assert(central_entries(buf@, pos as int) == Some(Seq::<ZipEntryView>::empty()));
            assert(entries_view(entries@) + Seq::<ZipEntryView>::empty() == entries_view(entries@));
        } else {
            pos = next;
        }
    }
    assert(central_entries(buf@, pos as int) == Some(Seq::<ZipEntryView>::empty()));
    assert(entries_view(entries@) + Seq::<ZipEntryView>::empty() == entries_view(entries@));
    Ok(entries)
}

/// The index of a ZIP file: its entries in directory order.
#[derive(Clone, Debug)]
pub struct ZipIndex {
    pub entries: Vec<ZipEntryIndex>,
}

/// Position of the first entry named `entry_name` (trimmed).
pub fn find_zip_entry(index: &ZipIndex, entry_name: &str) -> (r: Result<usize, AppError>)
    ensures
        r matches Ok(i) ==> i < index.entries@.len() && index.entries@[i as int].name@ == crate::text::trim(entry_name@)
            && forall|j: int| 0 <= j < i ==> index.entries@[j].name@ != crate::text::trim(entry_name@),
        r matches Err(e) ==> (e is Invalid && crate::text::trim(entry_name@).len() == 0) || (e is Missing
            && crate::text::trim(entry_name@).len() > 0
            && forall|j: int| 0 <= j < index.entries@.len() ==> index.entries@[j].name@ != crate::text::trim(entry_name@)),
{
    let v = chars_of(entry_name);
    let (lo, hi) = crate::text::trim_bounds(&v, 0, v.len());
    assert(v@.subrange(0, v@.len() as int) == v@);
    let name = crate::text::string_from(&v, lo, hi);
    if name.as_str().is_empty() {
        return Err(invalid("Missing ZIP entry name."));
    }
    let mut i: usize = 0;
    while i < index.entries.len()
        invariant
            i <= index.entries@.len(),
            name@ == crate::text::trim(entry_name@),
            forall|j: int| 0 <= j < i ==> index.entries@[j].name@ != name@,
        decreases index.entries@.len() - i,
    {
        if index.entries[i].name.eq(&name) {
            return Ok(i);
        }
        i = i + 1;
    }
    Err(missing("Entry not found in ZIP."))
}

/// Bytes of an entry shown in a preview.
pub const PEEK_BYTES: u64 = 65536;

/// Largest amount of compressed data fetched for a deflate preview.
pub const ZIP_PREVIEW_MAX_COMPRESSED_BYTES: u64 = 8388608;

/// Largest entry extracted for export.
pub const MAX_INLINE_DOWNLOAD_BYTES: u64 = 52428800;

/// Largest entry extracted for inline media playback.
pub const ZIP_INLINE_MEDIA_MAX_BYTES: u64 = 134217728;

/// Refuses directories and encrypted entries for a preview.
pub fn check_preview_entry(entry: &ZipEntryIndex) -> (r: Result<(), AppError>)
    ensures
        r is Ok <==> !entry.is_dir && entry.flags & 1 == 0,
        r is Err ==> r->Err_0 is Invalid,
{
    if entry.is_dir {
        return Err(invalid("ZIP entry is a directory."));
    }
    if entry.flags & 1 == 1 {
        return Err(invalid("Encrypted ZIP entries are not supported."));
    }
    let f = entry.flags;
    assert(f & 1 == 0) by (bit_vector)
        requires
            f & 1 != 1u16,
    ;
    Ok(())
}

/// Refuses directories and entries larger than `max` (compressed or not) for export.
pub fn check_export_entry(entry: &ZipEntryIndex, max: u64) -> (r: Result<(), AppError>)
    ensures
        r is Ok <==> !entry.is_dir && entry.uncompressed_size <= max && entry.compressed_size <= max,
        r is Err ==> r->Err_0 is Invalid,
{
    if entry.is_dir {
        return Err(invalid("ZIP entry is a directory."));
    }
    if entry.uncompressed_size > max || entry.compressed_size > max {
        return Err(invalid("ZIP entry is too large to extract locally."));
    }
    Ok(())
}

/// Refuses directories, entries larger than `max` once decompressed, and encrypted entries
/// for inline media.
pub fn check_inline_entry(entry: &ZipEntryIndex, max: u64) -> (r: Result<(), AppError>)
    ensures
        r is Ok <==> !entry.is_dir && entry.uncompressed_size <= max && entry.flags & 1 == 0,
        r is Err ==> r->Err_0 is Invalid,
{
    if entry.is_dir {
        return Err(invalid("ZIP entry is a directory."));
    }
    if entry.uncompressed_size > max {
        return Err(invalid("ZIP entry is too large for inline preview."));
    }
    if entry.flags & 1 != 0 {
        return Err(invalid("Encrypted ZIP entries are not supported."));
    }
    Ok(())
}

/// The inclusive range of the 64-byte read of an entry's local header.
pub fn local_header_range(entry: &ZipEntryIndex) -> (r: Result<(u64, u64), AppError>)
    ensures
        r is Ok <==> entry.local_header_offset + 64 <= u64::MAX,
        r matches Ok((s, e)) ==> s == entry.local_header_offset && e == s + 64,
        r is Err ==> r->Err_0 is Invalid,
{
    if entry.local_header_offset > u64::MAX - 64 {
        return Err(invalid("ZIP offset overflow."));
    }
    Ok((entry.local_header_offset, entry.local_header_offset + 64))
}

/// Absolute offset of an entry's data, from its fetched local header.
pub fn entry_data_start(entry: &ZipEntryIndex, local_header: &[u8]) -> (r: Result<u64, AppError>)
    ensures
        r matches Ok(s) ==> local_header@.len() >= 30 && le32_at(local_header@, 0) == LOCAL_HEADER_SIG
            && s == entry.local_header_offset + 30 + le16_at(local_header@, 26) + le16_at(local_header@, 28),
        local_header@.len() >= 30 && le32_at(local_header@, 0) == LOCAL_HEADER_SIG
            && entry.local_header_offset + 30 + le16_at(local_header@, 26) + le16_at(local_header@, 28) <= u64::MAX ==> r is Ok,
        r is Err ==> r->Err_0 is Invalid,
{
    let data_offset = local_header_data_offset(local_header)?;
    if entry.local_header_offset > u64::MAX - data_offset {
        return Err(invalid("ZIP offset overflow."));
    }
    Ok(entry.local_header_offset + data_offset)
}

/// The inclusive range holding all of an entry's compressed data.
pub fn entry_data_range(data_start: u64, compressed_size: u64) -> (r: Result<(u64, u64), AppError>)
    ensures
        r matches Ok((s, e)) ==> s == data_start && e == data_start + (if compressed_size == 0 { 0 } else { compressed_size - 1 }),
        r is Ok <==> data_start + (if compressed_size == 0 { 0 } else { compressed_size - 1 }) <= u64::MAX,
        r is Err ==> r->Err_0 is Invalid,
{
    let last = if compressed_size == 0 { 0 } else { compressed_size - 1 };
    if data_start > u64::MAX - last {
        return Err(invalid("ZIP range overflow."));
    }
    Ok((data_start, data_start + last))
}

/// How the data of an entry is read for a preview.
pub enum PreviewPlan {
    /// The entry holds no data.
    Empty,
    /// Fetch this inclusive range of stored bytes; that is the preview.
    Stored(u64, u64),
    /// Fetch and feed chunks as the preview asks.
    Deflate(DeflatePreview),
}

/// Plans the preview of an entry once its local header was fetched: at most `budget`
/// bytes of output.
pub fn plan_preview(entry: &ZipEntryIndex, local_header: &[u8], budget: u64) -> (r: Result<PreviewPlan, AppError>)
    requires
        0 < budget <= usize::MAX,
    ensures
        r matches Ok(PreviewPlan::Empty) ==> entry.compressed_size == 0,
        r matches Ok(PreviewPlan::Stored(s, e)) ==> entry.method == 0 && entry.compressed_size > 0
            && s == entry.local_header_offset + 30 + le16_at(local_header@, 26) + le16_at(local_header@, 28)
            && s <= e && e - s + 1 == (if entry.compressed_size < budget { entry.compressed_size } else { budget }),
        r matches Ok(PreviewPlan::Deflate(p)) ==> entry.method == 8 && p.wf() && p.out_cap == budget
            && p.chunk_start == entry.local_header_offset + 30 + le16_at(local_header@, 26) + le16_at(local_header@, 28)
            && p.fetched == 0 && p.fed@.len() == 0 && p.output@.len() == 0 && !p.finished
            && p.fetch_cap == ZIP_PREVIEW_MAX_COMPRESSED_BYTES && p.remaining == entry.compressed_size,
        r is Ok ==> !entry.is_dir && entry.flags & 1 == 0,
        entry.compressed_size > 0 && entry.method != 0 && entry.method != 8 ==> r is Err,
        r is Err ==> r->Err_0 is Invalid,
        !entry.is_dir && entry.flags & 1 == 0 && local_header@.len() >= 30 && le32_at(local_header@, 0) == LOCAL_HEADER_SIG
            && entry.local_header_offset + 30 + le16_at(local_header@, 26) + le16_at(local_header@, 28) + entry.compressed_size
            + budget <= u64::MAX && (entry.compressed_size == 0 || entry.method == 0 || entry.method == 8) ==> r is Ok,
{
    check_preview_entry(entry)?;
    let data_start = entry_data_start(entry, local_header)?;
    if entry.compressed_size == 0 {
        return Ok(PreviewPlan::Empty);
    }
    if entry.method == 0 {
        let (s, end) = entry_data_range(data_start, entry.compressed_size)?;
        if data_start > u64::MAX - (budget - 1) {
            return Err(invalid("ZIP range overflow."));
        }
        let want = data_start + (budget - 1);
        return Ok(PreviewPlan::Stored(s, if want < end { want } else { end }));
    }
    if entry.method != 8 {
        return Err(invalid("Unsupported ZIP compression method."));
    }
    Ok(PreviewPlan::Deflate(DeflatePreview::new(data_start, entry.compressed_size, budget as usize, ZIP_PREVIEW_MAX_COMPRESSED_BYTES)))
}

/// The content of an entry from all of its compressed bytes: stored bytes as they are,
/// deflate data decompressed up to `limit` bytes.
pub fn decode_entry_bytes(method: u16, compressed: Vec<u8>, limit: u64) -> (r: Result<Vec<u8>, AppError>)
    requires
        limit < u64::MAX,
    ensures
        method == 0 ==> r == Ok::<Vec<u8>, AppError>(compressed),
        method == 8 ==> (r matches Ok(v) ==> v@.len() <= limit),
        method == 8 && raw_inflate_of(compressed@) is Some && raw_inflate_of(compressed@)->Some_0.len() <= limit
            ==> r is Ok && r->Ok_0@ == raw_inflate_of(compressed@)->Some_0,
        method == 8 && (raw_inflate_of(compressed@) is None || raw_inflate_of(compressed@)->Some_0.len() > limit) ==> r is Err,
        method != 0 && method != 8 ==> r is Err,
        r is Err ==> r->Err_0 is Invalid,
{
    if method == 0 {
        Ok(compressed)
    } else if method == 8 {
        inflate_deflate_with_limit(compressed.as_slice(), limit)
    } else {
        Err(invalid("Unsupported ZIP compression method."))
    }
}

/// Whether a remote file of `total` bytes is downloaded and opened locally; otherwise its
/// URL is handed to the browser (unknown or too large sizes).
pub fn download_locally(total: u64) -> (r: bool)
    ensures
        r == (0 < total <= MAX_INLINE_DOWNLOAD_BYTES),
{
    total > 0 && total <= MAX_INLINE_DOWNLOAD_BYTES
}

} // verus!
