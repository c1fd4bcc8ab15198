//! Little-endian integer decoding over byte buffers.
use vstd::prelude::*;

use crate::error::{invalid, AppError};

verus! {

/// The little-endian `u16` stored at `offset`.
pub open spec fn le16_at(b: Seq<u8>, offset: int) -> u16 {
    (b[offset] as u16 | ((b[offset + 1] as u16) << 8u16)) as u16
}

/// The little-endian `u32` stored at `offset`.
pub open spec fn le32_at(b: Seq<u8>, offset: int) -> u32 {
    (b[offset] as u32 | ((b[offset + 1] as u32) << 8u32) | ((b[offset + 2] as u32) << 16u32) | ((
    b[offset + 3] as u32) << 24u32)) as u32
}

/// The little-endian `u64` stored at `offset`.
pub open spec fn le64_at(b: Seq<u8>, offset: int) -> u64 {
    (le32_at(b, offset) as u64 | ((le32_at(b, offset + 4) as u64) << 32u64)) as u64
}

/// Reads a little-endian `u16` at `offset`; fails when the buffer is too short.
pub fn read_u16_le(input: &[u8], offset: usize) -> (r: Result<u16, AppError>)
    ensures
        offset + 2 <= input@.len() <==> r is Ok,
        r is Ok ==> r->Ok_0 == le16_at(input@, offset as int),
        r is Err ==> r->Err_0 is Invalid,
{
    if offset > input.len() || input.len() - offset < 2 {
        return Err(invalid("Unexpected EOF while parsing ZIP."));
    }
    Ok(input[offset] as u16 | ((input[offset + 1] as u16) << 8u16))
}

/// Reads a little-endian `u32` at `offset`; fails when the buffer is too short.
pub fn read_u32_le(input: &[u8], offset: usize) -> (r: Result<u32, AppError>)
    ensures
        offset + 4 <= input@.len() <==> r is Ok,
        r is Ok ==> r->Ok_0 == le32_at(input@, offset as int),
        r is Err ==> r->Err_0 is Invalid,
{
    if offset > input.len() || input.len() - offset < 4 {
        return Err(invalid("Unexpected EOF while parsing ZIP."));
    }
    Ok(input[offset] as u32 | ((input[offset + 1] as u32) << 8u32) | ((input[offset + 2] as u32)
        << 16u32) | ((input[offset + 3] as u32) << 24u32))
}

/// Reads a little-endian `u64` at `offset`; fails when the buffer is too short.
pub fn read_u64_le(input: &[u8], offset: usize) -> (r: Result<u64, AppError>)
    ensures
        offset + 8 <= input@.len() <==> r is Ok,
        r is Ok ==> r->Ok_0 == le64_at(input@, offset as int),
        r is Err ==> r->Err_0 is Invalid,
{
    if offset > input.len() || input.len() - offset < 8 {
        return Err(invalid("Unexpected EOF while parsing ZIP."));
    }
    let lo = read_u32_le(input, offset)?;
    let hi = read_u32_le(input, offset + 4)?;
    Ok(lo as u64 | ((hi as u64) << 32u64))
}

/// Decodes a buffer that must hold exactly four bytes as a little-endian `u32`.
pub fn read_le_u32(buf: &[u8]) -> (r: Result<u32, AppError>)
    ensures
        buf@.len() == 4 <==> r is Ok,
        r is Ok ==> r->Ok_0 == le32_at(buf@, 0),
        r is Err ==> r->Err_0 is MalformedChunk,
{
    if buf.len() != 4 {
        return Err(AppError::MalformedChunk);
    }
    Ok(buf[0] as u32 | ((buf[1] as u32) << 8u32) | ((buf[2] as u32) << 16u32) | ((buf[3] as u32)
        << 24u32))
}

} // verus!
