//! Bounded raw-deflate decompression through flate2.
use vstd::prelude::*;

use crate::error::{invalid, AppError};

verus! {

/// Name for what reading a flate2 raw-deflate decoder over `b` to its end yields; `None`
/// when the decoder reports an error (corrupt or incomplete stream).
pub uninterp spec fn raw_inflate_of(b: Seq<u8>) -> Option<Seq<u8>>;

pub open spec fn min_len(n: nat, cap: u64) -> int {
    if n < cap { n as int } else { cap as int }
}

/// Relies on `flate2::read::DeflateDecoder`: reads the inflation of `compressed`, stopping
/// once `cap` bytes were produced. Reading stops early only at the stream's end, so a short
/// result is the whole inflation; a stream that inflates cleanly gives its prefix.
#[verifier::external_body]
fn inflate_capped(compressed: &[u8], cap: u64) -> (r: Result<Vec<u8>, ()>)
    ensures
        r matches Ok(v) ==> v@.len() <= cap,
        raw_inflate_of(compressed@) matches Some(d) ==> r is Ok && r->Ok_0@ == d.take(min_len(d.len(), cap)),
        r is Ok && r->Ok_0@.len() < cap ==> raw_inflate_of(compressed@) == Some(r->Ok_0@),
{
    let mut out = Vec::new();
    let mut reader = std::io::Read::take(flate2::read::DeflateDecoder::new(compressed), cap);
    match std::io::Read::read_to_end(&mut reader, &mut out) {
        Ok(_) => Ok(out),
        Err(_) => Err(()),
    }
}

/// Decompresses a whole raw-deflate buffer; fails when it is corrupt or incomplete, or
/// when it inflates to more than `limit` bytes (no more than `limit + 1` are ever held).
pub fn inflate_deflate_with_limit(compressed: &[u8], limit: u64) -> (r: Result<Vec<u8>, AppError>)
    requires
        limit < u64::MAX,
    ensures
        raw_inflate_of(compressed@) is Some && raw_inflate_of(compressed@)->Some_0.len() <= limit ==> r is Ok && r->Ok_0@ == raw_inflate_of(compressed@)->Some_0,
        raw_inflate_of(compressed@) is Some && raw_inflate_of(compressed@)->Some_0.len() > limit ==> r is Err,
        raw_inflate_of(compressed@) is None ==> r is Err,
        r matches Ok(v) ==> v@.len() <= limit,
        r is Err ==> r->Err_0 is Invalid,
{
    match inflate_capped(compressed, limit + 1) {
        Err(_) => Err(invalid("ZIP inflate failed.")),
        Ok(v) => {
            if v.len() as u64 > limit {
                Err(invalid("ZIP entry expanded beyond the limit."))
            } else {
                Ok(v)
            }
        },
    }
}

/// Largest chunk of compressed bytes fetched per round.
pub const DEFLATE_FETCH_CHUNK: u64 = 262144;

/// Bounded preview of a deflate entry whose compressed bytes arrive in ranged chunks: the
/// output is the inflation of the bytes fed so far, cut at `out_cap`, and no more than
/// `fetch_cap` compressed bytes are asked for.
pub struct DeflatePreview {
    /// Compressed bytes received so far.
    pub fed: Vec<u8>,
    pub output: Vec<u8>,
    pub fetched: u64,
    pub chunk_start: u64,
    pub remaining: u64,
    pub finished: bool,
    pub out_cap: usize,
    pub fetch_cap: u64,
}

pub open spec fn sat_add64(a: u64, b: int) -> u64 {
    if a + b > u64::MAX { u64::MAX } else { (a + b) as u64 }
}

pub open spec fn sat_sub64(a: u64, b: int) -> u64 {
    if a - b < 0 { 0 } else { (a - b) as u64 }
}

impl DeflatePreview {
    /// The output stays within its cap.
    pub open spec fn wf(&self) -> bool {
        self.output@.len() <= self.out_cap
    }

    /// A preview of `compressed_size` bytes of deflate data starting at `data_start`.
    pub fn new(data_start: u64, compressed_size: u64, out_cap: usize, fetch_cap: u64) -> (r: Self)
        ensures
            r.wf(),
            r.output@.len() == 0,
            r.fed@.len() == 0,
            r.fetched == 0,
            r.chunk_start == data_start,
            r.remaining == compressed_size,
            !r.finished,
            r.out_cap == out_cap,
            r.fetch_cap == fetch_cap,
    {
        DeflatePreview {
            fed: Vec::new(),
            output: Vec::new(),
            fetched: 0,
            chunk_start: data_start,
            remaining: compressed_size,
            finished: false,
            out_cap,
            fetch_cap,
        }
    }

    /// The inclusive byte range to fetch next, or `None` when the preview is complete:
    /// ended, all compressed bytes read, output full, or fetch budget spent.
    pub fn next_range(&self) -> (r: Option<(u64, u64)>)
        ensures
            r is None <==> (self.finished || self.remaining == 0 || self.output@.len() >= self.out_cap
                || self.fetched >= self.fetch_cap || self.chunk_start + min3(self.remaining, DEFLATE_FETCH_CHUNK, (self.fetch_cap - self.fetched) as u64) - 1 > u64::MAX),
            r matches Some((s, e)) ==> s == self.chunk_start && e - s + 1 == min3(self.remaining, DEFLATE_FETCH_CHUNK, (self.fetch_cap - self.fetched) as u64),
    {
        if self.finished || self.remaining == 0 || self.output.len() >= self.out_cap || self.fetched >= self.fetch_cap {
            return None;
        }
        let budget = self.fetch_cap - self.fetched;
        let mut len = self.remaining;
        if len > DEFLATE_FETCH_CHUNK {
            len = DEFLATE_FETCH_CHUNK;
        }
        if len > budget {
            len = budget;
        }
        if self.chunk_start > u64::MAX - (len - 1) {
            return None;
        }
        Some((self.chunk_start, self.chunk_start + (len - 1)))
    }

    /// Feeds a fetched chunk. An empty chunk ends the preview. Otherwise the chunk is
    /// appended and the output becomes the inflation of everything fed, cut at `out_cap`;
    /// while the stream is still incomplete the output stays as it was, and a stream that
    /// still fails once every compressed byte arrived is an error.
    pub fn feed(&mut self, chunk: &[u8]) -> (r: Result<(), AppError>)
        requires
            old(self).wf(),
        ensures
            final(self).wf(),
            final(self).out_cap == old(self).out_cap,
            final(self).fetch_cap == old(self).fetch_cap,
            chunk@.len() == 0 ==> r is Ok && final(self).finished && final(self).fed@ == old(self).fed@
                && final(self).output@ == old(self).output@ && final(self).fetched == old(self).fetched
                && final(self).chunk_start == old(self).chunk_start && final(self).remaining == old(self).remaining,
            chunk@.len() > 0 ==> ({
                let fed = final(self).fed@;
                let out = final(self).output@;
                &&& fed == old(self).fed@ + chunk@
                &&& final(self).finished == old(self).finished
                &&& final(self).fetched == sat_add64(old(self).fetched, chunk@.len() as int)
                &&& final(self).chunk_start == sat_add64(old(self).chunk_start, chunk@.len() as int)
                &&& final(self).remaining == sat_sub64(old(self).remaining, chunk@.len() as int)
                &&& raw_inflate_of(fed) matches Some(d) ==> r is Ok && out == d.take(min_len(d.len(), old(self).out_cap as u64))
                &&& out != old(self).output@ ==> out.len() == old(self).out_cap || raw_inflate_of(fed) == Some(out)
                &&& r is Err ==> raw_inflate_of(fed) is None && final(self).remaining == 0
            }),
            r is Err ==> r->Err_0 is Invalid,
    {
        if chunk.len() == 0 {
            self.finished = true;
            return Ok(());
        }
        let n = chunk.len() as u64;
        self.fetched = self.fetched.saturating_add(n);
        self.chunk_start = self.chunk_start.saturating_add(n);
        self.remaining = self.remaining.saturating_sub(n);
        self.fed.extend_from_slice(chunk);
        match inflate_capped(self.fed.as_slice(), self.out_cap as u64) {
            Ok(v) => {
                self.output = v;
                Ok(())
            },
            Err(_) => {
                if self.remaining == 0 {
                    Err(invalid("ZIP inflate failed."))
                } else {
                    Ok(())
                }
            },
        }
    }
}

pub open spec fn min3(a: u64, b: u64, c: u64) -> u64 {
    let m = if a < b { a } else { b };
    if m < c { m } else { c }
}

} // verus!
