//! Incremental listing of a remote TAR archive, with previews and media captured during
//! the scan.
use vstd::prelude::*;

use crate::error::{invalid, AppError};
use crate::media_cache::{CachedMedia, MediaCache};
use crate::paths::{ext_from_filename, file_ext, is_media_ext, is_media_extension, mime_for_ext};
use crate::sniff::{hex_of, remote_preview, FieldPreview};
use crate::types::sat_u32;
use vstd::utf8::valid_utf8;
use crate::tar::TarEntryMeta;

verus! {

/// One listed entry.
#[derive(Clone, Debug)]
pub struct ZenodoTarEntrySummary {
    pub name: String,
    pub size: u64,
    pub is_dir: bool,
}

/// A page of listed entries.
#[derive(Clone, Debug)]
pub struct ZenodoTarEntryListResponse {
    pub offset: u32,
    pub length: u32,
    pub entries: Vec<ZenodoTarEntrySummary>,
    /// Whether the archive has not yet been scanned to its end.
    pub partial: bool,
    /// Number of entries, known once the archive was scanned to its end.
    pub num_entries_total: Option<u32>,
}

pub struct EntryView {
    pub name: Seq<char>,
    pub size: u64,
    pub is_dir: bool,
}

impl ZenodoTarEntrySummary {
    pub open spec fn view(&self) -> EntryView {
        EntryView { name: self.name@, size: self.size, is_dir: self.is_dir }
    }
}

pub open spec fn listing_view(s: Seq<ZenodoTarEntrySummary>) -> Seq<EntryView> {
    s.map_values(|e: ZenodoTarEntrySummary| e.view())
}

/// Largest number of entries listed for one archive.
pub const TAR_MAX_ENTRIES: usize = 250000;

/// Bytes of a member captured for its preview.
pub const PEEK_BYTES: u64 = 65536;

/// Largest member kept in the media cache.
pub const TAR_MEDIA_CACHE_ITEM_MAX_BYTES: u64 = 33554432;

/// Largest number of bytes the media cache holds.
pub const TAR_MEDIA_CACHE_TOTAL_MAX_BYTES: u64 = 268435456;

/// Page size when none is asked for.
pub const TAR_DEFAULT_PAGE_SIZE: u32 = 25;

/// Largest page of entries.
pub const TAR_MAX_PAGE_SIZE: u32 = 200;

/// How many bytes of an entry to capture while scanning: none outside the requested page
/// or for directories; a whole media member that fits the cache; else a preview's worth.
pub open spec fn capture_spec(idx: int, start: int, end: int, path: Seq<char>, size: u64, is_dir: bool) -> Option<u64> {
    if !(start <= idx < end) || is_dir {
        None
    } else {
        let ext = match file_ext(path) { Some(e) => e, None => Seq::<char>::empty() };
        if is_media_ext(ext) && size > 0 && size <= TAR_MEDIA_CACHE_ITEM_MAX_BYTES {
            Some(size)
        } else {
            Some(PEEK_BYTES)
        }
    }
}

/// Number of data bytes actually read for an entry given the capture decision; the rest
/// of the data is skipped.
pub open spec fn read_len_spec(limit: Option<u64>, size: u64, is_dir: bool) -> u64 {
    match limit {
        None => 0,
        Some(l) => if l == 0 || is_dir || size == 0 { 0 } else if l < size { l } else { size },
    }
}

/// Number of data bytes of an entry to read given the capture decision.
pub fn read_len(limit: Option<u64>, meta: &TarEntryMeta) -> (r: u64)
    ensures
        r == read_len_spec(limit, meta.size, meta.is_dir),
        r <= meta.size,
{
    match limit {
        None => 0,
        Some(l) => if l == 0 || meta.is_dir || meta.size == 0 {
            0
        } else if l < meta.size {
            l
        } else {
            meta.size
        },
    }
}

proof fn lemma_empty_not_media()
    ensures
        !is_media_ext(Seq::<char>::empty()),
{
    reveal_strlit("mp4");
    reveal_strlit("wav");
    reveal_strlit("mp3");
    reveal_strlit("flac");
    reveal_strlit("m4a");
    reveal_strlit("ogg");
    reveal_strlit("opus");
    reveal_strlit("aac");
    let e = Seq::<char>::empty();
    assert(e.len() == 0);
    assert(e != "mp4"@ && e != "wav"@ && e != "mp3"@ && e != "flac"@ && e != "m4a"@ && e != "ogg"@ && e != "opus"@ && e != "aac"@) by {
        assert("mp4"@.len() > 0 && "wav"@.len() > 0 && "mp3"@.len() > 0 && "flac"@.len() > 0);
        assert("m4a"@.len() > 0 && "ogg"@.len() > 0 && "opus"@.len() > 0 && "aac"@.len() > 0);
    }
}

/// State of the scan of one remote archive.
pub struct TarListing {
    pub entries: Vec<ZenodoTarEntrySummary>,
    pub done: bool,
    pub previews: Vec<(String, FieldPreview)>,
    pub media: MediaCache,
}

impl TarListing {
    pub open spec fn wf(&self) -> bool {
        &&& self.media.wf()
        &&& self.media.item_max == TAR_MEDIA_CACHE_ITEM_MAX_BYTES
        &&& self.media.total_max == TAR_MEDIA_CACHE_TOTAL_MAX_BYTES
    }

    /// A scan that has read nothing.
    pub fn new() -> (r: Self)
        ensures
            r.wf(),
            r.entries@.len() == 0,
            !r.done,
    {
        TarListing {
            entries: Vec::new(),
            done: false,
            previews: Vec::new(),
            media: MediaCache::new(TAR_MEDIA_CACHE_ITEM_MAX_BYTES, TAR_MEDIA_CACHE_TOTAL_MAX_BYTES),
        }
    }

    /// Whether another entry must be read to reach `target` entries.
    pub fn wants_more(&self, target: usize) -> (r: bool)
        ensures
            r == (!self.done && self.entries@.len() < target),
    {
        !self.done && self.entries.len() < target
    }

    /// How many bytes of the next entry to capture when the page `[start, end)` is asked for.
    pub fn capture_limit(&self, start: usize, end: usize, meta: &TarEntryMeta) -> (r: Option<u64>)
        ensures
            r == capture_spec(self.entries@.len() as int, start as int, end as int, meta.path@, meta.size, meta.is_dir),
    {
        let idx = self.entries.len();
        if !(start <= idx && idx < end) || meta.is_dir {
            return None;
        }
        let ghost ext = match file_ext(meta.path@) { Some(e) => e, None => Seq::<char>::empty() };
        let is_media = match ext_from_filename(meta.path.as_str()) {
            Some(e) => is_media_extension(e.as_str()),
            None => {
                proof {
                    lemma_empty_not_media();
                }
                false
            },
        };
        assert(is_media == is_media_ext(ext));
        if is_media && meta.size > 0 && meta.size <= TAR_MEDIA_CACHE_ITEM_MAX_BYTES {
            Some(meta.size)
        } else {
            Some(PEEK_BYTES)
        }
    }

    /// Records the next entry and what was captured of its data.
    pub fn on_entry(&mut self, meta: TarEntryMeta, captured: Option<Vec<u8>>) -> (r: Result<(), AppError>)
        requires
            old(self).wf(),
        ensures
            final(self).wf(),
            final(self).done == old(self).done,
            listing_view(final(self).entries@) == listing_view(old(self).entries@).push(
                EntryView { name: meta.path@, size: meta.size, is_dir: meta.is_dir },
            ),
            r is Err <==> final(self).entries@.len() >= TAR_MAX_ENTRIES,
            r is Err ==> r->Err_0 is Invalid,
            captured is None || meta.is_dir || r is Err ==> final(self).previews == old(self).previews
                && final(self).media == old(self).media,
            captured is Some && !meta.is_dir && r is Ok ==> ({
                let c = captured->Some_0@;
                let shown = c.take(if c.len() < PEEK_BYTES { c.len() as int } else { PEEK_BYTES as int });
                exists|i: int| 0 <= i < final(self).previews@.len() && final(self).previews@[i].0@ == meta.path@
                    && final(self).previews@[i].1.is_binary == !valid_utf8(shown)
                    && final(self).previews@[i].1.hex_snippet@ == hex_of(shown.take(if shown.len() < 48 { shown.len() as int } else { 48 }))
                    && final(self).previews@[i].1.size == sat_u32(meta.size)
            }),
    {
        let summary = ZenodoTarEntrySummary { name: meta.path.clone(), size: meta.size, is_dir: meta.is_dir };
        let ghost before = self.entries@;
        self.entries.push(summary);
        assert(listing_view(self.entries@) == listing_view(before).push(summary.view()));
        let full = self.entries.len() >= TAR_MAX_ENTRIES;
        if full {
            return Err(invalid("TAR contains too many entries to list."));
        }
        if let Some(bytes) = captured {
            if !meta.is_dir {
                let n = if bytes.len() < PEEK_BYTES as usize { bytes.len() } else { PEEK_BYTES as usize };
                let preview = remote_preview(&bytes.as_slice()[0..n], ext_from_filename(meta.path.as_str()), meta.size);
                assert(bytes@.subrange(0, n as int) == bytes@.take(n as int));
                let k = self.store_preview(meta.path.clone(), preview);
                let ghost shown = bytes@.take(n as int);
                assert(self.previews@[k as int].0@ == meta.path@);
                assert(self.previews@[k as int].1.is_binary == !valid_utf8(shown));
                assert(self.previews@[k as int].1.size == sat_u32(meta.size));
                let ghost kept = self.previews@;
                if bytes.len() as u64 == meta.size && meta.size <= TAR_MEDIA_CACHE_ITEM_MAX_BYTES {
                    let ext = match ext_from_filename(meta.path.as_str()) {
                        Some(e) => e,
                        None => "bin".to_owned(),
                    };
                    let mime = mime_for_ext(ext.as_str()).to_owned();
                    self.media.cache_media(meta.path, ext, mime, bytes);
                }
                assert(self.previews@ == kept);
            }
        }
        Ok(())
    }

    fn store_preview(&mut self, name: String, preview: FieldPreview) -> (k: usize)
        requires
            old(self).wf(),
        ensures
            final(self).wf(),
            final(self).entries == old(self).entries,
            final(self).done == old(self).done,
            final(self).media == old(self).media,
            k < final(self).previews@.len() && final(self).previews@[k as int].0@ == name@
                && final(self).previews@[k as int].1 == preview,
    {
        let mut i: usize = 0;
        while i < self.previews.len()
            invariant
                self.wf(),
                self.entries == old(self).entries,
                self.done == old(self).done,
                self.media == old(self).media,
            decreases self.previews@.len() - i,
        {
            if self.previews[i].0.eq(&name) {
                let ghost nv = name@;
                self.previews.set(i, (name, preview));
                assert(self.previews@[i as int].0@ == nv);
                return i;
            }
            i = i + 1;
        }
        let ghost nv = name@;
        self.previews.push((name, preview));
        assert(self.previews@[self.previews@.len() - 1].0@ == nv);
        self.previews.len() - 1
    }

    /// Records the end of the archive.
    pub fn on_end(&mut self)
        ensures
            final(self).done,
            final(self).entries == old(self).entries,
            final(self).media == old(self).media,
            final(self).previews == old(self).previews,
    {
        self.done = true;
    }

    /// The preview captured for `name` during the scan, if any.
    pub fn cached_preview(&self, name: &String) -> (r: Option<FieldPreview>)
        ensures
            r is None <==> forall|i: int| 0 <= i < self.previews@.len() ==> self.previews@[i].0@ != name@,
            r matches Some(p) ==> exists|i: int| 0 <= i < self.previews@.len() && self.previews@[i].0@ == name@
                && same_preview(p, self.previews@[i].1),
    {
        let mut i: usize = 0;
        while i < self.previews.len()
            invariant
                i <= self.previews@.len(),
                forall|k: int| 0 <= k < i ==> self.previews@[k].0@ != name@,
            decreases self.previews@.len() - i,
        {
            if self.previews[i].0.eq(name) {
                return Some(copy_preview(&self.previews[i].1));
            }
            i = i + 1;
        }
        None
    }

    /// The media bytes captured for `name`, marked most recently used.
    pub fn cached_media(&mut self, name: &String) -> (r: Option<CachedMedia>)
        requires
            old(self).wf(),
        ensures
            final(self).wf(),
            final(self).entries == old(self).entries,
            final(self).previews == old(self).previews,
            r is None <==> forall|i: int| 0 <= i < old(self).media.view().len() ==> old(self).media.view()[i].name != name@,
            r is None ==> final(self).media.view() == old(self).media.view(),
            r matches Some(m) ==> exists|i: int| 0 <= i < old(self).media.view().len() && old(self).media.view()[i].name == name@
                && m.bytes@ == old(self).media.view()[i].bytes && m.mime@ == old(self).media.view()[i].mime
                && m.ext@ == old(self).media.view()[i].ext
                && final(self).media.view() == old(self).media.view().remove(i).push(old(self).media.view()[i]),
    {
        self.media.cached_media(name)
    }

    /// The entries `[offset, offset + length)` found so far.
    pub fn page(&self, offset: u32, length: u32) -> (r: ZenodoTarEntryListResponse)
        ensures
            r.offset == offset,
            r.length == length,
            r.partial == !self.done,
            r.num_entries_total == (if self.done {
                Some(if self.entries@.len() > u32::MAX { u32::MAX } else { self.entries@.len() as u32 })
            } else {
                None
            }),
            listing_view(r.entries@) == ({
                let all = listing_view(self.entries@);
                let end = offset + length;
                if offset >= all.len() {
                    Seq::<EntryView>::empty()
                } else {
                    all.subrange(offset as int, if end < all.len() { end } else { all.len() as int })
                }
            }),
    {
        let all = &self.entries;
        let start = offset as usize;
        let sum = start as u64 + length as u64;
        let end = if sum < all.len() as u64 { sum as usize } else { all.len() };
        let mut out: Vec<ZenodoTarEntrySummary> = Vec::new();
        if start < all.len() {
            let mut i = start;
            while i < end
                invariant
                    start <= i <= end <= all@.len(),
                    listing_view(out@) == listing_view(all@).subrange(start as int, i as int),
                decreases end - i,
            {
                let e = &all[i];
                let c = ZenodoTarEntrySummary { name: e.name.clone(), size: e.size, is_dir: e.is_dir };
                out.push(c);
                assert(listing_view(out@) == listing_view(out@.drop_last()).push(c.view()));
                assert(listing_view(all@).subrange(start as int, i + 1) == listing_view(all@).subrange(start as int, i as int).push(all@[i as int].view()));
                i = i + 1;
            }
        }
        ZenodoTarEntryListResponse {
            offset,
            length,
            entries: out,
            partial: !self.done,
            num_entries_total: if self.done {
                Some(if all.len() > u32::MAX as usize { u32::MAX } else { all.len() as u32 })
            } else {
                None
            },
        }
    }
}

pub open spec fn opt_text(o: Option<String>) -> Option<Seq<char>> {
    match o {
        Some(s) => Some(s@),
        None => None,
    }
}

/// Whether two previews show the same.
pub open spec fn same_preview(a: FieldPreview, b: FieldPreview) -> bool {
    opt_text(a.preview_text) == opt_text(b.preview_text) && a.hex_snippet@ == b.hex_snippet@
        && opt_text(a.guessed_ext) == opt_text(b.guessed_ext) && a.is_binary == b.is_binary && a.size == b.size
}

/// Paging a remote listing is invisible: `on_entry` only appends, so after `k` of the
/// stream's entries the listing is their prefix, and entry `i` read then is entry `i` of
/// any later listing and of the full scan.
pub proof fn lemma_listing_pages_match_full_scan(es: Seq<EntryView>, k: int, m: int, i: int)
    requires
        0 <= i < k <= m <= es.len(),
    ensures
        es.take(k)[i] == es.take(m)[i],
        es.take(m)[i] == es[i],
{
}

/// Copies a preview.
pub fn copy_preview(p: &FieldPreview) -> (r: FieldPreview)
    ensures
        same_preview(r, *p),
{
    FieldPreview {
        preview_text: match &p.preview_text {
            Some(t) => Some(t.clone()),
            None => None,
        },
        hex_snippet: p.hex_snippet.clone(),
        guessed_ext: match &p.guessed_ext {
            Some(t) => Some(t.clone()),
            None => None,
        },
        is_binary: p.is_binary,
        size: p.size,
    }
}

} // verus!
