//! Least-recently-used cache of member bytes, bounded per item and in aggregate.
use vstd::prelude::*;

verus! {

/// Bytes of a member kept for inline playback.
#[derive(Clone, Debug)]
pub struct CachedMedia {
    pub bytes: Vec<u8>,
    pub mime: String,
    pub ext: String,
}

/// One cached member.
#[derive(Clone, Debug)]
pub struct MediaEntry {
    pub name: String,
    pub media: CachedMedia,
}

pub struct MediaView {
    pub name: Seq<char>,
    pub bytes: Seq<u8>,
    pub mime: Seq<char>,
    pub ext: Seq<char>,
}

impl MediaEntry {
    pub open spec fn view(&self) -> MediaView {
        MediaView { name: self.name@, bytes: self.media.bytes@, mime: self.media.mime@, ext: self.media.ext@ }
    }
}

pub open spec fn media_view(s: Seq<MediaEntry>) -> Seq<MediaView> {
    s.map_values(|e: MediaEntry| e.view())
}

/// Total number of bytes held.
pub open spec fn total_bytes(s: Seq<MediaView>) -> nat
    decreases s.len(),
{
    if s.len() == 0 {
        0
    } else {
        total_bytes(s.drop_last()) + s.last().bytes.len()
    }
}

pub open spec fn names_unique(s: Seq<MediaView>) -> bool {
    forall|i: int, j: int| 0 <= i < j < s.len() ==> s[i].name != s[j].name
}

/// `s` without the entry named `name`, if there is one.
pub open spec fn without(s: Seq<MediaView>, name: Seq<char>) -> Seq<MediaView> {
    s.filter(|e: MediaView| e.name != name)
}

/// The cache: entries ordered from least to most recently used.
pub struct MediaCache {
    pub entries: Vec<MediaEntry>,
    pub total: u64,
    /// Largest item that is cached.
    pub item_max: u64,
    /// Largest number of bytes held in all.
    pub total_max: u64,
}

impl MediaCache {
    pub open spec fn view(&self) -> Seq<MediaView> {
        media_view(self.entries@)
    }

    /// Names are unique, `total` is the number of bytes held, and both ceilings hold.
    pub open spec fn wf(&self) -> bool {
        &&& names_unique(self.view())
        &&& self.total == total_bytes(self.view())
        &&& self.total <= self.total_max
        &&& forall|i: int| 0 <= i < self.view().len() ==> #[trigger] self.view()[i].bytes.len() <= self.item_max
    }

    /// An empty cache with the two ceilings.
    pub fn new(item_max: u64, total_max: u64) -> (r: Self)
        ensures
            r.wf(),
            r.view().len() == 0,
            r.item_max == item_max,
            r.total_max == total_max,
    {
        let r = MediaCache { entries: Vec::new(), total: 0, item_max, total_max };
        assert(r.view() == Seq::<MediaView>::empty());
        r
    }

    fn position(&self, name: &String) -> (r: Option<usize>)
        ensures
            r matches Some(i) ==> i < self.view().len() && self.view()[i as int].name == name@,
            r is None ==> forall|i: int| 0 <= i < self.view().len() ==> self.view()[i].name != name@,
    {
        let mut i: usize = 0;
        while i < self.entries.len()
            invariant
                i <= self.entries@.len(),
                forall|k: int| 0 <= k < i ==> self.view()[k].name != name@,
            decreases self.entries@.len() - i,
        {
            if self.entries[i].name.eq(name) {
                return Some(i);
            }
            i = i + 1;
        }
        None
    }

    /// Removes the entry at `i`.
    fn take_at(&mut self, i: usize) -> (r: MediaEntry)
        requires
            old(self).wf(),
            i < old(self).view().len(),
        ensures
            r.view() == old(self).view()[i as int],
            final(self).view() == old(self).view().remove(i as int),
            final(self).wf(),
            final(self).item_max == old(self).item_max,
            final(self).total_max == old(self).total_max,
    {
        let ghost before = self.view();
        let e = self.entries.remove(i);
        proof {
            assert(self.view() == before.remove(i as int));
            lemma_total_remove(before, i as int);
        }
        self.total = self.total - e.media.bytes.len() as u64;
        e
    }

    /// Returns a copy of the entry named `name` and marks it most recently used.
    pub fn cached_media(&mut self, name: &String) -> (r: Option<CachedMedia>)
        requires
            old(self).wf(),
        ensures
            final(self).wf(),
            final(self).item_max == old(self).item_max,
            final(self).total_max == old(self).total_max,
            r is None <==> forall|i: int| 0 <= i < old(self).view().len() ==> old(self).view()[i].name != name@,
            r is None ==> final(self).view() == old(self).view(),
            r matches Some(m) ==> exists|i: int| 0 <= i < old(self).view().len() && old(self).view()[i].name == name@
                && m.bytes@ == old(self).view()[i].bytes && m.mime@ == old(self).view()[i].mime
                && m.ext@ == old(self).view()[i].ext
                && final(self).view() == old(self).view().remove(i).push(old(self).view()[i]),
    {
        let i = match self.position(name) {
            Some(i) => i,
            None => return None,
        };
        let ghost before = self.view();
        let e = self.take_at(i);
        let copy = CachedMedia { bytes: e.media.bytes.clone(), mime: e.media.mime.clone(), ext: e.media.ext.clone() };
        proof {
            lemma_total_remove(before, i as int);
            lemma_unique_remove_push(before, i as int);
        }
        self.total = self.total + e.media.bytes.len() as u64;
        self.entries.push(e);
        assert(self.view() == before.remove(i as int).push(before[i as int]));
        proof {
            lemma_total_push(before.remove(i as int), before[i as int]);
        }
        Some(copy)
    }

    /// Caches `bytes` under `name`, replacing an entry of that name, after evicting least
    /// recently used entries until both ceilings hold. Empty and oversized items are not
    /// cached.
    pub fn cache_media(&mut self, name: String, ext: String, mime: String, bytes: Vec<u8>)
        requires
            old(self).wf(),
            old(self).item_max <= old(self).total_max,
        ensures
            final(self).wf(),
            final(self).item_max == old(self).item_max,
            final(self).total_max == old(self).total_max,
            bytes@.len() == 0 || bytes@.len() > old(self).item_max ==> final(self).view() == old(self).view(),
            !(bytes@.len() == 0 || bytes@.len() > old(self).item_max) ==> ({
                let v = final(self).view();
                let p = without(old(self).view(), name@);
                let kept = v.drop_last();
                &&& v.len() > 0
                &&& v.last() == (MediaView { name: name@, bytes: bytes@, mime: mime@, ext: ext@ })
                &&& is_suffix(kept, p)
                &&& kept.len() < p.len() ==> total_bytes(p.subrange(p.len() - kept.len() - 1, p.len() as int))
                    + bytes@.len() > old(self).total_max
            }),
    {
        let size = bytes.len() as u64;
        if size == 0 || size > self.item_max {
            return;
        }
        let ghost before_insert = self.view();
        match self.position(&name) {
            Some(i) => {
                let _ = self.take_at(i);
                proof {
                    lemma_without_unique(before_insert, i as int, name@);
                }
            },
            None => {
                proof {
                    lemma_without_absent(before_insert, name@);
                }
            },
        }
        let ghost pruned = self.view();
        assert(pruned == without(before_insert, name@));
        assert(is_suffix(pruned, pruned)) by {
            assert(pruned.subrange(0, pruned.len() as int) == pruned);
        }
        while self.total > self.total_max - size && self.entries.len() > 0
            invariant
                self.wf(),
                size <= self.item_max <= self.total_max,
                self.item_max == old(self).item_max,
                self.total_max == old(self).total_max,
                is_suffix(self.view(), pruned),
                forall|k: int| 0 <= k < self.view().len() ==> self.view()[k].name != name@,
                self.view().len() < pruned.len() ==> total_bytes(pruned.subrange(pruned.len() - self.view().len() - 1, pruned.len() as int))
                    > self.total_max - size,
            decreases self.entries@.len(),
        {
            let ghost before = self.view();
            assert(total_bytes(before) > self.total_max - size);
            let _ = self.take_at(0);
            proof {
                assert(self.view() == before.drop_first());
                lemma_suffix_drop_first(before, pruned);
                assert(pruned.subrange(pruned.len() - self.view().len() - 1, pruned.len() as int) == before);
            }
        }
        if self.entries.len() == 0 {
            assert(self.view().len() == 0);
            assert(total_bytes(self.view()) == 0);
        }
        let ghost kept = self.view();
        let ghost (nv, bv, mv, ev) = (name@, bytes@, mime@, ext@);
        let e = MediaEntry { name, media: CachedMedia { bytes, mime, ext } };
        self.total = self.total + size;
        self.entries.push(e);
        proof {
            assert(self.view() == kept.push(e.view()));
            lemma_total_push(kept, e.view());
            assert(self.view().drop_last() == kept);
            assert(e.view() == (MediaView { name: nv, bytes: bv, mime: mv, ext: ev }));
        }
    }
}

/// Whether `a` is a suffix of `b`.
pub open spec fn is_suffix<T>(a: Seq<T>, b: Seq<T>) -> bool {
    a.len() <= b.len() && b.subrange(b.len() - a.len(), b.len() as int) == a
}

proof fn lemma_suffix_drop_first<T>(a: Seq<T>, b: Seq<T>)
    requires
        is_suffix(a, b),
        a.len() > 0,
    ensures
        is_suffix(a.drop_first(), b),
{
    assert(b.subrange(b.len() - (a.len() - 1), b.len() as int) == a.drop_first());
}

proof fn lemma_total_push(s: Seq<MediaView>, x: MediaView)
    ensures
        total_bytes(s.push(x)) == total_bytes(s) + x.bytes.len(),
{
    assert(s.push(x).drop_last() == s);
}

proof fn lemma_total_remove(s: Seq<MediaView>, i: int)
    requires
        0 <= i < s.len(),
    ensures
        total_bytes(s.remove(i)) + s[i].bytes.len() == total_bytes(s),
    decreases s.len(),
{
    if i == s.len() - 1 {
        assert(s.remove(i) == s.drop_last());
    } else {
        lemma_total_remove(s.drop_last(), i);
        assert(s.remove(i) == s.drop_last().remove(i).push(s.last()));
        lemma_total_push(s.drop_last().remove(i), s.last());
    }
}

proof fn lemma_unique_remove_push(s: Seq<MediaView>, i: int)
    requires
        0 <= i < s.len(),
        names_unique(s),
    ensures
        names_unique(s.remove(i).push(s[i])),
{
    let t = s.remove(i).push(s[i]);
    assert forall|a: int, b: int| 0 <= a < b < t.len() implies t[a].name != t[b].name by {
        let ia = if a < i { a } else { a + 1 };
        if b == t.len() - 1 {
            assert(t[a] == s[ia]);
        } else {
            let ib = if b < i { b } else { b + 1 };
            assert(t[a] == s[ia] && t[b] == s[ib]);
        }
    }
}

proof fn lemma_without_unique(s: Seq<MediaView>, i: int, name: Seq<char>)
    requires
        0 <= i < s.len(),
        names_unique(s),
        s[i].name == name,
    ensures
        without(s, name) == s.remove(i),
        forall|k: int| 0 <= k < s.remove(i).len() ==> s.remove(i)[k].name != name,
{
    assert forall|k: int| 0 <= k < s.remove(i).len() implies s.remove(i)[k].name != name by {
        if k < i {
            assert(s.remove(i)[k] == s[k]);
        } else {
            assert(s.remove(i)[k] == s[k + 1]);
        }
    }
    lemma_filter_all_but(s, i, name);
}

proof fn lemma_filter_all_but(s: Seq<MediaView>, i: int, name: Seq<char>)
    requires
        0 <= i < s.len(),
        s[i].name == name,
        forall|k: int| 0 <= k < s.len() && k != i ==> s[k].name != name,
    ensures
        without(s, name) == s.remove(i),
    decreases s.len(),
{
    reveal(Seq::filter);
    if i == s.len() - 1 {
        lemma_filter_none(s.drop_last(), name);
        assert(s.remove(i) == s.drop_last());
    } else {
        lemma_filter_all_but(s.drop_last(), i, name);
        assert(s.remove(i) == s.drop_last().remove(i).push(s.last()));
    }
}

proof fn lemma_filter_none(s: Seq<MediaView>, name: Seq<char>)
    requires
        forall|k: int| 0 <= k < s.len() ==> s[k].name != name,
    ensures
        without(s, name) == s,
    decreases s.len(),
{
    reveal(Seq::filter);
    if s.len() > 0 {
        lemma_filter_none(s.drop_last(), name);
        assert(s.drop_last().push(s.last()) == s);
    }
}

proof fn lemma_without_absent(s: Seq<MediaView>, name: Seq<char>)
    requires
        forall|k: int| 0 <= k < s.len() ==> s[k].name != name,
    ensures
        without(s, name) == s,
{
    lemma_filter_none(s, name);
}

} // verus!
