//! Grouping of TAR entries into WebDataset samples, and paged listing of them.
use vstd::prelude::*;

use crate::paths::find_last;
use crate::text::{
    chars_of, first_index_of, last_index_of, lower_of, lowercase, normalized_path, string_from,
};

verus! {

/// One member of a sample.
#[derive(Clone, Debug)]
pub struct WdsFieldInfo {
    /// Field name: the lowercased suffix of the member's base name, or `bin`.
    pub name: String,
    /// Path of the member in the archive.
    pub member_path: String,
    /// Size of the member in bytes.
    pub size: u64,
}

/// A logical sample: the members sharing one key.
#[derive(Clone, Debug)]
pub struct WdsSampleInfo {
    /// Position of the sample in discovery order.
    pub sample_index: u32,
    /// Directory and stem shared by the members.
    pub key: String,
    /// Sum of the members' sizes (saturating).
    pub total_bytes: u64,
    /// Members sorted by name, then member path.
    pub fields: Vec<WdsFieldInfo>,
}

/// A page of samples.
#[derive(Clone, Debug)]
pub struct WdsSampleListResponse {
    pub offset: u32,
    pub length: u32,
    /// Number of samples, known once the shard was scanned to its end.
    pub num_samples_total: Option<u32>,
    /// Whether the shard has not yet been scanned to its end.
    pub partial: bool,
    pub samples: Vec<WdsSampleInfo>,
}

pub struct FieldView {
    pub name: Seq<char>,
    pub member_path: Seq<char>,
    pub size: u64,
}

pub struct SampleView {
    pub sample_index: u32,
    pub key: Seq<char>,
    pub total_bytes: u64,
    pub fields: Seq<FieldView>,
}

impl WdsFieldInfo {
    pub open spec fn view(&self) -> FieldView {
        FieldView { name: self.name@, member_path: self.member_path@, size: self.size }
    }
}

impl WdsSampleInfo {
    pub open spec fn view(&self) -> SampleView {
        SampleView {
            sample_index: self.sample_index,
            key: self.key@,
            total_bytes: self.total_bytes,
            fields: self.fields@.map_values(|f: WdsFieldInfo| f.view()),
        }
    }
}

pub open spec fn samples_view(s: Seq<WdsSampleInfo>) -> Seq<SampleView> {
    s.map_values(|x: WdsSampleInfo| x.view())
}

pub open spec fn fields_view(s: Seq<WdsFieldInfo>) -> Seq<FieldView> {
    s.map_values(|f: WdsFieldInfo| f.view())
}

/// Directory part and base name of a normalised path (split at its last `/`).
pub open spec fn dir_of(n: Seq<char>) -> Seq<char> {
    let k = last_index_of(n, '/');
    if k < 0 {
        Seq::<char>::empty()
    } else {
        n.subrange(0, k)
    }
}

pub open spec fn base_of(n: Seq<char>) -> Seq<char> {
    n.subrange(last_index_of(n, '/') + 1, n.len() as int)
}

/// Whether a base name splits into a non-empty stem and a (possibly empty) suffix at its
/// first `.`.
pub open spec fn has_suffix(base: Seq<char>) -> bool {
    let d = first_index_of(base, '.');
    d > 0
}

pub open spec fn stem_of(base: Seq<char>) -> Seq<char> {
    if has_suffix(base) {
        base.subrange(0, first_index_of(base, '.'))
    } else {
        base
    }
}

pub open spec fn suffix_of(base: Seq<char>) -> Seq<char> {
    if has_suffix(base) {
        base.subrange(first_index_of(base, '.') + 1, base.len() as int)
    } else {
        Seq::<char>::empty()
    }
}

/// The grouping key of a member path: `dir/stem`, or `stem` at top level.
pub open spec fn sample_key(p: Seq<char>) -> Seq<char> {
    let n = normalized_path(p);
    let dir = dir_of(n);
    let stem = stem_of(base_of(n));
    if dir.len() == 0 {
        stem
    } else {
        dir + seq!['/'] + stem
    }
}

/// The field name of a member path: its lowercased suffix, or `bin`.
pub open spec fn field_name(p: Seq<char>) -> Seq<char> {
    let suffix = suffix_of(base_of(normalized_path(p)));
    if suffix.len() == 0 {
        "bin"@
    } else {
        lower_of(suffix)
    }
}

proof fn lemma_index_ranges(s: Seq<char>, c: char)
    ensures
        -1 <= last_index_of(s, c) < s.len(),
        -1 <= first_index_of(s, c) < s.len(),
    decreases s.len(),
{
    if s.len() > 0 {
        lemma_index_ranges(s.drop_last(), c);
        lemma_index_ranges(s.drop_first(), c);
    }
}

fn append_chars(out: &mut String, v: &Vec<char>, lo: usize, hi: usize)
    requires
        lo <= hi <= v@.len(),
    ensures
        final(out)@ == old(out)@ + v@.subrange(lo as int, hi as int),
{
    let mut i = lo;
    while i < hi
        invariant
            lo <= i <= hi <= v@.len(),
            out@ == old(out)@ + v@.subrange(lo as int, i as int),
        decreases hi - i,
    {
        out.push(v[i]);
        assert(v@.subrange(lo as int, i + 1) == v@.subrange(lo as int, i as int).push(v@[i as int]));
        i = i + 1;
    }
}

/// Splits a member path into its sample key and field name (WebDataset convention).
pub fn split_sample_key(member_path: &str) -> (r: (String, String))
    ensures
        r.0@ == sample_key(member_path@),
        r.1@ == field_name(member_path@),
{
    let normalized = crate::paths::normalize_member_path_str(member_path);
    let v = chars_of(normalized.as_str());
    let n = v.len();
    let ghost nv = v@;
    assert(nv.subrange(0, n as int) == nv);
    proof {
        lemma_index_ranges(nv, '/');
    }
    let (dir_hi, base_lo) = match find_last(&v, 0, n, '/') {
        Some(k) => (k, k + 1),
        None => (0, 0),
    };
    let ghost base = base_of(nv);
    assert(v@.subrange(base_lo as int, n as int) == base);
    assert(v@.subrange(0, dir_hi as int) == dir_of(nv));
    proof {
        lemma_index_ranges(base, '.');
    }
    let (stem_hi, suf_lo) = match crate::paths::find_first(&v, base_lo, n, '.') {
        Some(d) => if d > 0 {
            (base_lo + d, base_lo + d + 1)
        } else {
            (n, n)
        },
        None => (n, n),
    };
    assert(v@.subrange(base_lo as int, stem_hi as int) == stem_of(base));
    assert(v@.subrange(suf_lo as int, n as int) == suffix_of(base));
    let mut key = String::new();
    if dir_hi > 0 {
        append_chars(&mut key, &v, 0, dir_hi);
        key.push('/');
    }
    append_chars(&mut key, &v, base_lo, stem_hi);
    let name = if suf_lo == n {
        "bin".to_string()
    } else {
        let suffix = string_from(&v, suf_lo, n);
        lowercase(suffix.as_str())
    };
    (key, name)
}

/// Three-way lexicographic comparison of character sequences (the order of `str`).
pub open spec fn seq_cmp(a: Seq<char>, b: Seq<char>) -> int
    decreases a.len(),
{
    if a.len() == 0 {
        if b.len() == 0 {
            0
        } else {
            -1
        }
    } else if b.len() == 0 {
        1
    } else if a[0] < b[0] {
        -1
    } else if a[0] > b[0] {
        1
    } else {
        seq_cmp(a.drop_first(), b.drop_first())
    }
}

/// Whether `x` sorts strictly after `y` by name, then member path.
pub open spec fn field_after(x: FieldView, y: FieldView) -> bool {
    seq_cmp(x.name, y.name) > 0 || (seq_cmp(x.name, y.name) == 0 && seq_cmp(
        x.member_path,
        y.member_path,
    ) > 0)
}

/// Stable insertion of `x` into `s`: after every element that does not sort after it.
pub open spec fn insert_field(s: Seq<FieldView>, x: FieldView) -> Seq<FieldView>
    decreases s.len(),
{
    if s.len() == 0 {
        seq![x]
    } else if field_after(s.last(), x) {
        insert_field(s.drop_last(), x).push(s.last())
    } else {
        s.push(x)
    }
}

/// The fields in stable sorted order by name, then member path.
pub open spec fn sort_fields(s: Seq<FieldView>) -> Seq<FieldView>
    decreases s.len(),
{
    if s.len() == 0 {
        s
    } else {
        insert_field(sort_fields(s.drop_last()), s.last())
    }
}

proof fn lemma_seq_cmp_antisym(a: Seq<char>, b: Seq<char>)
    ensures
        seq_cmp(a, b) == -seq_cmp(b, a),
    decreases a.len(),
{
    if a.len() > 0 && b.len() > 0 && a[0] == b[0] {
        lemma_seq_cmp_antisym(a.drop_first(), b.drop_first());
    }
}

proof fn lemma_field_after_asym(x: FieldView, y: FieldView)
    ensures
        field_after(x, y) ==> !field_after(y, x),
{
    lemma_seq_cmp_antisym(x.name, y.name);
    lemma_seq_cmp_antisym(x.member_path, y.member_path);
}

/// Whether no field sorts after its successor.
pub open spec fn fields_sorted(s: Seq<FieldView>) -> bool {
    forall|i: int| 0 <= i < s.len() - 1 ==> !field_after(#[trigger] s[i], s[i + 1])
}

proof fn lemma_insert_field(s: Seq<FieldView>, x: FieldView)
    requires
        fields_sorted(s),
    ensures
        fields_sorted(insert_field(s, x)),
        insert_field(s, x).len() == s.len() + 1,
        insert_field(s, x).last() == (if s.len() > 0 && field_after(s.last(), x) { s.last() } else { x }),
    decreases s.len(),
{
    if s.len() > 0 && field_after(s.last(), x) {
        let p = s.drop_last();
        assert(fields_sorted(p)) by {
            assert forall|i: int| 0 <= i < p.len() - 1 implies !field_after(#[trigger] p[i], p[i + 1]) by {
                assert(p[i] == s[i] && p[i + 1] == s[i + 1]);
            }
        }
        lemma_insert_field(p, x);
        let q = insert_field(p, x);
        let r = q.push(s.last());
        assert(!field_after(q.last(), s.last())) by {
            if p.len() > 0 && field_after(p.last(), x) {
                assert(p.last() == s[s.len() - 2]);
            } else {
                lemma_field_after_asym(s.last(), x);
            }
        }
        assert forall|i: int| 0 <= i < r.len() - 1 implies !field_after(#[trigger] r[i], r[i + 1]) by {
            if i < q.len() - 1 {
                assert(r[i] == q[i] && r[i + 1] == q[i + 1]);
            } else {
                assert(r[i] == q.last() && r[i + 1] == s.last());
            }
        }
    } else {
        let r = s.push(x);
        assert forall|i: int| 0 <= i < r.len() - 1 implies !field_after(#[trigger] r[i], r[i + 1]) by {
            if i < s.len() - 1 {
                assert(r[i] == s[i] && r[i + 1] == s[i + 1]);
            } else {
                assert(r[i] == s.last() && r[i + 1] == x);
            }
        }
    }
}

/// The fields of a closed sample are in order: none sorts after the next one by name,
/// then member path.
pub proof fn lemma_sorted_fields(s: Seq<FieldView>)
    ensures
        fields_sorted(sort_fields(s)),
        sort_fields(s).len() == s.len(),
    decreases s.len(),
{
    if s.len() > 0 {
        lemma_sorted_fields(s.drop_last());
        lemma_insert_field(sort_fields(s.drop_last()), s.last());
    }
}

proof fn lemma_insert_field_multiset(s: Seq<FieldView>, x: FieldView)
    ensures
        insert_field(s, x).to_multiset() == s.to_multiset().insert(x),
    decreases s.len(),
{
    broadcast use vstd::seq_lib::group_to_multiset_ensures;
    if s.len() == 0 {
        assert(seq![x] == Seq::<FieldView>::empty().push(x));
    } else if field_after(s.last(), x) {
        lemma_insert_field_multiset(s.drop_last(), x);
        assert(s.drop_last().push(s.last()) == s);
        assert(insert_field(s, x).to_multiset() =~= s.to_multiset().insert(x));
    }
}

/// Sorting neither drops nor adds fields: the result holds the same fields, counted with
/// multiplicity.
pub proof fn lemma_sort_keeps_fields(s: Seq<FieldView>)
    ensures
        sort_fields(s).to_multiset() == s.to_multiset(),
    decreases s.len(),
{
    broadcast use vstd::seq_lib::group_to_multiset_ensures;
    if s.len() > 0 {
        lemma_sort_keeps_fields(s.drop_last());
        lemma_insert_field_multiset(sort_fields(s.drop_last()), s.last());
        assert(s.drop_last().push(s.last()) == s);
    }
}

fn cmp_text(a: &str, b: &str) -> (r: i8)
    ensures
        r as int == seq_cmp(a@, b@),
{
    let x = chars_of(a);
    let y = chars_of(b);
    let mut i: usize = 0;
    assert(x@.subrange(0, x@.len() as int) == x@);
    assert(y@.subrange(0, y@.len() as int) == y@);
    while i < x.len() && i < y.len()
        invariant
            i <= x@.len(),
            i <= y@.len(),
            x@ == a@,
            y@ == b@,
            seq_cmp(a@, b@) == seq_cmp(x@.subrange(i as int, x@.len() as int), y@.subrange(i as int, y@.len() as int)),
        decreases x@.len() - i,
    {
        assert(x@.subrange(i as int, x@.len() as int).drop_first() == x@.subrange(i + 1, x@.len() as int));
        assert(y@.subrange(i as int, y@.len() as int).drop_first() == y@.subrange(i + 1, y@.len() as int));
        if x[i] < y[i] {
            return -1;
        }
        if x[i] > y[i] {
            return 1;
        }
        i = i + 1;
    }
    if i < x.len() {
        1
    } else if i < y.len() {
        -1
    } else {
        0
    }
}

fn sorts_after(x: &WdsFieldInfo, y: &WdsFieldInfo) -> (r: bool)
    ensures
        r == field_after(x.view(), y.view()),
{
    let c = cmp_text(x.name.as_str(), y.name.as_str());
    c > 0 || (c == 0 && cmp_text(x.member_path.as_str(), y.member_path.as_str()) > 0)
}

/// Sorts fields by name, then member path, keeping the order of equal ones.
/// The fields are moved out of `fields`, which is left empty.
pub fn sort_fields_stable(fields: &mut Vec<WdsFieldInfo>) -> (r: Vec<WdsFieldInfo>)
    ensures
        fields_view(r@) == sort_fields(fields_view(old(fields)@)),
        final(fields)@.len() == 0,
{
    let mut out: Vec<WdsFieldInfo> = Vec::new();
    let rest = fields;
    let ghost all = fields_view(rest@);
    let mut taken: usize = 0;
    let n = rest.len();
    let mut items: Vec<WdsFieldInfo> = Vec::new();
    // Move the fields into `items` in reverse, so that popping yields them in order.
    while rest.len() > 0
        invariant
            items@.len() + rest@.len() == n,
            all == fields_view(old(fields)@),
            all == fields_view(rest@) + fields_view(items@).reverse(),
        decreases rest@.len(),
    {
        let f = rest.pop().unwrap();
        proof {
            assert(fields_view(rest@.push(f)) == fields_view(rest@).push(f.view()));
        }
        items.push(f);
        assert(fields_view(items@).reverse() == seq![f.view()] + fields_view(items@.drop_last()).reverse());
    }
    assert(fields_view(items@).reverse() == all);
    while items.len() > 0
        invariant
            items@.len() + taken == n,
            all.len() == n,
            fields_view(items@).reverse() == all.subrange(taken as int, n as int),
            fields_view(out@) == sort_fields(all.subrange(0, taken as int)),
        decreases items@.len(),
    {
        let f = items.pop().unwrap();
        let ghost x = f.view();
        assert(all.subrange(taken as int, n as int)[0] == x);
        assert(all.subrange(0, taken + 1).drop_last() == all.subrange(0, taken as int));
        assert(all.subrange(0, taken + 1).last() == x);
        let mut j = out.len();
        assert(out@.subrange(0, j as int) == out@);
        assert(fields_view(out@.subrange(j as int, out@.len() as int)) =~= Seq::<FieldView>::empty());
        while j > 0 && sorts_after(&out[j - 1], &f)
            invariant
                j <= out@.len(),
                x == f.view(),
                insert_field(fields_view(out@), x) == insert_field(fields_view(out@.subrange(0, j as int)), x) + fields_view(out@.subrange(j as int, out@.len() as int)),
            decreases j,
        {
            assert(fields_view(out@.subrange(0, j as int)).drop_last() == fields_view(out@.subrange(0, j - 1)));
            assert(out@.subrange(j - 1, out@.len() as int) == seq![out@[j - 1]] + out@.subrange(j as int, out@.len() as int));
            j = j - 1;
        }
        assert(!(j > 0) || !field_after(fields_view(out@.subrange(0, j as int)).last(), x));
        let ghost before = out@;
        out.insert(j, f);
        assert(fields_view(out@) == fields_view(before.subrange(0, j as int)).push(x) + fields_view(before.subrange(j as int, before.len() as int)));
        taken = taken + 1;
        assert(all.subrange(taken as int, n as int) == all.subrange(taken - 1, n as int).drop_first());
        assert(fields_view(items@).reverse() == fields_view(items@.push(f)).reverse().drop_first());
    }
    assert(all.subrange(0, n as int) == all);
    out
}

/// Abstract state of a [`SampleGrouper`].
pub struct GroupView {
    pub samples: Seq<SampleView>,
    pub key: Option<Seq<char>>,
    pub fields: Seq<FieldView>,
    pub bytes: u64,
    pub index: u32,
}

pub open spec fn sat_add(a: u64, b: u64) -> u64 {
    if a + b > u64::MAX {
        u64::MAX
    } else {
        (a + b) as u64
    }
}

pub open spec fn sat_inc(i: u32) -> u32 {
    if i == u32::MAX {
        i
    } else {
        (i + 1) as u32
    }
}

/// The grouper before any entry.
pub open spec fn group_start() -> GroupView {
    GroupView { samples: seq![], key: None, fields: seq![], bytes: 0, index: 0 }
}

/// Closes the open sample, if any: its fields are sorted and it gets the next index.
pub open spec fn flush(g: GroupView) -> GroupView {
    match g.key {
        None => GroupView { fields: seq![], bytes: 0, ..g },
        Some(k) => GroupView {
            samples: g.samples.push(
                SampleView {
                    sample_index: g.index,
                    key: k,
                    total_bytes: g.bytes,
                    fields: sort_fields(g.fields),
                },
            ),
            key: None,
            fields: seq![],
            bytes: 0,
            index: sat_inc(g.index),
        },
    }
}

/// Folds one entry: an empty key drops it, a new key closes the open sample first.
pub open spec fn entry_step(g: GroupView, path: Seq<char>, size: u64) -> GroupView {
    let key = sample_key(path);
    if key.len() == 0 {
        g
    } else {
        let g1 = if g.key == Some(key) {
            g
        } else {
            GroupView { key: Some(key), ..flush(g) }
        };
        GroupView {
            bytes: sat_add(g1.bytes, size),
            fields: g1.fields.push(FieldView { name: field_name(path), member_path: path, size }),
            ..g1
        }
    }
}

/// Folds a sequence of `(path, size)` entries in order.
pub open spec fn fold_entries(g: GroupView, es: Seq<(Seq<char>, u64)>) -> GroupView
    decreases es.len(),
{
    if es.len() == 0 {
        g
    } else {
        entry_step(fold_entries(g, es.drop_last()), es.last().0, es.last().1)
    }
}

/// Whether `a` is a prefix of `b`.
pub open spec fn is_prefix<T>(a: Seq<T>, b: Seq<T>) -> bool {
    a.len() <= b.len() && b.take(a.len() as int) == a
}

proof fn lemma_step_extends(g: GroupView, path: Seq<char>, size: u64)
    ensures
        is_prefix(g.samples, entry_step(g, path, size).samples),
        is_prefix(g.samples, flush(g).samples),
{
    assert(g.samples.push(SampleView { sample_index: g.index, key: g.key->Some_0, total_bytes: g.bytes, fields: sort_fields(g.fields) }).take(g.samples.len() as int) == g.samples);
    assert(g.samples.take(g.samples.len() as int) == g.samples);
}

proof fn lemma_fold_extends(g: GroupView, a: Seq<(Seq<char>, u64)>, k: int)
    requires
        0 <= k <= a.len(),
    ensures
        is_prefix(fold_entries(g, a.take(k)).samples, fold_entries(g, a).samples),
    decreases a.len() - k,
{
    if k == a.len() {
        assert(a.take(k) == a);
        let s = fold_entries(g, a).samples;
        assert(s.take(s.len() as int) == s);
    } else {
        lemma_fold_extends(g, a, k + 1);
        let t = a.take(k + 1);
        assert(t.drop_last() == a.take(k));
        lemma_step_extends(fold_entries(g, a.take(k)), t.last().0, t.last().1);
        let s0 = fold_entries(g, a.take(k)).samples;
        let s1 = fold_entries(g, t).samples;
        let s2 = fold_entries(g, a).samples;
        assert(s2.take(s0.len() as int) == s2.take(s1.len() as int).take(s0.len() as int));
    }
}

/// Paging is invisible: sample `i`, read from the scan state after any number `k` of
/// entries (as a page request that stops the scan early does), is sample `i` of a single
/// complete scan of all entries, whose last open sample is closed at the end.
pub proof fn lemma_paged_scan_matches_full_scan(es: Seq<(Seq<char>, u64)>, k: int, i: int)
    requires
        0 <= k <= es.len(),
        0 <= i < fold_entries(group_start(), es.take(k)).samples.len(),
    ensures
        fold_entries(group_start(), es.take(k)).samples[i] == flush(
            fold_entries(group_start(), es),
        ).samples[i],
{
    lemma_fold_extends(group_start(), es, k);
    let full = fold_entries(group_start(), es);
    lemma_step_extends(full, seq![], 0);
    let s0 = fold_entries(group_start(), es.take(k)).samples;
    assert(s0[i] == full.samples.take(s0.len() as int)[i]);
    assert(full.samples[i] == flush(full).samples.take(full.samples.len() as int)[i]);
}

/// Groups a stream of entries into samples.
pub struct SampleGrouper {
    pub samples: Vec<WdsSampleInfo>,
    pub current_key: Option<String>,
    pub current_fields: Vec<WdsFieldInfo>,
    pub current_bytes: u64,
    pub current_sample_index: u32,
}

impl SampleGrouper {
    pub open spec fn view(&self) -> GroupView {
        GroupView {
            samples: samples_view(self.samples@),
            key: match self.current_key {
                Some(k) => Some(k@),
                None => None,
            },
            fields: fields_view(self.current_fields@),
            bytes: self.current_bytes,
            index: self.current_sample_index,
        }
    }

    /// A grouper that has seen no entry.
    pub fn new() -> (r: Self)
        ensures
            r.view() == group_start(),
    {
        let r = SampleGrouper {
            samples: Vec::new(),
            current_key: None,
            current_fields: Vec::new(),
            current_bytes: 0,
            current_sample_index: 0,
        };
        assert(samples_view(r.samples@) == Seq::<SampleView>::empty());
        assert(fields_view(r.current_fields@) == Seq::<FieldView>::empty());
        r
    }

    /// Closes the open sample, if any.
    pub fn flush_sample_parts(&mut self)
        ensures
            final(self).view() == flush(old(self).view()),
    {
        match self.current_key.take() {
            None => {
                self.current_fields.clear();
            },
            Some(key) => {
                let sorted = sort_fields_stable(&mut self.current_fields);
                let sample = WdsSampleInfo {
                    sample_index: self.current_sample_index,
                    key,
                    total_bytes: self.current_bytes,
                    fields: sorted,
                };
                self.samples.push(sample);
                assert(samples_view(self.samples@) == samples_view(old(self).samples@).push(sample.view()));
                self.current_sample_index = if self.current_sample_index == u32::MAX {
                    u32::MAX
                } else {
                    self.current_sample_index + 1
                };
            },
        }
        self.current_bytes = 0;
        assert(fields_view(self.current_fields@) == Seq::<FieldView>::empty());
    }

    /// Folds one entry of the stream.
    pub fn push_entry(&mut self, member_path: String, size: u64)
        ensures
            final(self).view() == entry_step(old(self).view(), member_path@, size),
    {
        let (key, name) = split_sample_key(member_path.as_str());
        if key.as_str().is_empty() {
            return;
        }
        let same = match &self.current_key {
            Some(k) => k.eq(&key),
            None => false,
        };
        let ghost g = old(self).view();
        assert(same == (g.key == Some(key@)));
        if !same {
            self.flush_sample_parts();
            self.current_key = Some(key);
            assert(self.view().key == Some(sample_key(member_path@)));
            assert(self.view() == GroupView { key: Some(sample_key(member_path@)), ..flush(g) });
        }
        let ghost g1 = self.view();
        let ghost path = member_path@;
        self.current_bytes = self.current_bytes.saturating_add(size);
        assert(self.current_bytes == sat_add(g1.bytes, size));
        let f = WdsFieldInfo { name, member_path, size };
        assert(f.view() == FieldView { name: field_name(path), member_path: path, size });
        let ghost before = self.current_fields@;
        self.current_fields.push(f);
        assert(self.current_fields@ == before.push(f));
        assert(fields_view(before.push(f)) == fields_view(before).push(f.view()));
        assert(self.view() == GroupView { bytes: sat_add(g1.bytes, size), fields: g1.fields.push(f.view()), ..g1 });
    }
}

/// Clones a sample, field by field.
pub fn copy_sample(s: &WdsSampleInfo) -> (r: WdsSampleInfo)
    ensures
        r.view() == s.view(),
{
    let mut fields: Vec<WdsFieldInfo> = Vec::new();
    let mut i: usize = 0;
    while i < s.fields.len()
        invariant
            i <= s.fields@.len(),
            fields_view(fields@) == fields_view(s.fields@.subrange(0, i as int)),
        decreases s.fields@.len() - i,
    {
        let f = &s.fields[i];
        let c = WdsFieldInfo { name: f.name.clone(), member_path: f.member_path.clone(), size: f.size };
        fields.push(c);
        assert(fields_view(s.fields@.subrange(0, i + 1)) == fields_view(s.fields@.subrange(0, i as int)).push(f.view()));
        i = i + 1;
    }
    assert(s.fields@.subrange(0, s.fields@.len() as int) == s.fields@);
    WdsSampleInfo { sample_index: s.sample_index, key: s.key.clone(), total_bytes: s.total_bytes, fields }
}

/// Offset and page length of a listing request: the offset defaults to zero, the length
/// to `default_len`, and is kept between 1 and `max_len`.
pub fn page_params(offset: Option<u32>, length: Option<u32>, default_len: u32, max_len: u32) -> (r: (u32, u32))
    requires
        max_len >= 1,
    ensures
        r.0 == (match offset { Some(o) => o, None => 0 }),
        r.1 == ({
            let l = match length { Some(l) => l, None => default_len };
            if l < 1 { 1 } else if l > max_len { max_len } else { l }
        }),
{
    let o = match offset {
        Some(o) => o,
        None => 0,
    };
    let l = match length {
        Some(l) => l,
        None => default_len,
    };
    let l = if l < 1 {
        1
    } else if l > max_len {
        max_len
    } else {
        l
    };
    (o, l)
}

/// Page size when none is asked for.
pub const DEFAULT_SAMPLE_PAGE: u32 = 200;

/// Largest page of samples.
pub const MAX_LISTED_SAMPLES: u32 = 5000;

/// The next sample index is the number of samples closed so far (saturated to `u32`).
pub open spec fn index_matches(g: GroupView) -> bool {
    g.index as int == (if g.samples.len() >= u32::MAX { u32::MAX as int } else { g.samples.len() as int })
}

proof fn lemma_flush_keeps_index(g: GroupView)
    requires
        index_matches(g),
    ensures
        index_matches(flush(g)),
{
}

proof fn lemma_step_keeps_index(g: GroupView, path: Seq<char>, size: u64)
    requires
        index_matches(g),
    ensures
        index_matches(entry_step(g, path, size)),
{
    lemma_flush_keeps_index(g);
}

/// Incremental scan of one shard: the samples grouped so far and whether the stream ended.
pub struct ShardScanState {
    pub grouper: SampleGrouper,
    pub done: bool,
}

impl ShardScanState {
    /// The next sample index counts the samples closed so far.
    pub open spec fn wf(&self) -> bool {
        index_matches(self.grouper.view())
    }

    /// A scan that has not read anything yet.
    pub fn new() -> (r: Self)
        ensures
            r.grouper.view() == group_start(),
            !r.done,
            r.wf(),
    {
        ShardScanState { grouper: SampleGrouper::new(), done: false }
    }

    /// Whether another entry must be read to answer a request for `target` samples (all of
    /// them when `compute_total`).
    pub fn wants_more(&self, target: u32, compute_total: bool) -> (r: bool)
        ensures
            r == (!self.done && (compute_total || self.grouper.samples@.len() < target)),
    {
        !self.done && (compute_total || self.grouper.samples.len() < target as usize)
    }

    /// Folds the next entry of the stream.
    pub fn on_entry(&mut self, member_path: String, size: u64)
        requires
            !old(self).done,
            old(self).wf(),
        ensures
            final(self).grouper.view() == entry_step(old(self).grouper.view(), member_path@, size),
            !final(self).done,
            final(self).wf(),
    {
        proof {
            lemma_step_keeps_index(self.grouper.view(), member_path@, size);
        }
        self.grouper.push_entry(member_path, size);
    }

    /// Records the end of the stream: the open sample is closed.
    pub fn on_end(&mut self)
        requires
            old(self).wf(),
        ensures
            final(self).wf(),
            final(self).done,
            old(self).done ==> final(self).grouper.view() == old(self).grouper.view(),
            !old(self).done ==> final(self).grouper.view() == flush(old(self).grouper.view()),
    {
        if !self.done {
            self.done = true;
            proof {
                lemma_flush_keeps_index(self.grouper.view());
            }
            self.grouper.flush_sample_parts();
        }
    }

    /// The samples `[offset, offset + length)` found so far.
    pub fn page(&self, offset: u32, length: u32) -> (r: WdsSampleListResponse)
        requires
            self.wf(),
        ensures
            r.num_samples_total == (if self.done {
                Some(if self.grouper.samples@.len() >= u32::MAX { u32::MAX } else { self.grouper.samples@.len() as u32 })
            } else {
                None
            }),
            r.offset == offset,
            r.length == length,
            r.partial == !self.done,
            r.num_samples_total == (if self.done { Some(self.grouper.current_sample_index) } else { None }),
            samples_view(r.samples@) == ({
                let all = samples_view(self.grouper.samples@);
                let end = if offset + length > u32::MAX { u32::MAX as int } else { offset + length };
                if offset >= all.len() {
                    Seq::<SampleView>::empty()
                } else {
                    all.subrange(offset as int, if end < all.len() { end } else { all.len() as int })
                }
            }),
    {
        let all = &self.grouper.samples;
        let start = offset as usize;
        let sum = offset.saturating_add(length) as usize;
        let end = if sum < all.len() {
            sum
        } else {
            all.len()
        };
        let mut samples: Vec<WdsSampleInfo> = Vec::new();
        if start < all.len() {
            let mut i = start;
            while i < end
                invariant
                    start <= i <= end <= all@.len(),
                    samples_view(samples@) == samples_view(all@).subrange(start as int, i as int),
                decreases end - i,
            {
                let c = copy_sample(&all[i]);
                samples.push(c);
                assert(samples_view(samples@) == samples_view(samples@.drop_last()).push(c.view()));
                assert(samples_view(all@).subrange(start as int, i + 1) == samples_view(all@).subrange(start as int, i as int).push(all@[i as int].view()));
                i = i + 1;
            }
        }
        WdsSampleListResponse {
            offset,
            length,
            num_samples_total: if self.done {
                Some(self.grouper.current_sample_index)
            } else {
                None
            },
            partial: !self.done,
            samples,
        }
    }
}

} // verus!
