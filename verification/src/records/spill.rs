//! A record store that keeps recent records in memory and writes the older
//! ones to immutable segments. Reads merge both.

use dashmap::{DashMap, DashSet};
use std::collections::hash_map::RandomState;
use vstd::prelude::*;
use vstd::string::*;
use crate::mlflow::page::opt_view;
use crate::mlflow::states::opt_of;
use crate::records::dash::{
    map_get, map_insert, map_len, map_remove, map_rows, new_map, new_set, set_contains, set_insert,
    set_list, set_remove, set_texts,
};
use crate::records::memtable::list_rows;
use crate::records::row::{
    Record, RecordModel, RecordScanOptions, ScanModel, cap_of, configured_flush_threshold,
    copied_record, is_roll, is_scan, under_own_ids,
};
use crate::records::scan::{filter_rows, is_filtered_scan, lemma_picked_is_scan, pick_rows};
use crate::sql::lexical::Found;
use crate::text::chars::{
    chars_of, copied, lemma_views_push, same_text, text_of_range, texts, views,
};
use crate::text::map::{TextMap, is_listing};
use crate::text::number::{all_digits, decimal, decimal_text, digits_value, lemma_decimal};
use crate::text::order::{lemma_text_before_irreflexive, text_before};
use crate::text::trim::{trim_end_char, without_char_at_end};

verus! {

/// Recent records, the ids of those removed after they were written to a
/// segment, and the paths of the segments, the oldest first.
pub struct SpillRecordStorage<F> {
    memtable: DashMap<String, Record, RandomState>,
    tombstones: DashSet<String, RandomState>,
    segments: Vec<String>,
    /// How many records in memory make a write flush them; `None` for never.
    flush_threshold: Option<usize>,
    filesystem: F,
    base_path: String,
    next_segment: u64,
}

pub struct SpillModel {
    pub memtable: Map<Seq<char>, RecordModel>,
    pub tombstones: Set<Seq<char>>,
    pub segments: Seq<Seq<char>>,
    pub flush_threshold: Option<usize>,
    pub base_path: Seq<char>,
    pub next_segment: u64,
}

/// What the store tells of a record without its segments.
#[derive(Debug)]
pub enum Lookup {
    Found(Record),
    Absent,
    /// The segments decide, the newest first.
    Search,
}

/// What a removal tells without the segments.
#[derive(Clone, Copy, Debug, PartialEq, Eq, Structural)]
pub enum Removal {
    /// A record went away.
    Removed,
    /// There was none.
    Nothing,
    /// There was one where a segment holds it.
    Search,
}

/// The first record of a segment with an id, from index `i` on.
pub open spec fn row_in(segment: Seq<RecordModel>, oid: Seq<char>, i: int) -> Option<RecordModel>
    decreases segment.len() - i,
{
    if i < 0 || i >= segment.len() {
        None
    } else if segment[i].oid == oid {
        Some(segment[i])
    } else {
        row_in(segment, oid, i + 1)
    }
}

/// The record with an id in the newest of the first `n` segments that has one.
pub open spec fn newest_row(segments: Seq<Seq<RecordModel>>, oid: Seq<char>, n: int) -> Option<
    RecordModel,
>
    decreases n,
{
    if n <= 0 {
        None
    } else {
        match row_in(segments[n - 1], oid, 0) {
            Some(r) => Some(r),
            None => newest_row(segments, oid, n - 1),
        }
    }
}

/// The record with an id that a reader sees: that in memory, or else that in the
/// newest segment; none where it was removed.
pub open spec fn visible(
    store: SpillModel,
    segments: Seq<Seq<RecordModel>>,
    oid: Seq<char>,
) -> Option<RecordModel> {
    if store.tombstones.contains(oid) {
        None
    } else if store.memtable.dom().contains(oid) {
        Some(store.memtable[oid])
    } else {
        newest_row(segments, oid, segments.len() as int)
    }
}

/// A map with the first `n` records of a segment put in.
pub open spec fn absorbed(
    m: Map<Seq<char>, RecordModel>,
    segment: Seq<RecordModel>,
    n: int,
) -> Map<Seq<char>, RecordModel>
    decreases n,
{
    if n <= 0 {
        m
    } else {
        absorbed(m, segment, n - 1).insert(segment[n - 1].oid, segment[n - 1])
    }
}

/// The records of the first `n` segments, the newer over the older.
pub open spec fn layered(segments: Seq<Seq<RecordModel>>, n: int) -> Map<Seq<char>, RecordModel>
    decreases n,
{
    if n <= 0 {
        Map::empty()
    } else {
        absorbed(layered(segments, n - 1), segments[n - 1], segments[n - 1].len() as int)
    }
}

/// Every live record: those of the segments, those in memory over them, without
/// the removed ones.
pub open spec fn merged(store: SpillModel, segments: Seq<Seq<RecordModel>>) -> Map<
    Seq<char>,
    RecordModel,
> {
    layered(segments, segments.len() as int).union_prefer_right(store.memtable).remove_keys(
        store.tombstones,
    )
}

/// No segment holds two records with one id.
pub open spec fn segments_distinct(segments: Seq<Seq<RecordModel>>) -> bool {
    forall|s: int, i: int, j: int|
        0 <= s < segments.len() && 0 <= i < j < segments[s].len() ==> (#[trigger] segments[s][i]).oid
            != (#[trigger] segments[s][j]).oid
}

pub open spec fn segment_views(segments: Seq<Vec<Record>>) -> Seq<Seq<RecordModel>> {
    segments.map_values(|s: Vec<Record>| views(s@))
}

pub open spec fn zeros(n: nat) -> Seq<char> {
    Seq::new(n, |i: int| '0')
}

/// The number with zeros before it, at least ten digits.
pub open spec fn ten_digits(n: nat) -> Seq<char> {
    if decimal(n).len() < 10 {
        zeros((10 - decimal(n).len()) as nat) + decimal(n)
    } else {
        decimal(n)
    }
}

/// The path of a segment.
pub open spec fn segment_path(base: Seq<char>, n: u64) -> Seq<char> {
    trim_end_char(base, '/') + "/spill-"@ + ten_digits(n as nat) + ".parquet"@
}

fn segment_path_text(base: &str, n: u64) -> (r: String)
    ensures
        r@ == segment_path(base@, n),
{
    let b: Vec<char> = chars_of(base);
    let end: usize = without_char_at_end(b.as_slice(), '/');
    let mut r: String = text_of_range(b.as_slice(), 0, end);
    assert(r@ =~= trim_end_char(base@, '/'));
    r.append("/spill-");
    let head: Ghost<Seq<char>> = Ghost(r@);
    let digits: String = decimal_text(n as u128);
    let mut len: usize = digits.as_str().unicode_len();
    assert(r@ =~= head@ + zeros(0));
    while len < 10
        invariant
            decimal(n as nat).len() <= len,
            len <= 10 || len == decimal(n as nat).len(),
            r@ == head@ + zeros((len - decimal(n as nat).len()) as nat),
        decreases 10 - len,
    {
        r.push('0');
        len += 1;
        assert(r@ =~= head@ + zeros((len - decimal(n as nat).len()) as nat));
    }
    r.append(digits.as_str());
    assert(r@ =~= head@ + ten_digits(n as nat));
    r.append(".parquet");
    r
}

/// The first record of a segment with an id.
pub fn find_row(segment: &Vec<Record>, oid: &str) -> (r: Option<Record>)
    ensures
        opt_of(r) == row_in(views(segment@), oid@, 0),
{
    let mut i: usize = 0;
    while i < segment.len()
        invariant
            i <= segment@.len(),
            row_in(views(segment@), oid@, 0) == row_in(views(segment@), oid@, i as int),
        decreases segment@.len() - i,
    {
        assert(views(segment@)[i as int] == segment@[i as int]@);
        if same_text(segment[i].oid.as_str(), oid) {
            return Some(copied_record(&segment[i]));
        }
        i += 1;
    }
    None
}

/// The record with an id in the newest segment that has one.
pub fn find_newest(segments: &Vec<Vec<Record>>, oid: &str) -> (r: Option<Record>)
    ensures
        opt_of(r) == newest_row(segment_views(segments@), oid@, segments@.len() as int),
{
    let mut n: usize = segments.len();
    while n > 0
        invariant
            n <= segments@.len(),
            newest_row(segment_views(segments@), oid@, segments@.len() as int) == newest_row(
                segment_views(segments@),
                oid@,
                n as int,
            ),
        decreases n,
    {
        assert(segment_views(segments@)[n - 1] == views(segments@[n - 1]@));
        if let Some(r) = find_row(&segments[n - 1], oid) {
            return Some(r);
        }
        n -= 1;
    }
    None
}

/// The records that a map of them holds.
spec fn map_models(m: TextMap<Record>) -> Map<Seq<char>, RecordModel> {
    Map::new(|k: Seq<char>| m@.dom().contains(k), |k: Seq<char>| m@[k]@)
}

fn put_row(m: &mut TextMap<Record>, r: &Record)
    ensures
        map_models(*final(m)) == map_models(*old(m)).insert(r.oid@, r@),
{
    let ghost before = map_models(*m);
    m.insert(copied(&r.oid), copied_record(r));
    assert(map_models(*m) =~= before.insert(r.oid@, r@));
}

fn put_rows(m: &mut TextMap<Record>, rows: &Vec<Record>)
    ensures
        map_models(*final(m)) == absorbed(map_models(*old(m)), views(rows@), rows@.len() as int),
{
    let ghost given = map_models(*m);
    let mut i: usize = 0;
    while i < rows.len()
        invariant
            i <= rows@.len(),
            map_models(*m) == absorbed(given, views(rows@), i as int),
        decreases rows@.len() - i,
    {
        assert(views(rows@)[i as int] == rows@[i as int]@);
        put_row(m, &rows[i]);
        i += 1;
    }
}

/// Records that stand under their own ids, put in, are those of the map.
proof fn lemma_absorb_roll(
    m: Map<Seq<char>, RecordModel>,
    s: Seq<RecordModel>,
    rows: Map<Seq<char>, RecordModel>,
)
    requires
        is_roll(s, rows),
    ensures
        absorbed(m, s, s.len() as int) == m.union_prefer_right(rows),
{
    lemma_absorb_distinct(m, s, s.len() as int);
    let a = absorbed(m, s, s.len() as int);
    let u = m.union_prefer_right(rows);
    assert(s.take(s.len() as int) =~= s);
    assert forall|k: Seq<char>|
        #![trigger a.dom().contains(k)]
        #![trigger a[k]]
        a.dom().contains(k) == u.dom().contains(k) && (u.dom().contains(k) ==> a[k] == u[k]) by {
        lemma_row_in(s, k, 0);
        assert(a.dom().contains(k) == a.dom().contains(k));
        match row_in(s, k, 0) {
            Some(r) => {
                let i = choose|i: int| 0 <= i < s.len() && s[i] == r && s[i].oid == k;
                assert(rows.dom().contains(s[i].oid));
            },
            None => {
                if rows.dom().contains(k) {
                    let i = choose|i: int| 0 <= i < s.len() && (#[trigger] s[i]).oid == k;
                    assert(s[i].oid != k);
                }
            },
        }
    }
    assert(a =~= u);
}

proof fn lemma_row_in(s: Seq<RecordModel>, oid: Seq<char>, i: int)
    requires
        0 <= i <= s.len(),
    ensures
        match row_in(s, oid, i) {
            Some(r) => exists|k: int| i <= k < s.len() && s[k] == r && (#[trigger] s[k]).oid == oid,
            None => forall|k: int| i <= k < s.len() ==> (#[trigger] s[k]).oid != oid,
        },
    decreases s.len() - i,
{
    if i < s.len() && s[i].oid != oid {
        lemma_row_in(s, oid, i + 1);
    }
}

/// Where no id occurs twice, what is put in is found.
proof fn lemma_absorb_distinct(m: Map<Seq<char>, RecordModel>, s: Seq<RecordModel>, n: int)
    requires
        0 <= n <= s.len(),
        forall|i: int, j: int| 0 <= i < j < s.len() ==> (#[trigger] s[i]).oid != (#[trigger] s[j]).oid,
    ensures
        forall|k: Seq<char>|
            #![trigger absorbed(m, s, n).dom().contains(k)]
            #![trigger absorbed(m, s, n)[k]]
            match row_in(s.take(n), k, 0) {
                Some(r) => absorbed(m, s, n).dom().contains(k) && absorbed(m, s, n)[k] == r,
                None => absorbed(m, s, n).dom().contains(k) == m.dom().contains(k) && (
                m.dom().contains(k) ==> absorbed(m, s, n)[k] == m[k]),
            },
    decreases n,
{
    let a = absorbed(m, s, n);
    if n > 0 {
        lemma_absorb_distinct(m, s, n - 1);
    }
    assert forall|k: Seq<char>|
        #![trigger a.dom().contains(k)]
        #![trigger a[k]]
        match row_in(s.take(n), k, 0) {
            Some(r) => a.dom().contains(k) && a[k] == r,
            None => a.dom().contains(k) == m.dom().contains(k) && (m.dom().contains(k) ==> a[k]
                == m[k]),
        } by {
        lemma_row_in(s.take(n), k, 0);
        if n > 0 {
            lemma_row_in(s.take(n - 1), k, 0);
            let b = absorbed(m, s, n - 1);
            assert(a == b.insert(s[n - 1].oid, s[n - 1]));
            assert(b.dom().contains(k) == b.dom().contains(k));
            match row_in(s.take(n), k, 0) {
                Some(r) => {
                    let i = choose|i: int|
                        0 <= i < n && s.take(n)[i] == r && (#[trigger] s.take(n)[i]).oid == k;
                    assert(s[i] == r && s[i].oid == k);
                    if i < n - 1 {
                        assert(s[i].oid != s[n - 1].oid);
                        assert(s.take(n - 1)[i].oid == k);
                        match row_in(s.take(n - 1), k, 0) {
                            Some(q) => {
                                let j = choose|j: int|
                                    0 <= j < n - 1 && s.take(n - 1)[j] == q && (#[trigger] s.take(
                                        n - 1,
                                    )[j]).oid == k;
                                assert(s[j].oid == k);
                                if i < j {
                                    assert(s[i].oid != s[j].oid);
                                } else if j < i {
                                    assert(s[j].oid != s[i].oid);
                                }
                                assert(q == r);
                            },
                            None => {},
                        }
                    }
                },
                None => {
                    assert(s.take(n)[n - 1].oid != k);
                    match row_in(s.take(n - 1), k, 0) {
                        Some(q) => {
                            let j = choose|j: int|
                                0 <= j < n - 1 && s.take(n - 1)[j] == q && (#[trigger] s.take(
                                    n - 1,
                                )[j]).oid == k;
                            assert(s.take(n)[j].oid == k);
                        },
                        None => {},
                    }
                },
            }
        } else {
            assert(s.take(0) =~= Seq::empty());
        }
    }
}

impl<F> View for SpillRecordStorage<F> {
    type V = SpillModel;

    closed spec fn view(&self) -> SpillModel {
        SpillModel {
            memtable: map_rows(self.memtable),
            tombstones: set_texts(self.tombstones),
            segments: texts(self.segments@),
            flush_threshold: self.flush_threshold,
            base_path: self.base_path@,
            next_segment: self.next_segment,
        }
    }
}

/// What holds of the store at any time: records stand under their own ids, and
/// no removed id is in memory.
pub open spec fn is_consistent(s: SpillModel) -> bool {
    &&& s.memtable.dom().finite()
    &&& under_own_ids(s.memtable)
    &&& forall|k: Seq<char>| s.tombstones.contains(k) ==> !#[trigger] s.memtable.dom().contains(k)
}

/// The store after a record is set.
pub open spec fn after_upsert(s: SpillModel, r: RecordModel) -> SpillModel {
    SpillModel {
        memtable: s.memtable.insert(r.oid, r),
        tombstones: s.tombstones.remove(r.oid),
        ..s
    }
}

/// The store after a record is removed. Where there are segments, one of them may
/// hold it, so its id is kept.
pub open spec fn after_delete(s: SpillModel, oid: Seq<char>) -> SpillModel {
    SpillModel {
        memtable: s.memtable.remove(oid),
        tombstones: if s.segments.len() > 0 {
            s.tombstones.insert(oid)
        } else {
            s.tombstones
        },
        ..s
    }
}

/// The store after its records are written to a segment.
pub open spec fn after_flush(s: SpillModel, path: Seq<char>, rows: Seq<RecordModel>) -> SpillModel {
    SpillModel {
        memtable: without_rows(s.memtable, rows, rows.len() as int),
        segments: s.segments.push(path),
        ..s
    }
}

/// A map without the ids of the first `n` records.
pub open spec fn without_rows(
    m: Map<Seq<char>, RecordModel>,
    rows: Seq<RecordModel>,
    n: int,
) -> Map<Seq<char>, RecordModel>
    decreases n,
{
    if n <= 0 {
        m
    } else {
        without_rows(m, rows, n - 1).remove(rows[n - 1].oid)
    }
}

proof fn lemma_without_rows(m: Map<Seq<char>, RecordModel>, rows: Seq<RecordModel>, n: int)
    requires
        0 <= n <= rows.len(),
        m.dom().finite(),
    ensures
        without_rows(m, rows, n).dom().finite(),
        forall|k: Seq<char>| #[trigger]
            without_rows(m, rows, n).dom().contains(k) ==> m.dom().contains(k) && without_rows(
                m,
                rows,
                n,
            )[k] == m[k] && forall|i: int| 0 <= i < n ==> (#[trigger] rows[i]).oid != k,
    decreases n,
{
    if n > 0 {
        lemma_without_rows(m, rows, n - 1);
    }
}

impl<F> SpillRecordStorage<F> {
    /// What holds of the store at any time.
    #[verifier::type_invariant]
    spec fn consistent(self) -> bool {
        is_consistent(self@)
    }

    /// What the segments are kept in.
    pub closed spec fn storage(&self) -> F {
        self.filesystem
    }

    /// An empty store, with the threshold that the text of its setting gives.
    pub fn new(filesystem: F, base_path: String, flush_threshold: Option<&str>) -> (r: Self)
        ensures
            r.storage() == filesystem,
            r@ == (SpillModel {
                memtable: Map::empty(),
                tombstones: Set::empty(),
                segments: Seq::empty(),
                flush_threshold: cap_of(opt_view(flush_threshold)),
                base_path: base_path@,
                next_segment: 0,
            }),
    {
        Self::with_flush_threshold(filesystem, base_path, configured_flush_threshold(flush_threshold))
    }

    /// An empty store with a threshold.
    pub fn with_flush_threshold(
        filesystem: F,
        base_path: String,
        flush_threshold: Option<usize>,
    ) -> (r: Self)
        ensures
            r.storage() == filesystem,
            r@ == (SpillModel {
                memtable: Map::empty(),
                tombstones: Set::empty(),
                segments: Seq::empty(),
                flush_threshold,
                base_path: base_path@,
                next_segment: 0,
            }),
    {
        let memtable: DashMap<String, Record, RandomState> = new_map();
        assert(map_rows(memtable) =~= Map::empty());
        let segments: Vec<String> = Vec::new();
        assert(texts(segments@) =~= Seq::empty());
        SpillRecordStorage {
            memtable,
            tombstones: new_set(),
            segments,
            flush_threshold,
            filesystem,
            base_path,
            next_segment: 0,
        }
    }

    /// What the segments are kept in.
    pub fn filesystem(&self) -> (r: &F)
        ensures
            *r == self.storage(),
    {
        &self.filesystem
    }

    /// The number of records in memory.
    pub fn resident_len(&self) -> (r: usize)
        ensures
            r == self@.memtable.dom().len(),
    {
        map_len(&self.memtable)
    }

    /// The number of segments.
    pub fn segment_count(&self) -> (r: usize)
        ensures
            r == self@.segments.len(),
    {
        self.segments.len()
    }

    /// The path of a segment; 0 is the oldest.
    pub fn segment_path_at(&self, i: usize) -> (r: &String)
        requires
            i < self@.segments.len(),
        ensures
            r@ == self@.segments[i as int],
    {
        assert(self@.segments[i as int] == self.segments@[i as int]@);
        &self.segments[i]
    }

    /// The threshold.
    pub fn flush_threshold(&self) -> (r: Option<usize>)
        ensures
            r == self@.flush_threshold,
    {
        self.flush_threshold
    }

    /// Sets a record, hands it back, and tells whether the records in memory are
    /// to be flushed now.
    pub fn upsert_record(&mut self, record: Record) -> (r: (Record, bool))
        ensures
            final(self)@ == after_upsert(old(self)@, record@),
            r.0@ == record@,
            r.1 == match old(self)@.flush_threshold {
                Some(n) => final(self)@.memtable.dom().len() >= n,
                None => false,
            },
    {
        proof {
            use_type_invariant(&*self);
        }
        let ghost before = self@;
        let ghost row = record@;
        let oid: String = copied(&record.oid);
        let mut memtable: DashMap<String, Record, RandomState> = new_map();
        let mut tombstones: DashSet<String, RandomState> = new_set();
        std::mem::swap(&mut memtable, &mut self.memtable);
        std::mem::swap(&mut tombstones, &mut self.tombstones);
        set_remove(&mut tombstones, &oid);
        let out: Record = copied_record(&record);
        map_insert(&mut memtable, oid, record);
        assert(is_consistent(after_upsert(before, row)));
        self.tombstones = tombstones;
        self.memtable = memtable;
        let full: bool = match self.flush_threshold {
            Some(n) => map_len(&self.memtable) >= n,
            None => false,
        };
        (out, full)
    }

    /// What the store tells of a record without its segments.
    pub fn lookup(&self, oid: &String) -> (r: Lookup)
        ensures
            match r {
                Lookup::Found(x) => !self@.tombstones.contains(oid@)
                    && self@.memtable.dom().contains(oid@) && x@ == self@.memtable[oid@],
                Lookup::Absent => self@.tombstones.contains(oid@),
                Lookup::Search => !self@.tombstones.contains(oid@)
                    && !self@.memtable.dom().contains(oid@),
            },
    {
        if set_contains(&self.tombstones, oid) {
            return Lookup::Absent;
        }
        match map_get(&self.memtable, oid) {
            Some(r) => Lookup::Found(r),
            None => Lookup::Search,
        }
    }

    /// The record with an id, given the records of the segments, the oldest first.
    pub fn get_record(&self, oid: &String, segments: &Vec<Vec<Record>>) -> (r: Option<Record>)
        ensures
            opt_of(r) == visible(self@, segment_views(segments@), oid@),
    {
        match self.lookup(oid) {
            Lookup::Found(r) => Some(r),
            Lookup::Absent => None,
            Lookup::Search => find_newest(segments, oid.as_str()),
        }
    }

    /// Removes a record. The segments need only be read where the store cannot
    /// tell whether there was one.
    pub fn delete_record(&mut self, oid: &String) -> (r: Removal)
        ensures
            final(self)@ == after_delete(old(self)@, oid@),
            r == if old(self)@.tombstones.contains(oid@) {
                Removal::Nothing
            } else if old(self)@.memtable.dom().contains(oid@) {
                Removal::Removed
            } else if old(self)@.segments.len() == 0 {
                Removal::Nothing
            } else {
                Removal::Search
            },
    {
        proof {
            use_type_invariant(&*self);
        }
        let ghost before = self@;
        let suppressed: bool = set_contains(&self.tombstones, oid);
        let has_segments: bool = self.segments.len() > 0;
        let mut memtable: DashMap<String, Record, RandomState> = new_map();
        let mut tombstones: DashSet<String, RandomState> = new_set();
        std::mem::swap(&mut memtable, &mut self.memtable);
        std::mem::swap(&mut tombstones, &mut self.tombstones);
        let was_resident: bool = map_remove(&mut memtable, oid);
        if has_segments {
            set_insert(&mut tombstones, copied(oid));
        }
        assert(is_consistent(after_delete(before, oid@)));
        self.memtable = memtable;
        self.tombstones = tombstones;
        if suppressed {
            Removal::Nothing
        } else if was_resident {
            Removal::Removed
        } else if has_segments {
            Removal::Search
        } else {
            Removal::Nothing
        }
    }

    /// The records in memory, which a flush writes to a segment.
    pub fn resident_rows(&self) -> (r: Vec<Record>)
        ensures
            is_roll(views(r@), self@.memtable),
    {
        proof {
            use_type_invariant(self);
        }
        list_rows(&self.memtable)
    }

    /// A path for a new segment. Its number is used again only once all numbers
    /// have been.
    pub fn next_segment_path(&mut self) -> (r: String)
        ensures
            r@ == segment_path(old(self)@.base_path, old(self)@.next_segment),
            final(self)@ == (SpillModel {
                next_segment: if old(self)@.next_segment == u64::MAX {
                    0
                } else {
                    (old(self)@.next_segment + 1) as u64
                },
                ..old(self)@
            }),
    {
        proof {
            use_type_invariant(&*self);
        }
        let n: u64 = self.next_segment;
        self.next_segment = n.wrapping_add(1);
        segment_path_text(self.base_path.as_str(), n)
    }

    /// Takes the records out of memory that a segment now holds.
    pub fn commit_flush(&mut self, path: String, rows: &Vec<Record>)
        ensures
            final(self)@ == after_flush(old(self)@, path@, views(rows@)),
    {
        proof {
            use_type_invariant(&*self);
        }
        let ghost before = self@;
        let ghost name = path@;
        let mut memtable: DashMap<String, Record, RandomState> = new_map();
        std::mem::swap(&mut memtable, &mut self.memtable);
        let mut i: usize = 0;
        while i < rows.len()
            invariant
                i <= rows@.len(),
                map_rows(memtable) == without_rows(before.memtable, views(rows@), i as int),
            decreases rows@.len() - i,
        {
            assert(views(rows@)[i as int] == rows@[i as int]@);
            map_remove(&mut memtable, &rows[i].oid);
            i += 1;
        }
        proof {
            lemma_without_rows(before.memtable, views(rows@), rows@.len() as int);
        }
        let mut segments: Vec<String> = Vec::new();
        std::mem::swap(&mut segments, &mut self.segments);
        let ghost old_segments = segments@;
        segments.push(path);
        assert(texts(segments@) =~= texts(old_segments).push(name));
        self.segments = segments;
        self.memtable = memtable;
    }

    /// Every live record once, given the records of the segments, the oldest
    /// first.
    pub fn merged_records(&self, segments: &Vec<Vec<Record>>) -> (r: Vec<Record>)
        ensures
            is_roll(views(r@), merged(self@, segment_views(segments@))),
    {
        proof {
            use_type_invariant(self);
        }
        let ghost layers = segment_views(segments@);
        let mut m: TextMap<Record> = TextMap::new();
        let mut i: usize = 0;
        assert(map_models(m) =~= layered(layers, 0));
        while i < segments.len()
            invariant
                i <= segments@.len(),
                layers == segment_views(segments@),
                map_models(m) == layered(layers, i as int),
            decreases segments@.len() - i,
        {
            assert(layers[i as int] == views(segments@[i as int]@));
            put_rows(&mut m, &segments[i]);
            i += 1;
        }
        let resident: Vec<Record> = list_rows(&self.memtable);
        proof {
            lemma_absorb_roll(map_models(m), views(resident@), self@.memtable);
        }
        put_rows(&mut m, &resident);
        let ghost all = map_models(m);
        let removed: Vec<String> = set_list(&self.tombstones);
        let ghost names = texts(removed@);
        let mut k: usize = 0;
        assert(names.take(0).to_set() =~= Set::empty());
        assert(all.remove_keys(Set::empty()) =~= all);
        while k < removed.len()
            invariant
                k <= removed@.len(),
                names == texts(removed@),
                map_models(m) == all.remove_keys(names.take(k as int).to_set()),
            decreases removed@.len() - k,
        {
            let ghost before = map_models(m);
            assert(names[k as int] == removed@[k as int]@);
            m.remove(removed[k].as_str());
            proof {
                assert(map_models(m) =~= before.remove(names[k as int]));
                let longer = names.take(k + 1);
                assert(longer =~= names.take(k as int).push(names[k as int]));
                assert forall|t: Seq<char>| longer.to_set().contains(t) == (names.take(
                    k as int,
                ).to_set().contains(t) || t == names[k as int]) by {
                    if names.take(k as int).contains(t) {
                        let j = choose|j: int| 0 <= j < k && names.take(k as int)[j] == t;
                        assert(longer[j] == t);
                    }
                    if t == names[k as int] {
                        assert(longer[k as int] == t);
                    }
                }
                assert(map_models(m) =~= all.remove_keys(longer.to_set()));
            }
            k += 1;
        }
        assert(names.take(k as int) =~= names);
        assert(map_models(m) == merged(self@, layers));
        proof {
            lemma_merged_own_ids(self@, layers);
        }
        let n: usize = m.len();
        let ghost keys = m.keys();
        let mut r: Vec<Record> = Vec::new();
        let mut j: usize = 0;
        while j < n
            invariant
                j <= n,
                n == keys.len(),
                keys == m.keys(),
                is_listing(keys, m@),
                r@.len() == j,
                forall|t: int| 0 <= t < j ==> #[trigger] views(r@)[t] == map_models(m)[keys[t]],
            decreases n - j,
        {
            let row: Record = copied_record(m.value_at(j));
            proof {
                lemma_views_push(r@, row);
            }
            r.push(row);
            j += 1;
        }
        proof {
            let s = views(r@);
            let rows = merged(self@, layers);
            assert forall|t: int| 0 <= t < s.len() implies rows.dom().contains((#[trigger] s[t]).oid)
                && rows[s[t].oid] == s[t] && s[t].oid == keys[t] by {
                assert(keys.to_set().contains(keys[t]));
                assert(rows.dom().contains(keys[t]));
            }
            assert forall|t: int, u: int| 0 <= t < u < s.len() implies (#[trigger] s[t]).oid != (
            #[trigger] s[u]).oid by {
                assert(text_before(keys[t], keys[u]));
                lemma_text_before_irreflexive(keys[t]);
            }
            assert forall|q: Seq<char>| #[trigger] rows.dom().contains(q) implies exists|t: int|
                0 <= t < s.len() && (#[trigger] s[t]).oid == q by {
                assert(keys.to_set().contains(q));
                let t = choose|t: int| 0 <= t < keys.len() && keys[t] == q;
                assert(s[t].oid == q);
            }
        }
        r
    }

    /// Some of the live records, at most `limit`; which ones is left open.
    pub fn scan_records(&self, limit: usize, segments: &Vec<Vec<Record>>) -> (r: Vec<Record>)
        ensures
            is_scan(
                views(r@),
                merged(self@, segment_views(segments@)),
                (ScanModel {
                    limit: Some(limit),
                    tenant_id: None,
                    string_properties: Seq::empty(),
                }),
            ),
    {
        self.scan_records_with_options(&RecordScanOptions::limit(limit), segments)
    }

    /// The live records that a scan asks for, in no particular order.
    pub fn scan_records_with_options(
        &self,
        options: &RecordScanOptions,
        segments: &Vec<Vec<Record>>,
    ) -> (r: Vec<Record>)
        ensures
            is_scan(views(r@), merged(self@, segment_views(segments@)), options@),
    {
        let list: Vec<Record> = self.merged_records(segments);
        proof {
            lemma_picked_is_scan(
                views(list@),
                options@,
                merged(self@, segment_views(segments@)),
            );
        }
        pick_rows(&list, options)
    }

    /// The live records that a scan asks for and that the predicate accepts, in
    /// no particular order.
    pub fn scan_records_filtered<P: Fn(&Record) -> bool>(
        &self,
        options: &RecordScanOptions,
        predicate: Option<P>,
        segments: &Vec<Vec<Record>>,
    ) -> (r: Vec<Record>)
        requires
            predicate matches Some(p) ==> forall|x: &Record| call_requires(p, (x,)),
        ensures
            exists|list: Seq<Record>, kept: Seq<bool>|
                is_roll(views(list), merged(self@, segment_views(segments@)))
                    && #[trigger] is_filtered_scan(views(r@), list, options@, predicate, kept),
    {
        let list: Vec<Record> = self.merged_records(segments);
        filter_rows(&list, options, predicate)
    }
}

/// Whether a removal removed a live record, given the records of the segments,
/// the oldest first.
pub fn removal_result(removal: Removal, oid: &str, segments: &Vec<Vec<Record>>) -> (r: bool)
    ensures
        r == match removal {
            Removal::Removed => true,
            Removal::Nothing => false,
            Removal::Search => newest_row(
                segment_views(segments@),
                oid@,
                segments@.len() as int,
            ) is Some,
        },
{
    match removal {
        Removal::Removed => true,
        Removal::Nothing => false,
        Removal::Search => find_newest(segments, oid).is_some(),
    }
}

proof fn lemma_absorbed_own_ids(m: Map<Seq<char>, RecordModel>, s: Seq<RecordModel>, n: int)
    requires
        0 <= n <= s.len(),
        under_own_ids(m),
    ensures
        under_own_ids(absorbed(m, s, n)),
    decreases n,
{
    if n > 0 {
        lemma_absorbed_own_ids(m, s, n - 1);
    }
}

proof fn lemma_layered_own_ids(segments: Seq<Seq<RecordModel>>, n: int)
    requires
        0 <= n <= segments.len(),
    ensures
        under_own_ids(layered(segments, n)),
    decreases n,
{
    if n > 0 {
        lemma_layered_own_ids(segments, n - 1);
        lemma_absorbed_own_ids(
            layered(segments, n - 1),
            segments[n - 1],
            segments[n - 1].len() as int,
        );
    }
}

proof fn lemma_merged_own_ids(store: SpillModel, segments: Seq<Seq<RecordModel>>)
    requires
        is_consistent(store),
    ensures
        under_own_ids(merged(store, segments)),
{
    lemma_layered_own_ids(segments, segments.len() as int);
}

proof fn lemma_layered(segments: Seq<Seq<RecordModel>>, n: int, oid: Seq<char>)
    requires
        0 <= n <= segments.len(),
        segments_distinct(segments),
    ensures
        match newest_row(segments, oid, n) {
            Some(r) => layered(segments, n).dom().contains(oid) && layered(segments, n)[oid] == r,
            None => !layered(segments, n).dom().contains(oid),
        },
    decreases n,
{
    if n > 0 {
        lemma_layered(segments, n - 1, oid);
        let s = segments[n - 1];
        let m = layered(segments, n - 1);
        assert forall|i: int, j: int| 0 <= i < j < s.len() implies (#[trigger] s[i]).oid != (
        #[trigger] s[j]).oid by {
            assert(segments[n - 1][i].oid != segments[n - 1][j].oid);
        }
        lemma_absorb_distinct(m, s, s.len() as int);
        assert(s.take(s.len() as int) =~= s);
        assert(layered(segments, n) == absorbed(m, s, s.len() as int));
        assert(absorbed(m, s, s.len() as int).dom().contains(oid) == layered(
            segments,
            n,
        ).dom().contains(oid));
    }
}

/// Looking up a record and scanning for it agree: reads are one merge over
/// memory and segments.
pub proof fn law_lookups_agree_with_scans(
    store: SpillModel,
    segments: Seq<Seq<RecordModel>>,
    oid: Seq<char>,
)
    requires
        segments_distinct(segments),
    ensures
        match visible(store, segments, oid) {
            Some(r) => merged(store, segments).dom().contains(oid) && merged(store, segments)[oid]
                == r,
            None => !merged(store, segments).dom().contains(oid),
        },
{
    lemma_layered(segments, segments.len() as int, oid);
}

/// A record that was set is seen, whatever the segments hold and whether or not
/// it was removed before; the others are seen as they were.
pub proof fn law_set_records_are_seen(
    store: SpillModel,
    segments: Seq<Seq<RecordModel>>,
    r: RecordModel,
    other: Seq<char>,
)
    requires
        other != r.oid,
    ensures
        visible(after_upsert(store, r), segments, r.oid) == Some(r),
        visible(after_upsert(store, r), segments, other) == visible(store, segments, other),
{
}

/// A record that was removed never comes back from a segment; the others are
/// seen as they were.
pub proof fn law_removed_records_stay_away(
    store: SpillModel,
    segments: Seq<Seq<RecordModel>>,
    oid: Seq<char>,
    other: Seq<char>,
)
    requires
        segments.len() == store.segments.len(),
        other != oid,
    ensures
        visible(after_delete(store, oid), segments, oid) is None,
        visible(after_delete(store, oid), segments, other) == visible(store, segments, other),
{
}

/// A removal tells the truth: it removed a live record exactly where one was
/// seen.
pub proof fn law_removals_tell_the_truth(
    store: SpillModel,
    segments: Seq<Seq<RecordModel>>,
    oid: Seq<char>,
)
    requires
        segments.len() == store.segments.len(),
    ensures
        visible(store, segments, oid) is Some <==> !store.tombstones.contains(oid) && (
        store.memtable.dom().contains(oid) || (store.segments.len() > 0 && newest_row(
            segments,
            oid,
            segments.len() as int,
        ) is Some)),
{
}

proof fn lemma_newest_prefix(
    segments: Seq<Seq<RecordModel>>,
    last: Seq<RecordModel>,
    oid: Seq<char>,
    n: int,
)
    requires
        0 <= n <= segments.len(),
    ensures
        newest_row(segments.push(last), oid, n) == newest_row(segments, oid, n),
    decreases n,
{
    if n > 0 {
        assert(segments.push(last)[n - 1] == segments[n - 1]);
        lemma_newest_prefix(segments, last, oid, n - 1);
    }
}

/// Flushing moves records and changes nothing that a reader sees, and leaves no
/// record in memory.
pub proof fn law_flushing_loses_nothing(
    store: SpillModel,
    segments: Seq<Seq<RecordModel>>,
    path: Seq<char>,
    rows: Seq<RecordModel>,
    oid: Seq<char>,
)
    requires
        is_consistent(store),
        is_roll(rows, store.memtable),
    ensures
        visible(after_flush(store, path, rows), segments.push(rows), oid) == visible(
            store,
            segments,
            oid,
        ),
        after_flush(store, path, rows).memtable == Map::<Seq<char>, RecordModel>::empty(),
{
    let after = after_flush(store, path, rows);
    lemma_without_rows(store.memtable, rows, rows.len() as int);
    assert forall|k: Seq<char>| !after.memtable.dom().contains(k) by {
        if after.memtable.dom().contains(k) {
            assert(store.memtable.dom().contains(k));
            let i = choose|i: int| 0 <= i < rows.len() && (#[trigger] rows[i]).oid == k;
            assert(rows[i].oid != k);
        }
    }
    assert(after.memtable =~= Map::<Seq<char>, RecordModel>::empty());
    let n = segments.len() as int;
    lemma_newest_prefix(segments, rows, oid, n);
    assert(segments.push(rows)[n] == rows);
    lemma_row_in(rows, oid, 0);
    if store.memtable.dom().contains(oid) {
        let i = choose|i: int| 0 <= i < rows.len() && (#[trigger] rows[i]).oid == oid;
        assert(rows[i].oid == oid);
        match row_in(rows, oid, 0) {
            Some(r) => {
                let k = choose|k: int|
                    0 <= k < rows.len() && rows[k] == r && (#[trigger] rows[k]).oid == oid;
                assert(store.memtable[rows[k].oid] == rows[k]);
            },
            None => {},
        }
    } else {
        match row_in(rows, oid, 0) {
            Some(r) => {
                let k = choose|k: int|
                    0 <= k < rows.len() && rows[k] == r && (#[trigger] rows[k]).oid == oid;
                assert(store.memtable.dom().contains(rows[k].oid));
            },
            None => {},
        }
    }
}

/// A segment that a flush writes holds no id twice.
pub proof fn law_flushed_segments_are_distinct(
    segments: Seq<Seq<RecordModel>>,
    rows: Seq<RecordModel>,
    memtable: Map<Seq<char>, RecordModel>,
)
    requires
        segments_distinct(segments),
        is_roll(rows, memtable),
    ensures
        segments_distinct(segments.push(rows)),
{
    let all = segments.push(rows);
    assert forall|s: int, i: int, j: int|
        0 <= s < all.len() && 0 <= i < j < all[s].len() implies (#[trigger] all[s][i]).oid != (
    #[trigger] all[s][j]).oid by {
        if s < segments.len() {
            assert(segments[s][i].oid != segments[s][j].oid);
        } else {
            assert(rows[i].oid != rows[j].oid);
        }
    }
}

proof fn lemma_zeros_value(k: nat, s: Seq<char>)
    requires
        all_digits(s),
    ensures
        digits_value(zeros(k) + s) == digits_value(s),
    decreases s.len(), k,
{
    let t = zeros(k) + s;
    if s.len() > 0 {
        assert(t.drop_last() =~= zeros(k) + s.drop_last());
        assert(t.last() == s.last());
        lemma_zeros_value(k, s.drop_last());
    } else if k > 0 {
        assert(t.drop_last() =~= zeros((k - 1) as nat) + s);
        assert(t.last() == '0');
        lemma_zeros_value((k - 1) as nat, s);
    } else {
        assert(t =~= s);
    }
}

/// Segments of one store with different numbers have different paths.
pub proof fn law_segment_paths_are_apart(base: Seq<char>, a: u64, b: u64)
    requires
        segment_path(base, a) == segment_path(base, b),
    ensures
        a == b,
{
    let head = trim_end_char(base, '/') + "/spill-"@;
    let (x, y) = (ten_digits(a as nat), ten_digits(b as nat));
    let (p, q) = (segment_path(base, a), segment_path(base, b));
    assert(p.len() == head.len() + x.len() + ".parquet"@.len());
    assert(q.len() == head.len() + y.len() + ".parquet"@.len());
    assert(x =~= p.subrange(head.len() as int, (head.len() + x.len()) as int));
    assert(y =~= q.subrange(head.len() as int, (head.len() + y.len()) as int));
    lemma_decimal(a as nat);
    lemma_decimal(b as nat);
    if decimal(a as nat).len() < 10 {
        lemma_zeros_value((10 - decimal(a as nat).len()) as nat, decimal(a as nat));
    }
    if decimal(b as nat).len() < 10 {
        lemma_zeros_value((10 - decimal(b as nat).len()) as nat, decimal(b as nat));
    }
}

} // verus!
