//! The current records of a table, in memory and within a cap.

use dashmap::DashMap;
use std::collections::hash_map::RandomState;
use vstd::prelude::*;
use vstd::string::*;
use crate::mlflow::page::opt_view;
use crate::records::dash::{
    entry_views, map_contains, map_entries, map_get, map_insert, map_len, map_remove, map_rows,
    new_map,
};
use crate::records::row::{
    Record, RecordModel, RecordScanOptions, ScanModel, cap_of, configured_max_records,
    copied_record, is_roll, is_scan, under_own_ids,
};
use crate::records::scan::{filter_rows, is_filtered_scan, lemma_picked_is_scan, pick_rows};
use crate::text::chars::{copied, lemma_views_push, views};
use crate::text::number::{decimal, decimal_text};

verus! {

/// Records by their ids.
pub struct MemtableRecordStorage {
    records: DashMap<String, Record, RandomState>,
    /// The greatest number of records; `None` for no bound.
    max_records: Option<usize>,
}

/// An entry of the log that a memtable is rebuilt from.
#[derive(Debug)]
pub enum WalOperation {
    RecordUpsert(Record),
    RecordDelete(String),
    /// An entry without a record.
    Other,
}

pub enum WalModel {
    Upsert(RecordModel),
    Delete(Seq<char>),
    Other,
}

impl View for WalOperation {
    type V = WalModel;

    open spec fn view(&self) -> WalModel {
        match self {
            WalOperation::RecordUpsert(r) => WalModel::Upsert(r@),
            WalOperation::RecordDelete(oid) => WalModel::Delete(oid@),
            WalOperation::Other => WalModel::Other,
        }
    }
}

/// How many entries a replay applied.
#[derive(Debug)]
pub struct RecordRecoverySummary {
    pub upserts_replayed: u64,
    pub deletes_replayed: u64,
}

/// The text of the error for a full memtable.
pub open spec fn full_message(max: usize) -> Seq<char> {
    "relational memtable is full: "@ + decimal(max as nat)
        + " live records (PROXIMADB_RELATIONAL_MEMTABLE_MAX_RECORDS). This store has no spill path yet (TD-USUB-1); raise the cap, or reduce resident rows."@
}

/// The memtable has room for a record: it is below its cap, or the record
/// replaces one.
pub open spec fn has_room(
    rows: Map<Seq<char>, RecordModel>,
    max: Option<usize>,
    oid: Seq<char>,
) -> bool {
    match max {
        Some(n) => rows.dom().len() < n || rows.dom().contains(oid),
        None => true,
    }
}

/// The records after some entries, from the first that has no room on left as
/// they were.
pub open spec fn replayed(
    rows: Map<Seq<char>, RecordModel>,
    max: Option<usize>,
    entries: Seq<WalModel>,
) -> Result<Map<Seq<char>, RecordModel>, Map<Seq<char>, RecordModel>>
    decreases entries.len(),
{
    if entries.len() == 0 {
        Ok(rows)
    } else {
        match replayed(rows, max, entries.drop_last()) {
            Err(m) => Err(m),
            Ok(m) => match entries.last() {
                WalModel::Upsert(r) => if has_room(m, max, r.oid) {
                    Ok(m.insert(r.oid, r))
                } else {
                    Err(m)
                },
                WalModel::Delete(oid) => Ok(m.remove(oid)),
                WalModel::Other => Ok(m),
            },
        }
    }
}

/// The number of entries that set a record.
pub open spec fn upserts_in(entries: Seq<WalModel>) -> nat
    decreases entries.len(),
{
    if entries.len() == 0 {
        0
    } else {
        upserts_in(entries.drop_last()) + if entries.last() is Upsert {
            1nat
        } else {
            0nat
        }
    }
}

/// The number of entries that remove a record.
pub open spec fn deletes_in(entries: Seq<WalModel>) -> nat
    decreases entries.len(),
{
    if entries.len() == 0 {
        0
    } else {
        deletes_in(entries.drop_last()) + if entries.last() is Delete {
            1nat
        } else {
            0nat
        }
    }
}

proof fn lemma_counts(entries: Seq<WalModel>)
    ensures
        upserts_in(entries) <= entries.len(),
        deletes_in(entries) <= entries.len(),
    decreases entries.len(),
{
    if entries.len() > 0 {
        lemma_counts(entries.drop_last());
    }
}

proof fn lemma_replay_error(
    rows: Map<Seq<char>, RecordModel>,
    max: Option<usize>,
    entries: Seq<WalModel>,
    k: int,
)
    requires
        0 <= k <= entries.len(),
        replayed(rows, max, entries.take(k)) is Err,
    ensures
        replayed(rows, max, entries) == replayed(rows, max, entries.take(k)),
    decreases entries.len() - k,
{
    if k < entries.len() {
        assert(entries.take(k + 1).drop_last() =~= entries.take(k));
        lemma_replay_error(rows, max, entries, k + 1);
    } else {
        assert(entries.take(k) =~= entries);
    }
}

/// The records of a map, each once.
pub(crate) fn list_rows(map: &DashMap<String, Record, RandomState>) -> (r: Vec<Record>)
    requires
        under_own_ids(map_rows(*map)),
    ensures
        is_roll(views(r@), map_rows(*map)),
{
    let entries: Vec<(String, Record)> = map_entries(map);
    let ghost rows = map_rows(*map);
    let ghost pairs = entry_views(entries@);
    let mut r: Vec<Record> = Vec::new();
    let mut i: usize = 0;
    while i < entries.len()
        invariant
            i <= entries@.len(),
            r@.len() == i,
            pairs == entry_views(entries@),
            forall|j: int| 0 <= j < i ==> #[trigger] views(r@)[j] == pairs[j].1,
        decreases entries@.len() - i,
    {
        let copy: Record = copied_record(&entries[i].1);
        proof {
            lemma_views_push(r@, copy);
            assert(pairs[i as int].1 == entries@[i as int].1@);
        }
        r.push(copy);
        i += 1;
    }
    proof {
        let s = views(r@);
        assert forall|j: int| 0 <= j < s.len() implies rows.dom().contains((#[trigger] s[j]).oid)
            && rows[s[j].oid] == s[j] && s[j].oid == pairs[j].0 by {
            assert(rows.dom().contains(pairs[j].0));
        }
        assert forall|j: int, l: int| 0 <= j < l < s.len() implies (#[trigger] s[j]).oid != (
        #[trigger] s[l]).oid by {
            assert(pairs[j].0 != pairs[l].0);
        }
        assert forall|k: Seq<char>| #[trigger] rows.dom().contains(k) implies exists|j: int|
            0 <= j < s.len() && (#[trigger] s[j]).oid == k by {
            let j = choose|j: int| 0 <= j < pairs.len() && (#[trigger] pairs[j]).0 == k;
            assert(s[j].oid == k);
        }
    }
    r
}

impl View for MemtableRecordStorage {
    type V = Map<Seq<char>, RecordModel>;

    closed spec fn view(&self) -> Map<Seq<char>, RecordModel> {
        map_rows(self.records)
    }
}

impl MemtableRecordStorage {
    /// The cap.
    pub closed spec fn cap(&self) -> Option<usize> {
        self.max_records
    }

    /// Every record stands under its own id.
    #[verifier::type_invariant]
    spec fn keyed(self) -> bool {
        map_rows(self.records).dom().finite() && under_own_ids(map_rows(self.records))
    }

    /// An empty memtable, with the cap that the text of its setting gives.
    pub fn new(max_records: Option<&str>) -> (r: Self)
        ensures
            r@ == Map::<Seq<char>, RecordModel>::empty(),
            r.cap() == cap_of(opt_view(max_records)),
    {
        Self::with_max_records(configured_max_records(max_records))
    }

    /// An empty memtable with a cap.
    pub fn with_max_records(max_records: Option<usize>) -> (r: Self)
        ensures
            r@ == Map::<Seq<char>, RecordModel>::empty(),
            r.cap() == max_records,
    {
        let r: Self = MemtableRecordStorage { records: new_map(), max_records };
        assert(r@ =~= Map::<Seq<char>, RecordModel>::empty());
        r
    }

    /// The cap.
    pub fn max_records(&self) -> (r: Option<usize>)
        ensures
            r == self.cap(),
    {
        self.max_records
    }

    /// The number of records.
    pub fn len(&self) -> (r: usize)
        ensures
            self@.dom().finite(),
            r == self@.dom().len(),
    {
        proof {
            use_type_invariant(self);
        }
        map_len(&self.records)
    }

    /// Whether there is no record.
    pub fn is_empty(&self) -> (r: bool)
        ensures
            r == (self@ == Map::<Seq<char>, RecordModel>::empty()),
    {
        let n: usize = self.len();
        proof {
            if n == 0 {
                assert(self@.dom() =~= Set::empty());
                assert(self@ =~= Map::empty());
            }
        }
        n == 0
    }

    /// Sets a record, and hands it back. One that would exceed the cap is
    /// refused; one that replaces another never is.
    pub fn upsert_record(&mut self, record: Record) -> (r: Result<Record, String>)
        ensures
            final(self).cap() == old(self).cap(),
            match r {
                Ok(out) => has_room(old(self)@, old(self).cap(), record.oid@) && final(self)@
                    == old(self)@.insert(record.oid@, record@) && out@ == record@,
                Err(e) => !has_room(old(self)@, old(self).cap(), record.oid@) && final(self)@
                    == old(self)@ && e@ == full_message(old(self).cap()->0),
            },
    {
        proof {
            use_type_invariant(&*self);
        }
        if let Some(max) = self.max_records {
            if map_len(&self.records) >= max && !map_contains(&self.records, &record.oid) {
                let max: String = decimal_text(max as u128);
                let mut message: String = "relational memtable is full: ".to_owned();
                message.append(max.as_str());
                message.append(
                    " live records (PROXIMADB_RELATIONAL_MEMTABLE_MAX_RECORDS). This store has no spill path yet (TD-USUB-1); raise the cap, or reduce resident rows.",
                );
                return Err(message);
            }
        }
        let oid: String = copied(&record.oid);
        let mut records: DashMap<String, Record, RandomState> = new_map();
        std::mem::swap(&mut records, &mut self.records);
        let out: Record = copied_record(&record);
        map_insert(&mut records, oid, record);
        self.records = records;
        Ok(out)
    }

    /// The record with an id.
    pub fn get_record(&self, oid: &String) -> (r: Option<Record>)
        ensures
            match r {
                Some(x) => self@.dom().contains(oid@) && x@ == self@[oid@],
                None => !self@.dom().contains(oid@),
            },
    {
        map_get(&self.records, oid)
    }

    /// Removes a record, and tells whether there was one.
    pub fn delete_record(&mut self, oid: &String) -> (r: bool)
        ensures
            final(self).cap() == old(self).cap(),
            final(self)@ == old(self)@.remove(oid@),
            r == old(self)@.dom().contains(oid@),
    {
        proof {
            use_type_invariant(&*self);
        }
        let mut records: DashMap<String, Record, RandomState> = new_map();
        std::mem::swap(&mut records, &mut self.records);
        let removed: bool = map_remove(&mut records, oid);
        self.records = records;
        removed
    }

    /// Some of the records, at most `limit`; which ones is left open.
    pub fn scan_records(&self, limit: usize) -> (r: Vec<Record>)
        ensures
            is_scan(
                views(r@),
                self@,
                (ScanModel {
                    limit: Some(limit),
                    tenant_id: None,
                    string_properties: Seq::empty(),
                }),
            ),
    {
        self.scan_records_with_options(&RecordScanOptions::limit(limit))
    }

    /// The records that a scan asks for, in no particular order.
    pub fn scan_records_with_options(&self, options: &RecordScanOptions) -> (r: Vec<Record>)
        ensures
            is_scan(views(r@), self@, options@),
    {
        proof {
            use_type_invariant(self);
        }
        let list: Vec<Record> = list_rows(&self.records);
        proof {
            lemma_picked_is_scan(views(list@), options@, self@);
        }
        pick_rows(&list, options)
    }

    /// The records that a scan asks for and that the predicate accepts, in no
    /// particular order. The predicate is asked no more once the limit is
    /// reached.
    pub fn scan_records_filtered<F: Fn(&Record) -> bool>(
        &self,
        options: &RecordScanOptions,
        predicate: Option<F>,
    ) -> (r: Vec<Record>)
        requires
            predicate matches Some(p) ==> forall|x: &Record| call_requires(p, (x,)),
        ensures
            exists|list: Seq<Record>, kept: Seq<bool>|
                is_roll(views(list), self@) && #[trigger] is_filtered_scan(
                    views(r@),
                    list,
                    options@,
                    predicate,
                    kept,
                ),
    {
        proof {
            use_type_invariant(self);
        }
        let list: Vec<Record> = list_rows(&self.records);
        filter_rows(&list, options, predicate)
    }

    /// Rebuilds the records from the entries of a log.
    pub fn replay_wal_entries(&mut self, entries: Vec<WalOperation>) -> (r: Result<
        RecordRecoverySummary,
        String,
    >)
        ensures
            final(self).cap() == old(self).cap(),
            match r {
                Ok(summary) => replayed(old(self)@, old(self).cap(), views(entries@)) == Ok::<
                    Map<Seq<char>, RecordModel>,
                    Map<Seq<char>, RecordModel>,
                >(final(self)@) && summary.upserts_replayed == upserts_in(views(entries@))
                    && summary.deletes_replayed == deletes_in(views(entries@)),
                Err(e) => replayed(old(self)@, old(self).cap(), views(entries@)) == Err::<
                    Map<Seq<char>, RecordModel>,
                    Map<Seq<char>, RecordModel>,
                >(final(self)@) && e@ == full_message(old(self).cap()->0),
            },
    {
        let ghost all = views(entries@);
        let ghost start = self@;
        let mut left: Vec<WalOperation> = entries;
        let mut back: Vec<WalOperation> = Vec::new();
        while left.len() > 0
            invariant
                left@.len() + back@.len() == all.len(),
                views(left@) == all.take(left@.len() as int),
                forall|j: int|
                    0 <= j < back@.len() ==> (#[trigger] back@[j])@ == all[all.len() - 1 - j],
                all == views(entries@),
                self@ == start,
                start == old(self)@,
                self.cap() == old(self).cap(),
            decreases left@.len(),
        {
            let ghost n = left@.len();
            let ghost before = left@;
            if let Some(entry) = left.pop() {
                assert(entry@ == views(before)[n - 1]);
                assert(entry@ == all[n - 1]);
                assert(views(left@) =~= all.take(n - 1));
                back.push(entry);
            }
        }
        // The length fits a machine word, and so do the positions.
        let _n: usize = back.len();
        let mut upserts: u64 = 0;
        let mut deletes: u64 = 0;
        let ghost mut k: int = 0;
        assert(all.take(0) =~= Seq::empty());
        while back.len() > 0
            invariant
                k + back@.len() == all.len(),
                all.len() <= usize::MAX,
                0 <= k,
                forall|j: int|
                    0 <= j < back@.len() ==> (#[trigger] back@[j])@ == all[all.len() - 1 - j],
                all == views(entries@),
                start == old(self)@,
                self.cap() == old(self).cap(),
                replayed(start, self.cap(), all.take(k)) == Ok::<
                    Map<Seq<char>, RecordModel>,
                    Map<Seq<char>, RecordModel>,
                >(self@),
                upserts == upserts_in(all.take(k)),
                deletes == deletes_in(all.take(k)),
            decreases back@.len(),
        {
            if let Some(entry) = back.pop() {
                assert(entry@ == all[k]);
                proof {
                    assert(all.take(k + 1).drop_last() =~= all.take(k));
                    lemma_counts(all.take(k));
                }
                match entry {
                    WalOperation::RecordUpsert(record) => {
                        match self.upsert_record(record) {
                            Ok(_) => {},
                            Err(e) => {
                                proof {
                                    lemma_replay_error(start, self.cap(), all, k + 1);
                                }
                                return Err(e);
                            },
                        }
                        upserts += 1;
                    },
                    WalOperation::RecordDelete(oid) => {
                        self.delete_record(&oid);
                        deletes += 1;
                    },
                    WalOperation::Other => {},
                }
                proof {
                    k = k + 1;
                }
            }
        }
        assert(all.take(k) =~= all);
        Ok(RecordRecoverySummary { upserts_replayed: upserts, deletes_replayed: deletes })
    }
}

} // verus!
