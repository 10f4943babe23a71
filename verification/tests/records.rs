//! Record storage.

use proximadb::records::memtable::{MemtableRecordStorage, WalOperation};
use proximadb::records::row::{
    Record, RecordScanOptions, configured_cap, configured_flush_threshold, configured_max_records,
};
use proximadb::records::spill::{
    Lookup, Removal, SpillRecordStorage, find_newest, find_row, removal_result,
};
use proximadb::text::map::TextMap;
use std::sync::atomic::{AtomicUsize, Ordering};

fn record_of(oid: &str, tenant_id: &str, status: &str) -> Record {
    let mut props = TextMap::new();
    props.insert("status".to_string(), status.to_string());
    Record {
        oid: oid.to_string(),
        tenant_id: tenant_id.to_string(),
        props,
        rest: format!("{{\"created_at\":7,\"of\":\"{oid}\"}}"),
    }
}

fn record(oid: &str, tenant_id: &str) -> Record {
    record_of(oid, tenant_id, "open")
}

fn status_of(record: &Record) -> Option<&str> {
    record.props.get("status").map(|s| s.as_str())
}

fn copy(record: &Record) -> Record {
    record_of(&record.oid, &record.tenant_id, status_of(record).expect("status"))
}

#[test]
fn memtable_record_storage_replays_canonical_wal_entries() {
    let mut storage = MemtableRecordStorage::new(None);
    let summary = storage
        .replay_wal_entries(vec![
            WalOperation::RecordUpsert(record("order-1", "tenant-a")),
            WalOperation::RecordUpsert(record("order-2", "tenant-a")),
            WalOperation::RecordDelete("order-1".to_string()),
        ])
        .expect("replay");

    assert_eq!(summary.upserts_replayed, 2);
    assert_eq!(summary.deletes_replayed, 1);
    assert_eq!(storage.len(), 1);
    assert!(storage.get_record(&"order-1".to_string()).is_none());
    assert!(storage.get_record(&"order-2".to_string()).is_some());

    let scanned = storage.scan_records_with_options(
        &RecordScanOptions::unbounded()
            .with_tenant_id("tenant-a")
            .with_string_property("status", "open"),
    );
    assert_eq!(scanned.len(), 1);
    assert_eq!(scanned[0].oid, "order-2");
}

#[test]
fn scan_records_filtered_early_stops_at_limit() {
    let mut storage = MemtableRecordStorage::new(None);
    for i in 0..100u32 {
        storage
            .upsert_record(record(&format!("o{i:03}"), "tenant-a"))
            .expect("upsert");
    }
    let calls = AtomicUsize::new(0);
    let pred = |_r: &Record| {
        calls.fetch_add(1, Ordering::Relaxed);
        true
    };
    let got = storage.scan_records_filtered(&RecordScanOptions::limit(5), Some(&pred));
    assert_eq!(got.len(), 5, "capped at limit");
    assert_eq!(
        calls.load(Ordering::Relaxed),
        5,
        "predicate evaluated only until the limit"
    );
}

#[test]
fn scan_records_filtered_returns_only_matching_rows() {
    let mut storage = MemtableRecordStorage::new(None);
    storage.upsert_record(record("keep", "tenant-a")).expect("upsert");
    storage
        .upsert_record(record_of("drop", "tenant-a", "closed"))
        .expect("upsert");

    let pred = |r: &Record| status_of(r) == Some("open");
    let got = storage.scan_records_filtered(&RecordScanOptions::unbounded(), Some(&pred));
    assert_eq!(got.len(), 1);
    assert_eq!(got[0].oid, "keep");
}

#[test]
fn default_memtable_is_unbounded() {
    let mut storage = MemtableRecordStorage::with_max_records(None);
    for i in 0..64 {
        storage
            .upsert_record(record(&format!("oid-{i}"), "t"))
            .expect("upsert");
    }
    assert_eq!(storage.len(), 64);
    assert_eq!(storage.max_records(), None);
}

#[test]
fn insert_past_cap_fails_closed() {
    let mut storage = MemtableRecordStorage::with_max_records(Some(2));
    storage.upsert_record(record("a", "t")).expect("upsert");
    storage.upsert_record(record("b", "t")).expect("upsert");

    let msg = storage
        .upsert_record(record("c", "t"))
        .expect_err("a third distinct oid must be rejected at cap 2");
    assert!(
        msg.contains("memtable is full")
            && msg.contains("PROXIMADB_RELATIONAL_MEMTABLE_MAX_RECORDS"),
        "error must name the limit and the knob that raises it, got: {msg}"
    );

    assert_eq!(storage.len(), 2);
    assert!(storage.get_record(&"c".to_string()).is_none());
}

#[test]
fn update_at_cap_is_admitted_and_delete_frees_room() {
    let mut storage = MemtableRecordStorage::with_max_records(Some(2));
    storage.upsert_record(record("a", "t")).expect("upsert");
    storage.upsert_record(record("b", "t")).expect("upsert");

    storage
        .upsert_record(record("a", "t2"))
        .expect("updating a resident oid must be admitted at cap");
    assert_eq!(storage.len(), 2);

    assert!(storage.delete_record(&"b".to_string()));
    storage
        .upsert_record(record("c", "t"))
        .expect("a freed slot must be reusable");
    assert_eq!(storage.len(), 2);
}

#[test]
fn invalid_cap_reads_as_unbounded() {
    for bad in ["0", "-1", "abc", ""] {
        assert_eq!(
            configured_max_records(Some(bad)),
            None,
            "invalid cap {bad:?} must read as unbounded, not as a zero cap"
        );
    }
    assert_eq!(configured_max_records(Some("500")), Some(500));
    assert_eq!(configured_max_records(None), None);
    assert_eq!(MemtableRecordStorage::new(Some("500")).max_records(), Some(500));
    assert_eq!(configured_cap(Some(" 7 ")), Some(7));
}

#[test]
fn memtables_tell_what_they_hold() {
    let mut storage = MemtableRecordStorage::new(None);
    assert!(storage.is_empty());
    assert!(!storage.delete_record(&"a".to_string()));
    storage.upsert_record(record("a", "t")).expect("upsert");
    storage.upsert_record(record_of("a", "t", "closed")).expect("upsert");
    assert!(!storage.is_empty());
    assert_eq!(storage.scan_records(9).len(), 1);
    assert_eq!(storage.scan_records(0).len(), 0);
    let held = storage.get_record(&"a".to_string()).expect("record");
    assert_eq!(status_of(&held), Some("closed"));
}

#[test]
fn replay_stops_at_the_first_record_past_the_cap() {
    let mut storage = MemtableRecordStorage::with_max_records(Some(1));
    let failed = storage.replay_wal_entries(vec![
        WalOperation::RecordUpsert(record("a", "t")),
        WalOperation::Other,
        WalOperation::RecordUpsert(record("b", "t")),
        WalOperation::RecordDelete("a".to_string()),
    ]);
    assert!(failed.is_err());
    assert_eq!(storage.len(), 1);
    assert!(storage.get_record(&"a".to_string()).is_some());
}

/// A spilling store and the segments that it has written.
struct Spill {
    storage: SpillRecordStorage<()>,
    segments: Vec<Vec<Record>>,
}

impl Spill {
    fn new(threshold: Option<usize>) -> Self {
        Spill {
            storage: SpillRecordStorage::with_flush_threshold((), "base".to_string(), threshold),
            segments: vec![],
        }
    }

    fn upsert_record(&mut self, record: Record) {
        let (stored, full) = self.storage.upsert_record(copy(&record));
        assert_eq!((stored.oid, stored.rest), (record.oid, record.rest));
        if full {
            self.flush();
        }
    }

    fn flush(&mut self) {
        let rows = self.storage.resident_rows();
        if rows.is_empty() {
            return;
        }
        let path = self.storage.next_segment_path();
        self.segments.push(rows.iter().map(copy).collect());
        self.storage.commit_flush(path, &rows);
    }

    fn get_record(&self, oid: &str) -> Option<Record> {
        self.storage.get_record(&oid.to_string(), &self.segments)
    }

    fn delete_record(&mut self, oid: &str) -> bool {
        let removal = self.storage.delete_record(&oid.to_string());
        removal_result(removal, oid, &self.segments)
    }

    fn scan_records(&self, limit: usize) -> Vec<Record> {
        self.storage.scan_records(limit, &self.segments)
    }
}

fn spill_record(oid: &str, status: &str) -> Record {
    record_of(oid, "tenant-a", status)
}

#[test]
fn records_are_kept_whole() {
    let rest = "{\"created_at\":7,\"of\":\"a\"}";
    let mut memtable = MemtableRecordStorage::new(None);
    let stored = memtable.upsert_record(record("a", "t")).expect("upsert");
    assert_eq!((stored.oid.as_str(), stored.rest.as_str()), ("a", rest));
    assert_eq!(memtable.get_record(&"a".to_string()).expect("record").rest, rest);
    let mut s = Spill::new(Some(1));
    s.upsert_record(spill_record("a", "open"));
    assert_eq!(s.storage.resident_len(), 0);
    assert_eq!(s.get_record("a").expect("record").rest, rest);
    assert_eq!(s.scan_records(usize::MAX)[0].rest, rest);
}

#[test]
fn default_never_flushes() {
    let mut s = Spill::new(None);
    for i in 0..50 {
        s.upsert_record(spill_record(&format!("o{i}"), "open"));
    }
    assert_eq!(s.storage.segment_count(), 0);
    assert_eq!(s.storage.resident_len(), 50);
    assert_eq!(s.scan_records(usize::MAX).len(), 50);
}

#[test]
fn flush_bounds_residency_without_losing_rows() {
    let mut s = Spill::new(Some(10));
    for i in 0..35 {
        s.upsert_record(spill_record(&format!("o{i:02}"), "open"));
    }
    assert!(
        s.storage.segment_count() >= 3,
        "expected flushes, got {}",
        s.storage.segment_count()
    );
    assert!(
        s.storage.resident_len() < 10,
        "resident set must stay under the threshold, got {}",
        s.storage.resident_len()
    );

    let all = s.scan_records(usize::MAX);
    assert_eq!(all.len(), 35, "every row must still be visible after flushing");
    for i in 0..35 {
        let oid = format!("o{i:02}");
        assert!(
            s.get_record(&oid).is_some(),
            "flushed row {oid} must still be fetchable"
        );
    }
}

#[test]
fn delete_after_flush_does_not_resurrect() {
    let mut s = Spill::new(Some(4));
    for i in 0..8 {
        s.upsert_record(spill_record(&format!("o{i}"), "open"));
    }
    assert!(s.storage.segment_count() >= 1, "row must actually have been flushed");

    assert!(s.get_record("o1").is_some(), "precondition: o1 is live");
    assert!(s.delete_record("o1"), "deleting a flushed row reports true");

    assert!(
        s.get_record("o1").is_none(),
        "a deleted flushed row must NOT come back from the segment"
    );
    let all = s.scan_records(usize::MAX);
    assert!(
        !all.iter().any(|r| r.oid == "o1"),
        "scan must not resurrect the deleted row"
    );
    assert_eq!(all.len(), 7);

    assert!(!s.delete_record("o1"));
}

#[test]
fn reinsert_after_delete_clears_the_tombstone() {
    let mut s = Spill::new(Some(4));
    for i in 0..8 {
        s.upsert_record(spill_record(&format!("o{i}"), "open"));
    }
    assert!(s.delete_record("o1"));
    assert!(s.get_record("o1").is_none());

    s.upsert_record(spill_record("o1", "reopened"));
    let back = s.get_record("o1").expect("re-inserted row must be visible");
    assert_eq!(status_of(&back), Some("reopened"));
}

#[test]
fn update_after_flush_shadows_the_segment_copy() {
    let mut s = Spill::new(Some(4));
    for i in 0..4 {
        s.upsert_record(spill_record(&format!("o{i}"), "open"));
    }
    assert_eq!(s.storage.segment_count(), 1);
    assert_eq!(s.storage.resident_len(), 0);

    s.upsert_record(spill_record("o0", "closed"));
    let got = s.get_record("o0").unwrap();
    assert_eq!(
        status_of(&got),
        Some("closed"),
        "the newer resident value must win over the flushed one"
    );

    let all = s.scan_records(usize::MAX);
    assert_eq!(all.iter().filter(|r| r.oid == "o0").count(), 1);
    assert_eq!(all.len(), 4);
}

#[test]
fn scan_returns_flushed_rows_so_unique_enforcement_still_sees_them() {
    let mut s = Spill::new(Some(5));
    for i in 0..20 {
        s.upsert_record(spill_record(&format!("o{i:02}"), "open"));
    }
    assert!(s.storage.segment_count() >= 3);
    assert!(s.storage.resident_len() < 5, "most rows are no longer resident");

    let scanned = s.scan_records(usize::MAX);
    let mut oids: Vec<&str> = scanned.iter().map(|r| r.oid.as_str()).collect();
    oids.sort_unstable();
    let expected: Vec<String> = (0..20).map(|i| format!("o{i:02}")).collect();
    assert_eq!(
        oids,
        expected.iter().map(|s| s.as_str()).collect::<Vec<_>>(),
        "a scan that misses flushed rows would silently break UNIQUE/PK enforcement"
    );
}

#[test]
fn flushed_rows_keep_identity_and_tenant() {
    let mut s = Spill::new(Some(2));
    s.upsert_record(spill_record("order-7", "open"));
    s.upsert_record(spill_record("order-8", "open"));
    assert_eq!(s.storage.segment_count(), 1);

    let got = s.get_record("order-7").expect("flushed row must be fetchable");
    assert_eq!(got.oid, "order-7", "oid must survive the segment round trip");
    assert_eq!(got.tenant_id, "tenant-a", "tenant must survive it too");
}

#[test]
fn invalid_threshold_reads_as_never_flush() {
    for bad in ["0", "-1", "abc", ""] {
        assert_eq!(configured_flush_threshold(Some(bad)), None, "invalid threshold {bad:?}");
    }
    assert_eq!(configured_flush_threshold(Some("256")), Some(256));
    assert_eq!(configured_flush_threshold(None), None);
    let storage = SpillRecordStorage::new((), "base".to_string(), Some("256"));
    assert_eq!(storage.flush_threshold(), Some(256));
}

#[test]
fn lookups_agree_with_scans() {
    let mut s = Spill::new(Some(3));
    for i in 0..10 {
        s.upsert_record(spill_record(&format!("o{i}"), "open"));
    }
    s.delete_record("o2");
    s.delete_record("o9");
    for i in 0..11 {
        let oid = format!("o{i}");
        let scanned = s.scan_records(usize::MAX).iter().any(|r| r.oid == oid);
        assert_eq!(s.get_record(&oid).is_some(), scanned, "{oid}");
    }
}

#[test]
fn removals_tell_the_truth() {
    let mut s = Spill::new(Some(2));
    s.upsert_record(spill_record("a", "open"));
    assert_eq!(s.storage.delete_record(&"a".to_string()), Removal::Removed);
    assert_eq!(s.storage.delete_record(&"a".to_string()), Removal::Nothing);
    assert!(matches!(s.storage.lookup(&"a".to_string()), Lookup::Search));
    s.upsert_record(spill_record("b", "open"));
    s.upsert_record(spill_record("c", "open"));
    assert_eq!(s.storage.segment_count(), 1);
    assert_eq!(s.storage.delete_record(&"b".to_string()), Removal::Search);
    assert_eq!(s.storage.delete_record(&"b".to_string()), Removal::Nothing);
    assert!(matches!(s.storage.lookup(&"b".to_string()), Lookup::Absent));
    assert!(matches!(s.storage.lookup(&"c".to_string()), Lookup::Search));
    assert!(removal_result(Removal::Search, "c", &s.segments));
    assert!(!removal_result(Removal::Search, "z", &s.segments));
    s.upsert_record(spill_record("d", "open"));
    assert!(matches!(s.storage.lookup(&"d".to_string()), Lookup::Found(r) if r.oid == "d"));
    assert!(s.delete_record("d"));
    assert!(!s.delete_record("z"));
}

#[test]
fn segment_paths_are_fresh() {
    let mut s = Spill::new(Some(1));
    for i in 0..5 {
        s.upsert_record(spill_record(&format!("o{i}"), "open"));
    }
    let mut paths: Vec<String> = (0..s.storage.segment_count())
        .map(|i| s.storage.segment_path_at(i).clone())
        .collect();
    assert_eq!(paths.len(), 5);
    assert_eq!(paths[1], "base/spill-0000000001.parquet");
    assert!(paths.iter().all(|p| p.starts_with("base/spill-") && p.ends_with(".parquet")));
    paths.sort();
    paths.dedup();
    assert_eq!(paths.len(), 5);
}

#[test]
fn newest_segments_win() {
    let segments = vec![
        vec![spill_record("a", "old"), spill_record("b", "old")],
        vec![spill_record("a", "new")],
    ];
    let found = find_newest(&segments, "a").expect("row");
    assert_eq!(status_of(&found), Some("new"));
    let found = find_row(&segments[0], "b").expect("row");
    assert_eq!(status_of(&found), Some("old"));
    assert!(find_newest(&segments, "c").is_none());
}

#[test]
fn scans_of_spilled_records_are_filtered() {
    let mut s = Spill::new(Some(2));
    s.upsert_record(spill_record("a", "open"));
    s.upsert_record(spill_record("b", "closed"));
    s.upsert_record(spill_record("c", "open"));
    let options = RecordScanOptions::unbounded().with_string_property("status", "open");
    assert_eq!(s.storage.scan_records_with_options(&options, &s.segments).len(), 2);
    let pred = |r: &Record| r.oid != "a";
    let got = s.storage.scan_records_filtered(&options, Some(&pred), &s.segments);
    assert_eq!(got.len(), 1);
    assert_eq!(got[0].oid, "c");
    assert_eq!(s.storage.merged_records(&s.segments).len(), 3);
    let foreign = RecordScanOptions::unbounded().with_tenant_id("tenant-b");
    assert!(s.storage.scan_records_with_options(&foreign, &s.segments).is_empty());
}
