//! Scanning a list of records.

use vstd::prelude::*;
use crate::records::row::{
    Record, RecordModel, RecordScanOptions, ScanModel, copied_record, is_asked_for, is_roll,
    is_scan,
};
use crate::text::chars::{lemma_views_push, views};

verus! {

/// What a scan decides on a record: it is kept where it is asked for and the
/// predicate, if there is one, accepts it.
pub open spec fn decides<F: Fn(&Record) -> bool>(
    options: ScanModel,
    predicate: Option<F>,
    record: Record,
    kept: bool,
) -> bool {
    if !is_asked_for(options, record@) {
        !kept
    } else {
        match predicate {
            Some(p) => call_ensures(p, (&record,), kept),
            None => kept,
        }
    }
}

/// The first records, as far as they are kept.
pub open spec fn kept_rows(records: Seq<RecordModel>, kept: Seq<bool>) -> Seq<RecordModel>
    decreases kept.len(),
{
    if kept.len() == 0 {
        Seq::empty()
    } else {
        let rest = kept_rows(records, kept.drop_last());
        if kept.last() {
            rest.push(records[kept.len() - 1])
        } else {
            rest
        }
    }
}

/// The scan decided on the first records, one after the other, until it was at
/// its limit or at the end.
pub open spec fn is_filtered_scan<F: Fn(&Record) -> bool>(
    r: Seq<RecordModel>,
    list: Seq<Record>,
    options: ScanModel,
    predicate: Option<F>,
    kept: Seq<bool>,
) -> bool {
    &&& kept.len() <= list.len()
    &&& forall|i: int|
        0 <= i < kept.len() ==> #[trigger] decides(options, predicate, list[i], kept[i])
    &&& r == kept_rows(views(list), kept)
    &&& match options.limit {
        Some(n) => r.len() <= n && (r.len() == n || kept.len() == list.len()),
        None => kept.len() == list.len(),
    }
}

/// Scans a list: it asks the predicate no more once the limit is reached.
pub fn filter_rows<F: Fn(&Record) -> bool>(
    list: &Vec<Record>,
    options: &RecordScanOptions,
    predicate: Option<F>,
) -> (r: Vec<Record>)
    requires
        predicate matches Some(p) ==> forall|x: &Record| call_requires(p, (x,)),
    ensures
        exists|kept: Seq<bool>|
            #[trigger] is_filtered_scan(views(r@), list@, options@, predicate, kept),
{
    let mut r: Vec<Record> = Vec::new();
    let ghost mut kept: Seq<bool> = Seq::empty();
    let mut i: usize = 0;
    assert(views(r@) =~= Seq::empty());
    while i < list.len()
        invariant
            i <= list@.len(),
            kept.len() == i,
            predicate matches Some(p) ==> forall|x: &Record| call_requires(p, (x,)),
            forall|j: int|
                0 <= j < i ==> #[trigger] decides(options@, predicate, list@[j], kept[j]),
            views(r@) == kept_rows(views(list@), kept),
            options@.limit matches Some(n) ==> views(r@).len() <= n,
        decreases list@.len() - i,
    {
        if let Some(n) = options.limit {
            if r.len() >= n {
                assert(is_filtered_scan(views(r@), list@, options@, predicate, kept));
                return r;
            }
        }
        let keep: bool = if options.matches_record(&list[i]) {
            match &predicate {
                Some(p) => p(&list[i]),
                None => true,
            }
        } else {
            false
        };
        let ghost before = kept;
        proof {
            kept = kept.push(keep);
            assert(kept.drop_last() =~= before);
            assert(decides(options@, predicate, list@[i as int], keep));
        }
        if keep {
            let copy: Record = copied_record(&list[i]);
            proof {
                lemma_views_push(r@, copy);
            }
            r.push(copy);
        }
        i += 1;
    }
    assert(is_filtered_scan(views(r@), list@, options@, predicate, kept));
    r
}

/// The first records that are asked for, up to the limit, among the first `n`.
pub open spec fn picked(all: Seq<RecordModel>, options: ScanModel, n: int) -> Seq<RecordModel>
    decreases n,
{
    if n <= 0 {
        Seq::empty()
    } else {
        let before = picked(all, options, n - 1);
        if options.limit matches Some(max) && before.len() >= max {
            before
        } else if is_asked_for(options, all[n - 1]) {
            before.push(all[n - 1])
        } else {
            before
        }
    }
}

/// The index of a record among the first `n`.
spec fn comes_from(all: Seq<RecordModel>, n: int, x: RecordModel) -> bool {
    exists|m: int| 0 <= m < n && #[trigger] all[m] == x
}

proof fn lemma_picked_members(all: Seq<RecordModel>, options: ScanModel, n: int)
    requires
        0 <= n <= all.len(),
    ensures
        forall|j: int|
            0 <= j < picked(all, options, n).len() ==> comes_from(
                all,
                n,
                #[trigger] picked(all, options, n)[j],
            ) && is_asked_for(options, picked(all, options, n)[j]),
        options.limit matches Some(max) ==> picked(all, options, n).len() <= max,
    decreases n,
{
    if n > 0 {
        lemma_picked_members(all, options, n - 1);
        let before = picked(all, options, n - 1);
        let after = picked(all, options, n);
        assert forall|j: int| 0 <= j < after.len() implies comes_from(all, n, #[trigger] after[j])
            && is_asked_for(options, after[j]) by {
            if j < before.len() {
                assert(after[j] == before[j]);
                assert(comes_from(all, n - 1, before[j]));
                let m = choose|m: int| 0 <= m < n - 1 && #[trigger] all[m] == before[j];
                assert(all[m] == after[j]);
            } else {
                assert(all[n - 1] == after[j]);
            }
        }
    }
}

proof fn lemma_picked_distinct(all: Seq<RecordModel>, options: ScanModel, n: int)
    requires
        0 <= n <= all.len(),
        forall|i: int, j: int|
            0 <= i < j < all.len() ==> (#[trigger] all[i]).oid != (#[trigger] all[j]).oid,
    ensures
        forall|i: int, j: int|
            0 <= i < j < picked(all, options, n).len() ==> (#[trigger] picked(
                all,
                options,
                n,
            )[i]).oid != (#[trigger] picked(all, options, n)[j]).oid,
    decreases n,
{
    if n > 0 {
        lemma_picked_distinct(all, options, n - 1);
        lemma_picked_members(all, options, n - 1);
        let before = picked(all, options, n - 1);
        let after = picked(all, options, n);
        assert forall|i: int, j: int| 0 <= i < j < after.len() implies (#[trigger] after[i]).oid
            != (#[trigger] after[j]).oid by {
            if j < before.len() {
                assert(before[i].oid != before[j].oid);
            } else {
                assert(after[i] == before[i]);
                assert(comes_from(all, n - 1, before[i]));
                let m = choose|m: int| 0 <= m < n - 1 && #[trigger] all[m] == before[i];
                assert(all[m].oid != all[n - 1].oid);
            }
        }
    }
}

proof fn lemma_picked_complete(all: Seq<RecordModel>, options: ScanModel, n: int, m: int)
    requires
        0 <= m < n <= all.len(),
        is_asked_for(options, all[m]),
        !(options.limit matches Some(max) && picked(all, options, n).len() >= max),
    ensures
        picked(all, options, n).contains(all[m]),
    decreases n,
{
    let before = picked(all, options, n - 1);
    let after = picked(all, options, n);
    assert(!(options.limit matches Some(max) && before.len() >= max));
    if m == n - 1 {
        assert(after[before.len() as int] == all[m]);
    } else {
        lemma_picked_complete(all, options, n - 1, m);
        let j = choose|j: int| 0 <= j < before.len() && before[j] == all[m];
        assert(after[j] == before[j]);
    }
}

/// What a scan picks from the records of a map is a scan of the map.
pub proof fn lemma_picked_is_scan(
    all: Seq<RecordModel>,
    options: ScanModel,
    rows: Map<Seq<char>, RecordModel>,
)
    requires
        is_roll(all, rows),
    ensures
        is_scan(picked(all, options, all.len() as int), rows, options),
{
    let n = all.len() as int;
    let s = picked(all, options, n);
    lemma_picked_members(all, options, n);
    lemma_picked_distinct(all, options, n);
    assert forall|i: int| 0 <= i < s.len() implies rows.dom().contains((#[trigger] s[i]).oid)
        && rows[s[i].oid] == s[i] && is_asked_for(options, s[i]) by {
        assert(comes_from(all, n, s[i]));
        let m = choose|m: int| 0 <= m < n && #[trigger] all[m] == s[i];
        assert(rows.dom().contains(all[m].oid));
    }
    if !(options.limit matches Some(max) && s.len() == max) {
        assert forall|k: Seq<char>| #[trigger]
            rows.dom().contains(k) && is_asked_for(options, rows[k]) implies exists|i: int|
            0 <= i < s.len() && (#[trigger] s[i]).oid == k by {
            let m = choose|m: int| 0 <= m < n && (#[trigger] all[m]).oid == k;
            assert(all[m] == rows[k]);
            lemma_picked_complete(all, options, n, m);
            let j = choose|j: int| 0 <= j < s.len() && s[j] == all[m];
            assert(s[j].oid == k);
        }
    }
}

/// The first records that are asked for, up to the limit.
pub fn pick_rows(list: &Vec<Record>, options: &RecordScanOptions) -> (r: Vec<Record>)
    ensures
        views(r@) == picked(views(list@), options@, list@.len() as int),
{
    let mut r: Vec<Record> = Vec::new();
    let ghost all = views(list@);
    let mut i: usize = 0;
    assert(views(r@) =~= Seq::empty());
    while i < list.len()
        invariant
            i <= list@.len(),
            all == views(list@),
            views(r@) == picked(all, options@, i as int),
        decreases list@.len() - i,
    {
        let full: bool = match options.limit {
            Some(n) => r.len() >= n,
            None => false,
        };
        assert(views(r@).len() == r@.len());
        assert(all[i as int] == list@[i as int]@);
        if !full && options.matches_record(&list[i]) {
            let copy: Record = copied_record(&list[i]);
            proof {
                lemma_views_push(r@, copy);
            }
            r.push(copy);
        }
        i += 1;
    }
    r
}

} // verus!
