//! The orders of listings and histories.

use vstd::prelude::*;
use crate::laws::search::lemma_all_ok_each;
use crate::mlflow::records::{
    ExperimentRecord, LoggedModelRecord, PointModel, RunRecord, TraceRecord,
};
use crate::mlflow::search::run_precedes;
use crate::mlflow::states::StoreError;
use crate::mlflow::store::{SampleDoc, numbered, samples_in_order};
use crate::mlflow::wire::{RunModel, history_shown, point_before};
use crate::text::collect::all_ok;
use crate::text::order::{
    lemma_text_before_irreflexive, lemma_text_before_total, lemma_text_before_transitive,
    text_before,
};
use crate::text::sort::{is_ranking, law_stable_sorting, rank_order, stable_sorted};

verus! {

/// Runs are listed by their start times, the earliest first.
pub proof fn law_runs_are_listed_by_start(records: Seq<RunRecord>, i: int, j: int)
    requires
        0 <= i < j < records.len(),
    ensures
        stable_sorted(records, rank_order::<RunRecord>())[i].start_time_ms <= stable_sorted(
            records,
            rank_order::<RunRecord>(),
        )[j].start_time_ms,
{
    let before = rank_order::<RunRecord>();
    assert(is_ranking(before));
    law_stable_sorting(records, before);
    let sorted = stable_sorted(records, before);
    assert(!before(sorted[j], sorted[i]));
}

/// Experiments are listed by their ids.
pub proof fn law_experiments_are_listed_by_id(records: Seq<ExperimentRecord>, i: int, j: int)
    requires
        0 <= i < j < records.len(),
    ensures
        stable_sorted(records, rank_order::<ExperimentRecord>())[i].experiment_id <= stable_sorted(
            records,
            rank_order::<ExperimentRecord>(),
        )[j].experiment_id,
{
    let before = rank_order::<ExperimentRecord>();
    assert(is_ranking(before));
    law_stable_sorting(records, before);
    let sorted = stable_sorted(records, before);
    assert(!before(sorted[j], sorted[i]));
}

/// Logged models are listed by the times of their creation, the earliest first,
/// and by their ids where these are the same.
pub proof fn law_models_are_listed_by_creation(records: Seq<LoggedModelRecord>, i: int, j: int)
    requires
        0 <= i < j < records.len(),
    ensures
        ({
            let sorted = stable_sorted(records, rank_order::<LoggedModelRecord>());
            &&& sorted[i].creation_time_ms <= sorted[j].creation_time_ms
            &&& sorted[i].creation_time_ms == sorted[j].creation_time_ms ==> !text_before(
                sorted[j].model_id@,
                sorted[i].model_id@,
            )
        }),
{
    let before = rank_order::<LoggedModelRecord>();
    assert forall|a: LoggedModelRecord, b: LoggedModelRecord| #[trigger] before(a, b) implies !before(
        b,
        a,
    ) by {
        lemma_text_order(a.model_id@, b.model_id@, a.model_id@);
    }
    assert forall|a: LoggedModelRecord, b: LoggedModelRecord, c: LoggedModelRecord|
        !(#[trigger] before(a, b)) && !(#[trigger] before(b, c)) implies !before(a, c) by {
        lemma_text_order(a.model_id@, b.model_id@, c.model_id@);
    }
    law_stable_sorting(records, before);
    let sorted = stable_sorted(records, before);
    assert(!before(sorted[j], sorted[i]));
}

/// The order of texts is strict, and what does not come before goes on not
/// coming before.
proof fn lemma_text_order(a: Seq<char>, b: Seq<char>, c: Seq<char>)
    ensures
        !(text_before(a, b) && text_before(b, a)),
        !text_before(a, b) && !text_before(b, c) ==> !text_before(a, c),
{
    lemma_text_before_irreflexive(a);
    lemma_text_before_total(a, b);
    lemma_text_before_total(b, c);
    if text_before(a, b) && text_before(b, a) {
        lemma_text_before_transitive(a, b, a);
    }
    if !text_before(a, b) && !text_before(b, c) && text_before(a, c) {
        if text_before(b, a) {
            lemma_text_before_transitive(b, a, c);
        }
        if text_before(c, b) {
            lemma_text_before_transitive(a, c, b);
        }
    }
}

/// Traces are listed by the times of their requests, the earliest first, and by
/// their ids where these are the same.
pub proof fn law_traces_are_listed_by_time(records: Seq<TraceRecord>, i: int, j: int)
    requires
        0 <= i < j < records.len(),
    ensures
        ({
            let sorted = stable_sorted(records, rank_order::<TraceRecord>());
            &&& sorted[i].request_time_ms <= sorted[j].request_time_ms
            &&& sorted[i].request_time_ms == sorted[j].request_time_ms ==> !text_before(
                sorted[j].trace_id@,
                sorted[i].trace_id@,
            )
        }),
{
    let before = rank_order::<TraceRecord>();
    assert forall|a: TraceRecord, b: TraceRecord| #[trigger] before(a, b) implies !before(b, a) by {
        lemma_text_order(a.trace_id@, b.trace_id@, a.trace_id@);
    }
    assert forall|a: TraceRecord, b: TraceRecord, c: TraceRecord|
        !(#[trigger] before(a, b)) && !(#[trigger] before(b, c)) implies !before(a, c) by {
        lemma_text_order(a.trace_id@, b.trace_id@, c.trace_id@);
    }
    law_stable_sorting(records, before);
    let sorted = stable_sorted(records, before);
    assert(!before(sorted[j], sorted[i]));
}

/// A history is shown by its steps, and by time within a step; showing it loses
/// and adds no sample.
pub proof fn law_histories_are_shown_by_step(history: Seq<PointModel>, i: int, j: int)
    requires
        0 <= i < j < history.len(),
    ensures
        history_shown(history)[i].step <= history_shown(history)[j].step,
        history_shown(history)[i].step == history_shown(history)[j].step ==> history_shown(
            history,
        )[i].timestamp_ms <= history_shown(history)[j].timestamp_ms,
        history_shown(history).to_multiset() == history.to_multiset(),
{
    let before = |a: PointModel, b: PointModel| point_before(a, b);
    assert(is_ranking(before));
    law_stable_sorting(history, before);
    let sorted = stable_sorted(history, before);
    assert(!before(sorted[j], sorted[i]));
}

/// The samples of a history come in the order of their numbers, and none is lost
/// or added.
pub proof fn law_samples_come_in_order<T>(
    docs: Seq<SampleDoc<T>>,
    kind: Seq<char>,
    tail: Seq<char>,
) -> (pairs: Seq<(u64, T)>)
    requires
        forall|i: int|
            0 <= i < docs.len() ==> (#[trigger] docs[i]).seq is Some && docs[i].sample is Sample,
    ensures
        samples_in_order(docs, kind, tail) == Ok::<Seq<T>, StoreError>(
            pairs.map_values(|p: (u64, T)| p.1),
        ),
        forall|i: int, j: int|
            0 <= i < j < pairs.len() ==> (#[trigger] pairs[i]).0 <= (#[trigger] pairs[j]).0,
        pairs.to_multiset() == docs.map_values(
            |d: SampleDoc<T>| (d.seq->0 as u64, d.sample->Sample_0),
        ).to_multiset(),
{
    let results = docs.map_values(|d: SampleDoc<T>| numbered(d, kind, tail));
    assert forall|i: int| 0 <= i < results.len() implies (#[trigger] results[i]) is Ok by {
        assert(docs[i].seq is Some && docs[i].sample is Sample);
    }
    lemma_all_ok_each(results);
    let points = all_ok(results)->Ok_0;
    let expected = docs.map_values(|d: SampleDoc<T>| (d.seq->0 as u64, d.sample->Sample_0));
    assert forall|i: int| 0 <= i < docs.len() implies points[i] == expected[i] by {
        assert(results[i] == numbered(docs[i], kind, tail));
        assert(docs[i].seq is Some && docs[i].sample is Sample);
    }
    assert(points =~= expected);
    let before = |a: (u64, T), b: (u64, T)| a.0 < b.0;
    assert(is_ranking(before));
    law_stable_sorting(points, before);
    let pairs = stable_sorted(points, before);
    assert forall|i: int, j: int| 0 <= i < j < pairs.len() implies (#[trigger] pairs[i]).0 <= (
    #[trigger] pairs[j]).0 by {
        assert(!before(pairs[j], pairs[i]));
    }
    pairs
}

/// Runs are ordered by their start, either way, and by their ids where they
/// started together.
pub proof fn law_runs_precede_by_start_and_id(a: RunModel, b: RunModel, descending: bool)
    ensures
        a.start_time < b.start_time ==> run_precedes(false, a, b) && !run_precedes(false, b, a),
        a.start_time < b.start_time ==> run_precedes(true, b, a) && !run_precedes(true, a, b),
        a.start_time == b.start_time ==> (run_precedes(descending, a, b) <==> text_before(
            a.run_id,
            b.run_id,
        )),
{
}

} // verus!
