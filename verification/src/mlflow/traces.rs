//! The operations of the tracking store on traces and their assessments.

use vstd::prelude::*;
use vstd::string::*;
use crate::mlflow::error::RunStoreError;
use crate::mlflow::records::{AssessmentRecord, ExperimentRecord, TraceRecord};
use crate::mlflow::states::{
    ExperimentState, StoreError, TraceState, opt_of, remove_text, set_text, stored,
};
use crate::mlflow::store::{check_open, open_experiment};
use crate::text::chars::{copied, same_text, texts, views};
use crate::text::order::{comes_before, text_before};
use crate::text::sort::{Ranked, rank_order, sort_stable, stable_sorted};

verus! {

/// A trace can be started.
pub open spec fn trace_started(
    trace: TraceState,
    valid_id: bool,
    experiment: Option<ExperimentState>,
    exists_already: bool,
) -> Result<TraceState, StoreError> {
    if trace.trace_id.len() == 0 {
        Err(StoreError::Empty("trace_id"@))
    } else if !valid_id {
        Err(StoreError::InvalidTraceId(trace.trace_id))
    } else {
        match open_experiment(trace.experiment_id, experiment) {
            Err(e) => Err(e),
            Ok(_) => if exists_already {
                Err(StoreError::TraceIdConflict(trace.trace_id))
            } else {
                Ok(trace)
            },
        }
    }
}

/// Starts a trace in an experiment that is not deleted, where its id is valid
/// and new.
pub fn start_trace(
    trace: TraceRecord,
    valid_id: bool,
    experiment: &Option<ExperimentRecord>,
    exists_already: bool,
) -> (r: Result<TraceRecord, RunStoreError>)
    ensures
        stored(r) == trace_started(trace@, valid_id, opt_of(*experiment), exists_already),
{
    if trace.trace_id.as_str().unicode_len() == 0 {
        return Err(RunStoreError::Empty { field: "trace_id" });
    }
    if !valid_id {
        return Err(RunStoreError::InvalidTraceId { trace_id: trace.trace_id });
    }
    match check_open(trace.experiment_id, experiment) {
        Err(e) => {
            return Err(e);
        },
        Ok(()) => {},
    }
    if exists_already {
        return Err(RunStoreError::TraceIdConflict { trace_id: trace.trace_id });
    }
    Ok(trace)
}

/// The trace that was read, or the error for its absence.
pub open spec fn known_trace(trace_id: Seq<char>, found: Option<TraceState>) -> Result<
    TraceState,
    StoreError,
> {
    match found {
        Some(trace) => Ok(trace),
        None => Err(StoreError::UnknownTrace(trace_id)),
    }
}

/// The trace that was read.
pub fn get_trace(trace_id: &str, found: Option<TraceRecord>) -> (r: Result<
    TraceRecord,
    RunStoreError,
>)
    ensures
        stored(r) == known_trace(trace_id@, opt_of(found)),
{
    match found {
        Some(trace) => Ok(trace),
        None => Err(RunStoreError::UnknownTrace { trace_id: trace_id.to_owned() }),
    }
}

/// One trace comes before another: by the time of its request, and by its id
/// where these are the same.
pub open spec fn trace_before(a: TraceRecord, b: TraceRecord) -> bool {
    a.request_time_ms < b.request_time_ms || (a.request_time_ms == b.request_time_ms
        && text_before(a.trace_id@, b.trace_id@))
}

impl Ranked for TraceRecord {
    open spec fn ranks_before(&self, other: &Self) -> bool {
        trace_before(*self, *other)
    }

    fn is_before(&self, other: &Self) -> (r: bool) {
        self.request_time_ms < other.request_time_ms || (self.request_time_ms
            == other.request_time_ms && comes_before(
            self.trace_id.as_str(),
            other.trace_id.as_str(),
        ))
    }
}

/// The traces of an experiment, in their order.
pub fn list_traces(records: Vec<TraceRecord>) -> (r: Vec<TraceRecord>)
    ensures
        r@ == stable_sorted(records@, rank_order::<TraceRecord>()),
{
    sort_stable(records)
}

/// The ids of the traces that are asked for by name.
pub open spec fn requested_traces(traces: Seq<TraceState>, ids: Seq<Seq<char>>) -> Seq<Seq<char>>
    decreases traces.len(),
{
    if traces.len() == 0 {
        Seq::empty()
    } else if ids.contains(traces.last().trace_id) {
        requested_traces(traces.drop_last(), ids).push(traces.last().trace_id)
    } else {
        requested_traces(traces.drop_last(), ids)
    }
}

/// The ids of the traces up to a time.
pub open spec fn traces_until(traces: Seq<TraceState>, max_timestamp_ms: Option<i64>) -> Seq<
    Seq<char>,
>
    decreases traces.len(),
{
    if traces.len() == 0 {
        Seq::empty()
    } else {
        let rest = traces_until(traces.drop_last(), max_timestamp_ms);
        match max_timestamp_ms {
            Some(t) => if traces.last().request_time_ms <= t {
                rest.push(traces.last().trace_id)
            } else {
                rest
            },
            None => rest.push(traces.last().trace_id),
        }
    }
}

/// The ids of the traces that a removal selects: those that it names, or else
/// the first ones up to a time and a number.
pub open spec fn traces_to_delete(
    traces: Seq<TraceState>,
    max_timestamp_ms: Option<i64>,
    max_traces: Option<u64>,
    ids: Seq<Seq<char>>,
) -> Seq<Seq<char>> {
    if ids.len() > 0 {
        requested_traces(traces, ids)
    } else {
        let all = traces_until(traces, max_timestamp_ms);
        match max_traces {
            Some(n) => if n < all.len() {
                all.take(n as int)
            } else {
                all
            },
            None => all,
        }
    }
}

fn names_text(ids: &Vec<String>, id: &str) -> (r: bool)
    ensures
        r == texts(ids@).contains(id@),
{
    let mut i: usize = 0;
    while i < ids.len()
        invariant
            i <= ids@.len(),
            forall|j: int| 0 <= j < i ==> #[trigger] texts(ids@)[j] != id@,
        decreases ids@.len() - i,
    {
        if same_text(ids[i].as_str(), id) {
            assert(texts(ids@)[i as int] == id@);
            return true;
        }
        i += 1;
    }
    false
}

/// The ids of the traces that a removal selects, from the traces of the
/// experiment in their order.
pub fn delete_traces(
    traces: &Vec<TraceRecord>,
    max_timestamp_ms: Option<i64>,
    max_traces: Option<u64>,
    request_ids: &Vec<String>,
) -> (r: Vec<String>)
    ensures
        texts(r@) == traces_to_delete(
            views(traces@),
            max_timestamp_ms,
            max_traces,
            texts(request_ids@),
        ),
{
    let by_name: bool = request_ids.len() > 0;
    let mut selected: Vec<String> = Vec::new();
    let ghost all = views(traces@);
    let mut i: usize = 0;
    assert(texts(selected@) =~= Seq::empty());
    assert(all.take(0) =~= Seq::empty());
    while i < traces.len()
        invariant
            i <= traces@.len(),
            all == views(traces@),
            by_name == (request_ids@.len() > 0),
            texts(selected@) == if by_name {
                requested_traces(all.take(i as int), texts(request_ids@))
            } else {
                traces_until(all.take(i as int), max_timestamp_ms)
            },
        decreases traces@.len() - i,
    {
        assert(all.take(i + 1).drop_last() =~= all.take(i as int));
        assert(all[i as int] == traces@[i as int]@);
        let wanted: bool = if by_name {
            names_text(request_ids, traces[i].trace_id.as_str())
        } else {
            match max_timestamp_ms {
                Some(t) => traces[i].request_time_ms <= t,
                None => true,
            }
        };
        if wanted {
            let ghost before = texts(selected@);
            let id: String = copied(&traces[i].trace_id);
            selected.push(id);
            assert(texts(selected@) =~= before.push(id@));
        }
        i += 1;
    }
    assert(all.take(i as int) =~= all);
    if !by_name {
        if let Some(n) = max_traces {
            if n < selected.len() as u64 {
                let ghost before = texts(selected@);
                selected.truncate(n as usize);
                assert(texts(selected@) =~= before.take(n as int));
            }
        }
    }
    selected
}

/// A trace with a tag.
pub open spec fn trace_tagged(
    trace_id: Seq<char>,
    key: Seq<char>,
    value: Seq<char>,
    found: Option<TraceState>,
) -> Result<TraceState, StoreError> {
    match known_trace(trace_id, found) {
        Err(e) => Err(e),
        Ok(t) => Ok((TraceState { tags: t.tags.insert(key, value), ..t })),
    }
}

/// A trace without a tag.
pub open spec fn trace_untagged(
    trace_id: Seq<char>,
    key: Seq<char>,
    found: Option<TraceState>,
) -> Result<TraceState, StoreError> {
    match known_trace(trace_id, found) {
        Err(e) => Err(e),
        Ok(t) => Ok((TraceState { tags: t.tags.remove(key), ..t })),
    }
}

/// Sets a tag of a trace.
pub fn set_trace_tag(trace_id: &str, key: &str, value: &str, found: Option<TraceRecord>) -> (r:
    Result<TraceRecord, RunStoreError>)
    ensures
        stored(r) == trace_tagged(trace_id@, key@, value@, opt_of(found)),
{
    match get_trace(trace_id, found) {
        Err(e) => Err(e),
        Ok(t) => {
            let mut t: TraceRecord = t;
            set_text(&mut t.tags, key.to_owned(), value.to_owned());
            Ok(t)
        },
    }
}

/// Removes a tag of a trace.
pub fn delete_trace_tag(trace_id: &str, key: &str, found: Option<TraceRecord>) -> (r: Result<
    TraceRecord,
    RunStoreError,
>)
    ensures
        stored(r) == trace_untagged(trace_id@, key@, opt_of(found)),
{
    match get_trace(trace_id, found) {
        Err(e) => Err(e),
        Ok(t) => {
            let mut t: TraceRecord = t;
            remove_text(&mut t.tags, key);
            Ok(t)
        },
    }
}

/// The index of the first assessment with an id, from index `i` on.
pub open spec fn assessment_index(s: Seq<(Seq<char>, Seq<char>)>, id: Seq<char>, i: int) -> Option<
    int,
>
    decreases s.len() - i,
{
    if i < 0 || i >= s.len() {
        None
    } else if s[i].0 == id {
        Some(i)
    } else {
        assessment_index(s, id, i + 1)
    }
}

/// The assessments with one put in the place of that with its id, or at the end.
pub open spec fn with_assessment(
    s: Seq<(Seq<char>, Seq<char>)>,
    a: (Seq<char>, Seq<char>),
) -> Seq<(Seq<char>, Seq<char>)> {
    match assessment_index(s, a.0, 0) {
        Some(i) => s.update(i, a),
        None => s.push(a),
    }
}

fn position_of_assessment(v: &Vec<AssessmentRecord>, id: &str) -> (r: Option<usize>)
    ensures
        match r {
            Some(i) => i < v@.len() && assessment_index(views(v@), id@, 0) == Some(i as int),
            None => assessment_index(views(v@), id@, 0) is None,
        },
{
    let mut i: usize = 0;
    while i < v.len()
        invariant
            i <= v@.len(),
            assessment_index(views(v@), id@, 0) == assessment_index(views(v@), id@, i as int),
        decreases v@.len() - i,
    {
        if same_text(v[i].assessment_id.as_str(), id) {
            return Some(i);
        }
        i += 1;
    }
    None
}

/// A trace with an assessment.
pub open spec fn assessed(
    trace_id: Seq<char>,
    assessment: (Seq<char>, Seq<char>),
    found: Option<TraceState>,
) -> Result<TraceState, StoreError> {
    match known_trace(trace_id, found) {
        Err(e) => Err(e),
        Ok(t) => Ok(
            (TraceState { assessments: with_assessment(t.assessments, assessment), ..t }),
        ),
    }
}

/// Puts an assessment on a trace, in the place of the one with its id.
pub fn upsert_assessment(
    trace_id: &str,
    assessment: AssessmentRecord,
    found: Option<TraceRecord>,
) -> (r: Result<TraceRecord, RunStoreError>)
    ensures
        stored(r) == assessed(trace_id@, assessment@, opt_of(found)),
{
    match get_trace(trace_id, found) {
        Err(e) => Err(e),
        Ok(t) => {
            let mut t: TraceRecord = t;
            let ghost before = t.assessments@;
            let ghost a = assessment@;
            match position_of_assessment(&t.assessments, assessment.assessment_id.as_str()) {
                Some(i) => {
                    t.assessments.set(i, assessment);
                    assert(views(t.assessments@) =~= views(before).update(i as int, a));
                },
                None => {
                    t.assessments.push(assessment);
                    assert(views(t.assessments@) =~= views(before).push(a));
                },
            }
            Ok(t)
        },
    }
}

/// The assessment of a trace with an id.
pub open spec fn assessment_of(
    trace_id: Seq<char>,
    id: Seq<char>,
    found: Option<TraceState>,
) -> Result<(Seq<char>, Seq<char>), StoreError> {
    match known_trace(trace_id, found) {
        Err(e) => Err(e),
        Ok(t) => match assessment_index(t.assessments, id, 0) {
            Some(i) => Ok(t.assessments[i]),
            None => Err(StoreError::UnknownAssessment(trace_id, id)),
        },
    }
}

/// Finds an assessment of a trace.
pub fn get_assessment(trace_id: &str, assessment_id: &str, found: Option<TraceRecord>) -> (r:
    Result<AssessmentRecord, RunStoreError>)
    ensures
        stored(r) == assessment_of(trace_id@, assessment_id@, opt_of(found)),
{
    match get_trace(trace_id, found) {
        Err(e) => Err(e),
        Ok(t) => {
            let mut t: TraceRecord = t;
            match position_of_assessment(&t.assessments, assessment_id) {
                Some(i) => Ok(t.assessments.remove(i)),
                None => Err(
                    RunStoreError::UnknownAssessment {
                        trace_id: trace_id.to_owned(),
                        assessment_id: assessment_id.to_owned(),
                    },
                ),
            }
        },
    }
}

/// The assessments without those with an id.
pub open spec fn without_assessment(s: Seq<(Seq<char>, Seq<char>)>, id: Seq<char>) -> Seq<
    (Seq<char>, Seq<char>),
>
    decreases s.len(),
{
    if s.len() == 0 {
        s
    } else if s.last().0 == id {
        without_assessment(s.drop_last(), id)
    } else {
        without_assessment(s.drop_last(), id).push(s.last())
    }
}

/// A trace without an assessment that it has.
pub open spec fn unassessed(trace_id: Seq<char>, id: Seq<char>, found: Option<TraceState>) -> Result<
    TraceState,
    StoreError,
> {
    match known_trace(trace_id, found) {
        Err(e) => Err(e),
        Ok(t) => if assessment_index(t.assessments, id, 0) is None {
            Err(StoreError::UnknownAssessment(trace_id, id))
        } else {
            Ok((TraceState { assessments: without_assessment(t.assessments, id), ..t }))
        },
    }
}

/// Removes an assessment of a trace.
pub fn delete_assessment(trace_id: &str, assessment_id: &str, found: Option<TraceRecord>) -> (r:
    Result<TraceRecord, RunStoreError>)
    ensures
        stored(r) == unassessed(trace_id@, assessment_id@, opt_of(found)),
{
    let t: TraceRecord = match get_trace(trace_id, found) {
        Err(e) => {
            return Err(e);
        },
        Ok(t) => t,
    };
    if position_of_assessment(&t.assessments, assessment_id).is_none() {
        return Err(
            RunStoreError::UnknownAssessment {
                trace_id: trace_id.to_owned(),
                assessment_id: assessment_id.to_owned(),
            },
        );
    }
    let mut t: TraceRecord = t;
    let ghost given = t@;
    let ghost all = views(t.assessments@);
    let ghost mut k: int = 0;
    let mut i: usize = 0;
    assert(views(t.assessments@) =~= without_assessment(all.take(0), assessment_id@) + all.skip(
        0,
    ));
    while i < t.assessments.len()
        invariant
            0 <= k <= all.len(),
            i == without_assessment(all.take(k), assessment_id@).len(),
            views(t.assessments@) == without_assessment(all.take(k), assessment_id@) + all.skip(k),
            t@ == (TraceState { assessments: views(t.assessments@), ..given }),
        decreases all.len() - k,
    {
        let ghost before = t.assessments@;
        proof {
            assert(all.take(k + 1).drop_last() =~= all.take(k));
            assert(views(before)[i as int] == all[k]);
        }
        if same_text(t.assessments[i].assessment_id.as_str(), assessment_id) {
            t.assessments.remove(i);
            assert(views(t.assessments@) =~= views(before).remove(i as int));
            assert(views(t.assessments@) =~= without_assessment(all.take(k + 1), assessment_id@)
                + all.skip(k + 1));
        } else {
            assert(views(t.assessments@) =~= without_assessment(all.take(k + 1), assessment_id@)
                + all.skip(k + 1));
            i += 1;
        }
        proof {
            k = k + 1;
        }
    }
    assert(all.take(k) =~= all);
    assert(views(t.assessments@) =~= without_assessment(all, assessment_id@));
    Ok(t)
}

proof fn lemma_assessment_index(s: Seq<(Seq<char>, Seq<char>)>, id: Seq<char>, i: int)
    requires
        0 <= i <= s.len(),
    ensures
        match assessment_index(s, id, i) {
            Some(k) => i <= k < s.len() && s[k].0 == id && forall|j: int|
                i <= j < k ==> (#[trigger] s[j]).0 != id,
            None => forall|j: int| i <= j < s.len() ==> (#[trigger] s[j]).0 != id,
        },
    decreases s.len() - i,
{
    if i < s.len() && s[i].0 != id {
        lemma_assessment_index(s, id, i + 1);
    }
}

/// An assessment that was put on a trace is found there.
pub proof fn law_upserted_assessment_is_found(
    s: Seq<(Seq<char>, Seq<char>)>,
    a: (Seq<char>, Seq<char>),
)
    ensures
        assessment_index(with_assessment(s, a), a.0, 0) matches Some(i) && with_assessment(
            s,
            a,
        )[i] == a,
{
    let after = with_assessment(s, a);
    lemma_assessment_index(s, a.0, 0);
    lemma_assessment_index(after, a.0, 0);
    match assessment_index(s, a.0, 0) {
        Some(i) => {
            assert(after[i] == a);
            assert forall|j: int| 0 <= j < i implies (#[trigger] after[j]).0 != a.0 by {
                assert(after[j] == s[j]);
            }
        },
        None => {
            assert(after[s.len() as int] == a);
            assert forall|j: int| 0 <= j < s.len() implies (#[trigger] after[j]).0 != a.0 by {
                assert(after[j] == s[j]);
            }
        },
    }
}

/// An assessment that was removed is no longer found.
pub proof fn law_deleted_assessment_is_gone(s: Seq<(Seq<char>, Seq<char>)>, id: Seq<char>)
    ensures
        assessment_index(without_assessment(s, id), id, 0) is None,
{
    lemma_without_assessment(s, id);
    lemma_assessment_index(without_assessment(s, id), id, 0);
}

proof fn lemma_without_assessment(s: Seq<(Seq<char>, Seq<char>)>, id: Seq<char>)
    ensures
        forall|j: int|
            0 <= j < without_assessment(s, id).len() ==> (#[trigger] without_assessment(s, id)[j]).0
                != id,
    decreases s.len(),
{
    if s.len() > 0 {
        lemma_without_assessment(s.drop_last(), id);
        let before = without_assessment(s.drop_last(), id);
        assert forall|j: int| 0 <= j < without_assessment(s, id).len() implies (
        #[trigger] without_assessment(s, id)[j]).0 != id by {
            if j < before.len() {
                assert(without_assessment(s, id)[j] == before[j]);
            }
        }
    }
}

} // verus!
