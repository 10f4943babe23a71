//! What the records of the tracking store hold, over mathematical types.

use vstd::prelude::*;
use vstd::string::*;
use crate::mlflow::error::RunStoreError;
use crate::mlflow::records::{
    AssessmentRecord, ExperimentRecord, ExperimentStage, LoggedModelRecord, LoggedModelStatus,
    MetricPoint, ModelOutputRef, PointModel, RunLifecycle, RunRecord, RunStatus, TraceRecord,
};
use crate::text::chars::{opt_text, texts, views};
use crate::text::map::{TextMap, text_entries};

verus! {

/// What an error of the store says.
pub enum StoreError {
    UnknownExperiment(u64),
    UnknownRun(Seq<char>),
    UnknownTrace(Seq<char>),
    UnknownAssessment(Seq<char>, Seq<char>),
    UnknownLoggedModel(Seq<char>),
    UnknownLoggedModelTag(Seq<char>, Seq<char>),
    ExperimentNameConflict(Seq<char>),
    RunIdConflict(Seq<char>),
    TraceIdConflict(Seq<char>),
    LoggedModelIdConflict(Seq<char>),
    ParamImmutable(Seq<char>, Seq<char>),
    RunFinished(Seq<char>),
    ExperimentDeleted(u64),
    InvalidTraceId(Seq<char>),
    Empty(Seq<char>),
    NotTerminal,
    Internal(Seq<char>),
}

impl View for RunStoreError {
    type V = StoreError;

    open spec fn view(&self) -> StoreError {
        match self {
            RunStoreError::UnknownExperiment { experiment_id } => StoreError::UnknownExperiment(
                *experiment_id,
            ),
            RunStoreError::UnknownRun { run_id } => StoreError::UnknownRun(run_id@),
            RunStoreError::UnknownTrace { trace_id } => StoreError::UnknownTrace(trace_id@),
            RunStoreError::UnknownAssessment { trace_id, assessment_id } =>
            StoreError::UnknownAssessment(trace_id@, assessment_id@),
            RunStoreError::UnknownLoggedModel { model_id } => StoreError::UnknownLoggedModel(
                model_id@,
            ),
            RunStoreError::UnknownLoggedModelTag { model_id, key } =>
            StoreError::UnknownLoggedModelTag(model_id@, key@),
            RunStoreError::ExperimentNameConflict { name } => StoreError::ExperimentNameConflict(
                name@,
            ),
            RunStoreError::RunIdConflict { run_id } => StoreError::RunIdConflict(run_id@),
            RunStoreError::TraceIdConflict { trace_id } => StoreError::TraceIdConflict(trace_id@),
            RunStoreError::LoggedModelIdConflict { model_id } => StoreError::LoggedModelIdConflict(
                model_id@,
            ),
            RunStoreError::ParamImmutable { key, run_id } => StoreError::ParamImmutable(
                key@,
                run_id@,
            ),
            RunStoreError::RunFinished { run_id } => StoreError::RunFinished(run_id@),
            RunStoreError::ExperimentDeleted { experiment_id } => StoreError::ExperimentDeleted(
                *experiment_id,
            ),
            RunStoreError::InvalidTraceId { trace_id } => StoreError::InvalidTraceId(trace_id@),
            RunStoreError::Empty { field } => StoreError::Empty(field@),
            RunStoreError::NotTerminal => StoreError::NotTerminal,
            RunStoreError::Internal { message } => StoreError::Internal(message@),
        }
    }
}

/// The outcome of an operation of the store, over views.
pub open spec fn stored<T: View>(r: Result<T, RunStoreError>) -> Result<T::V, StoreError> {
    match r {
        Ok(t) => Ok(t@),
        Err(e) => Err(e@),
    }
}

/// A value that may be absent, over views.
pub open spec fn opt_of<T: View>(t: Option<T>) -> Option<T::V> {
    match t {
        Some(x) => Some(x@),
        None => None,
    }
}

pub struct ExperimentState {
    pub experiment_id: u64,
    pub name: Seq<char>,
    pub artifact_location: Option<Seq<char>>,
    pub tags: Map<Seq<char>, Seq<char>>,
    pub stage: ExperimentStage,
    pub creation_time_ms: i64,
    pub last_update_time_ms: i64,
}

impl View for ExperimentRecord {
    type V = ExperimentState;

    open spec fn view(&self) -> ExperimentState {
        ExperimentState {
            experiment_id: self.experiment_id,
            name: self.name@,
            artifact_location: opt_text(self.artifact_location),
            tags: text_entries(self.tags),
            stage: self.stage,
            creation_time_ms: self.creation_time_ms,
            last_update_time_ms: self.last_update_time_ms,
        }
    }
}

impl View for ModelOutputRef {
    type V = (Seq<char>, i64);

    open spec fn view(&self) -> (Seq<char>, i64) {
        (self.model_id@, self.step)
    }
}

pub struct RunState {
    pub run_id: Seq<char>,
    pub experiment_id: u64,
    pub run_name: Option<Seq<char>>,
    pub user_id: Option<Seq<char>>,
    pub lifecycle: RunLifecycle,
    pub status: RunStatus,
    pub start_time_ms: i64,
    pub end_time_ms: Option<i64>,
    pub params: Map<Seq<char>, Seq<char>>,
    pub latest_metrics: Map<Seq<char>, PointModel>,
    pub tags: Map<Seq<char>, Seq<char>>,
    pub model_inputs: Seq<Seq<char>>,
    pub model_outputs: Seq<(Seq<char>, i64)>,
}

/// The samples that a map holds.
pub open spec fn point_entries(m: TextMap<MetricPoint>) -> Map<Seq<char>, PointModel> {
    Map::new(|k: Seq<char>| m@.dom().contains(k), |k: Seq<char>| m@[k]@)
}

impl View for RunRecord {
    type V = RunState;

    open spec fn view(&self) -> RunState {
        RunState {
            run_id: self.run_id@,
            experiment_id: self.experiment_id,
            run_name: opt_text(self.run_name),
            user_id: opt_text(self.user_id),
            lifecycle: self.lifecycle,
            status: self.status,
            start_time_ms: self.start_time_ms,
            end_time_ms: self.end_time_ms,
            params: text_entries(self.params),
            latest_metrics: point_entries(self.latest_metrics),
            tags: text_entries(self.tags),
            model_inputs: texts(self.model_inputs@),
            model_outputs: views(self.model_outputs@),
        }
    }
}

impl View for AssessmentRecord {
    type V = (Seq<char>, Seq<char>);

    open spec fn view(&self) -> (Seq<char>, Seq<char>) {
        (self.assessment_id@, self.payload@)
    }
}

pub struct TraceState {
    pub trace_id: Seq<char>,
    pub experiment_id: u64,
    pub request_time_ms: i64,
    pub state: Seq<char>,
    pub tags: Map<Seq<char>, Seq<char>>,
    /// The assessments, each by its id and its content.
    pub assessments: Seq<(Seq<char>, Seq<char>)>,
}

impl View for TraceRecord {
    type V = TraceState;

    open spec fn view(&self) -> TraceState {
        TraceState {
            trace_id: self.trace_id@,
            experiment_id: self.experiment_id,
            request_time_ms: self.request_time_ms,
            state: self.state@,
            tags: text_entries(self.tags),
            assessments: views(self.assessments@),
        }
    }
}

pub struct LoggedModelState {
    pub model_id: Seq<char>,
    pub experiment_id: u64,
    pub name: Seq<char>,
    pub status: LoggedModelStatus,
    pub lifecycle: RunLifecycle,
    pub creation_time_ms: i64,
    pub last_updated_time_ms: i64,
    pub params: Map<Seq<char>, Seq<char>>,
    pub tags: Map<Seq<char>, Seq<char>>,
}

impl View for LoggedModelRecord {
    type V = LoggedModelState;

    open spec fn view(&self) -> LoggedModelState {
        LoggedModelState {
            model_id: self.model_id@,
            experiment_id: self.experiment_id,
            name: self.name@,
            status: self.status,
            lifecycle: self.lifecycle,
            creation_time_ms: self.creation_time_ms,
            last_updated_time_ms: self.last_updated_time_ms,
            params: text_entries(self.params),
            tags: text_entries(self.tags),
        }
    }
}

/// Sets a text in a map of texts.
pub fn set_text(m: &mut TextMap<String>, key: String, value: String)
    ensures
        text_entries(*final(m)) == text_entries(*old(m)).insert(key@, value@),
{
    let ghost before = text_entries(*m);
    let ghost (k, v) = (key@, value@);
    m.insert(key, value);
    assert(text_entries(*m) =~= before.insert(k, v));
}

/// Removes a text from a map of texts.
pub fn remove_text(m: &mut TextMap<String>, key: &str)
    ensures
        text_entries(*final(m)) == text_entries(*old(m)).remove(key@),
{
    let ghost before = text_entries(*m);
    m.remove(key);
    assert(text_entries(*m) =~= before.remove(key@));
}

/// A record that can be deleted and restored.
pub trait Lifecycled: Sized {
    spec fn active(&self) -> bool;

    fn is_active(&self) -> (r: bool)
        ensures
            r == self.active(),
    ;
}

/// The records that are not deleted.
pub open spec fn active_ones<T: Lifecycled>(s: Seq<T>) -> Seq<T>
    decreases s.len(),
{
    if s.len() == 0 {
        s
    } else if s.last().active() {
        active_ones(s.drop_last()).push(s.last())
    } else {
        active_ones(s.drop_last())
    }
}

/// The records of a listing: those that are not deleted, or all of them.
pub open spec fn listed<T: Lifecycled>(s: Seq<T>, include_deleted: bool) -> Seq<T> {
    if include_deleted {
        s
    } else {
        active_ones(s)
    }
}

proof fn lemma_active_step<T: Lifecycled>(s: Seq<T>, k: int)
    requires
        0 <= k < s.len(),
    ensures
        active_ones(s.take(k + 1)) == if s[k].active() {
            active_ones(s.take(k)).push(s[k])
        } else {
            active_ones(s.take(k))
        },
{
    assert(s.take(k + 1).drop_last() =~= s.take(k));
}

/// The records of a listing.
pub fn list_records<T: Lifecycled>(v: Vec<T>, include_deleted: bool) -> (r: Vec<T>)
    ensures
        r@ == listed(v@, include_deleted),
{
    let mut v: Vec<T> = v;
    if include_deleted {
        return v;
    }
    let ghost all = v@;
    let ghost mut k: int = 0;
    let mut i: usize = 0;
    assert(v@ =~= active_ones(all.take(0)) + all.skip(0));
    while i < v.len()
        invariant
            0 <= k <= all.len(),
            i == active_ones(all.take(k)).len(),
            v@ == active_ones(all.take(k)) + all.skip(k),
        decreases all.len() - k,
    {
        proof {
            lemma_active_step(all, k);
            assert(v@[i as int] == all[k]);
        }
        if v[i].is_active() {
            assert(v@ =~= active_ones(all.take(k + 1)) + all.skip(k + 1));
            i += 1;
        } else {
            v.remove(i);
            assert(v@ =~= active_ones(all.take(k + 1)) + all.skip(k + 1));
        }
        proof {
            k = k + 1;
        }
    }
    assert(k == all.len());
    assert(all.take(k) =~= all);
    assert(v@ =~= active_ones(all));
    v
}

} // verus!
