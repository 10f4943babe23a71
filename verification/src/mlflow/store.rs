//! The operations of the tracking store on experiments and runs. Each takes
//! the documents that it reads and gives the ones that it writes.

use vstd::prelude::*;
use vstd::string::*;
use crate::mlflow::documents::{
    counter_key, counter_name, dataset_doc, dataset_doc_id, metric_doc, metric_doc_id,
};
use crate::mlflow::double::double_less;
use crate::mlflow::error::{RunStoreError, around, text_around};
use crate::mlflow::records::{
    ExperimentRecord, ExperimentStage, MetricPoint, ModelOutputRef, PointModel, RunLifecycle,
    RunRecord, RunStatus, copied_point,
};
use crate::mlflow::states::{
    ExperimentState, Lifecycled, RunState, StoreError, list_records, listed, opt_of, point_entries,
    remove_text, set_text, stored,
};
use crate::text::chars::{copied, opt_text, same_text, texts, views};
use crate::text::collect::{all_ok, lemma_all_ok_error, lemma_all_ok_step};
use crate::text::map::{TextMap, text_entries};
use crate::text::sort::{Ranked, lemma_sorted_map, rank_order, sort_stable, stable_sorted};

verus! {

/// Builds tenant-scoped stores over a shared document service.
pub struct SubstrateRunStoreFactory<D> {
    document: D,
}

impl<D> SubstrateRunStoreFactory<D> {
    pub closed spec fn service(&self) -> D {
        self.document
    }

    pub fn new(document: D) -> (r: Self)
        ensures
            r.service() == document,
    {
        SubstrateRunStoreFactory { document }
    }

    /// The document service.
    pub fn document(&self) -> (r: &D)
        ensures
            *r == self.service(),
    {
        &self.document
    }

    /// The error for a tenant whose collection cannot be named.
    pub fn scope_error(tenant_id: &str, cause: &str) -> (r: RunStoreError)
        ensures
            r@ == StoreError::Internal(
                around("tenant '"@, tenant_id@, "' cannot be scoped: "@) + cause@,
            ),
    {
        let mut message: String = text_around("tenant '", tenant_id, "' cannot be scoped: ");
        message.append(cause);
        RunStoreError::Internal { message }
    }
}

/// A run with its counters.
#[derive(Debug)]
pub struct StoredRun {
    pub run: RunRecord,
    pub counters: TextMap<u64>,
}

pub struct StoredRunState {
    pub run: RunState,
    pub counters: Map<Seq<char>, u64>,
}

impl View for StoredRun {
    type V = StoredRunState;

    open spec fn view(&self) -> StoredRunState {
        StoredRunState { run: self.run@, counters: self.counters@ }
    }
}

/// The id after the last one; 0 is the first.
pub open spec fn id_after(current: Option<u64>) -> int {
    match current {
        Some(n) => n + 1,
        None => 0,
    }
}

/// The id of the next experiment.
pub fn next_experiment_id(current: Option<u64>) -> (r: u64)
    requires
        id_after(current) <= u64::MAX,
    ensures
        r == id_after(current),
{
    match current {
        Some(n) => n + 1,
        None => 0,
    }
}

/// Some experiment has the name.
pub open spec fn name_is_taken(existing: Seq<ExperimentState>, name: Seq<char>) -> bool {
    exists|i: int| 0 <= i < existing.len() && (#[trigger] existing[i]).name == name
}

/// A new experiment.
pub open spec fn new_experiment(
    name: Seq<char>,
    artifact_location: Option<Seq<char>>,
    tags: Map<Seq<char>, Seq<char>>,
    existing: Seq<ExperimentState>,
    last_id: Option<u64>,
    now_ms: i64,
) -> Result<ExperimentState, StoreError> {
    if name.len() == 0 {
        Err(StoreError::Empty("name"@))
    } else if name_is_taken(existing, name) {
        Err(StoreError::ExperimentNameConflict(name))
    } else {
        Ok(
            ExperimentState {
                experiment_id: id_after(last_id) as u64,
                name,
                artifact_location,
                tags,
                stage: ExperimentStage::Active,
                creation_time_ms: now_ms,
                last_update_time_ms: now_ms,
            },
        )
    }
}

/// Creates an experiment, where no other has its name.
pub fn create_experiment(
    name: &str,
    artifact_location: Option<String>,
    tags: TextMap<String>,
    existing: &Vec<ExperimentRecord>,
    last_id: Option<u64>,
    now_ms: i64,
) -> (r: Result<ExperimentRecord, RunStoreError>)
    requires
        id_after(last_id) <= u64::MAX,
    ensures
        stored(r) == new_experiment(
            name@,
            opt_text(artifact_location),
            text_entries(tags),
            views(existing@),
            last_id,
            now_ms,
        ),
{
    if name.unicode_len() == 0 {
        return Err(RunStoreError::Empty { field: "name" });
    }
    let mut i: usize = 0;
    while i < existing.len()
        invariant
            i <= existing@.len(),
            name@.len() > 0,
            forall|j: int| 0 <= j < i ==> (#[trigger] views(existing@)[j]).name != name@,
        decreases existing@.len() - i,
    {
        if same_text(existing[i].name.as_str(), name) {
            assert(views(existing@)[i as int].name == name@);
            return Err(RunStoreError::ExperimentNameConflict { name: name.to_owned() });
        }
        i += 1;
    }
    Ok(
        ExperimentRecord {
            experiment_id: next_experiment_id(last_id),
            name: name.to_owned(),
            artifact_location,
            tags,
            stage: ExperimentStage::Active,
            creation_time_ms: now_ms,
            last_update_time_ms: now_ms,
        },
    )
}

/// The experiment that was read, or the error for its absence.
pub fn get_experiment(experiment_id: u64, found: Option<ExperimentRecord>) -> (r: Result<
    ExperimentRecord,
    RunStoreError,
>)
    ensures
        stored(r) == match opt_of(found) {
            Some(e) => Ok(e),
            None => Err(StoreError::UnknownExperiment(experiment_id)),
        },
{
    match found {
        Some(record) => Ok(record),
        None => Err(RunStoreError::UnknownExperiment { experiment_id }),
    }
}

/// An experiment in a new stage.
pub open spec fn restaged(
    experiment_id: u64,
    found: Option<ExperimentState>,
    stage: ExperimentStage,
    now_ms: i64,
) -> Result<ExperimentState, StoreError> {
    match found {
        None => Err(StoreError::UnknownExperiment(experiment_id)),
        Some(e) => Ok((ExperimentState { stage, last_update_time_ms: now_ms, ..e })),
    }
}

fn restage(
    experiment_id: u64,
    found: Option<ExperimentRecord>,
    stage: ExperimentStage,
    now_ms: i64,
) -> (r: Result<ExperimentRecord, RunStoreError>)
    ensures
        stored(r) == restaged(experiment_id, opt_of(found), stage, now_ms),
{
    match found {
        Some(record) => Ok(ExperimentRecord { stage, last_update_time_ms: now_ms, ..record }),
        None => Err(RunStoreError::UnknownExperiment { experiment_id }),
    }
}

/// A deleted experiment.
pub open spec fn experiment_deleted(
    experiment_id: u64,
    found: Option<ExperimentState>,
    now_ms: i64,
) -> Result<ExperimentState, StoreError> {
    restaged(experiment_id, found, ExperimentStage::Deleted, now_ms)
}

/// A restored experiment.
pub open spec fn experiment_restored(
    experiment_id: u64,
    found: Option<ExperimentState>,
    now_ms: i64,
) -> Result<ExperimentState, StoreError> {
    restaged(experiment_id, found, ExperimentStage::Active, now_ms)
}

/// Deletes an experiment.
pub fn delete_experiment(experiment_id: u64, found: Option<ExperimentRecord>, now_ms: i64) -> (r:
    Result<ExperimentRecord, RunStoreError>)
    ensures
        stored(r) == experiment_deleted(experiment_id, opt_of(found), now_ms),
{
    restage(experiment_id, found, ExperimentStage::Deleted, now_ms)
}

/// Restores an experiment.
pub fn restore_experiment(experiment_id: u64, found: Option<ExperimentRecord>, now_ms: i64) -> (r:
    Result<ExperimentRecord, RunStoreError>)
    ensures
        stored(r) == experiment_restored(experiment_id, opt_of(found), now_ms),
{
    restage(experiment_id, found, ExperimentStage::Active, now_ms)
}

impl Ranked for ExperimentRecord {
    open spec fn ranks_before(&self, other: &Self) -> bool {
        self.experiment_id < other.experiment_id
    }

    fn is_before(&self, other: &Self) -> (r: bool) {
        self.experiment_id < other.experiment_id
    }
}

impl Lifecycled for ExperimentRecord {
    open spec fn active(&self) -> bool {
        self.stage is Active
    }

    fn is_active(&self) -> (r: bool) {
        match self.stage {
            ExperimentStage::Active => true,
            ExperimentStage::Deleted => false,
        }
    }
}

/// The experiments by their ids, the deleted ones where they are asked for.
pub fn list_experiments(records: Vec<ExperimentRecord>, include_deleted: bool) -> (r: Vec<
    ExperimentRecord,
>)
    ensures
        r@ == listed(
            stable_sorted(records@, rank_order::<ExperimentRecord>()),
            include_deleted,
        ),
{
    list_records(sort_stable(records), include_deleted)
}

/// An experiment that can take runs.
pub open spec fn open_experiment(experiment_id: u64, found: Option<ExperimentState>) -> Result<
    ExperimentState,
    StoreError,
> {
    match found {
        None => Err(StoreError::UnknownExperiment(experiment_id)),
        Some(e) => if e.stage is Deleted {
            Err(StoreError::ExperimentDeleted(experiment_id))
        } else {
            Ok(e)
        },
    }
}

/// Whether an experiment can take runs, traces and models.
pub fn check_open(experiment_id: u64, found: &Option<ExperimentRecord>) -> (r: Result<
    (),
    RunStoreError,
>)
    ensures
        match open_experiment(experiment_id, opt_of(*found)) {
            Ok(_) => r is Ok,
            Err(e) => r matches Err(x) && x@ == e,
        },
{
    match found {
        None => Err(RunStoreError::UnknownExperiment { experiment_id }),
        Some(e) => match e.stage {
            ExperimentStage::Deleted => Err(RunStoreError::ExperimentDeleted { experiment_id }),
            ExperimentStage::Active => Ok(()),
        },
    }
}

/// A new run, which is running and holds nothing but its tags.
pub open spec fn new_run(
    experiment: Option<ExperimentState>,
    exists_already: bool,
    experiment_id: u64,
    run_id: Seq<char>,
    run_name: Option<Seq<char>>,
    user_id: Option<Seq<char>>,
    tags: Map<Seq<char>, Seq<char>>,
    start_time_ms: i64,
) -> Result<StoredRunState, StoreError> {
    if run_id.len() == 0 {
        Err(StoreError::Empty("run_id"@))
    } else {
        match open_experiment(experiment_id, experiment) {
            Err(e) => Err(e),
            Ok(_) => if exists_already {
                Err(StoreError::RunIdConflict(run_id))
            } else {
                Ok(
                    StoredRunState {
                        run: RunState {
                            run_id,
                            experiment_id,
                            run_name,
                            user_id,
                            lifecycle: RunLifecycle::Active,
                            status: RunStatus::Running,
                            start_time_ms,
                            end_time_ms: None,
                            params: Map::empty(),
                            latest_metrics: Map::empty(),
                            tags,
                            model_inputs: Seq::empty(),
                            model_outputs: Seq::empty(),
                        },
                        counters: Map::empty(),
                    },
                )
            },
        }
    }
}

/// Creates a run in an experiment that is not deleted.
pub fn create_run(
    experiment: &Option<ExperimentRecord>,
    exists_already: bool,
    experiment_id: u64,
    run_id: &str,
    run_name: Option<String>,
    user_id: Option<String>,
    tags: TextMap<String>,
    start_time_ms: i64,
) -> (r: Result<StoredRun, RunStoreError>)
    ensures
        stored(r) == new_run(
            opt_of(*experiment),
            exists_already,
            experiment_id,
            run_id@,
            opt_text(run_name),
            opt_text(user_id),
            text_entries(tags),
            start_time_ms,
        ),
{
    if run_id.unicode_len() == 0 {
        return Err(RunStoreError::Empty { field: "run_id" });
    }
    match check_open(experiment_id, experiment) {
        Err(e) => {
            return Err(e);
        },
        Ok(()) => {},
    }
    if exists_already {
        return Err(RunStoreError::RunIdConflict { run_id: run_id.to_owned() });
    }
    let run: RunRecord = RunRecord {
        run_id: run_id.to_owned(),
        experiment_id,
        run_name,
        user_id,
        lifecycle: RunLifecycle::Active,
        status: RunStatus::Running,
        start_time_ms,
        end_time_ms: None,
        params: TextMap::new(),
        latest_metrics: TextMap::new(),
        tags,
        model_inputs: Vec::new(),
        model_outputs: Vec::new(),
    };
    assert(run@.params =~= Map::empty());
    assert(run@.latest_metrics =~= Map::empty());
    assert(run@.model_inputs =~= Seq::empty());
    assert(run@.model_outputs =~= Seq::empty());
    Ok(StoredRun { run, counters: TextMap::new() })
}

/// The run that was read, or the error for its absence.
pub open spec fn known_run(run_id: Seq<char>, found: Option<StoredRunState>) -> Result<
    StoredRunState,
    StoreError,
> {
    match found {
        Some(run) => Ok(run),
        None => Err(StoreError::UnknownRun(run_id)),
    }
}

/// The run that was read, with its counters.
pub fn run_with_counters(run_id: &str, found: Option<StoredRun>) -> (r: Result<
    StoredRun,
    RunStoreError,
>)
    ensures
        stored(r) == known_run(run_id@, opt_of(found)),
        r matches Ok(s) ==> found == Some(s),
{
    match found {
        Some(s) => Ok(s),
        None => Err(RunStoreError::UnknownRun { run_id: run_id.to_owned() }),
    }
}

impl Ranked for RunRecord {
    open spec fn ranks_before(&self, other: &Self) -> bool {
        self.start_time_ms < other.start_time_ms
    }

    fn is_before(&self, other: &Self) -> (r: bool) {
        self.start_time_ms < other.start_time_ms
    }
}

impl Lifecycled for RunRecord {
    open spec fn active(&self) -> bool {
        self.lifecycle is Active
    }

    fn is_active(&self) -> (r: bool) {
        match self.lifecycle {
            RunLifecycle::Active => true,
            RunLifecycle::Deleted => false,
        }
    }
}

/// The runs by their start times, the deleted ones where they are asked for.
pub fn list_runs(records: Vec<RunRecord>, include_deleted: bool) -> (r: Vec<RunRecord>)
    ensures
        r@ == listed(stable_sorted(records@, rank_order::<RunRecord>()), include_deleted),
{
    list_records(sort_stable(records), include_deleted)
}

/// A finished run.
pub open spec fn run_finished(
    run_id: Seq<char>,
    status: RunStatus,
    end_time_ms: i64,
    found: Option<StoredRunState>,
) -> Result<StoredRunState, StoreError> {
    if !status.terminal() {
        Err(StoreError::NotTerminal)
    } else {
        match known_run(run_id, found) {
            Err(e) => Err(e),
            Ok(s) => Ok(
                (StoredRunState {
                    run: RunState { status, end_time_ms: Some(end_time_ms), ..s.run },
                    ..s
                }),
            ),
        }
    }
}

/// Finishes a run.
pub fn finish_run(
    run_id: &str,
    status: RunStatus,
    end_time_ms: i64,
    found: Option<StoredRun>,
) -> (r: Result<StoredRun, RunStoreError>)
    ensures
        stored(r) == run_finished(run_id@, status, end_time_ms, opt_of(found)),
{
    if !status.is_terminal() {
        return Err(RunStoreError::NotTerminal);
    }
    match run_with_counters(run_id, found) {
        Err(e) => Err(e),
        Ok(s) => Ok(
            StoredRun {
                run: RunRecord { status, end_time_ms: Some(end_time_ms), ..s.run },
                counters: s.counters,
            },
        ),
    }
}

/// A run that is running again.
pub open spec fn reopened(run_id: Seq<char>, found: Option<StoredRunState>) -> Result<
    StoredRunState,
    StoreError,
> {
    match known_run(run_id, found) {
        Err(e) => Err(e),
        Ok(s) => Ok(
            (StoredRunState {
                run: RunState { status: RunStatus::Running, end_time_ms: None, ..s.run },
                ..s
            }),
        ),
    }
}

/// Reopens a run.
pub fn reopen_run(run_id: &str, found: Option<StoredRun>) -> (r: Result<StoredRun, RunStoreError>)
    ensures
        stored(r) == reopened(run_id@, opt_of(found)),
{
    match run_with_counters(run_id, found) {
        Err(e) => Err(e),
        Ok(s) => Ok(
            StoredRun {
                run: RunRecord { status: RunStatus::Running, end_time_ms: None, ..s.run },
                counters: s.counters,
            },
        ),
    }
}

/// A run in a stage of its life.
pub open spec fn in_stage(
    run_id: Seq<char>,
    found: Option<StoredRunState>,
    lifecycle: RunLifecycle,
) -> Result<StoredRunState, StoreError> {
    match known_run(run_id, found) {
        Err(e) => Err(e),
        Ok(s) => Ok((StoredRunState { run: RunState { lifecycle, ..s.run }, ..s })),
    }
}

/// A deleted run.
pub open spec fn run_deleted(run_id: Seq<char>, found: Option<StoredRunState>) -> Result<
    StoredRunState,
    StoreError,
> {
    in_stage(run_id, found, RunLifecycle::Deleted)
}

/// A restored run.
pub open spec fn run_restored(run_id: Seq<char>, found: Option<StoredRunState>) -> Result<
    StoredRunState,
    StoreError,
> {
    in_stage(run_id, found, RunLifecycle::Active)
}

/// Deletes a run.
pub fn delete_run(run_id: &str, found: Option<StoredRun>) -> (r: Result<StoredRun, RunStoreError>)
    ensures
        stored(r) == run_deleted(run_id@, opt_of(found)),
{
    match run_with_counters(run_id, found) {
        Err(e) => Err(e),
        Ok(s) => Ok(
            StoredRun {
                run: RunRecord { lifecycle: RunLifecycle::Deleted, ..s.run },
                counters: s.counters,
            },
        ),
    }
}

/// Restores a run.
pub fn restore_run(run_id: &str, found: Option<StoredRun>) -> (r: Result<StoredRun, RunStoreError>)
    ensures
        stored(r) == run_restored(run_id@, opt_of(found)),
{
    match run_with_counters(run_id, found) {
        Err(e) => Err(e),
        Ok(s) => Ok(
            StoredRun {
                run: RunRecord { lifecycle: RunLifecycle::Active, ..s.run },
                counters: s.counters,
            },
        ),
    }
}

/// A run with a parameter. A parameter keeps its first value, and a finished
/// run takes none.
pub open spec fn with_param(
    run_id: Seq<char>,
    key: Seq<char>,
    value: Seq<char>,
    found: Option<StoredRunState>,
) -> Result<StoredRunState, StoreError> {
    match known_run(run_id, found) {
        Err(e) => Err(e),
        Ok(s) => if s.run.status.terminal() {
            Err(StoreError::RunFinished(run_id))
        } else if s.run.params.dom().contains(key) {
            if s.run.params[key] == value {
                Ok(s)
            } else {
                Err(StoreError::ParamImmutable(key, run_id))
            }
        } else {
            Ok(
                (StoredRunState {
                    run: RunState { params: s.run.params.insert(key, value), ..s.run },
                    ..s
                }),
            )
        },
    }
}

/// Logs a parameter. With the run comes whether it changed and is to be written.
pub fn log_param(run_id: &str, key: &str, value: &str, found: Option<StoredRun>) -> (r: Result<
    (StoredRun, bool),
    RunStoreError,
>)
    ensures
        match r {
            Ok((s, changed)) => with_param(run_id@, key@, value@, opt_of(found)) == Ok::<
                StoredRunState,
                StoreError,
            >(s@) && changed == !opt_of(found)->0.run.params.dom().contains(key@),
            Err(e) => with_param(run_id@, key@, value@, opt_of(found)) == Err::<
                StoredRunState,
                StoreError,
            >(e@),
        },
{
    let s: StoredRun = match run_with_counters(run_id, found) {
        Err(e) => {
            return Err(e);
        },
        Ok(s) => s,
    };
    if s.run.status.is_terminal() {
        return Err(RunStoreError::RunFinished { run_id: run_id.to_owned() });
    }
    let same: bool = match s.run.params.get(key) {
        Some(existing) => {
            if !same_text(existing.as_str(), value) {
                return Err(
                    RunStoreError::ParamImmutable {
                        key: key.to_owned(),
                        run_id: run_id.to_owned(),
                    },
                );
            }
            true
        },
        None => false,
    };
    let mut s: StoredRun = s;
    if same {
        return Ok((s, false));
    }
    set_text(&mut s.run.params, key.to_owned(), value.to_owned());
    Ok((s, true))
}

/// A sample stands for the metric from now on: it is later, or as late and
/// greater.
pub open spec fn advances(point: PointModel, current: Option<PointModel>) -> bool {
    match current {
        None => true,
        Some(c) => point.timestamp_ms > c.timestamp_ms || (point.timestamp_ms == c.timestamp_ms
            && double_less(c.value, point.value)),
    }
}

/// The sample that stands for a metric.
pub open spec fn point_under(m: Map<Seq<char>, PointModel>, key: Seq<char>) -> Option<PointModel> {
    if m.dom().contains(key) {
        Some(m[key])
    } else {
        None
    }
}

/// The count that a counter has reached.
pub open spec fn count_under(counters: Map<Seq<char>, u64>, name: Seq<char>) -> u64 {
    if counters.dom().contains(name) {
        counters[name]
    } else {
        0
    }
}

/// A run with a sample of a metric.
pub open spec fn with_metric(
    run_id: Seq<char>,
    point: PointModel,
    found: Option<StoredRunState>,
) -> Result<StoredRunState, StoreError> {
    match known_run(run_id, found) {
        Err(e) => Err(e),
        Ok(s) => if s.run.status.terminal() {
            Err(StoreError::RunFinished(run_id))
        } else {
            let name = counter_name(point.key);
            Ok(
                StoredRunState {
                    run: RunState {
                        latest_metrics: if advances(
                            point,
                            point_under(s.run.latest_metrics, point.key),
                        ) {
                            s.run.latest_metrics.insert(point.key, point)
                        } else {
                            s.run.latest_metrics
                        },
                        ..s.run
                    },
                    counters: s.counters.insert(
                        name,
                        (count_under(s.counters, name) + 1) as u64,
                    ),
                },
            )
        },
    }
}

/// What an append wrote: the run, the id of the sample's own document, and how
/// long the history of the metric is now.
#[derive(Debug)]
pub struct MetricAppend {
    pub stored: StoredRun,
    pub doc_id: String,
    pub history_len: u64,
}

fn count_of(counters: &TextMap<u64>, name: &str) -> (r: u64)
    ensures
        r == count_under(counters@, name@),
{
    match counters.get(name) {
        Some(n) => *n,
        None => 0,
    }
}

/// Logs a sample of a metric.
pub fn log_metric(run_id: &str, point: &MetricPoint, found: Option<StoredRun>) -> (r: Result<
    MetricAppend,
    RunStoreError,
>)
    requires
        opt_of(found) matches Some(s) ==> count_under(s.counters, counter_name(point.key@))
            < u64::MAX,
    ensures
        match r {
            Ok(a) => with_metric(run_id@, point@, opt_of(found)) == Ok::<
                StoredRunState,
                StoreError,
            >(a.stored@) && a.history_len == count_under(
                opt_of(found)->0.counters,
                counter_name(point.key@),
            ) + 1 && a.doc_id@ == metric_doc(run_id@, point.key@, a.history_len),
            Err(e) => with_metric(run_id@, point@, opt_of(found)) == Err::<
                StoredRunState,
                StoreError,
            >(e@),
        },
{
    let mut s: StoredRun = match run_with_counters(run_id, found) {
        Err(e) => {
            return Err(e);
        },
        Ok(s) => s,
    };
    if s.run.status.is_terminal() {
        return Err(RunStoreError::RunFinished { run_id: run_id.to_owned() });
    }
    let name: String = counter_key(point.key.as_str());
    let next: u64 = count_of(&s.counters, name.as_str()) + 1;
    let doc_id: String = metric_doc_id(run_id, point.key.as_str(), next);
    let moves: bool = match s.run.latest_metrics.get(point.key.as_str()) {
        None => true,
        Some(current) => point.timestamp_ms > current.timestamp_ms || (point.timestamp_ms
            == current.timestamp_ms && current.value.less(point.value)),
    };
    let ghost before = s@;
    s.counters.insert(name, next);
    if moves {
        s.run.latest_metrics.insert(copied(&point.key), copied_point(point));
        assert(point_entries(s.run.latest_metrics) =~= before.run.latest_metrics.insert(
            point.key@,
            point@,
        ));
    }
    Ok(MetricAppend { stored: s, doc_id, history_len: next })
}

/// A document that holds a sample: its id, its number as far as it has one, what
/// stands in place of the number, and the sample as far as it can be read.
#[derive(Debug)]
pub struct SampleDoc<T> {
    pub id: String,
    pub seq: Option<i64>,
    pub shown: String,
    pub sample: SampleRead<T>,
}

#[derive(Debug)]
pub enum SampleRead<T> {
    Sample(T),
    /// There is no text to read it from.
    Missing,
    /// The text is none of a sample.
    Corrupt,
}

/// The number and the sample of a document.
pub open spec fn numbered<T>(doc: SampleDoc<T>, kind: Seq<char>, tail: Seq<char>) -> Result<
    (u64, T),
    StoreError,
> {
    match doc.seq {
        None => Err(
            StoreError::Internal(
                kind + " doc '"@ + doc.id@ + "' missing its seq field ("@ + doc.shown@ + ")"@ + tail,
            ),
        ),
        Some(seq) => match doc.sample {
            SampleRead::Missing => Err(
                StoreError::Internal(kind + " doc '"@ + doc.id@ + "' has no payload"@),
            ),
            SampleRead::Corrupt => Err(
                StoreError::Internal("corrupt "@ + kind + " doc '"@ + doc.id@ + "'"@),
            ),
            SampleRead::Sample(t) => Ok((seq as u64, t)),
        },
    }
}

/// The samples by their numbers.
pub open spec fn samples_in_order<T>(docs: Seq<SampleDoc<T>>, kind: Seq<char>, tail: Seq<char>) -> Result<
    Seq<T>,
    StoreError,
> {
    match all_ok(docs.map_values(|d: SampleDoc<T>| numbered(d, kind, tail))) {
        Err(e) => Err(e),
        Ok(points) => Ok(
            stable_sorted(points, |a: (u64, T), b: (u64, T)| a.0 < b.0).map_values(
                |p: (u64, T)| p.1,
            ),
        ),
    }
}

/// A sample with its number.
struct Numbered<T> {
    pair: (u64, T),
}

impl<T> Ranked for Numbered<T> {
    closed spec fn ranks_before(&self, other: &Self) -> bool {
        self.pair.0 < other.pair.0
    }

    fn is_before(&self, other: &Self) -> (r: bool) {
        self.pair.0 < other.pair.0
    }
}

fn number_sample<T>(doc: SampleDoc<T>, kind: &str, tail: &str) -> (r: Result<
    (u64, T),
    RunStoreError,
>)
    ensures
        (match r {
            Ok(p) => Ok(p),
            Err(e) => Err(e@),
        }) == numbered(doc, kind@, tail@),
{
    match doc.seq {
        None => {
            let mut message: String = kind.to_owned();
            message.append(" doc '");
            message.append(doc.id.as_str());
            message.append("' missing its seq field (");
            message.append(doc.shown.as_str());
            message.append(")");
            message.append(tail);
            Err(RunStoreError::Internal { message })
        },
        Some(seq) => match doc.sample {
            SampleRead::Missing => {
                let mut message: String = kind.to_owned();
                message.append(" doc '");
                message.append(doc.id.as_str());
                message.append("' has no payload");
                Err(RunStoreError::Internal { message })
            },
            SampleRead::Corrupt => {
                let mut message: String = "corrupt ".to_owned();
                message.append(kind);
                message.append(" doc '");
                message.append(doc.id.as_str());
                message.append("'");
                Err(RunStoreError::Internal { message })
            },
            SampleRead::Sample(t) => Ok((seq as u64, t)),
        },
    }
}

/// The outcome of an operation of the store that gives a list.
pub open spec fn list_outcome<T>(r: Result<Vec<T>, RunStoreError>) -> Result<Seq<T>, StoreError> {
    match r {
        Ok(v) => Ok(v@),
        Err(e) => Err(e@),
    }
}

/// Reads the samples of some documents, by their numbers.
pub fn order_samples<T>(docs: Vec<SampleDoc<T>>, kind: &str, tail: &str) -> (r: Result<
    Vec<T>,
    RunStoreError,
>)
    ensures
        list_outcome(r) == samples_in_order(docs@, kind@, tail@),
{
    let ghost all = docs@;
    let ghost results = all.map_values(|d: SampleDoc<T>| numbered(d, kind@, tail@));
    let mut back: Vec<SampleDoc<T>> = Vec::new();
    let mut unread: Vec<SampleDoc<T>> = docs;
    while unread.len() > 0
        invariant
            unread@.len() + back@.len() == all.len(),
            unread@ == all.take(unread@.len() as int),
            forall|j: int| 0 <= j < back@.len() ==> #[trigger] back@[j] == all[all.len() - 1 - j],
        decreases unread@.len(),
    {
        let ghost n = unread@.len();
        if let Some(doc) = unread.pop() {
            assert(doc == all[n - 1]);
            assert(unread@ =~= all.take(n - 1));
            back.push(doc);
        }
    }
    let mut points: Vec<Numbered<T>> = Vec::new();
    let ghost mut pairs: Seq<(u64, T)> = Seq::empty();
    assert(results.take(0) =~= Seq::empty());
    while back.len() > 0
        invariant
            points@.len() + back@.len() == all.len(),
            all == docs@,
            results == all.map_values(|d: SampleDoc<T>| numbered(d, kind@, tail@)),
            forall|j: int| 0 <= j < back@.len() ==> #[trigger] back@[j] == all[all.len() - 1 - j],
            pairs.len() == points@.len(),
            forall|j: int| 0 <= j < pairs.len() ==> #[trigger] points@[j].pair == pairs[j],
            all_ok(results.take(points@.len() as int)) == Ok::<Seq<(u64, T)>, StoreError>(pairs),
            samples_in_order(all, kind@, tail@) == (match all_ok(results) {
                Err(e) => Err(e),
                Ok(points) => Ok(
                    stable_sorted(points, |a: (u64, T), b: (u64, T)| a.0 < b.0).map_values(
                        |p: (u64, T)| p.1,
                    ),
                ),
            }),
        decreases back@.len(),
    {
        let ghost k = points@.len() as int;
        let ghost m = back@.len() as int;
        if let Some(doc) = back.pop() {
            assert(back@.len() == m - 1);
            assert(doc == all[k]);
            proof {
                lemma_all_ok_step(results, k);
                assert(results[k] == numbered(all[k], kind@, tail@));
            }
            match number_sample(doc, kind, tail) {
                Err(e) => {
                    proof {
                        lemma_all_ok_error(results, k + 1);
                    }
                    return Err(e);
                },
                Ok(pair) => {
                    proof {
                        pairs = pairs.push(pair);
                    }
                    points.push(Numbered { pair });
                },
            }
        }
    }
    assert(results.take(points@.len() as int) =~= results);
    let ghost by_number = |a: (u64, T), b: (u64, T)| a.0 < b.0;
    proof {
        lemma_sorted_map(
            points@,
            rank_order::<Numbered<T>>(),
            |n: Numbered<T>| n.pair,
            by_number,
        );
        assert(points@.map_values(|n: Numbered<T>| n.pair) =~= pairs);
    }
    let sorted: Vec<Numbered<T>> = sort_stable(points);
    let ghost sorted_pairs = stable_sorted(pairs, by_number);
    let ghost result = sorted_pairs.map_values(|p: (u64, T)| p.1);
    assert(sorted@.map_values(|n: Numbered<T>| n.pair) == sorted_pairs);
    assert(sorted@.len() == sorted_pairs.len());
    assert forall|j: int| 0 <= j < sorted@.len() implies #[trigger] sorted@[j].pair.1
        == result[j] by {
        assert(sorted@.map_values(|n: Numbered<T>| n.pair)[j] == sorted_pairs[j]);
    }
    let mut rest: Vec<Numbered<T>> = sorted;
    let mut back: Vec<T> = Vec::new();
    while rest.len() > 0
        invariant
            rest@.len() + back@.len() == result.len(),
            forall|j: int| 0 <= j < rest@.len() ==> #[trigger] rest@[j].pair.1 == result[j],
            forall|j: int|
                0 <= j < back@.len() ==> #[trigger] back@[j] == result[result.len() - 1 - j],
        decreases rest@.len(),
    {
        if let Some(n) = rest.pop() {
            back.push(n.pair.1);
        }
    }
    let mut r: Vec<T> = Vec::new();
    while back.len() > 0
        invariant
            r@.len() + back@.len() == result.len(),
            forall|j: int|
                0 <= j < back@.len() ==> #[trigger] back@[j] == result[result.len() - 1 - j],
            forall|j: int| 0 <= j < r@.len() ==> #[trigger] r@[j] == result[j],
        decreases back@.len(),
    {
        if let Some(t) = back.pop() {
            r.push(t);
        }
    }
    assert(r@ =~= result);
    Ok(r)
}

/// The history of a metric, in the order in which it was logged.
pub fn metric_history(
    run_id: &str,
    found: &Option<StoredRun>,
    docs: Vec<SampleDoc<MetricPoint>>,
) -> (r: Result<Vec<MetricPoint>, RunStoreError>)
    ensures
        list_outcome(r) == if *found is None {
            Err(StoreError::UnknownRun(run_id@))
        } else {
            samples_in_order(docs@, "metric"@, " — cannot order history"@)
        },
{
    match found {
        None => Err(RunStoreError::UnknownRun { run_id: run_id.to_owned() }),
        Some(_) => order_samples(docs, "metric", " — cannot order history"),
    }
}

/// A run with a tag.
pub open spec fn tagged(
    run_id: Seq<char>,
    key: Seq<char>,
    value: Seq<char>,
    found: Option<StoredRunState>,
) -> Result<StoredRunState, StoreError> {
    match known_run(run_id, found) {
        Err(e) => Err(e),
        Ok(s) => Ok(
            (StoredRunState {
                run: RunState { tags: s.run.tags.insert(key, value), ..s.run },
                ..s
            }),
        ),
    }
}

/// Sets a tag of a run. No counter changes.
pub fn set_tag(run_id: &str, key: &str, value: &str, found: Option<StoredRun>) -> (r: Result<
    StoredRun,
    RunStoreError,
>)
    ensures
        stored(r) == tagged(run_id@, key@, value@, opt_of(found)),
{
    match run_with_counters(run_id, found) {
        Err(e) => Err(e),
        Ok(s) => {
            let mut s: StoredRun = s;
            set_text(&mut s.run.tags, key.to_owned(), value.to_owned());
            Ok(s)
        },
    }
}

/// A run without a tag.
pub open spec fn untagged(run_id: Seq<char>, key: Seq<char>, found: Option<StoredRunState>) -> Result<
    StoredRunState,
    StoreError,
> {
    match known_run(run_id, found) {
        Err(e) => Err(e),
        Ok(s) => Ok(
            (StoredRunState { run: RunState { tags: s.run.tags.remove(key), ..s.run }, ..s }),
        ),
    }
}

/// Removes a tag of a run. No counter changes.
pub fn delete_tag(run_id: &str, key: &str, found: Option<StoredRun>) -> (r: Result<
    StoredRun,
    RunStoreError,
>)
    ensures
        stored(r) == untagged(run_id@, key@, opt_of(found)),
{
    match run_with_counters(run_id, found) {
        Err(e) => Err(e),
        Ok(s) => {
            let mut s: StoredRun = s;
            remove_text(&mut s.run.tags, key);
            Ok(s)
        },
    }
}

/// Counts a dataset of a run. With the run comes the id of the dataset's own
/// document.
pub fn log_dataset_input(run_id: &str, found: Option<StoredRun>) -> (r: Result<
    (StoredRun, String),
    RunStoreError,
>)
    requires
        opt_of(found) matches Some(s) ==> count_under(s.counters, "ds"@) < u64::MAX,
    ensures
        match r {
            Ok((s, doc_id)) => {
                let before = opt_of(found)->0;
                let n = (count_under(before.counters, "ds"@) + 1) as u64;
                &&& found is Some
                &&& s@ == StoredRunState { counters: before.counters.insert("ds"@, n), ..before }
                &&& doc_id@ == dataset_doc(run_id@, n)
            },
            Err(e) => found is None && e@ == StoreError::UnknownRun(run_id@),
        },
{
    match run_with_counters(run_id, found) {
        Err(e) => Err(e),
        Ok(s) => {
            let mut s: StoredRun = s;
            let n: u64 = count_of(&s.counters, "ds") + 1;
            s.counters.insert("ds".to_owned(), n);
            let doc_id: String = dataset_doc_id(run_id, n);
            Ok((s, doc_id))
        },
    }
}

/// A run with more models that it produced.
pub open spec fn with_outputs(
    run_id: Seq<char>,
    outputs: Seq<(Seq<char>, i64)>,
    found: Option<StoredRunState>,
) -> Result<StoredRunState, StoreError> {
    match known_run(run_id, found) {
        Err(e) => Err(e),
        Ok(s) => Ok(
            (StoredRunState {
                run: RunState { model_outputs: s.run.model_outputs + outputs, ..s.run },
                ..s
            }),
        ),
    }
}

/// A run with more models that it used.
pub open spec fn with_inputs(
    run_id: Seq<char>,
    model_ids: Seq<Seq<char>>,
    found: Option<StoredRunState>,
) -> Result<StoredRunState, StoreError> {
    match known_run(run_id, found) {
        Err(e) => Err(e),
        Ok(s) => Ok(
            (StoredRunState {
                run: RunState { model_inputs: s.run.model_inputs + model_ids, ..s.run },
                ..s
            }),
        ),
    }
}

/// Adds models that a run produced.
pub fn log_run_outputs(run_id: &str, outputs: Vec<ModelOutputRef>, found: Option<StoredRun>) -> (r:
    Result<StoredRun, RunStoreError>)
    ensures
        stored(r) == with_outputs(run_id@, views(outputs@), opt_of(found)),
{
    match run_with_counters(run_id, found) {
        Err(e) => Err(e),
        Ok(s) => {
            let mut s: StoredRun = s;
            let mut outputs: Vec<ModelOutputRef> = outputs;
            let ghost before = s.run.model_outputs@;
            let ghost more = outputs@;
            s.run.model_outputs.append(&mut outputs);
            assert(views(s.run.model_outputs@) =~= views(before) + views(more));
            Ok(s)
        },
    }
}

/// Adds models that a run used.
pub fn log_run_model_inputs(run_id: &str, model_ids: Vec<String>, found: Option<StoredRun>) -> (r:
    Result<StoredRun, RunStoreError>)
    ensures
        stored(r) == with_inputs(run_id@, texts(model_ids@), opt_of(found)),
{
    match run_with_counters(run_id, found) {
        Err(e) => Err(e),
        Ok(s) => {
            let mut s: StoredRun = s;
            let mut model_ids: Vec<String> = model_ids;
            let ghost before = s.run.model_inputs@;
            let ghost more = model_ids@;
            s.run.model_inputs.append(&mut model_ids);
            assert(texts(s.run.model_inputs@) =~= texts(before) + texts(more));
            Ok(s)
        },
    }
}

/// Parameters are immutable: once logged, a parameter keeps its value through
/// every later parameter.
pub proof fn law_params_are_immutable(
    run_id: Seq<char>,
    key: Seq<char>,
    value: Seq<char>,
    before: StoredRunState,
)
    ensures
        match with_param(run_id, key, value, Some(before)) {
            Ok(after) => {
                &&& after.run.params.dom().contains(key)
                &&& after.run.params[key] == value
                &&& forall|k: Seq<char>|
                    #[trigger] before.run.params.dom().contains(k)
                        ==> after.run.params.dom().contains(k) && after.run.params[k]
                        == before.run.params[k]
            },
            Err(_) => before.run.status.terminal() || (before.run.params.dom().contains(key)
                && before.run.params[key] != value),
        },
{
}

/// Logging a parameter again with the same value changes nothing.
pub proof fn law_logging_again_changes_nothing(
    run_id: Seq<char>,
    key: Seq<char>,
    value: Seq<char>,
    before: StoredRunState,
)
    requires
        with_param(run_id, key, value, Some(before)) is Ok,
    ensures
        with_param(run_id, key, value, Some(with_param(run_id, key, value, Some(before))->Ok_0))
            == with_param(run_id, key, value, Some(before)),
{
}

/// A finished run takes no parameter and no sample, until it is reopened.
pub proof fn law_finished_runs_are_closed(
    run_id: Seq<char>,
    status: RunStatus,
    end_time_ms: i64,
    before: StoredRunState,
    key: Seq<char>,
    value: Seq<char>,
    point: PointModel,
)
    requires
        status.terminal(),
    ensures
        run_finished(run_id, status, end_time_ms, Some(before)) matches Ok(after) && with_param(
            run_id,
            key,
            value,
            Some(after),
        ) == Err::<StoredRunState, StoreError>(StoreError::RunFinished(run_id)) && with_metric(
            run_id,
            point,
            Some(after),
        ) == Err::<StoredRunState, StoreError>(StoreError::RunFinished(run_id)) && reopened(
            run_id,
            Some(after),
        ) == reopened(run_id, Some(before)),
{
}

/// A restored run is the run that was deleted.
pub proof fn law_restoring_undoes_deleting(run_id: Seq<char>, before: StoredRunState)
    requires
        before.run.lifecycle is Active,
    ensures
        in_stage(run_id, Some(before), RunLifecycle::Deleted) matches Ok(deleted) && in_stage(
            run_id,
            Some(deleted),
            RunLifecycle::Active,
        ) == Ok::<StoredRunState, StoreError>(before),
{
}

/// The sample that stands for a metric after some samples were logged.
pub open spec fn latest_of(points: Seq<PointModel>) -> Option<PointModel>
    decreases points.len(),
{
    if points.len() == 0 {
        None
    } else {
        let before = latest_of(points.drop_last());
        if advances(points.last(), before) {
            Some(points.last())
        } else {
            before
        }
    }
}

/// Logging a sample moves the sample that stands for its metric as `latest_of`
/// says, and leaves those of the others.
pub proof fn law_projection_follows(
    run_id: Seq<char>,
    point: PointModel,
    before: StoredRunState,
    earlier: Seq<PointModel>,
    other: Seq<char>,
)
    requires
        !before.run.status.terminal(),
        point_under(before.run.latest_metrics, point.key) == latest_of(earlier),
        other != point.key,
    ensures
        with_metric(run_id, point, Some(before)) matches Ok(after) && point_under(
            after.run.latest_metrics,
            point.key,
        ) == latest_of(earlier.push(point)) && point_under(after.run.latest_metrics, other)
            == point_under(before.run.latest_metrics, other),
{
    assert(earlier.push(point).drop_last() =~= earlier);
}

/// The sample that stands for a metric is one of those logged, and none of them
/// is later, or as late and greater.
pub proof fn law_latest_sample_is_unsurpassed(points: Seq<PointModel>)
    requires
        points.len() > 0,
    ensures
        latest_of(points) matches Some(p) && points.contains(p),
        forall|i: int|
            0 <= i < points.len() ==> !advances(#[trigger] points[i], latest_of(points)),
    decreases points.len(),
{
    let n = points.len() - 1;
    let before = points.drop_last();
    if n > 0 {
        law_latest_sample_is_unsurpassed(before);
        assert forall|i: int| 0 <= i < points.len() implies !advances(
            #[trigger] points[i],
            latest_of(points),
        ) by {
            if i < n {
                assert(!advances(before[i], latest_of(before)));
            }
        }
        let p = latest_of(before)->0;
        let k = choose|k: int| 0 <= k < before.len() && before[k] == p;
        assert(points[k] == p);
    } else {
        assert(latest_of(before) is None);
    }
    assert(points[n] == points.last());
}

/// Tags never reach a counter.
pub proof fn law_tags_leave_counters(
    run_id: Seq<char>,
    key: Seq<char>,
    value: Seq<char>,
    before: StoredRunState,
)
    ensures
        tagged(run_id, key, value, Some(before)) matches Ok(s) && s.counters == before.counters,
        untagged(run_id, key, Some(before)) matches Ok(s) && s.counters == before.counters,
{
}

} // verus!
