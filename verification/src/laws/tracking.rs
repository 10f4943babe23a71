//! What the operations of the tracking store do to its records.

use vstd::prelude::*;
use vstd::string::*;
use crate::laws::search::lemma_all_ok_each;
use crate::mlflow::documents::counter_name;
use crate::mlflow::double::double_less;
use crate::mlflow::logged::{
    StoredModelState, model_created, model_deleted, model_finalized, model_untagged,
    model_with_params, model_with_tags, visible_model, with_params, with_tags,
};
use crate::mlflow::records::{
    ExperimentRecord, LoggedModelRecord, LoggedModelStatus, PointModel, RunRecord, RunStatus,
};
use crate::mlflow::states::{ExperimentState, LoggedModelState, StoreError, TraceState, listed};
use crate::mlflow::store::{
    SampleDoc, StoredRunState, count_under, experiment_deleted, experiment_restored, new_experiment,
    new_run, numbered, reopened, run_deleted, run_finished, run_restored, samples_in_order, tagged,
    untagged, with_inputs, with_metric, with_outputs, with_param,
};
use crate::mlflow::traces::{trace_started, trace_tagged, trace_untagged, traces_to_delete};

verus! {

/// Deleting an experiment makes it deleted and restoring it makes it active;
/// both note the time and change nothing else, and an experiment that is not
/// there is reported.
pub proof fn law_experiments_change_stage(id: u64, e: ExperimentState, now_ms: i64)
    ensures
        experiment_deleted(id, Some(e), now_ms) matches Ok(d) && d.stage is Deleted
            && d.last_update_time_ms == now_ms && d.experiment_id == e.experiment_id && d.name
            == e.name && d.tags == e.tags && d.artifact_location == e.artifact_location
            && d.creation_time_ms == e.creation_time_ms,
        experiment_restored(id, Some(e), now_ms) matches Ok(r) && r.stage is Active
            && r.last_update_time_ms == now_ms && r.experiment_id == e.experiment_id && r.name
            == e.name && r.tags == e.tags && r.artifact_location == e.artifact_location
            && r.creation_time_ms == e.creation_time_ms,
        experiment_deleted(id, None, now_ms) == Err::<ExperimentState, StoreError>(
            StoreError::UnknownExperiment(id),
        ),
        experiment_restored(id, None, now_ms) == Err::<ExperimentState, StoreError>(
            StoreError::UnknownExperiment(id),
        ),
{
}

/// A new experiment is active, has the name, the tags and the location it was
/// given, and the id behind the last one, the first 0; a name that is empty or
/// taken is refused.
pub proof fn law_new_experiments_are_what_was_asked_for(
    name: Seq<char>,
    location: Option<Seq<char>>,
    tags: Map<Seq<char>, Seq<char>>,
    existing: Seq<ExperimentState>,
    last_id: u64,
    now_ms: i64,
    i: int,
)
    requires
        last_id < u64::MAX,
    ensures
        new_experiment(name, location, tags, existing, Some(last_id), now_ms) matches Ok(e) ==> {
            &&& e.stage is Active
            &&& e.name == name && e.tags == tags && e.artifact_location == location
            &&& e.experiment_id == last_id + 1
            &&& e.creation_time_ms == now_ms && e.last_update_time_ms == now_ms
        },
        new_experiment(name, location, tags, Seq::empty(), None, now_ms) matches Ok(e)
            ==> e.experiment_id == 0,
        name.len() > 0 ==> new_experiment(
            name,
            location,
            tags,
            Seq::empty(),
            Some(last_id),
            now_ms,
        ) is Ok,
        name.len() == 0 ==> new_experiment(
            name,
            location,
            tags,
            existing,
            Some(last_id),
            now_ms,
        ) is Err,
        0 <= i < existing.len() && existing[i].name == name && name.len() > 0 ==> new_experiment(
            name,
            location,
            tags,
            existing,
            Some(last_id),
            now_ms,
        ) == Err::<ExperimentState, StoreError>(StoreError::ExperimentNameConflict(name)),
{
}

/// A new run is running, active and empty but for its tags, in the experiment it
/// was asked for; a deleted or unknown experiment, an empty id and an id that is
/// taken are refused.
pub proof fn law_new_runs_start_empty(
    e: ExperimentState,
    id: u64,
    run_id: Seq<char>,
    name: Option<Seq<char>>,
    user: Option<Seq<char>>,
    tags: Map<Seq<char>, Seq<char>>,
    start: i64,
)
    requires
        run_id.len() > 0,
    ensures
        e.stage is Active ==> (new_run(
            Some(e),
            false,
            id,
            run_id,
            name,
            user,
            tags,
            start,
        ) matches Ok(s) && {
            &&& s.run.status is Running && s.run.lifecycle is Active
            &&& s.run.run_id == run_id && s.run.experiment_id == id && s.run.run_name == name
                && s.run.user_id == user && s.run.tags == tags && s.run.start_time_ms == start
            &&& s.run.end_time_ms is None && s.run.model_inputs.len() == 0
                && s.run.model_outputs.len() == 0
            &&& s.run.params.dom() == Set::<Seq<char>>::empty() && s.run.latest_metrics.dom()
                == Set::<Seq<char>>::empty() && s.counters.dom() == Set::<Seq<char>>::empty()
        }),
        e.stage is Active ==> new_run(Some(e), true, id, run_id, name, user, tags, start) == Err::<
            StoredRunState,
            StoreError,
        >(StoreError::RunIdConflict(run_id)),
        e.stage is Deleted ==> new_run(
            Some(e),
            false,
            id,
            run_id,
            name,
            user,
            tags,
            start,
        ) == Err::<StoredRunState, StoreError>(StoreError::ExperimentDeleted(id)),
        new_run(None, false, id, run_id, name, user, tags, start) == Err::<
            StoredRunState,
            StoreError,
        >(StoreError::UnknownExperiment(id)),
        new_run(Some(e), false, id, Seq::empty(), name, user, tags, start) is Err,
{
    if e.stage is Active {
        let s = new_run(Some(e), false, id, run_id, name, user, tags, start)->Ok_0;
        assert(s.run.params.dom() =~= Set::<Seq<char>>::empty());
        assert(s.run.latest_metrics.dom() =~= Set::<Seq<char>>::empty());
        assert(s.counters.dom() =~= Set::<Seq<char>>::empty());
    }
}

/// Finishing a run gives it the status and the end; reopening it makes it run
/// without an end; deleting and restoring it change its stage. None of them
/// changes anything else.
pub proof fn law_runs_change_state(
    id: Seq<char>,
    s: StoredRunState,
    status: RunStatus,
    end: i64,
)
    ensures
        !(status is Running) ==> (run_finished(id, status, end, Some(s)) matches Ok(f)
            && f.run.status == status && f.run.end_time_ms == Some(end) && f.run.params
            == s.run.params && f.run.tags == s.run.tags && f.run.latest_metrics
            == s.run.latest_metrics && f.run.lifecycle == s.run.lifecycle && f.run.run_id
            == s.run.run_id && f.counters == s.counters),
        run_finished(id, RunStatus::Running, end, Some(s)) is Err,
        reopened(id, Some(s)) matches Ok(r) && r.run.status is Running && r.run.end_time_ms is None
            && r.run.params == s.run.params && r.run.tags == s.run.tags && r.run.latest_metrics
            == s.run.latest_metrics && r.run.run_id == s.run.run_id && r.counters == s.counters,
        run_deleted(id, Some(s)) matches Ok(d) && d.run.lifecycle is Deleted && d.run.status
            == s.run.status && d.run.params == s.run.params && d.run.tags == s.run.tags
            && d.run.run_id == s.run.run_id && d.counters == s.counters,
        run_restored(id, Some(s)) matches Ok(d) && d.run.lifecycle is Active && d.run.status
            == s.run.status && d.run.params == s.run.params && d.run.tags == s.run.tags
            && d.run.run_id == s.run.run_id && d.counters == s.counters,
{
}

/// What is done to a run that is not there is reported.
pub proof fn law_unknown_runs_are_reported(
    id: Seq<char>,
    key: Seq<char>,
    value: Seq<char>,
    point: PointModel,
)
    ensures
        run_deleted(id, None) == Err::<StoredRunState, StoreError>(StoreError::UnknownRun(id)),
        run_restored(id, None) == Err::<StoredRunState, StoreError>(StoreError::UnknownRun(id)),
        reopened(id, None) == Err::<StoredRunState, StoreError>(StoreError::UnknownRun(id)),
        run_finished(id, RunStatus::Finished, 0, None) == Err::<StoredRunState, StoreError>(
            StoreError::UnknownRun(id),
        ),
        with_param(id, key, value, None) == Err::<StoredRunState, StoreError>(
            StoreError::UnknownRun(id),
        ),
        with_metric(id, point, None) == Err::<StoredRunState, StoreError>(
            StoreError::UnknownRun(id),
        ),
        tagged(id, key, value, None) == Err::<StoredRunState, StoreError>(
            StoreError::UnknownRun(id),
        ),
        untagged(id, key, None) == Err::<StoredRunState, StoreError>(StoreError::UnknownRun(id)),
{
}

/// A tag that is set is there with its value, one that is deleted is not, and no
/// other tag changes; a finished run still takes tags.
pub proof fn law_tags_are_set_and_deleted(
    id: Seq<char>,
    s: StoredRunState,
    key: Seq<char>,
    value: Seq<char>,
    other: Seq<char>,
)
    requires
        other != key,
    ensures
        tagged(id, key, value, Some(s)) matches Ok(t) && {
            &&& t.run.tags.dom().contains(key) && t.run.tags[key] == value
            &&& t.run.tags.dom().contains(other) <==> s.run.tags.dom().contains(other)
            &&& s.run.tags.dom().contains(other) ==> t.run.tags[other] == s.run.tags[other]
            &&& t.run.params == s.run.params && t.run.latest_metrics == s.run.latest_metrics
        },
        untagged(id, key, Some(s)) matches Ok(t) && {
            &&& !t.run.tags.dom().contains(key)
            &&& t.run.tags.dom().contains(other) <==> s.run.tags.dom().contains(other)
            &&& s.run.tags.dom().contains(other) ==> t.run.tags[other] == s.run.tags[other]
            &&& t.run.params == s.run.params && t.run.latest_metrics == s.run.latest_metrics
        },
{
}

/// A new parameter of a running run is there with its value, and no other
/// parameter changes.
pub proof fn law_params_are_logged(
    id: Seq<char>,
    s: StoredRunState,
    key: Seq<char>,
    value: Seq<char>,
    other: Seq<char>,
)
    requires
        s.run.status is Running,
        !s.run.params.dom().contains(key),
        other != key,
    ensures
        with_param(id, key, value, Some(s)) matches Ok(t) && {
            &&& t.run.params.dom().contains(key) && t.run.params[key] == value
            &&& t.run.params.dom().contains(other) <==> s.run.params.dom().contains(other)
            &&& s.run.params.dom().contains(other) ==> t.run.params[other] == s.run.params[other]
            &&& t.run.tags == s.run.tags && t.counters == s.counters
        },
{
}

/// A sample of a running run is counted; it stands for its metric where it is
/// the first, is later than the one before, or is as late and greater, and else
/// the one before goes on standing for it.
pub proof fn law_metrics_are_logged(id: Seq<char>, s: StoredRunState, point: PointModel)
    requires
        s.run.status is Running,
        count_under(s.counters, counter_name(point.key)) < u64::MAX,
    ensures
        with_metric(id, point, Some(s)) matches Ok(t) && {
            &&& count_under(t.counters, counter_name(point.key)) == count_under(
                s.counters,
                counter_name(point.key),
            ) + 1
            &&& t.run.latest_metrics.dom().contains(point.key)
            &&& !s.run.latest_metrics.dom().contains(point.key)
                ==> t.run.latest_metrics[point.key] == point
            &&& s.run.latest_metrics.dom().contains(point.key) && point.timestamp_ms
                > s.run.latest_metrics[point.key].timestamp_ms
                ==> t.run.latest_metrics[point.key] == point
            &&& s.run.latest_metrics.dom().contains(point.key) && point.timestamp_ms
                < s.run.latest_metrics[point.key].timestamp_ms
                ==> t.run.latest_metrics[point.key] == s.run.latest_metrics[point.key]
            &&& s.run.latest_metrics.dom().contains(point.key) && point.timestamp_ms
                == s.run.latest_metrics[point.key].timestamp_ms ==> t.run.latest_metrics[point.key]
                == (if double_less(s.run.latest_metrics[point.key].value, point.value) {
                point
            } else {
                s.run.latest_metrics[point.key]
            })
            &&& t.run.params == s.run.params && t.run.tags == s.run.tags
        },
{
}

/// Models that a run used or produced are added behind those already there.
pub proof fn law_models_are_added(
    id: Seq<char>,
    s: StoredRunState,
    outputs: Seq<(Seq<char>, i64)>,
    inputs: Seq<Seq<char>>,
)
    ensures
        with_outputs(id, outputs, Some(s)) matches Ok(t) && t.run.model_outputs
            == s.run.model_outputs + outputs && t.run.model_inputs == s.run.model_inputs,
        with_inputs(id, inputs, Some(s)) matches Ok(t) && t.run.model_inputs
            == s.run.model_inputs + inputs && t.run.model_outputs == s.run.model_outputs,
        with_outputs(id, outputs, None) is Err,
        with_inputs(id, inputs, None) is Err,
{
}

/// A listing leaves out the deleted runs and nothing else, unless they are asked
/// for.
pub proof fn law_listings_leave_out_the_deleted(s: Seq<RunRecord>, run: RunRecord)
    ensures
        listed(s, true) == s,
        run.lifecycle is Active ==> listed(s.push(run), false) == listed(s, false).push(run),
        run.lifecycle is Deleted ==> listed(s.push(run), false) == listed(s, false),
{
    assert(s.push(run).drop_last() =~= s);
}

/// The same of experiments.
pub proof fn law_experiment_listings_leave_out_the_deleted(
    s: Seq<ExperimentRecord>,
    experiment: ExperimentRecord,
)
    ensures
        listed(s, true) == s,
        experiment.stage is Active ==> listed(s.push(experiment), false) == listed(s, false).push(
            experiment,
        ),
        experiment.stage is Deleted ==> listed(s.push(experiment), false) == listed(s, false),
{
    assert(s.push(experiment).drop_last() =~= s);
}

/// The same of logged models.
pub proof fn law_model_listings_leave_out_the_deleted(
    s: Seq<LoggedModelRecord>,
    model: LoggedModelRecord,
)
    ensures
        listed(s, true) == s,
        model.lifecycle is Active ==> listed(s.push(model), false) == listed(s, false).push(model),
        model.lifecycle is Deleted ==> listed(s.push(model), false) == listed(s, false),
{
    assert(s.push(model).drop_last() =~= s);
}

/// A new model is stored as it was given, without counters; an empty name or id,
/// a deleted or unknown experiment and an id that is taken are refused.
pub proof fn law_new_models_are_what_was_given(model: LoggedModelState, e: ExperimentState)
    requires
        model.name.len() > 0,
        model.model_id.len() > 0,
    ensures
        e.stage is Active ==> (model_created(model, Some(e), false) matches Ok(s) && s.model
            == model && s.counters.dom() == Set::<Seq<char>>::empty()),
        e.stage is Active ==> model_created(model, Some(e), true) == Err::<
            StoredModelState,
            StoreError,
        >(StoreError::LoggedModelIdConflict(model.model_id)),
        e.stage is Deleted ==> model_created(model, Some(e), false) is Err,
        model_created(model, None, false) is Err,
        model_created(LoggedModelState { name: Seq::empty(), ..model }, Some(e), false) is Err,
        model_created(LoggedModelState { model_id: Seq::empty(), ..model }, Some(e), false) is Err,
{
    if e.stage is Active {
        assert(model_created(model, Some(e), false)->Ok_0.counters.dom() =~= Set::<
            Seq<char>,
        >::empty());
    }
}

/// Deleting a model makes it deleted, so that it is only read where deleted ones
/// are allowed; finalizing it gives it the status. Both note the time.
pub proof fn law_models_change_state(
    id: Seq<char>,
    s: StoredModelState,
    status: LoggedModelStatus,
    now_ms: i64,
)
    ensures
        model_deleted(id, now_ms, Some(s)) matches Ok(d) && {
            &&& d.model.lifecycle is Deleted && d.model.last_updated_time_ms == now_ms
            &&& d.model.params == s.model.params && d.model.tags == s.model.tags && d.model.status
                == s.model.status && d.counters == s.counters
            &&& visible_model(id, Some(d), false) is Err
            &&& visible_model(id, Some(d), true) == Ok::<StoredModelState, StoreError>(d)
        },
        model_finalized(id, status, now_ms, Some(s)) matches Ok(f) && f.model.status == status
            && f.model.last_updated_time_ms == now_ms && f.model.params == s.model.params
            && f.model.tags == s.model.tags && f.model.lifecycle == s.model.lifecycle,
        s.model.lifecycle is Active ==> visible_model(id, Some(s), false) == Ok::<
            StoredModelState,
            StoreError,
        >(s),
        model_deleted(id, now_ms, None) is Err,
        model_finalized(id, status, now_ms, None) is Err,
        visible_model(id, None, true) is Err,
{
}

/// A tag that is set on a model is there with its value, one that is deleted is
/// not, no other changes, and one that is not there cannot be deleted.
pub proof fn law_model_tags_are_set_and_deleted(
    id: Seq<char>,
    s: StoredModelState,
    key: Seq<char>,
    value: Seq<char>,
    other: Seq<char>,
    now_ms: i64,
)
    requires
        other != key,
    ensures
        model_with_tags(id, seq![(key, value)], now_ms, Some(s)) matches Ok(t) && {
            &&& t.model.tags.dom().contains(key) && t.model.tags[key] == value
            &&& t.model.tags.dom().contains(other) <==> s.model.tags.dom().contains(other)
            &&& s.model.tags.dom().contains(other) ==> t.model.tags[other] == s.model.tags[other]
            &&& t.model.params == s.model.params && t.model.last_updated_time_ms == now_ms
        },
        s.model.tags.dom().contains(key) ==> (model_untagged(
            id,
            key,
            now_ms,
            Some(s),
        ) matches Ok(t) && {
            &&& !t.model.tags.dom().contains(key)
            &&& t.model.tags.dom().contains(other) <==> s.model.tags.dom().contains(other)
            &&& s.model.tags.dom().contains(other) ==> t.model.tags[other] == s.model.tags[other]
            &&& t.model.params == s.model.params && t.model.last_updated_time_ms == now_ms
        }),
        !s.model.tags.dom().contains(key) ==> model_untagged(id, key, now_ms, Some(s)) == Err::<
            StoredModelState,
            StoreError,
        >(StoreError::UnknownLoggedModelTag(id, key)),
{
    let more = seq![(key, value)];
    reveal_with_fuel(with_tags, 2);
    assert(more.drop_last() =~= Seq::<(Seq<char>, Seq<char>)>::empty());
}

/// A new parameter of a model is there with its value, and no other changes; one
/// with another value is refused.
pub proof fn law_model_params_are_logged(
    id: Seq<char>,
    s: StoredModelState,
    key: Seq<char>,
    value: Seq<char>,
    other: Seq<char>,
    now_ms: i64,
)
    requires
        other != key,
    ensures
        !s.model.params.dom().contains(key) ==> (model_with_params(
            id,
            seq![(key, value)],
            now_ms,
            Some(s),
        ) matches Ok(t) && {
            &&& t.model.params.dom().contains(key) && t.model.params[key] == value
            &&& t.model.params.dom().contains(other) <==> s.model.params.dom().contains(other)
            &&& s.model.params.dom().contains(other) ==> t.model.params[other]
                == s.model.params[other]
            &&& t.model.tags == s.model.tags && t.model.last_updated_time_ms == now_ms
        }),
        s.model.params.dom().contains(key) && s.model.params[key] != value ==> model_with_params(
            id,
            seq![(key, value)],
            now_ms,
            Some(s),
        ) == Err::<StoredModelState, StoreError>(StoreError::ParamImmutable(key, id)),
        s.model.params.dom().contains(key) && s.model.params[key] == value ==> (model_with_params(
            id,
            seq![(key, value)],
            now_ms,
            Some(s),
        ) matches Ok(t) && t.model.params == s.model.params),
{
    let more = seq![(key, value)];
    reveal_with_fuel(with_params, 2);
    assert(more.drop_last() =~= Seq::<(Seq<char>, Seq<char>)>::empty());
}

/// A new trace is stored as it was given; an id that is empty, not valid or
/// taken and a deleted or unknown experiment are refused.
pub proof fn law_new_traces_are_what_was_given(t: TraceState, e: ExperimentState)
    requires
        t.trace_id.len() > 0,
    ensures
        e.stage is Active ==> trace_started(t, true, Some(e), false) == Ok::<
            TraceState,
            StoreError,
        >(t),
        trace_started(t, false, Some(e), false) == Err::<TraceState, StoreError>(
            StoreError::InvalidTraceId(t.trace_id),
        ),
        e.stage is Active ==> trace_started(t, true, Some(e), true) == Err::<
            TraceState,
            StoreError,
        >(StoreError::TraceIdConflict(t.trace_id)),
        e.stage is Deleted ==> trace_started(t, true, Some(e), false) is Err,
        trace_started(t, true, None, false) is Err,
        trace_started(TraceState { trace_id: Seq::empty(), ..t }, true, Some(e), false) is Err,
{
}

/// A tag that is set on a trace is there with its value, one that is deleted is
/// not, and no other changes.
pub proof fn law_trace_tags_are_set_and_deleted(
    id: Seq<char>,
    t: TraceState,
    key: Seq<char>,
    value: Seq<char>,
    other: Seq<char>,
)
    requires
        other != key,
    ensures
        trace_tagged(id, key, value, Some(t)) matches Ok(u) && {
            &&& u.tags.dom().contains(key) && u.tags[key] == value
            &&& u.tags.dom().contains(other) <==> t.tags.dom().contains(other)
            &&& t.tags.dom().contains(other) ==> u.tags[other] == t.tags[other]
            &&& u.assessments == t.assessments && u.state == t.state && u.trace_id == t.trace_id
        },
        trace_untagged(id, key, Some(t)) matches Ok(u) && {
            &&& !u.tags.dom().contains(key)
            &&& u.tags.dom().contains(other) <==> t.tags.dom().contains(other)
            &&& t.tags.dom().contains(other) ==> u.tags[other] == t.tags[other]
            &&& u.assessments == t.assessments && u.state == t.state && u.trace_id == t.trace_id
        },
        trace_tagged(id, key, value, None) == Err::<TraceState, StoreError>(
            StoreError::UnknownTrace(id),
        ),
        trace_untagged(id, key, None) == Err::<TraceState, StoreError>(
            StoreError::UnknownTrace(id),
        ),
{
}

/// A removal by ids selects exactly the traces that it names; one without ids
/// the traces that are not later than its time, the earliest of them up to its
/// number.
pub proof fn law_removals_select_what_they_name(
    traces: Seq<TraceState>,
    t: TraceState,
    ids: Seq<Seq<char>>,
    until: i64,
    n: u64,
)
    ensures
        ids.len() > 0 && ids.contains(t.trace_id) ==> traces_to_delete(
            traces.push(t),
            None,
            None,
            ids,
        ) == traces_to_delete(traces, None, None, ids).push(t.trace_id),
        ids.len() > 0 && !ids.contains(t.trace_id) ==> traces_to_delete(
            traces.push(t),
            None,
            None,
            ids,
        ) == traces_to_delete(traces, None, None, ids),
        t.request_time_ms <= until ==> traces_to_delete(
            traces.push(t),
            Some(until),
            None,
            Seq::empty(),
        ) == traces_to_delete(traces, Some(until), None, Seq::empty()).push(t.trace_id),
        t.request_time_ms > until ==> traces_to_delete(
            traces.push(t),
            Some(until),
            None,
            Seq::empty(),
        ) == traces_to_delete(traces, Some(until), None, Seq::empty()),
        traces_to_delete(traces.push(t), None, None, Seq::empty()) == traces_to_delete(
            traces,
            None,
            None,
            Seq::empty(),
        ).push(t.trace_id),
        traces_to_delete(traces, Some(until), Some(n), Seq::empty()).len() <= n,
        traces_to_delete(traces, Some(until), None, Seq::empty()).len() > n ==> traces_to_delete(
            traces,
            Some(until),
            Some(n),
            Seq::empty(),
        ) == traces_to_delete(traces, Some(until), None, Seq::empty()).take(n as int),
        traces_to_delete(traces, Some(until), None, Seq::empty()).len() <= n ==> traces_to_delete(
            traces,
            Some(until),
            Some(n),
            Seq::empty(),
        ) == traces_to_delete(traces, Some(until), None, Seq::empty()),
{
    assert(traces.push(t).drop_last() =~= traces);
}

/// A history with a document that has no number or no readable sample is
/// refused rather than shown without it.
pub proof fn law_unreadable_samples_are_reported<T>(
    docs: Seq<SampleDoc<T>>,
    kind: Seq<char>,
    tail: Seq<char>,
    i: int,
)
    requires
        0 <= i < docs.len(),
        docs[i].seq is None || docs[i].sample is Missing || docs[i].sample is Corrupt,
    ensures
        samples_in_order(docs, kind, tail) is Err,
{
    let results = docs.map_values(|d: SampleDoc<T>| numbered(d, kind, tail));
    assert(results[i] == numbered(docs[i], kind, tail));
    lemma_all_ok_each(results);
}

} // verus!
