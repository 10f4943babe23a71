//! How records and errors are shown, and what requests ask for.

use vstd::prelude::*;
use vstd::string::*;
use crate::mlflow::documents::{dataset_doc, experiment_doc, logged_model_doc, run_doc, trace_doc};
use crate::mlflow::double::{Double, is_infinite, is_nan};
use crate::mlflow::error::{ErrorModel, RunStoreError, around, reported};
use crate::mlflow::records::{ExperimentRecord, RunRecord, RunStatus};
use crate::mlflow::registry::{
    ContractError, ModelRegistryError, change_error_reported, registry_error_reported,
};
use crate::mlflow::wire::{
    BatchStep, RunTransition, batch_fits, batch_steps, experiment_shown, id_of, is_truthy,
    run_shown, run_update, special_text, status_text, tag_map,
};
use crate::text::ascii::is_digit;
use crate::text::map::text_pairs;
use crate::text::number::{decimal, lemma_decimal, lemma_decimal_injective, lemma_parse_decimal};
use crate::text::search::part_at;
use crate::text::trim::{lemma_trimmed_part, trim};

verus! {

/// The text holds a part.
pub open spec fn mentions(text: Seq<char>, part: Seq<char>) -> bool {
    exists|i: int| #[trigger] part_at(text, i, part)
}

proof fn lemma_mentions(a: Seq<char>, part: Seq<char>, b: Seq<char>)
    ensures
        mentions(a + part + b, part),
{
    let text = a + part + b;
    let i = a.len() as int;
    assert(text.subrange(i, i + part.len()) =~= part);
    assert(part_at(text, i, part));
}

/// What is missing is reported as not found, what is taken as already there,
/// what cannot be changed as a bad value or a bad state, and the rest as an
/// internal error; the message names what it is about.
pub proof fn law_store_errors_are_reported(e: RunStoreError)
    ensures
        match e {
            RunStoreError::UnknownExperiment { experiment_id } => reported(e).status == 404
                && reported(e).code == "RESOURCE_DOES_NOT_EXIST"@ && mentions(
                reported(e).message,
                decimal(experiment_id as nat),
            ),
            RunStoreError::UnknownRun { run_id } => reported(e).status == 404 && reported(e).code
                == "RESOURCE_DOES_NOT_EXIST"@ && mentions(reported(e).message, run_id@),
            RunStoreError::UnknownTrace { trace_id } => reported(e).status == 404
                && reported(e).code == "RESOURCE_DOES_NOT_EXIST"@ && mentions(
                reported(e).message,
                trace_id@,
            ),
            RunStoreError::UnknownAssessment { trace_id, .. } => reported(e).status == 404
                && reported(e).code == "RESOURCE_DOES_NOT_EXIST"@ && mentions(
                reported(e).message,
                trace_id@,
            ),
            RunStoreError::UnknownLoggedModel { model_id } => reported(e).status == 404
                && reported(e).code == "RESOURCE_DOES_NOT_EXIST"@ && mentions(
                reported(e).message,
                model_id@,
            ),
            RunStoreError::UnknownLoggedModelTag { model_id, .. } => reported(e).status == 404
                && reported(e).code == "RESOURCE_DOES_NOT_EXIST"@ && mentions(
                reported(e).message,
                model_id@,
            ),
            RunStoreError::ExperimentNameConflict { name } => reported(e).status == 400
                && reported(e).code == "RESOURCE_ALREADY_EXISTS"@ && mentions(
                reported(e).message,
                name@,
            ),
            RunStoreError::RunIdConflict { run_id } => reported(e).status == 400
                && reported(e).code == "RESOURCE_ALREADY_EXISTS"@ && mentions(
                reported(e).message,
                run_id@,
            ),
            RunStoreError::TraceIdConflict { trace_id } => reported(e).status == 400
                && reported(e).code == "RESOURCE_ALREADY_EXISTS"@ && mentions(
                reported(e).message,
                trace_id@,
            ),
            RunStoreError::LoggedModelIdConflict { model_id } => reported(e).status == 400
                && reported(e).code == "RESOURCE_ALREADY_EXISTS"@ && mentions(
                reported(e).message,
                model_id@,
            ),
            RunStoreError::ParamImmutable { run_id, .. } => reported(e).status == 400
                && reported(e).code == "INVALID_PARAMETER_VALUE"@ && mentions(
                reported(e).message,
                run_id@,
            ),
            RunStoreError::RunFinished { run_id } => reported(e).status == 400 && reported(e).code
                == "INVALID_STATE"@ && mentions(reported(e).message, run_id@),
            RunStoreError::ExperimentDeleted { experiment_id } => reported(e).status == 400
                && reported(e).code == "INVALID_STATE"@ && mentions(
                reported(e).message,
                decimal(experiment_id as nat),
            ),
            RunStoreError::InvalidTraceId { trace_id } => reported(e).status == 400
                && reported(e).code == "INVALID_PARAMETER_VALUE"@ && mentions(
                reported(e).message,
                trace_id@,
            ),
            RunStoreError::Empty { field } => reported(e).status == 400 && reported(e).code
                == "INVALID_PARAMETER_VALUE"@ && reported(e).message == field@
                + " must not be empty"@,
            RunStoreError::NotTerminal => reported(e).status == 500 && reported(e).code
                == "INTERNAL_ERROR"@,
            RunStoreError::Internal { message } => reported(e).status == 500 && reported(e).code
                == "INTERNAL_ERROR"@ && reported(e).message == message@,
        },
{
    match e {
        RunStoreError::UnknownExperiment { experiment_id } => lemma_mentions(
            "Could not find experiment with ID '"@,
            decimal(experiment_id as nat),
            "'"@,
        ),
        RunStoreError::UnknownRun { run_id } => lemma_mentions(
            "Could not find run with ID '"@,
            run_id@,
            "'"@,
        ),
        RunStoreError::UnknownTrace { trace_id } => lemma_mentions(
            "Could not find trace with ID '"@,
            trace_id@,
            "'"@,
        ),
        RunStoreError::UnknownAssessment { trace_id, assessment_id } => lemma_mentions(
            around("Could not find assessment '"@, assessment_id@, "' on trace '"@),
            trace_id@,
            "'"@,
        ),
        RunStoreError::UnknownLoggedModel { model_id } => lemma_mentions(
            "Could not find logged model with ID '"@,
            model_id@,
            "'"@,
        ),
        RunStoreError::UnknownLoggedModelTag { model_id, key } => lemma_mentions(
            around("Could not find tag '"@, key@, "' on logged model '"@),
            model_id@,
            "'"@,
        ),
        RunStoreError::ExperimentNameConflict { name } => lemma_mentions(
            "Experiment '"@,
            name@,
            "' already exists"@,
        ),
        RunStoreError::RunIdConflict { run_id } => lemma_mentions(
            "Run '"@,
            run_id@,
            "' already exists"@,
        ),
        RunStoreError::TraceIdConflict { trace_id } => lemma_mentions(
            "Trace '"@,
            trace_id@,
            "' already exists"@,
        ),
        RunStoreError::LoggedModelIdConflict { model_id } => lemma_mentions(
            "Logged model '"@,
            model_id@,
            "' already exists"@,
        ),
        RunStoreError::ParamImmutable { key, run_id } => lemma_mentions(
            around("Param '"@, key@, "' on run '"@),
            run_id@,
            "' is locked to its first value (MLflow params are immutable; re-logging a different value is rejected)"@,
        ),
        RunStoreError::RunFinished { run_id } => lemma_mentions(
            "Run '"@,
            run_id@,
            "' is finished and no longer accepts param/metric writes"@,
        ),
        RunStoreError::ExperimentDeleted { experiment_id } => lemma_mentions(
            "Experiment '"@,
            decimal(experiment_id as nat),
            "' is deleted (restore it first)"@,
        ),
        RunStoreError::InvalidTraceId { trace_id } => lemma_mentions(
            "Invalid trace ID '"@,
            trace_id@,
            "'"@,
        ),
        _ => {},
    }
}

/// An error of the registry: what is missing is not found, what is taken is
/// already there, a bad name or tenant is a bad value, and the rest is internal;
/// a change that breaks a contract is the caller's error.
pub proof fn law_registry_errors_are_reported(e: ModelRegistryError)
    ensures
        match e {
            ModelRegistryError::NotFound { .. } => registry_error_reported(e).status == 404
                && registry_error_reported(e).code == "RESOURCE_DOES_NOT_EXIST"@
                && change_error_reported(e) == registry_error_reported(e),
            ModelRegistryError::AlreadyExists { .. } => registry_error_reported(e).status == 400
                && registry_error_reported(e).code == "RESOURCE_ALREADY_EXISTS"@
                && change_error_reported(e) == registry_error_reported(e),
            ModelRegistryError::InvalidName { reason } => registry_error_reported(e).status == 400
                && registry_error_reported(e).code == "INVALID_PARAMETER_VALUE"@
                && registry_error_reported(e).message == reason@,
            ModelRegistryError::InvalidTenant { reason } => registry_error_reported(e).status
                == 400 && registry_error_reported(e).code == "INVALID_PARAMETER_VALUE"@
                && registry_error_reported(e).message == reason@,
            ModelRegistryError::Contract { error, text } => {
                &&& registry_error_reported(e).status == 500 && registry_error_reported(e).message
                    == text@
                &&& match error {
                    ContractError::DuplicateVersion { .. } => change_error_reported(e).status
                        == 400 && change_error_reported(e).code == "RESOURCE_ALREADY_EXISTS"@,
                    ContractError::UnknownAlias { .. } => change_error_reported(e).status == 404
                        && change_error_reported(e).code == "RESOURCE_DOES_NOT_EXIST"@,
                    ContractError::Other { message } => change_error_reported(e).status == 400
                        && change_error_reported(e).code == "INVALID_PARAMETER_VALUE"@
                        && change_error_reported(e).message == message@,
                }
            },
            ModelRegistryError::Other { text } => registry_error_reported(e).status == 500
                && registry_error_reported(e).code == "INTERNAL_ERROR"@
                && registry_error_reported(e).message == text@,
        },
{
}

/// A run is shown as it is: its ids, its times, its status by its name, its
/// stage, and its parameters, metrics and tags.
pub proof fn law_runs_are_shown_as_they_are(run: RunRecord)
    ensures
        run_shown(run).run_id == run.run_id@,
        run_shown(run).experiment_id == decimal(run.experiment_id as nat),
        run_shown(run).start_time == run.start_time_ms,
        run_shown(run).end_time == run.end_time_ms,
        run.status is Running ==> run_shown(run).status == "RUNNING"@,
        run.status is Finished ==> run_shown(run).status == "FINISHED"@,
        run.status is Failed ==> run_shown(run).status == "FAILED"@,
        run.status is Killed ==> run_shown(run).status == "KILLED"@,
        run.lifecycle is Active ==> run_shown(run).lifecycle_stage == "active"@,
        run.lifecycle is Deleted ==> run_shown(run).lifecycle_stage == "deleted"@,
        run_shown(run).params == text_pairs(run.params),
        run_shown(run).artifact_uri == "mlflow-artifacts:/"@ + decimal(run.experiment_id as nat)
            + "/"@ + run.run_id@ + "/artifacts"@,
        run.run_name is None ==> run_shown(run).tags == text_pairs(run.tags)
            && run_shown(run).run_name is None,
        run.run_name matches Some(name) ==> run_shown(run).tags == text_pairs(run.tags).push(
            ("mlflow.runName"@, name@),
        ) && run_shown(run).run_name == Some(name@),
        run_shown(run).metrics.len() == run.latest_metrics.keys().len(),
        forall|i: int|
            0 <= i < run_shown(run).metrics.len() ==> #[trigger] run_shown(run).metrics[i]
                == run.latest_metrics@[run.latest_metrics.keys()[i]]@,
{
}

/// An experiment is shown as it is, with its own artifact location or that of
/// its id.
pub proof fn law_experiments_are_shown_as_they_are(e: ExperimentRecord)
    ensures
        experiment_shown(e).experiment_id == decimal(e.experiment_id as nat),
        experiment_shown(e).name == e.name@,
        e.stage is Active ==> experiment_shown(e).lifecycle_stage == "active"@,
        e.stage is Deleted ==> experiment_shown(e).lifecycle_stage == "deleted"@,
        experiment_shown(e).creation_time == e.creation_time_ms,
        experiment_shown(e).last_update_time == e.last_update_time_ms,
        experiment_shown(e).tags == text_pairs(e.tags),
        e.artifact_location matches Some(location) ==> experiment_shown(e).artifact_uri
            == location@,
        e.artifact_location is None ==> experiment_shown(e).artifact_uri == "mlflow-artifacts:/"@
            + decimal(e.experiment_id as nat),
{
}

proof fn lemma_statuses_differ()
    ensures
        "RUNNING"@ != "FINISHED"@,
        "RUNNING"@ != "FAILED"@,
        "RUNNING"@ != "KILLED"@,
        "FINISHED"@ != "FAILED"@,
        "FINISHED"@ != "KILLED"@,
        "FAILED"@ != "KILLED"@,
{
    reveal_strlit("RUNNING");
    reveal_strlit("FINISHED");
    reveal_strlit("FAILED");
    reveal_strlit("KILLED");
    assert("RUNNING"@.len() == 7 && "FINISHED"@.len() == 8 && "FAILED"@.len() == 6
        && "KILLED"@.len() == 6);
    assert("FAILED"@[0] != "KILLED"@[0]);
}

/// The status that a run is shown with is the one that an update to it sets: a
/// running run is reopened, any other is finished with the status; without a
/// status nothing changes, and a status that no run has is refused.
pub proof fn law_statuses_read_back(run_id: Seq<char>, status: RunStatus, other: Seq<char>)
    requires
        run_id.len() > 0,
    ensures
        status is Running ==> run_update(run_id, Some(status_text(status))) == Ok::<
            RunTransition,
            ErrorModel,
        >(RunTransition::Reopen),
        !(status is Running) ==> run_update(run_id, Some(status_text(status))) == Ok::<
            RunTransition,
            ErrorModel,
        >(RunTransition::Finish(status)),
        run_update(run_id, None) == Ok::<RunTransition, ErrorModel>(RunTransition::Keep),
        run_update(Seq::empty(), Some(other)) is Err,
        run_update(run_id, Some(other)) is Ok ==> other == "RUNNING"@ || other == "FINISHED"@
            || other == "FAILED"@ || other == "KILLED"@,
{
    lemma_statuses_differ();
}

/// A batch takes each parameter, each sample and each tag once: the parameters
/// first, then the samples, then the tags, each in order. It may hold up to 1000
/// samples, 100 parameters and 100 tags.
pub proof fn law_batches_take_every_step(metrics: nat, params: nat, tags: nat, i: int)
    ensures
        batch_fits(metrics, params, tags) <==> metrics <= 1000 && params <= 100 && tags <= 100,
        batch_steps(metrics, params, tags).len() == metrics + params + tags,
        0 <= i < params ==> batch_steps(metrics, params, tags)[i] == BatchStep::Param(i as usize),
        0 <= i < metrics ==> batch_steps(metrics, params, tags)[params + i] == BatchStep::Metric(
            i as usize,
        ),
        0 <= i < tags ==> batch_steps(metrics, params, tags)[params + metrics + i]
            == BatchStep::Tag(i as usize),
{
}

/// The API is on for `1`, `true`, `on` and `yes` and for nothing else.
pub proof fn law_the_switch_is_off_by_default(value: Seq<char>)
    ensures
        !is_truthy(None),
        is_truthy(Some(value)) <==> trim(value) == "1"@ || trim(value) == "true"@ || trim(value)
            == "on"@ || trim(value) == "yes"@,
{
}

/// Of the tags of a request the last one with a key counts, and no other is
/// lost.
pub proof fn law_the_last_tag_counts(
    tags: Seq<(Seq<char>, Seq<char>)>,
    key: Seq<char>,
    value: Seq<char>,
    other: Seq<char>,
)
    requires
        other != key,
    ensures
        tag_map(tags.push((key, value))).dom().contains(key),
        tag_map(tags.push((key, value)))[key] == value,
        tag_map(tags.push((key, value))).dom().contains(other) <==> tag_map(tags).dom().contains(
            other,
        ),
        tag_map(tags).dom().contains(other) ==> tag_map(tags.push((key, value)))[other] == tag_map(
            tags,
        )[other],
        tag_map(Seq::empty()).dom() == Set::<Seq<char>>::empty(),
{
    assert(tags.push((key, value)).drop_last() =~= tags);
    assert(tag_map(Seq::empty()).dom() =~= Set::<Seq<char>>::empty());
}

/// The id that an experiment is shown with reads back as the id.
pub proof fn law_ids_read_back(n: u64, what: Seq<char>)
    ensures
        id_of(decimal(n as nat), what) == Ok::<u64, ErrorModel>(n),
{
    lemma_decimal(n as nat);
    lemma_parse_decimal(n as nat, u64::MAX as nat);
    let t = decimal(n as nat);
    assert(is_digit(t[0]) && is_digit(t[t.len() - 1]));
    lemma_trimmed_part(t, 0, t.len() as int);
    assert(t.subrange(0, t.len() as int) =~= t);
}

/// The special values of metrics have their usual texts.
pub proof fn law_special_values_have_their_texts(value: Double)
    ensures
        is_nan(value) ==> special_text(value) == Some("NaN"@),
        value.bits == 0x7FF0_0000_0000_0000 ==> special_text(value) == Some("Infinity"@),
        value.bits == 0xFFF0_0000_0000_0000 ==> special_text(value) == Some("-Infinity"@),
        !is_nan(value) && !is_infinite(value) ==> special_text(value) is None,
{
}

/// Documents of different kinds never have the same id, and those of one kind
/// only where they are the same.
pub proof fn law_documents_are_apart(
    e: u64,
    f: u64,
    a: Seq<char>,
    b: Seq<char>,
    n: u64,
)
    ensures
        experiment_doc(e) == experiment_doc(f) ==> e == f,
        run_doc(a) == run_doc(b) ==> a == b,
        trace_doc(a) == trace_doc(b) ==> a == b,
        logged_model_doc(a) == logged_model_doc(b) ==> a == b,
        experiment_doc(e) != run_doc(a),
        experiment_doc(e) != trace_doc(a),
        experiment_doc(e) != logged_model_doc(a),
        run_doc(a) != trace_doc(b),
        run_doc(a) != logged_model_doc(b),
        trace_doc(a) != logged_model_doc(b),
        dataset_doc(a, n) != run_doc(b),
        dataset_doc(a, n) != trace_doc(b),
        dataset_doc(a, n) != logged_model_doc(b),
        dataset_doc(a, n) != experiment_doc(e),
{
    reveal_strlit("exp-");
    reveal_strlit("run-");
    reveal_strlit("trc-");
    reveal_strlit("lm-");
    reveal_strlit("ds-");
    assert(experiment_doc(e)[0] == 'e');
    assert(run_doc(a)[0] == 'r' && run_doc(b)[0] == 'r');
    assert(trace_doc(a)[0] == 't' && trace_doc(b)[0] == 't');
    assert(logged_model_doc(a)[0] == 'l' && logged_model_doc(b)[0] == 'l');
    assert(dataset_doc(a, n)[0] == 'd');
    if experiment_doc(e) == experiment_doc(f) {
        assert(experiment_doc(e).skip(4) =~= decimal(e as nat));
        assert(experiment_doc(f).skip(4) =~= decimal(f as nat));
        lemma_decimal_injective(e as nat, f as nat);
    }
    if run_doc(a) == run_doc(b) {
        assert(run_doc(a).skip(4) =~= a);
        assert(run_doc(b).skip(4) =~= b);
    }
    if trace_doc(a) == trace_doc(b) {
        assert(trace_doc(a).skip(4) =~= a);
        assert(trace_doc(b).skip(4) =~= b);
    }
    if logged_model_doc(a) == logged_model_doc(b) {
        assert(logged_model_doc(a).skip(3) =~= a);
        assert(logged_model_doc(b).skip(3) =~= b);
    }
}

} // verus!
