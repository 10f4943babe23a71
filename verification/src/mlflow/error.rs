//! Errors of the tracking store, and how the API reports them.

use vstd::prelude::*;
use vstd::string::*;
use crate::text::chars::views;
use crate::text::number::{decimal, decimal_text};

verus! {

/// An error of the tracking store.
#[derive(Debug)]
pub enum RunStoreError {
    UnknownExperiment { experiment_id: u64 },
    UnknownRun { run_id: String },
    UnknownTrace { trace_id: String },
    UnknownAssessment { trace_id: String, assessment_id: String },
    UnknownLoggedModel { model_id: String },
    UnknownLoggedModelTag { model_id: String, key: String },
    ExperimentNameConflict { name: String },
    RunIdConflict { run_id: String },
    TraceIdConflict { trace_id: String },
    LoggedModelIdConflict { model_id: String },
    ParamImmutable { key: String, run_id: String },
    RunFinished { run_id: String },
    ExperimentDeleted { experiment_id: u64 },
    InvalidTraceId { trace_id: String },
    Empty { field: &'static str },
    NotTerminal,
    Internal { message: String },
}

/// An error of the API: the HTTP status, the MLflow code, and a message.
#[derive(Debug)]
pub struct MlflowError {
    pub status: u16,
    pub code: &'static str,
    pub message: String,
}

pub struct ErrorModel {
    pub status: u16,
    pub code: Seq<char>,
    pub message: Seq<char>,
}

impl View for MlflowError {
    type V = ErrorModel;

    open spec fn view(&self) -> ErrorModel {
        ErrorModel { status: self.status, code: self.code@, message: self.message@ }
    }
}

/// The outcome of a call, over views.
pub open spec fn outcome<T: View>(r: Result<T, MlflowError>) -> Result<T::V, ErrorModel> {
    match r {
        Ok(t) => Ok(t@),
        Err(e) => Err(e@),
    }
}

/// The outcome of a call that gives a list, over views.
pub open spec fn outcomes<T: View>(r: Result<Vec<T>, MlflowError>) -> Result<
    Seq<T::V>,
    ErrorModel,
> {
    match r {
        Ok(t) => Ok(views(t@)),
        Err(e) => Err(e@),
    }
}

pub open spec fn not_found_error(message: Seq<char>) -> ErrorModel {
    ErrorModel { status: 404, code: "RESOURCE_DOES_NOT_EXIST"@, message }
}

pub open spec fn exists_error(message: Seq<char>) -> ErrorModel {
    ErrorModel { status: 400, code: "RESOURCE_ALREADY_EXISTS"@, message }
}

pub open spec fn invalid_error(message: Seq<char>) -> ErrorModel {
    ErrorModel { status: 400, code: "INVALID_PARAMETER_VALUE"@, message }
}

pub open spec fn invalid_state_error(message: Seq<char>) -> ErrorModel {
    ErrorModel { status: 400, code: "INVALID_STATE"@, message }
}

pub open spec fn internal_error(message: Seq<char>) -> ErrorModel {
    ErrorModel { status: 500, code: "INTERNAL_ERROR"@, message }
}

/// Three texts in a row.
pub open spec fn around(before: Seq<char>, what: Seq<char>, after: Seq<char>) -> Seq<char> {
    before + what + after
}

/// Three texts in a row.
pub fn text_around(before: &str, what: &str, after: &str) -> (r: String)
    ensures
        r@ == around(before@, what@, after@),
{
    let mut r: String = before.to_owned();
    r.append(what);
    r.append(after);
    r
}

impl MlflowError {
    pub fn not_found(message: String) -> (r: Self)
        ensures
            r@ == not_found_error(message@),
    {
        MlflowError { status: 404, code: "RESOURCE_DOES_NOT_EXIST", message }
    }

    pub fn already_exists(message: String) -> (r: Self)
        ensures
            r@ == exists_error(message@),
    {
        MlflowError { status: 400, code: "RESOURCE_ALREADY_EXISTS", message }
    }

    pub fn invalid(message: String) -> (r: Self)
        ensures
            r@ == invalid_error(message@),
    {
        MlflowError { status: 400, code: "INVALID_PARAMETER_VALUE", message }
    }

    pub fn invalid_state(message: String) -> (r: Self)
        ensures
            r@ == invalid_state_error(message@),
    {
        MlflowError { status: 400, code: "INVALID_STATE", message }
    }

    pub fn internal(message: String) -> (r: Self)
        ensures
            r@ == internal_error(message@),
    {
        MlflowError { status: 500, code: "INTERNAL_ERROR", message }
    }
}

/// How an error of the store is reported.
pub open spec fn reported(e: RunStoreError) -> ErrorModel {
    match e {
        RunStoreError::UnknownExperiment { experiment_id } => not_found_error(
            around("Could not find experiment with ID '"@, decimal(experiment_id as nat), "'"@),
        ),
        RunStoreError::UnknownRun { run_id } => not_found_error(
            around("Could not find run with ID '"@, run_id@, "'"@),
        ),
        RunStoreError::UnknownTrace { trace_id } => not_found_error(
            around("Could not find trace with ID '"@, trace_id@, "'"@),
        ),
        RunStoreError::UnknownAssessment { trace_id, assessment_id } => not_found_error(
            around(
                around("Could not find assessment '"@, assessment_id@, "' on trace '"@),
                trace_id@,
                "'"@,
            ),
        ),
        RunStoreError::UnknownLoggedModel { model_id } => not_found_error(
            around("Could not find logged model with ID '"@, model_id@, "'"@),
        ),
        RunStoreError::UnknownLoggedModelTag { model_id, key } => not_found_error(
            around(
                around("Could not find tag '"@, key@, "' on logged model '"@),
                model_id@,
                "'"@,
            ),
        ),
        RunStoreError::ExperimentNameConflict { name } => exists_error(
            around("Experiment '"@, name@, "' already exists"@),
        ),
        RunStoreError::RunIdConflict { run_id } => exists_error(
            around("Run '"@, run_id@, "' already exists"@),
        ),
        RunStoreError::TraceIdConflict { trace_id } => exists_error(
            around("Trace '"@, trace_id@, "' already exists"@),
        ),
        RunStoreError::LoggedModelIdConflict { model_id } => exists_error(
            around("Logged model '"@, model_id@, "' already exists"@),
        ),
        RunStoreError::ParamImmutable { key, run_id } => invalid_error(
            around(
                around("Param '"@, key@, "' on run '"@),
                run_id@,
                "' is locked to its first value (MLflow params are immutable; re-logging a different value is rejected)"@,
            ),
        ),
        RunStoreError::RunFinished { run_id } => invalid_state_error(
            around(
                "Run '"@,
                run_id@,
                "' is finished and no longer accepts param/metric writes"@,
            ),
        ),
        RunStoreError::ExperimentDeleted { experiment_id } => invalid_state_error(
            around(
                "Experiment '"@,
                decimal(experiment_id as nat),
                "' is deleted (restore it first)"@,
            ),
        ),
        RunStoreError::InvalidTraceId { trace_id } => invalid_error(
            around("Invalid trace ID '"@, trace_id@, "'"@),
        ),
        RunStoreError::Empty { field } => invalid_error(field@ + " must not be empty"@),
        RunStoreError::NotTerminal => internal_error(
            "tracking store requires a terminal run status"@,
        ),
        RunStoreError::Internal { message } => internal_error(message@),
    }
}

fn not_found_id(before: &str, id: &String) -> (r: MlflowError)
    ensures
        r@ == not_found_error(around(before@, id@, "'"@)),
{
    MlflowError::not_found(text_around(before, id.as_str(), "'"))
}

fn exists_id(before: &str, id: &String) -> (r: MlflowError)
    ensures
        r@ == exists_error(around(before@, id@, "' already exists"@)),
{
    MlflowError::already_exists(text_around(before, id.as_str(), "' already exists"))
}

fn not_found_within(before: &str, part: &String, between: &str, whole: &String) -> (r: MlflowError)
    ensures
        r@ == not_found_error(around(around(before@, part@, between@), whole@, "'"@)),
{
    let head: String = text_around(before, part.as_str(), between);
    MlflowError::not_found(text_around(head.as_str(), whole.as_str(), "'"))
}

/// Reports an error of the store.
pub fn report(e: RunStoreError) -> (r: MlflowError)
    ensures
        r@ == reported(e),
{
    match e {
        RunStoreError::UnknownExperiment { experiment_id } => {
            let id: String = decimal_text(experiment_id as u128);
            not_found_id("Could not find experiment with ID '", &id)
        },
        RunStoreError::UnknownRun { run_id } => not_found_id(
            "Could not find run with ID '",
            &run_id,
        ),
        RunStoreError::UnknownTrace { trace_id } => not_found_id(
            "Could not find trace with ID '",
            &trace_id,
        ),
        RunStoreError::UnknownAssessment { trace_id, assessment_id } => not_found_within(
            "Could not find assessment '",
            &assessment_id,
            "' on trace '",
            &trace_id,
        ),
        RunStoreError::UnknownLoggedModel { model_id } => not_found_id(
            "Could not find logged model with ID '",
            &model_id,
        ),
        RunStoreError::UnknownLoggedModelTag { model_id, key } => not_found_within(
            "Could not find tag '",
            &key,
            "' on logged model '",
            &model_id,
        ),
        RunStoreError::ExperimentNameConflict { name } => exists_id("Experiment '", &name),
        RunStoreError::RunIdConflict { run_id } => exists_id("Run '", &run_id),
        RunStoreError::TraceIdConflict { trace_id } => exists_id("Trace '", &trace_id),
        RunStoreError::LoggedModelIdConflict { model_id } => exists_id(
            "Logged model '",
            &model_id,
        ),
        RunStoreError::ParamImmutable { key, run_id } => {
            let head: String = text_around("Param '", key.as_str(), "' on run '");
            MlflowError::invalid(
                text_around(
                    head.as_str(),
                    run_id.as_str(),
                    "' is locked to its first value (MLflow params are immutable; re-logging a different value is rejected)",
                ),
            )
        },
        RunStoreError::RunFinished { run_id } => MlflowError::invalid_state(
            text_around(
                "Run '",
                run_id.as_str(),
                "' is finished and no longer accepts param/metric writes",
            ),
        ),
        RunStoreError::ExperimentDeleted { experiment_id } => {
            let id: String = decimal_text(experiment_id as u128);
            MlflowError::invalid_state(
                text_around("Experiment '", id.as_str(), "' is deleted (restore it first)"),
            )
        },
        RunStoreError::InvalidTraceId { trace_id } => MlflowError::invalid(
            text_around("Invalid trace ID '", trace_id.as_str(), "'"),
        ),
        RunStoreError::Empty { field } => {
            let mut message: String = field.to_owned();
            message.append(" must not be empty");
            MlflowError::invalid(message)
        },
        RunStoreError::NotTerminal => MlflowError::internal(
            "tracking store requires a terminal run status".to_owned(),
        ),
        RunStoreError::Internal { message } => MlflowError::internal(message),
    }
}

} // verus!
