//! Operations of the tracking store.

use proximadb::mlflow::documents::{
    counter_key, counters_from_fields, dataset_doc_id, experiment_doc_id, fields_of_counters,
    logged_model_doc_id, metric_doc_id, model_metric_doc_id, run_doc_id, trace_doc_id,
};
use proximadb::mlflow::double::{Comparison, Double, holds};
use proximadb::mlflow::error::{MlflowError, RunStoreError, report};
use proximadb::mlflow::logged::{
    StoredModel, create_logged_model, delete_logged_model, delete_logged_model_tag,
    finalize_logged_model, get_logged_model, list_logged_models, log_logged_model_params,
    log_model_metric, logged_model_with_counters, model_metric_history, set_logged_model_tags,
};
use proximadb::mlflow::records::{
    AssessmentRecord, ExperimentRecord, ExperimentStage, LoggedModelRecord, LoggedModelStatus,
    MetricPoint, ModelOutputRef, RunLifecycle, RunStatus, TraceRecord,
};
use proximadb::mlflow::store::{
    SampleDoc, SampleRead, StoredRun, SubstrateRunStoreFactory, check_open, create_experiment,
    create_run, delete_experiment, delete_run, delete_tag, finish_run, get_experiment,
    list_experiments, list_runs, log_dataset_input, log_metric, log_param, log_run_model_inputs,
    log_run_outputs, metric_history, next_experiment_id, order_samples, reopen_run,
    restore_experiment, restore_run, run_with_counters, set_tag,
};
use proximadb::mlflow::traces::{
    delete_assessment, delete_trace_tag, delete_traces, get_assessment, get_trace, list_traces,
    set_trace_tag, start_trace, upsert_assessment,
};
use proximadb::text::map::TextMap;

fn experiment(id: u64, name: &str) -> ExperimentRecord {
    ExperimentRecord {
        experiment_id: id,
        name: name.to_string(),
        artifact_location: None,
        tags: TextMap::new(),
        stage: ExperimentStage::Active,
        creation_time_ms: 1,
        last_update_time_ms: 1,
    }
}

fn run(id: &str) -> StoredRun {
    create_run(
        &Some(experiment(3, "e")),
        false,
        3,
        id,
        None,
        None,
        TextMap::new(),
        10,
    )
    .expect("run")
}

fn point(value: f64, timestamp_ms: i64, step: i64) -> MetricPoint {
    MetricPoint {
        key: "loss".to_string(),
        value: Double { bits: value.to_bits() },
        timestamp_ms,
        step,
    }
}

fn trace(id: &str, time: i64) -> TraceRecord {
    TraceRecord {
        trace_id: id.to_string(),
        experiment_id: 3,
        request_time_ms: time,
        state: "OK".to_string(),
        tags: TextMap::new(),
        assessments: vec![],
    }
}

fn model(id: &str, created: i64) -> LoggedModelRecord {
    LoggedModelRecord {
        model_id: id.to_string(),
        experiment_id: 3,
        name: "m".to_string(),
        status: LoggedModelStatus::Pending,
        lifecycle: RunLifecycle::Active,
        creation_time_ms: created,
        last_updated_time_ms: created,
        params: TextMap::new(),
        tags: TextMap::new(),
    }
}

fn stored_model(id: &str) -> StoredModel {
    create_logged_model(model(id, 5), &Some(experiment(3, "e")), false).expect("model")
}

fn texts(pairs: &[(&str, &str)]) -> TextMap<String> {
    let mut m = TextMap::new();
    for (k, v) in pairs {
        m.insert(k.to_string(), v.to_string());
    }
    m
}

#[test]
fn experiments_are_numbered_in_order() {
    assert_eq!(next_experiment_id(None), 0);
    assert_eq!(next_experiment_id(Some(4)), 5);
    let made = create_experiment("a", None, TextMap::new(), &vec![], Some(4), 7).unwrap();
    assert_eq!((made.experiment_id, made.creation_time_ms, made.last_update_time_ms), (5, 7, 7));
    assert_eq!(made.stage, ExperimentStage::Active);
    assert!(matches!(
        create_experiment("", None, TextMap::new(), &vec![], None, 7),
        Err(RunStoreError::Empty { field: "name" })
    ));
    assert!(matches!(
        create_experiment("a", None, TextMap::new(), &vec![made], None, 7),
        Err(RunStoreError::ExperimentNameConflict { name }) if name == "a"
    ));
}

#[test]
fn restoring_undoes_deleting() {
    let deleted = delete_experiment(3, Some(experiment(3, "e")), 20).unwrap();
    assert_eq!((deleted.stage, deleted.last_update_time_ms), (ExperimentStage::Deleted, 20));
    assert!(matches!(
        check_open(3, &Some(experiment(4, "x"))),
        Ok(())
    ));
    let found = Some(deleted);
    assert!(matches!(
        check_open(3, &found),
        Err(RunStoreError::ExperimentDeleted { experiment_id: 3 })
    ));
    let restored = restore_experiment(3, found, 30).unwrap();
    assert_eq!((restored.stage, restored.last_update_time_ms), (ExperimentStage::Active, 30));
    assert!(matches!(
        get_experiment(9, None),
        Err(RunStoreError::UnknownExperiment { experiment_id: 9 })
    ));
    let deleted = delete_run("r", Some(run("r"))).unwrap();
    assert_eq!(deleted.run.lifecycle, RunLifecycle::Deleted);
    let restored = restore_run("r", Some(deleted)).unwrap();
    assert_eq!(restored.run.lifecycle, RunLifecycle::Active);
}

#[test]
fn listings_leave_deleted_records_out() {
    let records = || {
        let deleted = delete_experiment(1, Some(experiment(1, "a")), 2).unwrap();
        vec![deleted, experiment(2, "b")]
    };
    assert_eq!(list_experiments(records(), false).len(), 1);
    assert_eq!(list_experiments(records(), true).len(), 2);
    let runs = vec![run("a").run, delete_run("b", Some(run("b"))).unwrap().run];
    assert_eq!(list_runs(runs, false).len(), 1);
}

#[test]
fn runs_start_open_and_empty() {
    let made = run("r");
    assert_eq!(made.run.status, RunStatus::Running);
    assert_eq!(made.run.end_time_ms, None);
    assert_eq!((made.run.params.len(), made.counters.len()), (0, 0));
    let failed = |experiment: Option<ExperimentRecord>, exists_already: bool, id: &str| {
        create_run(&experiment, exists_already, 3, id, None, None, TextMap::new(), 1).unwrap_err()
    };
    assert!(matches!(
        failed(Some(experiment(3, "e")), false, ""),
        RunStoreError::Empty { field: "run_id" }
    ));
    assert!(matches!(failed(None, false, "r"), RunStoreError::UnknownExperiment { .. }));
    assert!(matches!(
        failed(Some(experiment(3, "e")), true, "r"),
        RunStoreError::RunIdConflict { .. }
    ));
    assert!(matches!(
        run_with_counters("r", None),
        Err(RunStoreError::UnknownRun { run_id }) if run_id == "r"
    ));
}

#[test]
fn finished_runs_are_closed() {
    let finish = || finish_run("r", RunStatus::Killed, 50, Some(run("r"))).unwrap();
    assert_eq!((finish().run.status, finish().run.end_time_ms), (RunStatus::Killed, Some(50)));
    assert!(RunStatus::Killed.is_terminal());
    assert!(!RunStatus::Running.is_terminal());
    assert!(matches!(
        log_param("r", "k", "v", Some(finish())),
        Err(RunStoreError::RunFinished { .. })
    ));
    assert!(matches!(
        log_metric("r", &point(1.0, 1, 1), Some(finish())),
        Err(RunStoreError::RunFinished { .. })
    ));
    let open = reopen_run("r", Some(finish())).unwrap();
    assert_eq!((open.run.status, open.run.end_time_ms), (RunStatus::Running, None));
    assert!(log_param("r", "k", "v", Some(open)).is_ok());
}

#[test]
fn logging_a_param_again_changes_nothing() {
    let (stored, changed) = log_param("r", "k", "v", Some(run("r"))).unwrap();
    assert!(changed);
    let (stored, changed) = log_param("r", "k", "v", Some(stored)).unwrap();
    assert!(!changed);
    assert_eq!(stored.run.params.len(), 1);
    assert!(matches!(
        log_param("r", "k", "w", Some(stored)),
        Err(RunStoreError::ParamImmutable { key, run_id }) if key == "k" && run_id == "r"
    ));
}

#[test]
fn the_latest_sample_is_projected() {
    let logged = |stored: StoredRun, p: MetricPoint| log_metric("r", &p, Some(stored)).unwrap();
    let first = logged(run("r"), point(0.9, 100, 0));
    assert_eq!(first.history_len, 1);
    let second = logged(first.stored, point(0.7, 200, 1));
    assert_ne!(first.doc_id, second.doc_id);
    assert_eq!(second.history_len, 2);
    let third = logged(second.stored, point(5.0, 150, 2));
    let fourth = logged(third.stored, point(0.8, 200, 3));
    let latest = fourth.stored.run.latest_metrics.get("loss").unwrap();
    assert_eq!((latest.value.bits, latest.step), (0.8f64.to_bits(), 3));
    let fifth = logged(fourth.stored, point(0.8, 200, 4));
    assert_eq!(fifth.stored.run.latest_metrics.get("loss").unwrap().step, 3);
    assert_eq!(fifth.history_len, 5);
}

fn doc(id: &str, seq: Option<i64>, sample: SampleRead<MetricPoint>) -> SampleDoc<MetricPoint> {
    SampleDoc { id: id.to_string(), seq, shown: "{}".to_string(), sample }
}

#[test]
fn histories_are_ordered_by_sequence() {
    let docs = vec![
        doc("b", Some(2), SampleRead::Sample(point(0.2, 1, 1))),
        doc("a", Some(1), SampleRead::Sample(point(0.1, 2, 2))),
    ];
    let history = metric_history("r", &Some(run("r")), docs).unwrap();
    assert_eq!(history[0].value.bits, 0.1f64.to_bits());
    assert_eq!(history[1].value.bits, 0.2f64.to_bits());
    assert!(matches!(
        metric_history("r", &None, vec![]),
        Err(RunStoreError::UnknownRun { .. })
    ));
    for (broken, text) in [
        (doc("x", None, SampleRead::Missing), "missing its seq field"),
        (doc("x", Some(1), SampleRead::Missing), "has no payload"),
        (doc("x", Some(1), SampleRead::Corrupt), "corrupt"),
    ] {
        let failed = order_samples(vec![broken], "metric", "").unwrap_err();
        assert!(matches!(failed, RunStoreError::Internal { message } if message.contains(text)));
    }
}

#[test]
fn tags_leave_counters_alone() {
    let logged = log_metric("r", &point(1.0, 1, 1), Some(run("r"))).unwrap().stored;
    let tagged = set_tag("r", "k", "v", Some(logged)).unwrap();
    assert_eq!(tagged.run.tags.get("k").map(|v| v.as_str()), Some("v"));
    assert_eq!(tagged.counters.len(), 1);
    let untagged = delete_tag("r", "k", Some(tagged)).unwrap();
    assert!(untagged.run.tags.get("k").is_none());
    assert_eq!(untagged.counters.len(), 1);
}

#[test]
fn inputs_and_outputs_are_kept() {
    let (stored, first) = log_dataset_input("r", Some(run("r"))).unwrap();
    let (stored, second) = log_dataset_input("r", Some(stored)).unwrap();
    assert_ne!(first, second);
    let stored = log_run_outputs(
        "r",
        vec![ModelOutputRef { model_id: "m".to_string(), step: 2 }],
        Some(stored),
    )
    .unwrap();
    assert_eq!(stored.run.model_outputs.len(), 1);
    let stored = log_run_model_inputs("r", vec!["m".to_string()], Some(stored)).unwrap();
    assert!(stored.run.model_inputs.contains(&"m".to_string()));
}

#[test]
fn document_ids_are_apart() {
    assert_ne!(run_doc_id("1"), experiment_doc_id(1));
    assert_ne!(run_doc_id("1"), trace_doc_id("1"));
    assert_ne!(trace_doc_id("1"), logged_model_doc_id("1"));
    assert_ne!(metric_doc_id("r", "k", 1), metric_doc_id("r", "k", 2));
    assert_ne!(metric_doc_id("r", "a", 1), metric_doc_id("r", "b", 1));
    assert_ne!(metric_doc_id("r", "k", 1), model_metric_doc_id("r", "k", 1));
    assert_ne!(dataset_doc_id("r", 1), dataset_doc_id("r", 2));
    assert_ne!(counter_key("a"), counter_key("b"));
}

#[test]
fn counters_read_back() {
    let mut counters: TextMap<u64> = TextMap::new();
    counters.insert(counter_key("loss"), 3);
    counters.insert(counter_key("acc"), 1);
    let fields = fields_of_counters(&counters);
    assert_eq!(fields.len(), 2);
    let read = counters_from_fields(&fields);
    assert_eq!(read.len(), 2);
    assert_eq!(read.get(&counter_key("loss")), Some(&3));
    assert_eq!(read.get(&counter_key("acc")), Some(&1));
}

#[test]
fn traces_are_started_once() {
    let open = Some(experiment(3, "e"));
    assert!(start_trace(trace("t", 1), true, &open, false).is_ok());
    assert!(matches!(
        start_trace(trace("", 1), true, &open, false),
        Err(RunStoreError::Empty { field: "trace_id" })
    ));
    assert!(matches!(
        start_trace(trace("t", 1), false, &open, false),
        Err(RunStoreError::InvalidTraceId { .. })
    ));
    assert!(matches!(
        start_trace(trace("t", 1), true, &None, false),
        Err(RunStoreError::UnknownExperiment { .. })
    ));
    assert!(matches!(
        start_trace(trace("t", 1), true, &open, true),
        Err(RunStoreError::TraceIdConflict { .. })
    ));
    assert!(matches!(get_trace("t", None), Err(RunStoreError::UnknownTrace { .. })));
}

#[test]
fn traces_are_deleted_by_id_or_by_age() {
    let traces = vec![trace("a", 1), trace("b", 2), trace("c", 3)];
    let ids = |v: &[&str]| v.iter().map(|s| s.to_string()).collect::<Vec<_>>();
    assert_eq!(delete_traces(&traces, Some(2), None, &vec![]), ["a", "b"]);
    assert_eq!(delete_traces(&traces, None, Some(1), &vec![]), ["a"]);
    assert_eq!(delete_traces(&traces, Some(1), None, &ids(&["c", "z"])), ["c"]);
    assert_eq!(delete_traces(&traces, None, None, &vec![]).len(), 3);
    let listed = list_traces(vec![trace("b", 2), trace("a", 2), trace("c", 1)]);
    let order: Vec<&str> = listed.iter().map(|t| t.trace_id.as_str()).collect();
    assert_eq!(order.len(), 3);
    assert!(order.iter().position(|t| *t == "a") < order.iter().position(|t| *t == "b"));
}

#[test]
fn assessments_are_upserted_and_deleted() {
    let assessment = |payload: &str| AssessmentRecord {
        assessment_id: "a".to_string(),
        payload: payload.to_string(),
    };
    let held = upsert_assessment("t", assessment("1"), Some(trace("t", 1))).unwrap();
    let held = upsert_assessment("t", assessment("2"), Some(held)).unwrap();
    assert_eq!(held.assessments.len(), 1);
    let held = upsert_assessment(
        "t",
        AssessmentRecord { assessment_id: "b".to_string(), payload: "3".to_string() },
        Some(held),
    )
    .unwrap();
    let held = delete_assessment("t", "b", Some(held)).unwrap();
    assert_eq!(get_assessment("t", "a", Some(held)).unwrap().payload, "2");
    assert!(matches!(
        get_assessment("t", "b", Some(trace("t", 1))),
        Err(RunStoreError::UnknownAssessment { .. })
    ));
}

#[test]
fn trace_tags_are_set_and_deleted() {
    let tagged = set_trace_tag("t", "k", "v", Some(trace("t", 1))).unwrap();
    assert_eq!(tagged.tags.get("k").map(|v| v.as_str()), Some("v"));
    let untagged = delete_trace_tag("t", "k", Some(tagged)).unwrap();
    assert_eq!(untagged.tags.len(), 0);
    assert!(matches!(
        set_trace_tag("t", "k", "v", None),
        Err(RunStoreError::UnknownTrace { .. })
    ));
}

#[test]
fn logged_models_keep_their_params() {
    let logged = log_logged_model_params("m", &texts(&[("k", "v")]), 9, Some(stored_model("m"))).unwrap();
    assert_eq!(logged.model.last_updated_time_ms, 9);
    let again = log_logged_model_params("m", &texts(&[("k", "v")]), 10, Some(logged)).unwrap();
    assert_eq!(again.model.params.get("k").map(|v| v.as_str()), Some("v"));
    assert!(matches!(
        log_logged_model_params("m", &texts(&[("k", "w")]), 11, Some(again)),
        Err(RunStoreError::ParamImmutable { .. })
    ));
}

#[test]
fn logged_models_are_finalized_and_deleted() {
    let ready = finalize_logged_model("m", LoggedModelStatus::Ready, 8, Some(stored_model("m"))).unwrap();
    assert_eq!((ready.model.status, ready.model.last_updated_time_ms), (LoggedModelStatus::Ready, 8));
    let deleted = || delete_logged_model("m", 9, Some(stored_model("m"))).unwrap();
    assert_eq!(deleted().model.lifecycle, RunLifecycle::Deleted);
    assert!(matches!(
        get_logged_model("m", Some(deleted()), false),
        Err(RunStoreError::UnknownLoggedModel { .. })
    ));
    assert!(get_logged_model("m", Some(deleted()), true).is_ok());
    assert!(matches!(
        logged_model_with_counters("m", None),
        Err(RunStoreError::UnknownLoggedModel { .. })
    ));
    assert!(matches!(
        create_logged_model(model("m", 1), &Some(experiment(3, "e")), true),
        Err(RunStoreError::LoggedModelIdConflict { .. })
    ));
    assert_eq!(list_logged_models(vec![deleted().model, model("n", 1)], false).len(), 1);
}

#[test]
fn logged_model_tags_are_set_and_deleted() {
    let tagged = set_logged_model_tags("m", &texts(&[("k", "v")]), 9, Some(stored_model("m"))).unwrap();
    assert_eq!(tagged.model.tags.len(), 1);
    let untagged = delete_logged_model_tag("m", "k", 10, Some(tagged)).unwrap();
    assert_eq!(untagged.model.tags.len(), 0);
    assert!(matches!(
        delete_logged_model_tag("m", "k", 11, Some(untagged)),
        Err(RunStoreError::UnknownLoggedModelTag { .. })
    ));
}

#[test]
fn logged_model_metrics_are_numbered() {
    let first = log_model_metric("m", "loss", Some(stored_model("m"))).unwrap();
    let second = log_model_metric("m", "loss", Some(first.stored)).unwrap();
    assert_eq!((first.history_len, second.history_len), (1, 2));
    assert_ne!(first.doc_id, second.doc_id);
    let docs = vec![
        doc("b", Some(2), SampleRead::Sample(point(0.2, 1, 1))),
        doc("a", Some(1), SampleRead::Sample(point(0.1, 2, 2))),
    ];
    let history = model_metric_history("m", &Some(second.stored), docs).unwrap();
    assert_eq!(history[0].value.bits, 0.1f64.to_bits());
}

#[test]
fn store_errors_are_reported() {
    let code = |e: RunStoreError| report(e).code;
    let text = || "x".to_string();
    assert_eq!(code(RunStoreError::UnknownRun { run_id: text() }), "RESOURCE_DOES_NOT_EXIST");
    assert_eq!(code(RunStoreError::UnknownTrace { trace_id: text() }), "RESOURCE_DOES_NOT_EXIST");
    assert_eq!(code(RunStoreError::RunIdConflict { run_id: text() }), "RESOURCE_ALREADY_EXISTS");
    assert_eq!(
        code(RunStoreError::ParamImmutable { key: text(), run_id: text() }),
        "INVALID_PARAMETER_VALUE"
    );
    assert_eq!(code(RunStoreError::ExperimentDeleted { experiment_id: 1 }), "INVALID_STATE");
    assert_eq!(code(RunStoreError::NotTerminal), "INTERNAL_ERROR");
    assert_eq!(report(RunStoreError::Internal { message: text() }).status, 500);
    assert_eq!(
        report(RunStoreError::UnknownExperiment { experiment_id: 7 }).message,
        "Could not find experiment with ID '7'"
    );
    assert_eq!(
        report(RunStoreError::Empty { field: "name" }).message,
        "name must not be empty"
    );
    assert_eq!(MlflowError::already_exists(text()).status, 400);
    assert_eq!(MlflowError::not_found(text()).status, 404);
}

#[test]
fn doubles_compare_as_numbers() {
    let d = |x: f64| Double { bits: x.to_bits() };
    let values = [
        f64::NEG_INFINITY,
        -1.5,
        -f64::MIN_POSITIVE,
        -0.0,
        0.0,
        5e-324,
        1.5,
        f64::MAX,
        f64::INFINITY,
        f64::NAN,
    ];
    for a in values {
        for b in values {
            assert_eq!(holds(Comparison::Less, d(a), d(b)), a < b, "{a} < {b}");
            assert_eq!(holds(Comparison::LessOrEqual, d(a), d(b)), a <= b, "{a} <= {b}");
            assert_eq!(holds(Comparison::Greater, d(a), d(b)), a > b, "{a} > {b}");
            assert_eq!(holds(Comparison::GreaterOrEqual, d(a), d(b)), a >= b, "{a} >= {b}");
            assert_eq!(holds(Comparison::Equal, d(a), d(b)), a == b, "{a} == {b}");
            assert_eq!(holds(Comparison::NotEqual, d(a), d(b)), a != b, "{a} != {b}");
        }
        assert_eq!(d(a).nan(), a.is_nan());
        assert_eq!(d(a).infinite(), a.is_infinite());
        assert_eq!(d(a).negative(), a.is_sign_negative());
    }
}

#[test]
fn factories_keep_their_document_service() {
    let factory = SubstrateRunStoreFactory::new(7u8);
    assert_eq!(*factory.document(), 7);
    let error = SubstrateRunStoreFactory::<u8>::scope_error("acme", "bad");
    assert!(matches!(
        error,
        RunStoreError::Internal { message } if message.contains("acme") && message.contains("bad")
    ));
}
