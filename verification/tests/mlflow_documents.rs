//! Documents of the tracking store.

use proximadb::mlflow::documents::counter_key;
use proximadb::mlflow::error::RunStoreError;
use proximadb::mlflow::index::{
    FieldValue, IndexField, dataset_fields, eq_cond, experiment_fields, experiments_conditions,
    history_conditions, logged_model_fields, member_conditions, metric_fields,
    model_metric_conditions, model_metric_fields, number_cond, run_fields, trace_fields,
};
use proximadb::mlflow::logged::create_logged_model;
use proximadb::mlflow::reading::{
    RecordDoc, dataset_inputs, read_logged_model, read_records, read_run,
};
use proximadb::mlflow::records::{
    ExperimentRecord, ExperimentStage, LoggedModelRecord, LoggedModelStatus, RunLifecycle,
    RunRecord, TraceRecord,
};
use proximadb::mlflow::store::{SampleRead, StoredRun, create_run};
use proximadb::mlflow::wire::{BatchStep, runs_log_batch};
use proximadb::text::map::TextMap;

fn experiment() -> ExperimentRecord {
    ExperimentRecord {
        experiment_id: 3,
        name: "iris".to_string(),
        artifact_location: None,
        tags: TextMap::new(),
        stage: ExperimentStage::Active,
        creation_time_ms: 1,
        last_update_time_ms: 1,
    }
}

fn stored_run() -> StoredRun {
    let mut stored = create_run(
        &Some(experiment()),
        false,
        3,
        "r",
        None,
        None,
        TextMap::new(),
        10,
    )
    .expect("run");
    stored.counters.insert(counter_key("loss"), 4);
    stored.counters.insert("ds".to_string(), 1);
    stored
}

fn same(a: &FieldValue, b: &FieldValue) -> bool {
    match (a, b) {
        (FieldValue::Text(x), FieldValue::Text(y)) => x == y,
        (FieldValue::Number(x), FieldValue::Number(y)) => x == y,
        _ => false,
    }
}

fn meets(fields: &[IndexField], conditions: &[IndexField]) -> bool {
    conditions.iter().all(|c| {
        fields
            .iter()
            .rev()
            .find(|f| f.path == c.path)
            .is_some_and(|f| same(&f.value, &c.value))
    })
}

fn numbers(fields: &[IndexField]) -> Vec<(String, i64)> {
    fields
        .iter()
        .filter_map(|f| match &f.value {
            FieldValue::Number(n) => Some((f.path.clone(), *n)),
            FieldValue::Text(_) => None,
        })
        .collect()
}

#[test]
fn members_are_found_in_their_experiment() {
    let run = run_fields(&stored_run(), "\"active\"");
    let trace = trace_fields(
        &TraceRecord {
            trace_id: "t".to_string(),
            experiment_id: 3,
            request_time_ms: 1,
            state: "OK".to_string(),
            tags: TextMap::new(),
            assessments: vec![],
        },
    );
    assert!(meets(&run, &member_conditions("run", 3)));
    assert!(!meets(&run, &member_conditions("run", 4)));
    assert!(!meets(&run, &member_conditions("trace", 3)));
    assert!(meets(&trace, &member_conditions("trace", 3)));
    assert!(!meets(&trace, &member_conditions("logged_model", 3)));
    let stored = create_logged_model(
        LoggedModelRecord {
            model_id: "m".to_string(),
            experiment_id: 3,
            name: "m".to_string(),
            status: LoggedModelStatus::Pending,
            lifecycle: RunLifecycle::Active,
            creation_time_ms: 1,
            last_updated_time_ms: 1,
            params: TextMap::new(),
            tags: TextMap::new(),
        },
        &Some(experiment()),
        false,
    )
    .expect("model");
    let model = logged_model_fields(&stored, "\"active\"");
    assert!(meets(&model, &member_conditions("logged_model", 3)));
    assert!(!meets(&model, &member_conditions("run", 3)));
    let fields = experiment_fields(&experiment(), "\"active\"");
    assert!(meets(&fields, &experiments_conditions()));
    assert!(meets(&fields, &[eq_cond("name", "iris")]));
    assert!(!meets(&run, &experiments_conditions()));
    assert!(meets(&run, &[number_cond("experiment_id", 3)]));
}

#[test]
fn samples_are_found_by_owner_and_key() {
    let sample = metric_fields("r", "loss", 2);
    assert!(meets(&sample, &history_conditions("r", "loss")));
    assert!(!meets(&sample, &history_conditions("r", "acc")));
    assert!(!meets(&sample, &history_conditions("q", "loss")));
    let sample = model_metric_fields("r", "loss", 2);
    assert!(!meets(&sample, &history_conditions("r", "loss")));
    assert!(meets(&sample, &model_metric_conditions("r", None)));
    assert!(meets(&sample, &model_metric_conditions("r", Some("loss"))));
    assert!(!meets(&sample, &model_metric_conditions("r", Some("acc"))));
    assert!(meets(&dataset_fields("r"), &dataset_fields("r")));
    assert!(!meets(&dataset_fields("r"), &dataset_fields("q")));
}

fn run_doc(record: SampleRead<RunRecord>) -> Option<RecordDoc<RunRecord>> {
    Some(RecordDoc { id: "run-r".to_string(), shown: "None".to_string(), record })
}

fn message(error: RunStoreError) -> String {
    match error {
        RunStoreError::Internal { message } => message,
        _ => panic!("internal error expected"),
    }
}

#[test]
fn counters_survive_in_run_documents() {
    let stored = stored_run();
    let fields = run_fields(&stored, "\"active\"");
    let read = read_run("r", run_doc(SampleRead::Sample(stored.run)), &numbers(&fields))
        .expect("readable")
        .expect("present");
    assert_eq!(read.counters.len(), 2);
    assert_eq!(read.counters.get(&counter_key("loss")), Some(&4));
    assert_eq!(read.counters.get("ds"), Some(&1));
    assert_eq!(read.run.run_id, "r");
}

#[test]
fn unreadable_documents_are_reported() {
    assert!(read_run("r", None, &vec![]).expect("absent").is_none());
    assert_eq!(
        message(read_run("r", run_doc(SampleRead::Missing), &vec![]).unwrap_err()),
        "run document 'r' has no payload"
    );
    assert_eq!(
        message(read_run("r", run_doc(SampleRead::Corrupt), &vec![]).unwrap_err()),
        "corrupt run doc 'run-r'"
    );
    let doc = |record: SampleRead<LoggedModelRecord>| {
        Some(RecordDoc { id: "lm-m".to_string(), shown: "None".to_string(), record })
    };
    assert!(read_logged_model("m", None, &vec![]).expect("absent").is_none());
    assert_eq!(
        message(read_logged_model("m", doc(SampleRead::Missing), &vec![]).unwrap_err()),
        "logged-model document 'm' has no payload"
    );
    assert_eq!(
        message(read_logged_model("m", doc(SampleRead::Corrupt), &vec![]).unwrap_err()),
        "corrupt logged-model doc 'lm-m'"
    );
}

#[test]
fn records_are_read_until_one_fails() {
    let doc = |id: &str, record: SampleRead<u8>| RecordDoc {
        id: id.to_string(),
        shown: "None".to_string(),
        record,
    };
    let sample = |n: u8| SampleRead::Sample(n);
    assert_eq!(
        read_records(vec![doc("a", sample(1)), doc("b", sample(2))], "trace").unwrap(),
        [1, 2]
    );
    assert_eq!(
        message(
            read_records(
                vec![doc("a", sample(1)), doc("b", SampleRead::Missing), doc("c", SampleRead::Corrupt)],
                "trace"
            )
            .unwrap_err()
        ),
        "tracking document 'b' has no string payload (None)"
    );
    assert_eq!(
        message(read_records(vec![doc("c", SampleRead::Corrupt)], "trace").unwrap_err()),
        "corrupt trace doc 'c'"
    );
    assert_eq!(
        dataset_inputs("r", &Some(stored_run()), vec![doc("a", sample(7))]).unwrap(),
        [7]
    );
    assert_eq!(
        message(
            dataset_inputs("r", &Some(stored_run()), vec![doc("a", SampleRead::Missing)]).unwrap_err()
        ),
        "dataset doc 'a' has no payload"
    );
    assert!(matches!(
        dataset_inputs::<u8>("r", &None, vec![]),
        Err(RunStoreError::UnknownRun { .. })
    ));
}

#[test]
fn batches_log_params_first_and_tags_last() {
    assert_eq!(
        runs_log_batch(2, 1, 1).unwrap(),
        [
            BatchStep::Param(0),
            BatchStep::Metric(0),
            BatchStep::Metric(1),
            BatchStep::Tag(0)
        ]
    );
    assert_eq!(
        runs_log_batch(1001, 0, 0).unwrap_err().message,
        "log-batch caps: 1000 metrics, 100 params, 100 tags"
    );
}
