//! Whole workflows of the tracking API and of the model registry.

use proximadb::mlflow::conditions::FieldFilter;
use proximadb::mlflow::double::Double;
use proximadb::mlflow::error::{MlflowError, RunStoreError, report};
use proximadb::mlflow::records::{
    ExperimentRecord, MetricPoint, ModelOutputRef, RunRecord, RunStatus,
};
use proximadb::mlflow::registry::{
    AliasRequest, ContractError, ModelRegistry, ModelRegistryError, ModelVersion,
    ModelVersionsSearchRequest, RegisteredModelOut, TransitionStageRequest, contract_error,
    model_versions_create, model_versions_name, model_versions_search,
    model_versions_transition_stage, read_models_filter, registered_model_out,
    registered_models_alias_get, registered_models_alias_set, registered_models_create,
    registered_models_search, report_registry_error,
};
use proximadb::mlflow::search::{
    experiments_search, read_experiments_query, read_runs_query, runs_search,
};
use proximadb::mlflow::store::{
    StoredRun, create_experiment, create_run, finish_run, get_experiment, log_metric, log_param,
    reopen_run, run_with_counters, set_tag,
};
use proximadb::mlflow::wire::{
    ExperimentOut, KeyValue, MetricValueIn, MetricValueOut, RunOut, RunTransition, metric_value_in,
    metric_value_out, parse_id, run_out, runs_update, tags_map, uuid_like_id,
};
use proximadb::text::map::TextMap;

fn copied<T>(m: &TextMap<T>, copy: impl Fn(&T) -> T) -> TextMap<T> {
    let mut r = TextMap::new();
    for i in 0..m.len() {
        r.insert(m.key_at(i).clone(), copy(m.value_at(i)));
    }
    r
}

fn copied_texts(m: &TextMap<String>) -> TextMap<String> {
    copied(m, |v| v.clone())
}

fn copied_point(p: &MetricPoint) -> MetricPoint {
    MetricPoint { key: p.key.clone(), value: p.value, timestamp_ms: p.timestamp_ms, step: p.step }
}

fn copied_experiment(e: &ExperimentRecord) -> ExperimentRecord {
    ExperimentRecord {
        experiment_id: e.experiment_id,
        name: e.name.clone(),
        artifact_location: e.artifact_location.clone(),
        tags: copied_texts(&e.tags),
        stage: e.stage,
        creation_time_ms: e.creation_time_ms,
        last_update_time_ms: e.last_update_time_ms,
    }
}

fn copied_run(r: &RunRecord) -> RunRecord {
    RunRecord {
        run_id: r.run_id.clone(),
        experiment_id: r.experiment_id,
        run_name: r.run_name.clone(),
        user_id: r.user_id.clone(),
        lifecycle: r.lifecycle,
        status: r.status,
        start_time_ms: r.start_time_ms,
        end_time_ms: r.end_time_ms,
        params: copied_texts(&r.params),
        latest_metrics: copied(&r.latest_metrics, copied_point),
        tags: copied_texts(&r.tags),
        model_inputs: r.model_inputs.clone(),
        model_outputs: r
            .model_outputs
            .iter()
            .map(|o| ModelOutputRef { model_id: o.model_id.clone(), step: o.step })
            .collect(),
    }
}

fn copied_stored(s: &StoredRun) -> StoredRun {
    StoredRun { run: copied_run(&s.run), counters: copied(&s.counters, |n| *n) }
}

/// The tracking store of one tenant.
struct Store {
    experiments: Vec<ExperimentRecord>,
    runs: Vec<StoredRun>,
}

impl Store {
    fn new() -> Self {
        Store { experiments: vec![], runs: vec![] }
    }

    fn create_experiment(&mut self, name: &str, tags: &[(&str, &str)]) -> Result<String, MlflowError> {
        let tags: Vec<KeyValue> = tags
            .iter()
            .map(|(k, v)| KeyValue { key: k.to_string(), value: v.to_string() })
            .collect();
        let last = self.experiments.iter().map(|e| e.experiment_id).max();
        let made = create_experiment(name, None, tags_map(&tags), &self.experiments, last, 1)
            .map_err(report)?;
        let id = made.experiment_id.to_string();
        self.experiments.push(made);
        Ok(id)
    }

    fn experiment(&self, id: &str) -> Result<ExperimentRecord, MlflowError> {
        let id = parse_id(id, "experiment")?;
        let found = self
            .experiments
            .iter()
            .find(|e| e.experiment_id == id)
            .map(copied_experiment);
        get_experiment(id, found).map_err(report)
    }

    fn search_experiments(
        &self,
        filter: Option<&str>,
        max_results: Option<u32>,
        page_token: Option<&str>,
    ) -> Result<(Vec<ExperimentOut>, Option<String>), MlflowError> {
        let query = read_experiments_query(None, filter)?;
        experiments_search(&query, &self.experiments, max_results, page_token)
    }

    fn create_run(&mut self, experiment_id: &str, name: &str, start: i64) -> Result<RunOut, MlflowError> {
        let id = parse_id(experiment_id, "experiment")?;
        let experiment = self
            .experiments
            .iter()
            .find(|e| e.experiment_id == id)
            .map(copied_experiment);
        let made = create_run(
            &experiment,
            false,
            id,
            &uuid_like_id(),
            Some(name.to_string()),
            None,
            TextMap::new(),
            start,
        )
        .map_err(report)?;
        let out = run_out(&made.run);
        self.runs.push(made);
        Ok(out)
    }

    fn found(&self, run_id: &str) -> Option<StoredRun> {
        self.runs.iter().find(|r| r.run.run_id == run_id).map(copied_stored)
    }

    fn put(&mut self, stored: StoredRun) {
        let at = self
            .runs
            .iter()
            .position(|r| r.run.run_id == stored.run.run_id)
            .expect("run");
        self.runs[at] = stored;
    }

    fn log_param(&mut self, run_id: &str, key: &str, value: &str) -> Result<(), MlflowError> {
        let (stored, _) = log_param(run_id, key, value, self.found(run_id)).map_err(report)?;
        self.put(stored);
        Ok(())
    }

    fn log_metric(
        &mut self,
        run_id: &str,
        key: &str,
        value: f64,
        timestamp_ms: i64,
        step: i64,
    ) -> Result<(), MlflowError> {
        let point = MetricPoint {
            key: key.to_string(),
            value: Double { bits: value.to_bits() },
            timestamp_ms,
            step,
        };
        let appended = log_metric(run_id, &point, self.found(run_id)).map_err(report)?;
        self.put(appended.stored);
        Ok(())
    }

    fn set_tag(&mut self, run_id: &str, key: &str, value: &str) -> Result<(), MlflowError> {
        let stored = set_tag(run_id, key, value, self.found(run_id)).map_err(report)?;
        self.put(stored);
        Ok(())
    }

    fn update(&mut self, run_id: &str, status: &str, end_time: i64) -> Result<RunOut, MlflowError> {
        let stored = match runs_update(run_id, Some(status))? {
            RunTransition::Keep => run_with_counters(run_id, self.found(run_id)),
            RunTransition::Reopen => reopen_run(run_id, self.found(run_id)),
            RunTransition::Finish(status) => finish_run(run_id, status, end_time, self.found(run_id)),
        }
        .map_err(report)?;
        let out = run_out(&stored.run);
        self.put(stored);
        Ok(out)
    }

    fn get_run(&self, run_id: &str) -> Result<RunOut, MlflowError> {
        let stored = run_with_counters(run_id, self.found(run_id)).map_err(report)?;
        Ok(run_out(&stored.run))
    }

    fn search_runs(
        &self,
        experiment_id: &str,
        filter: Option<&str>,
        max_results: Option<u32>,
        page_token: Option<&str>,
    ) -> Result<(Vec<RunOut>, Option<String>), MlflowError> {
        let query = read_runs_query(&vec![experiment_id.to_string()], None, filter, &vec![])?;
        let numbers: Vec<Double> = query
            .filters
            .iter()
            .map(|f: &FieldFilter| Double {
                bits: f
                    .number()
                    .map(|t| t.parse::<f64>().expect("number"))
                    .unwrap_or(0.0)
                    .to_bits(),
            })
            .collect();
        let records: Vec<RunRecord> = self.runs.iter().map(|r| copied_run(&r.run)).collect();
        runs_search(&query, &numbers, &records, max_results, page_token)
    }
}

#[test]
fn mlflow_workflow_over_the_wire() {
    let mut store = Store::new();

    // Experiment create -> string id (JavaScript-safe).
    let experiment_id = store.create_experiment("iris", &[("team", "ml")]).unwrap();

    // Experiment filters must actually filter, and malformed filters must
    // fail closed instead of silently selecting every active row.
    let other_experiment_id = store.create_experiment("other", &[]).unwrap();
    let (found, _) = store.search_experiments(Some("name = 'iris'"), None, None).unwrap();
    assert_eq!(found.len(), 1);
    let error = store
        .search_experiments(Some("bogus = 'iris'"), None, None)
        .unwrap_err();
    assert_eq!(error.status, 400);
    assert_eq!(error.code, "INVALID_PARAMETER_VALUE");

    // Search pagination is stable and never silently drops the tail.
    let (first_page, token) = store.search_experiments(None, Some(1), None).unwrap();
    assert_eq!(first_page.len(), 1);
    let token = token.expect("first page must advertise the remaining experiment");
    let (second_page, _) = store.search_experiments(None, Some(1), Some(&token)).unwrap();
    assert_eq!(second_page.len(), 1);
    assert_ne!(first_page[0].experiment_id, second_page[0].experiment_id);
    assert!([&experiment_id, &other_experiment_id].contains(&&second_page[0].experiment_id));

    // Run create -> MLflow run shape (info/data split, mlflow.runName).
    let run = store.create_run(&experiment_id, "baseline", 1000).unwrap();
    let run_id = run.info.run_id.clone();
    assert_eq!(run.info.status, "RUNNING");
    assert_eq!(run.info.lifecycle_stage, "active");
    assert!(
        run.data
            .tags
            .iter()
            .any(|t| t.key == "mlflow.runName" && t.value == "baseline"),
        "mlflow.runName tag must round-trip"
    );
    let newer_run_id = store
        .create_run(&experiment_id, "newer", 2000)
        .unwrap()
        .info
        .run_id;

    // Params + metrics + batch.
    store.log_param(&run_id, "lr", "0.01").unwrap();
    store.log_metric(&run_id, "rmse", 0.9, 1000, 0).unwrap();
    store.log_param(&run_id, "model class", "linear").unwrap();
    store.log_metric(&run_id, "rmse", 0.7, 2000, 1).unwrap();
    store.log_param(&run_id, "batch-param", "ok").unwrap();
    store.set_tag(&run_id, "phase", "tune").unwrap();
    store.log_metric(&run_id, "rmse", 0.1, 1500, 2).unwrap();
    store.log_metric(&run_id, "rmse", 0.8, 2000, 3).unwrap();

    // Get run: latest metric + params + tags present.
    let run = store.get_run(&run_id).unwrap();
    assert_eq!(run.data.metrics.len(), 1);
    assert_eq!(
        run.data.metrics[0].value.bits,
        0.8f64.to_bits(),
        "latest projection uses timestamp, then maximum value on a tie"
    );

    // Default run order is newest-first and pagination reaches the tail.
    let (first_page, token) = store.search_runs(&experiment_id, None, Some(1), None).unwrap();
    assert_eq!(first_page[0].info.run_id, newer_run_id);
    let token = token.expect("first run page must advertise the remaining run");
    let (second_page, _) = store
        .search_runs(&experiment_id, None, Some(1), Some(&token))
        .unwrap();
    assert_eq!(second_page[0].info.run_id, run_id);

    // Search: matching filter finds the run; a non-matching one returns empty.
    let matching = "params.lr = '0.01' AND metrics.rmse < 0.95";
    let (runs, _) = store.search_runs(&experiment_id, Some(matching), None, None).unwrap();
    assert_eq!(runs.len(), 1);
    let quoted_key = "params.`model class` = 'linear' and tags.phase = 'tune'";
    let (runs, _) = store.search_runs(&experiment_id, Some(quoted_key), None, None).unwrap();
    assert_eq!(runs.len(), 1);
    let (runs, _) = store
        .search_runs(&experiment_id, Some("params.lr = '9.9'"), None, None)
        .unwrap();
    assert_eq!(runs.len(), 0, "non-matching filter must return EMPTY");

    // Unparseable filter -> INVALID_PARAMETER_VALUE (never ignored).
    let error = store
        .search_runs(&experiment_id, Some("bogus_field = 1"), None, None)
        .unwrap_err();
    assert_eq!(error.code, "INVALID_PARAMETER_VALUE");

    // Finish via update; further writes are INVALID_STATE.
    store.update(&run_id, "FINISHED", 9000).unwrap();
    let error = store.log_metric(&run_id, "rmse", 0.1, 9500, 2).unwrap_err();
    assert_eq!(error.status, 400);
    assert_eq!(error.code, "INVALID_STATE");

    // Terminal states must round-trip.
    let updated = store.update(&newer_run_id, "FAILED", 9100).unwrap();
    assert_eq!(updated.info.status, "FAILED");

    // Reopening is an explicit MLflow transition. Non-finite metric values
    // use proto3 JSON strings and must survive the round-trip.
    store.update(&newer_run_id, "RUNNING", 0).unwrap();
    let infinity = match metric_value_in("Infinity") {
        Ok(MetricValueIn::Special(x)) => f64::from_bits(x.bits),
        _ => panic!("Infinity must be read"),
    };
    store.log_metric(&newer_run_id, "diverged", infinity, 9800, 0).unwrap();
    let run = store.get_run(&newer_run_id).unwrap();
    assert!(matches!(
        metric_value_out(run.data.metrics[0].value),
        MetricValueOut::Text("Infinity")
    ));

    // Duplicate experiment name -> RESOURCE_ALREADY_EXISTS (MLflow code).
    let error = store.create_experiment("iris", &[]).unwrap_err();
    assert_eq!(error.status, 400);
    assert_eq!(error.code, "RESOURCE_ALREADY_EXISTS");
}

#[test]
fn foreign_tenant_probe_is_uniform_not_found() {
    let mut alice = Store::new();
    let mut bob = Store::new();
    let experiment_id = alice.create_experiment("private", &[]).unwrap();

    // Cross-tenant probe: identical to a missing id.
    let error = bob.experiment(&experiment_id).unwrap_err();
    assert_eq!(error.status, 404);
    assert_eq!(error.code, "RESOURCE_DOES_NOT_EXIST");
    let missing = bob.experiment("999999").unwrap_err();
    assert_eq!(missing.status, error.status);
    assert_eq!(missing.code, error.code);

    // Same name is legal in the other tenant.
    assert!(bob.create_experiment("private", &[]).is_ok());
    assert!(alice.experiment(&experiment_id).is_ok());
}

fn registry(name: &str) -> ModelRegistry {
    ModelRegistry {
        name: name.to_string(),
        revision: 0,
        aliases: TextMap::new(),
        versions: vec![],
    }
}

fn searched(filter: &str, records: &Vec<ModelRegistry>) -> Result<Vec<RegisteredModelOut>, MlflowError> {
    let clauses = read_models_filter(Some(filter))?;
    Ok(registered_models_search(&clauses, records, None))
}

#[test]
fn registry_workflow_over_the_wire() {
    // Create -> duplicate is RESOURCE_ALREADY_EXISTS.
    registered_models_create("text-embedder", false, false).unwrap();
    let records = vec![registry("text-embedder")];
    assert_eq!(registered_model_out(&records[0]).name, "text-embedder");
    let error = report_registry_error(ModelRegistryError::AlreadyExists {
        name: "text-embedder".to_string(),
    });
    assert_eq!(error.status, 400);
    assert_eq!(error.code, "RESOURCE_ALREADY_EXISTS");

    // Tags on create are an explicit rejection (never fabricated success).
    let error = registered_models_create("other", true, false).unwrap_err();
    assert_eq!(error.status, 400);
    assert_eq!(error.code, "INVALID_PARAMETER_VALUE");

    // Search: name equality + LIKE + non-matching empty + garbage clause.
    assert_eq!(searched("name = 'text-embedder'", &records).unwrap().len(), 1);
    assert_eq!(searched("name LIKE '%embed%'", &records).unwrap().len(), 1);
    assert_eq!(searched("name = 'nope'", &records).unwrap().len(), 0);
    assert_eq!(
        searched("bogus = 1", &records).unwrap_err().code,
        "INVALID_PARAMETER_VALUE"
    );

    // Alias set on a registry with no versions: the authority rejects
    // (unknown version) with a typed error, not an internal one.
    let request = AliasRequest {
        name: "text-embedder".to_string(),
        alias: "champion".to_string(),
        version: Some("1".to_string()),
    };
    assert_eq!(registered_models_alias_set(&request).unwrap(), 1);
    let error = contract_error(ModelRegistryError::Contract {
        error: ContractError::Other { message: "unknown version 1".to_string() },
        text: "contract: unknown version 1".to_string(),
    });
    assert_eq!(error.status, 400);
    assert_eq!(error.code, "INVALID_PARAMETER_VALUE");

    // model-versions/create and transition-stage: documented rejections.
    let error = model_versions_create();
    assert_eq!(error.status, 400);
    assert!(error.message.contains("lifecycle API"));
    let error = model_versions_transition_stage(&TransitionStageRequest {
        name: "text-embedder".to_string(),
        version: "1".to_string(),
        stage: "Production".to_string(),
    });
    assert_eq!(error.status, 400);
    assert!(error.message.contains("alias"));

    // Model versions of a registry with none: empty list, not an error.
    let search = ModelVersionsSearchRequest {
        name: "text-embedder".to_string(),
        filter: None,
        max_results: None,
    };
    assert_eq!(model_versions_name(&search).unwrap(), "text-embedder");
    assert_eq!(model_versions_search(&records[0], None).len(), 0);

    // A registered version, its alias, and the object-shaped projection.
    let mut versioned = registry("versioned");
    versioned.versions.push(ModelVersion {
        version: 1,
        uri: "s3://bucket/model.bin".to_string(),
        source_run_id: Some("run-0001".to_string()),
        created_at_ms: 1_000,
    });
    versioned.aliases.insert("champion".to_string(), 1);
    let out = registered_model_out(&versioned);
    assert_eq!(out.aliases.len(), 1);
    assert_eq!(out.aliases[0].key, "champion");
    assert_eq!(out.aliases[0].value, "1");
    assert_eq!(out.latest_versions.len(), 1);
    assert_eq!(out.latest_versions[0].version, "1");
    assert_eq!(out.latest_versions[0].source, "s3://bucket/model.bin");
    assert_eq!(out.latest_versions[0].run_id, "run-0001");
    let request = AliasRequest { name: "versioned".to_string(), ..request };
    assert_eq!(registered_models_alias_get(&versioned, &request).unwrap().version, "1");
    assert_eq!(versioned.versions.len(), 1);
}

#[test]
fn params_are_immutable() {
    let mut store = Store::new();
    let experiment_id = store.create_experiment("e", &[]).unwrap();
    let run_id = store.create_run(&experiment_id, "r", 1).unwrap().info.run_id;
    store.log_param(&run_id, "lr", "0.1").unwrap();
    store.log_param(&run_id, "lr", "0.1").unwrap();
    let error = store.log_param(&run_id, "lr", "0.2").unwrap_err();
    assert_eq!(error.code, "INVALID_PARAMETER_VALUE");
    assert!(error.message.contains("'lr'"));
    assert_eq!(store.get_run(&run_id).unwrap().data.params[0].value, "0.1");
}

#[test]
fn a_run_needs_an_end_to_finish() {
    let finished = finish_run("r", RunStatus::Running, 1, None).unwrap_err();
    assert!(matches!(finished, RunStoreError::NotTerminal));
}
