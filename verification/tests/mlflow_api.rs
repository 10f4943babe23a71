//! Filters, pages, artifacts and wire forms of the tracking API.

use proximadb::mlflow::artifacts::{
    ArtifactAction, ArtifactEntry, ArtifactEvent, ArtifactMethod, ArtifactStep, artifact_proxy,
    artifact_root_delete, artifact_root_list, artifact_step, entries_out,
    experiment_artifact_location, list_entry_prefix, port_path, run_artifact_uri, sanitize,
    sanitize_segments,
};
use proximadb::mlflow::conditions::{
    ExperimentFilter, FieldFilter, parse_experiment_filter, parse_run_filter,
};
use proximadb::mlflow::double::{Comparison, Double};
use proximadb::mlflow::filter::{
    filter_identifier, filter_parts, lower_case, parse_filter_parts, split_filter_clauses,
    upper_case,
};
use proximadb::mlflow::page::paginate;
use proximadb::mlflow::pattern::{like_match, like_regex_text};
use proximadb::mlflow::records::{
    ExperimentRecord, ExperimentStage, MetricPoint, RunLifecycle, RunRecord, RunStatus,
};
use proximadb::mlflow::registry::{
    AliasRequest, ContractError, ModelRegistry, ModelRegistryError, ModelVersion,
    ModelVersionRequest, ModelVersionsSearchRequest, contract_error, model_version_out,
    model_versions_get, model_versions_name, model_versions_search, read_models_filter,
    registered_models_alias_delete, registered_models_alias_get, registered_models_alias_set,
    registered_models_create, registered_models_search, report_registry_error,
};
use proximadb::mlflow::search::{
    experiments_get_by_name, experiments_search, read_experiments_query, read_order,
    read_runs_query, runs_search,
};
use proximadb::mlflow::wire::{
    KeyValue, MetricValueIn, MetricValueOut, RunTransition, check_batch, experiment_out,
    id_from_bytes, is_enabled, metric_value_in, metric_value_out, metrics_get_history, pairs_of,
    parse_id, require_text, run_out, runs_update, tags_map, uuid_like_id,
};
use proximadb::text::map::TextMap;

fn texts(pairs: &[(&str, &str)]) -> TextMap<String> {
    let mut m = TextMap::new();
    for (k, v) in pairs {
        m.insert(k.to_string(), v.to_string());
    }
    m
}

fn experiment(id: u64, name: &str, stage: ExperimentStage) -> ExperimentRecord {
    ExperimentRecord {
        experiment_id: id,
        name: name.to_string(),
        artifact_location: None,
        tags: texts(&[("team", "ml")]),
        stage,
        creation_time_ms: 1,
        last_update_time_ms: 2,
    }
}

fn double(x: f64) -> Double {
    Double { bits: x.to_bits() }
}

fn point(key: &str, value: f64, timestamp_ms: i64, step: i64) -> MetricPoint {
    MetricPoint { key: key.to_string(), value: double(value), timestamp_ms, step }
}

fn run(id: &str, start: i64) -> RunRecord {
    let mut latest_metrics = TextMap::new();
    latest_metrics.insert("loss".to_string(), point("loss", 0.5, 1, 1));
    RunRecord {
        run_id: id.to_string(),
        experiment_id: 3,
        run_name: None,
        user_id: None,
        lifecycle: RunLifecycle::Active,
        status: RunStatus::Running,
        start_time_ms: start,
        end_time_ms: None,
        params: texts(&[("lr", "0.01")]),
        latest_metrics,
        tags: texts(&[("phase", "tune")]),
        model_inputs: vec![],
        model_outputs: vec![],
    }
}

fn owned(parts: &[&str]) -> Vec<String> {
    parts.iter().map(|p| p.to_string()).collect()
}

#[test]
fn gate_defaults_off_and_accepts_truthy() {
    assert!(!is_enabled(None), "unset gate must be OFF");
    assert!(is_enabled(Some("1")));
    assert!(is_enabled(Some("true")));
    assert!(is_enabled(Some(" on ")));
    assert!(!is_enabled(Some("false")), "explicit false stays OFF");
    assert!(!is_enabled(Some("")), "empty stays OFF");
}

#[test]
fn clauses_are_split_outside_quotes() {
    assert_eq!(
        split_filter_clauses("a = 'x AND y' and b = 2 AND c = 3").unwrap(),
        ["a = 'x AND y'", "b = 2", "c = 3"]
    );
    assert_eq!(split_filter_clauses("band = 1").unwrap(), ["band = 1"]);
    assert_eq!(split_filter_clauses("a = 'x").unwrap_err().message, "unterminated quote in filter");
    assert_eq!(split_filter_clauses("a = 1 AND ").unwrap_err().message, "empty filter clause");
}

#[test]
fn clauses_are_taken_apart() {
    let parts = parse_filter_parts("name like 'it''s%'", true).unwrap();
    assert_eq!(
        (parts.key.as_str(), parts.op.as_str(), parts.value.as_str()),
        ("name", "LIKE", "it's%")
    );
    let parts = parse_filter_parts(" `model class` >= 0.5 ", false).unwrap();
    assert_eq!(
        (parts.key.as_str(), parts.op.as_str(), parts.value.as_str()),
        ("model class", ">=", "0.5")
    );
    assert_eq!(
        parse_filter_parts("name", true).unwrap_err().message,
        "invalid filter clause 'name'"
    );
    assert_eq!(filter_identifier("\"a\"\"b\""), "a\"b");
    assert_eq!(filter_identifier("`a``b`"), "a`b");
    assert_eq!(filter_identifier("plain"), "plain");
}

#[test]
fn missing_groups_are_reported() {
    let message = |groups: Vec<Option<String>>| filter_parts(Ok(Some(groups)), "x").unwrap_err().message;
    let text = || Some("t".to_string());
    assert_eq!(message(vec![text()]), "filter is missing an identifier");
    assert_eq!(message(vec![text(), text()]), "filter is missing an operator");
    assert_eq!(message(vec![text(), text(), text(), None]), "filter is missing a value");
    let failed = filter_parts(Err("bad".to_string()), "x").unwrap_err();
    assert_eq!((failed.status, failed.message.as_str()), (500, "invalid built-in filter regex: bad"));
}

#[test]
fn letters_change_case() {
    assert_eq!(upper_case("like"), "LIKE");
    assert_eq!(lower_case("Attributes.NAME"), "attributes.name");
}

#[test]
fn patterns_match_whole_texts() {
    assert!(like_match("text-embedder", "%embed%"));
    assert!(like_match("abc", "a_c"));
    assert!(!like_match("abbc", "a_c"));
    assert!(!like_match("xabc", "abc"));
    assert!(like_match("a.c", "a.c"));
    assert!(!like_match("abc", "a.c"));
    assert!(like_match("ab", "a%b"));
    assert!(like_match("", "%"));
    assert_eq!(like_regex_text("a.%_"), "(?s)^a\\..*.$");
}

#[test]
fn patterns_match_across_lines() {
    assert!(like_match("a\nb", "a%b"));
    assert!(like_match("a\nb", "a_b"));
    assert!(like_match("\n", "%"));
    assert!(!like_match("a\nb", "a"));
    assert!(!like_match("a\n", "a"));
}

#[test]
fn patterns_take_other_characters_as_they_are() {
    for c in "\\.+*?()|[]{}^$#&-~ a'\"/=!<>@`:,;é".chars() {
        let text = format!("x{c}y");
        assert!(like_match(&text, &text), "{text}");
        assert!(!like_match("xzy", &text), "{text}");
        assert!(!like_match("xy", &text), "{text}");
    }
}

#[test]
fn experiment_filters_are_read() {
    let read = |f: &str| parse_experiment_filter(f).map(|v| v.into_iter().next().unwrap());
    assert!(matches!(read("name = 'a'"), Ok(ExperimentFilter::NameEq(v)) if v == "a"));
    assert!(
        matches!(read("attributes.name LIKE 'a%'"), Ok(ExperimentFilter::NameLike(v)) if v == "a%")
    );
    assert!(
        matches!(read("tags.team = 'ml'"), Ok(ExperimentFilter::TagEq(k, v)) if k == "team" && v == "ml")
    );
    assert!(matches!(
        read("attributes.lifecycle_stage = 'Deleted'"),
        Ok(ExperimentFilter::Lifecycle(ExperimentStage::Deleted))
    ));
    let message = |f: &str| read(f).unwrap_err().message;
    assert_eq!(message("name != 'a'"), "experiment name filter supports = / LIKE");
    assert_eq!(message("tags.team != 'a'"), "experiment tag filter supports = only");
    assert_eq!(message("size = 'a'"), "unsupported experiment filter field 'size'");
    assert_eq!(
        message("attributes.lifecycle_stage = 'x'"),
        "invalid experiment lifecycle_stage 'x'"
    );
}

#[test]
fn run_filters_are_read() {
    let read = |f: &str| parse_run_filter(f).map(|v| v.into_iter().next().unwrap());
    assert!(matches!(
        read("metrics.loss <= 1e-3"),
        Ok(FieldFilter::MetricCmp(k, n, Comparison::LessOrEqual)) if k == "loss" && n == "1e-3"
    ));
    assert!(matches!(read("params.a != 'b'"), Ok(FieldFilter::ParamNe(..))));
    assert!(matches!(read("params.a LIKE 'b'"), Ok(FieldFilter::ParamLike(..))));
    assert!(matches!(read("tags.a = 'b'"), Ok(FieldFilter::TagEq(..))));
    assert!(matches!(read("tags.a != 'b'"), Ok(FieldFilter::TagNe(..))));
    assert!(matches!(read("tags.a LIKE 'b'"), Ok(FieldFilter::TagLike(..))));
    assert_eq!(
        read("metrics.loss < x").unwrap_err().message,
        "metric filter needs a number, got x"
    );
    assert_eq!(
        read("metrics.loss < inf").unwrap_err().message,
        "metric filter value must be finite"
    );
    assert_eq!(
        read("metrics.loss < 1e400").unwrap_err().message,
        "metric filter value must be finite"
    );
    assert!(read("status = 'x'").unwrap_err().message.starts_with("unsupported filter clause 'status"));
}

#[test]
fn filters_decide() {
    let record = run("r", 1);
    let matches = |f: &str, number: f64| {
        parse_run_filter(f).unwrap()[0].matches(&record, double(number))
    };
    assert!(matches("metrics.loss < 0.6", 0.6));
    assert!(!matches("metrics.loss > 0.6", 0.6));
    assert!(!matches("metrics.other < 1", 1.0));
    assert!(matches("params.lr = '0.01'", 0.0));
    assert!(matches("params.other != 'x'", 0.0));
    assert!(matches("tags.phase LIKE 't_n%'", 0.0));
    assert!(!matches("tags.other LIKE '%'", 0.0));
    let e = experiment(1, "iris", ExperimentStage::Active);
    assert!(parse_experiment_filter("tags.team = 'ml'").unwrap()[0].matches(&e));
    assert!(!parse_experiment_filter("name LIKE 'x%'").unwrap()[0].matches(&e));
}

#[test]
fn pages_reach_every_result() {
    let all: Vec<u32> = (0..7).collect();
    let mut seen = Vec::new();
    let mut token: Option<String> = None;
    loop {
        let (page, next) = paginate(all.clone(), Some(3), token.as_deref()).unwrap();
        seen.extend(page);
        match next {
            Some(t) => token = Some(t),
            None => break,
        }
    }
    assert_eq!(seen, all);
    assert_eq!(paginate(all.clone(), None, Some("")).unwrap(), (all.clone(), None));
    assert_eq!(paginate(all.clone(), Some(3), None).unwrap().1.as_deref(), Some("3"));
    let message = |max: Option<u32>, token: Option<&str>| {
        paginate(vec![1, 2], max, token).unwrap_err().message
    };
    assert_eq!(message(Some(0), None), "max_results must be greater than zero");
    assert_eq!(message(None, Some("x")), "invalid page_token");
    assert_eq!(message(None, Some("3")), "page_token is past the result set");
}

#[test]
fn accepted_paths_stay_inside() {
    assert_eq!(sanitize_segments("a//./b c").unwrap(), ["a", "b c"]);
    for path in ["a/../b", "..", "a\\b", "a\0b"] {
        assert_eq!(sanitize_segments(path).unwrap_err().code, "INVALID_PARAMETER_VALUE");
    }
    assert_eq!(sanitize_segments("/").unwrap_err().message, "artifact path must not be empty");
    assert_eq!(sanitize("acme.corp/ü"), "acme_corp__");
    assert_eq!(port_path("acme", &owned(&["1", "m.txt"])), "acme/1/m.txt");
    assert_ne!(port_path("a", &owned(&["x"])), port_path("b", &owned(&["x"])));
}

#[test]
fn entries_are_listed_under_their_prefix() {
    assert_eq!(list_entry_prefix(&owned(&["1", "run", "artifacts", "d"])), "d");
    assert_eq!(list_entry_prefix(&owned(&["1", "run"])), "1/run");
    let entries = vec![ArtifactEntry { path: "m".to_string(), is_dir: false, size_bytes: 4 }];
    let shown = entries_out(&entries, "d");
    assert_eq!((shown[0].path.as_str(), shown[0].is_dir, shown[0].file_size), ("d/m", false, 4));
    assert_eq!(entries_out(&entries, "")[0].path, "m");
}

#[test]
fn artifact_requests_are_answered() {
    let request = artifact_proxy("acme", "1/r/artifacts/d", ArtifactMethod::Get).unwrap();
    assert_eq!(request.repo_path, "acme/1/r/artifacts/d");
    assert_eq!(request.action, ArtifactAction::Get);
    let step = |event: ArtifactEvent, action: ArtifactAction| artifact_step(&request, action, event);
    assert!(matches!(step(ArtifactEvent::File, ArtifactAction::Get), Ok(ArtifactStep::Content)));
    assert!(matches!(
        step(ArtifactEvent::NoFile, ArtifactAction::Get),
        Ok(ArtifactStep::Perform(ArtifactAction::List))
    ));
    assert!(matches!(step(ArtifactEvent::Done, ArtifactAction::Put), Ok(ArtifactStep::Empty)));
    let missing = step(ArtifactEvent::Listed(vec![]), ArtifactAction::List).unwrap_err();
    assert_eq!(missing.status, 404);
    let entries = vec![ArtifactEntry { path: "m".to_string(), is_dir: false, size_bytes: 4 }];
    assert!(matches!(
        step(ArtifactEvent::Listed(entries), ArtifactAction::List),
        Ok(ArtifactStep::Files(files)) if files[0].path == "d/m"
    ));
    let failed = step(ArtifactEvent::Failed("disk".to_string()), ArtifactAction::Get).unwrap_err();
    assert_eq!((failed.status, failed.message.as_str()), (500, "disk"));
    assert!(artifact_proxy("acme", "a", ArtifactMethod::Other("PATCH".to_string())).is_err());
    assert_eq!(
        artifact_proxy("acme", "a", ArtifactMethod::Put).unwrap().action,
        ArtifactAction::Put
    );
    assert_eq!(
        artifact_proxy("acme", "a", ArtifactMethod::Delete).unwrap().action,
        ArtifactAction::Delete
    );
}

#[test]
fn artifact_roots_are_listed_and_deleted() {
    let listing = artifact_root_list("acme", None).unwrap();
    assert_eq!((listing.repo_path.as_str(), listing.prefix.as_str()), ("acme", ""));
    assert_eq!(
        artifact_root_list("acme", Some("1".to_string())).unwrap().repo_path,
        "acme/1"
    );
    assert!(artifact_root_delete("acme", None).is_err());
    assert_eq!(artifact_root_delete("acme", Some("1".to_string())).unwrap(), "acme/1");
    assert_eq!(run_artifact_uri(3, "r"), "mlflow-artifacts:/3/r/artifacts");
    assert_eq!(experiment_artifact_location(3), "mlflow-artifacts:/3");
}

#[test]
fn records_are_shown() {
    let shown = experiment_out(&experiment(3, "iris", ExperimentStage::Deleted));
    assert_eq!(shown.experiment_id, "3");
    assert_eq!(shown.lifecycle_stage, "deleted");
    assert_eq!(shown.artifact_uri, "mlflow-artifacts:/3");
    assert_eq!(shown.tags.len(), 1);
    let mut record = run("r", 5);
    record.run_name = Some("n".to_string());
    let shown = run_out(&record);
    assert_eq!((shown.info.run_id.as_str(), shown.info.status), ("r", "RUNNING"));
    assert_eq!(shown.info.artifact_uri, "mlflow-artifacts:/3/r/artifacts");
    assert_eq!(shown.data.params[0].value, "0.01");
    assert!(shown.data.tags.iter().any(|t| t.key == "mlflow.runName" && t.value == "n"));
}

#[test]
fn tags_come_last_wins() {
    let pair = |k: &str, v: &str| KeyValue { key: k.to_string(), value: v.to_string() };
    let tags = tags_map(&[pair("b", "1"), pair("a", "2"), pair("b", "3")]);
    let pairs = pairs_of(&tags);
    let shown: Vec<(&str, &str)> = pairs.iter().map(|p| (p.key.as_str(), p.value.as_str())).collect();
    assert_eq!(shown, [("a", "2"), ("b", "3")]);
}

#[test]
fn ids_are_read_and_made() {
    assert_eq!(parse_id(" 42 ", "experiment").unwrap(), 42);
    assert_eq!(parse_id("x", "experiment").unwrap_err().message, "invalid experiment id 'x'");
    assert_eq!(id_from_bytes(&[0xab; 16]), "ab".repeat(16));
    assert_eq!(id_from_bytes(&[0x0f; 16]), "0f".repeat(16));
    let id = uuid_like_id();
    assert_eq!(id.len(), 32);
    assert!(id.chars().all(|c| c.is_ascii_hexdigit()));
    assert_ne!(id, uuid_like_id());
}

#[test]
fn special_values_survive() {
    for x in [f64::NAN, f64::INFINITY, f64::NEG_INFINITY] {
        let text = match metric_value_out(double(x)) {
            MetricValueOut::Text(t) => t,
            MetricValueOut::Number(_) => panic!("{x} must be shown as a text"),
        };
        match metric_value_in(text) {
            Ok(MetricValueIn::Special(v)) => assert_eq!(f64::from_bits(v.bits).is_nan(), x.is_nan()),
            _ => panic!("{text} must be read"),
        }
    }
    assert!(matches!(metric_value_out(double(0.5)), MetricValueOut::Number(v) if v == double(0.5)));
    assert!(matches!(metric_value_in("0.5"), Ok(MetricValueIn::Text)));
    assert_eq!(metric_value_in("x").unwrap_err(), "invalid metric value 'x'");
}

#[test]
fn run_updates_are_read() {
    assert_eq!(runs_update("r", None).unwrap(), RunTransition::Keep);
    assert_eq!(runs_update("r", Some("RUNNING")).unwrap(), RunTransition::Reopen);
    assert_eq!(
        runs_update("r", Some("KILLED")).unwrap(),
        RunTransition::Finish(RunStatus::Killed)
    );
    assert!(runs_update("r", Some("DONE")).unwrap_err().message.contains("'DONE'"));
    assert_eq!(runs_update("", None).unwrap_err().message, "run_id must not be empty");
    assert!(check_batch(1000, 100, 100).is_ok());
    assert!(check_batch(1001, 0, 0).is_err());
    assert!(check_batch(0, 101, 0).is_err());
    assert!(check_batch(0, 0, 101).is_err());
    assert!(require_text("x", "m").is_ok());
    assert_eq!(require_text("", "m").unwrap_err().message, "m");
}

#[test]
fn histories_are_shown_by_step_and_time() {
    let history = vec![point("k", 1.0, 5, 2), point("k", 2.0, 9, 1), point("k", 3.0, 3, 1)];
    let shown = metrics_get_history("r", "k", history).unwrap();
    let order: Vec<(i64, i64)> = shown.iter().map(|p| (p.step, p.timestamp_ms)).collect();
    assert_eq!(order, [(1, 3), (1, 9), (2, 5)]);
    assert!(metrics_get_history("", "k", vec![]).is_err());
    assert!(metrics_get_history("r", "", vec![]).is_err());
}

#[test]
fn experiment_searches_show_the_viewed_stage() {
    let records = vec![
        experiment(1, "a", ExperimentStage::Active),
        experiment(2, "b", ExperimentStage::Deleted),
    ];
    let found = |view: Option<&str>| {
        let query = read_experiments_query(view, None).unwrap();
        let (page, _) = experiments_search(&query, &records, None, None).unwrap();
        page.into_iter().map(|e| e.name).collect::<Vec<_>>()
    };
    assert_eq!(found(None), ["a"]);
    assert_eq!(found(Some("DELETED_ONLY")), ["b"]);
    assert_eq!(found(Some("ALL")).len(), 2);
    assert!(read_experiments_query(Some("SOME"), None).is_err());
    assert!(!read_experiments_query(None, None).unwrap().includes_deleted());
    assert!(read_experiments_query(Some("ALL"), None).unwrap().includes_deleted());
    assert_eq!(experiments_get_by_name(&records, "a").unwrap().experiment_id, "1");
    assert_eq!(experiments_get_by_name(&records, "z").unwrap_err().status, 404);
}

#[test]
fn runs_come_in_order() {
    let records = vec![run("a", 2), run("b", 3), run("c", 1)];
    let found = |order: &[&str]| {
        let query = read_runs_query(&owned(&["3"]), None, None, &owned(order)).unwrap();
        let (page, _) = runs_search(&query, &vec![], &records, None, None).unwrap();
        page.into_iter().map(|r| r.info.run_id).collect::<Vec<_>>()
    };
    assert_eq!(found(&[]), ["b", "a", "c"]);
    assert_eq!(found(&["attributes.start_time ASC"]), ["c", "a", "b"]);
    assert_eq!(read_order(&owned(&["attributes.start_time desc"])).unwrap(), true);
    assert!(read_order(&owned(&["attributes.start_time"])).is_err());
    assert!(read_order(&owned(&["metrics.loss ASC"])).is_err());
    assert_eq!(
        read_runs_query(&vec![], None, None, &vec![]).unwrap_err().message,
        "experiment_ids must list at least one experiment"
    );
    assert!(read_runs_query(&owned(&["3"]), Some("x"), None, &vec![]).is_err());
    assert!(read_runs_query(&owned(&["3"]), Some("ALL"), None, &vec![]).unwrap().includes_deleted());
}

fn registry() -> ModelRegistry {
    let mut aliases = TextMap::new();
    aliases.insert("champion".to_string(), 2);
    aliases.insert("lost".to_string(), 9);
    let version = |n: u64| ModelVersion {
        version: n,
        uri: format!("s3://bucket/{n}"),
        source_run_id: None,
        created_at_ms: 7,
    };
    ModelRegistry {
        name: "m".to_string(),
        revision: 2,
        aliases,
        versions: vec![version(1), version(2)],
    }
}

fn alias(name: &str, version: Option<&str>) -> AliasRequest {
    AliasRequest {
        name: "m".to_string(),
        alias: name.to_string(),
        version: version.map(|v| v.to_string()),
    }
}

#[test]
fn model_versions_are_shown() {
    let shown = model_version_out(&registry(), "2").unwrap();
    assert_eq!((shown.version.as_str(), shown.source.as_str()), ("2", "s3://bucket/2"));
    assert_eq!((shown.status, shown.current_stage, shown.run_id.as_str()), ("READY", "None", ""));
    assert_eq!(shown.aliases, ["champion"]);
    assert!(model_version_out(&registry(), "3").is_none());
    assert!(model_version_out(&registry(), "x").is_none());
    let request = |v: &str| ModelVersionRequest { name: "m".to_string(), version: v.to_string() };
    assert_eq!(model_versions_get(&registry(), &request("1")).unwrap().version, "1");
    assert_eq!(
        model_versions_get(&registry(), &request("3")).unwrap_err().message,
        "Could not find model version 'm/3'"
    );
    assert_eq!(model_versions_search(&registry(), Some(1)).len(), 1);
}

#[test]
fn aliases_are_resolved() {
    assert_eq!(registered_models_alias_get(&registry(), &alias("champion", None)).unwrap().version, "2");
    assert_eq!(
        registered_models_alias_get(&registry(), &alias("none", None)).unwrap_err().status,
        404
    );
    assert_eq!(
        registered_models_alias_get(&registry(), &alias("lost", None)).unwrap_err().status,
        500
    );
    assert_eq!(registered_models_alias_set(&alias("a", Some("4"))).unwrap(), 4);
    assert!(registered_models_alias_set(&alias("a", Some("x"))).is_err());
    assert!(registered_models_alias_set(&alias("a", None)).is_err());
    assert!(registered_models_alias_delete(&alias("a", None)).message.contains("'a'"));
}

#[test]
fn model_filters_are_read() {
    let found = |f: &str| {
        let clauses = read_models_filter(Some(f)).unwrap();
        registered_models_search(&clauses, &vec![registry()], None).len()
    };
    assert_eq!(found("name = 'm'"), 1);
    assert_eq!(found("tags.stage != 'x'"), 1);
    assert_eq!(found("tags.stage = 'x'"), 0);
    assert!(read_models_filter(Some("tags. = 'x'")).is_err());
    assert!(read_models_filter(Some("name != 'x'")).is_err());
    assert_eq!(read_models_filter(None).unwrap().len(), 0);
    assert_eq!(registered_models_search(&vec![], &vec![registry(), registry()], Some(1)).len(), 1);
}

#[test]
fn model_names_come_from_the_filter() {
    let request = |name: &str, filter: Option<&str>| ModelVersionsSearchRequest {
        name: name.to_string(),
        filter: filter.map(|f| f.to_string()),
        max_results: None,
    };
    assert_eq!(model_versions_name(&request(" m ", None)).unwrap(), "m");
    assert_eq!(model_versions_name(&request("", Some("name = 'n'"))).unwrap(), "n");
    assert!(model_versions_name(&request("", Some("size = 'n'"))).is_err());
    assert!(model_versions_name(&request("", None)).is_err());
}

#[test]
fn registry_errors_are_reported() {
    let text = || "x".to_string();
    assert_eq!(report_registry_error(ModelRegistryError::NotFound { name: text() }).status, 404);
    assert_eq!(
        report_registry_error(ModelRegistryError::InvalidName { reason: text() }).status,
        400
    );
    assert_eq!(
        report_registry_error(ModelRegistryError::InvalidTenant { reason: text() }).status,
        400
    );
    assert_eq!(report_registry_error(ModelRegistryError::Other { text: text() }).status, 500);
    let contract = |error: ContractError| contract_error(ModelRegistryError::Contract { error, text: text() });
    assert_eq!(contract(ContractError::DuplicateVersion { version: 2 }).code, "RESOURCE_ALREADY_EXISTS");
    assert_eq!(contract(ContractError::UnknownAlias { alias: text() }).status, 404);
    assert_eq!(contract_error(ModelRegistryError::NotFound { name: text() }).status, 404);
    assert_eq!(registered_models_create(" ", false, false).unwrap_err().message, "name must not be empty");
    assert!(registered_models_create("m", false, true).is_err());
}
