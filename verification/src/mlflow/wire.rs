//! What requests carry and responses show.

use rand::RngCore;
use vstd::prelude::*;
use vstd::string::*;
use crate::mlflow::artifacts::{
    experiment_artifact_location, experiment_uri, run_artifact_uri, run_uri,
};
use crate::mlflow::double::{Double, is_infinite, is_nan, is_negative};
use crate::mlflow::error::{
    ErrorModel, MlflowError, around, invalid_error, outcome, outcomes, text_around,
};
use crate::mlflow::page::opt_view;
use crate::mlflow::records::{
    ExperimentRecord, ExperimentStage, MetricPoint, PointModel, RunLifecycle, RunRecord, RunStatus,
    copied_point,
};
use crate::text::chars::{
    chars_of, copied, copied_opt, lemma_views_push, opt_text, same_text, views,
};
use crate::text::float::{float_text, is_float_text};
use crate::text::hex::{hex_of, hex_text};
use crate::text::map::{TextMap, text_entries, text_pairs};
use crate::text::number::{decimal, decimal_text, parse_unsigned, read_unsigned};
use crate::text::sort::{Ranked, lemma_sorted_map, rank_order, sort_stable, stable_sorted};
use crate::text::trim::{trim, trimmed};

verus! {

/// The setting switches the API on.
pub open spec fn is_truthy(value: Option<Seq<char>>) -> bool {
    match value {
        Some(v) => trim(v) == "1"@ || trim(v) == "true"@ || trim(v) == "on"@ || trim(v) == "yes"@,
        None => false,
    }
}

/// Whether the API is on: it is off unless its setting says `1`, `true`, `on` or
/// `yes`.
pub fn is_enabled(value: Option<&str>) -> (r: bool)
    ensures
        r == is_truthy(opt_view(value)),
{
    match value {
        Some(v) => {
            let v: &str = trimmed(v);
            same_text(v, "1") || same_text(v, "true") || same_text(v, "on") || same_text(v, "yes")
        },
        None => false,
    }
}

/// A key with a value.
#[derive(Debug)]
pub struct KeyValue {
    pub key: String,
    pub value: String,
}

impl View for KeyValue {
    type V = (Seq<char>, Seq<char>);

    open spec fn view(&self) -> (Seq<char>, Seq<char>) {
        (self.key@, self.value@)
    }
}

/// The map of some tags; of two with one key the later counts.
pub open spec fn tag_map(tags: Seq<(Seq<char>, Seq<char>)>) -> Map<Seq<char>, Seq<char>>
    decreases tags.len(),
{
    if tags.len() == 0 {
        Map::empty()
    } else {
        tag_map(tags.drop_last()).insert(tags.last().0, tags.last().1)
    }
}

/// The map of some tags; of two with one key the later counts.
pub fn tags_map(tags: &[KeyValue]) -> (r: TextMap<String>)
    ensures
        text_entries(r) == tag_map(views(tags@)),
{
    let mut r: TextMap<String> = TextMap::new();
    let mut i: usize = 0;
    assert(text_entries(r) =~= tag_map(views(tags@).take(0)));
    while i < tags.len()
        invariant
            i <= tags@.len(),
            text_entries(r) == tag_map(views(tags@).take(i as int)),
        decreases tags@.len() - i,
    {
        let ghost before = text_entries(r);
        assert(views(tags@).take(i + 1).drop_last() =~= views(tags@).take(i as int));
        r.insert(copied(&tags[i].key), copied(&tags[i].value));
        assert(text_entries(r) =~= before.insert(tags@[i as int].key@, tags@[i as int].value@));
        i += 1;
    }
    assert(views(tags@).take(i as int) =~= views(tags@));
    r
}

/// The entries of a map, in the order of the keys.
pub fn pairs_of(m: &TextMap<String>) -> (r: Vec<KeyValue>)
    ensures
        views(r@) == text_pairs(*m),
{
    let n: usize = m.len();
    let mut r: Vec<KeyValue> = Vec::new();
    let mut i: usize = 0;
    while i < n
        invariant
            i <= n,
            n == m.keys().len(),
            views(r@) == text_pairs(*m).take(i as int),
        decreases n - i,
    {
        let pair: KeyValue = KeyValue { key: copied(m.key_at(i)), value: copied(m.value_at(i)) };
        proof {
            lemma_views_push(r@, pair);
        }
        r.push(pair);
        assert(views(r@) =~= text_pairs(*m).take(i + 1));
        i += 1;
    }
    assert(text_pairs(*m).take(i as int) =~= text_pairs(*m));
    r
}

/// The id that a text gives.
pub open spec fn id_of(id: Seq<char>, what: Seq<char>) -> Result<u64, ErrorModel> {
    match parse_unsigned(trim(id), u64::MAX as nat) {
        Some(n) => Ok(n as u64),
        None => Err(invalid_error("invalid "@ + what + " id '"@ + id + "'"@)),
    }
}

/// Reads an id.
pub fn parse_id(id: &str, what: &str) -> (r: Result<u64, MlflowError>)
    ensures
        outcome(r) == id_of(id@, what@),
{
    let t: Vec<char> = chars_of(trimmed(id));
    match read_unsigned(t.as_slice(), u64::MAX) {
        Some(n) => Ok(n),
        None => {
            let mut message: String = "invalid ".to_owned();
            message.append(what);
            message.append(" id '");
            message.append(id);
            message.append("'");
            Err(MlflowError::invalid(message))
        },
    }
}

/// An experiment as a response shows it.
#[derive(Debug)]
pub struct ExperimentOut {
    pub experiment_id: String,
    pub name: String,
    pub artifact_uri: String,
    pub lifecycle_stage: &'static str,
    pub creation_time: i64,
    pub last_update_time: i64,
    pub tags: Vec<KeyValue>,
}

pub struct ExperimentModel {
    pub experiment_id: Seq<char>,
    pub name: Seq<char>,
    pub artifact_uri: Seq<char>,
    pub lifecycle_stage: Seq<char>,
    pub creation_time: i64,
    pub last_update_time: i64,
    pub tags: Seq<(Seq<char>, Seq<char>)>,
}

impl View for ExperimentOut {
    type V = ExperimentModel;

    open spec fn view(&self) -> ExperimentModel {
        ExperimentModel {
            experiment_id: self.experiment_id@,
            name: self.name@,
            artifact_uri: self.artifact_uri@,
            lifecycle_stage: self.lifecycle_stage@,
            creation_time: self.creation_time,
            last_update_time: self.last_update_time,
            tags: views(self.tags@),
        }
    }
}

pub open spec fn stage_text(deleted: bool) -> Seq<char> {
    if deleted {
        "deleted"@
    } else {
        "active"@
    }
}

/// How a response shows an experiment.
pub open spec fn experiment_shown(record: ExperimentRecord) -> ExperimentModel {
    ExperimentModel {
        experiment_id: decimal(record.experiment_id as nat),
        name: record.name@,
        artifact_uri: match record.artifact_location {
            Some(location) => location@,
            None => experiment_uri(record.experiment_id),
        },
        lifecycle_stage: stage_text(record.stage is Deleted),
        creation_time: record.creation_time_ms,
        last_update_time: record.last_update_time_ms,
        tags: text_pairs(record.tags),
    }
}

/// Shows an experiment.
pub fn experiment_out(record: &ExperimentRecord) -> (r: ExperimentOut)
    ensures
        r@ == experiment_shown(*record),
{
    let artifact_uri: String = match &record.artifact_location {
        Some(location) => copied(location),
        None => experiment_artifact_location(record.experiment_id),
    };
    let lifecycle_stage: &'static str = match record.stage {
        ExperimentStage::Active => "active",
        ExperimentStage::Deleted => "deleted",
    };
    ExperimentOut {
        experiment_id: decimal_text(record.experiment_id as u128),
        name: copied(&record.name),
        artifact_uri,
        lifecycle_stage,
        creation_time: record.creation_time_ms,
        last_update_time: record.last_update_time_ms,
        tags: pairs_of(&record.tags),
    }
}

#[derive(Debug)]
pub struct RunInfo {
    pub run_id: String,
    pub experiment_id: String,
    pub status: &'static str,
    pub start_time: i64,
    pub end_time: Option<i64>,
    pub lifecycle_stage: &'static str,
    pub artifact_uri: String,
    pub run_name: Option<String>,
}

#[derive(Debug)]
pub struct RunData {
    pub metrics: Vec<MetricPoint>,
    pub params: Vec<KeyValue>,
    pub tags: Vec<KeyValue>,
}

/// A run as a response shows it.
#[derive(Debug)]
pub struct RunOut {
    pub info: RunInfo,
    pub data: RunData,
}

pub struct RunModel {
    pub run_id: Seq<char>,
    pub experiment_id: Seq<char>,
    pub status: Seq<char>,
    pub start_time: i64,
    pub end_time: Option<i64>,
    pub lifecycle_stage: Seq<char>,
    pub artifact_uri: Seq<char>,
    pub run_name: Option<Seq<char>>,
    pub metrics: Seq<PointModel>,
    pub params: Seq<(Seq<char>, Seq<char>)>,
    pub tags: Seq<(Seq<char>, Seq<char>)>,
}

impl View for RunOut {
    type V = RunModel;

    open spec fn view(&self) -> RunModel {
        RunModel {
            run_id: self.info.run_id@,
            experiment_id: self.info.experiment_id@,
            status: self.info.status@,
            start_time: self.info.start_time,
            end_time: self.info.end_time,
            lifecycle_stage: self.info.lifecycle_stage@,
            artifact_uri: self.info.artifact_uri@,
            run_name: opt_text(self.info.run_name),
            metrics: views(self.data.metrics@),
            params: views(self.data.params@),
            tags: views(self.data.tags@),
        }
    }
}

pub open spec fn status_text(status: RunStatus) -> Seq<char> {
    match status {
        RunStatus::Running => "RUNNING"@,
        RunStatus::Finished => "FINISHED"@,
        RunStatus::Failed => "FAILED"@,
        RunStatus::Killed => "KILLED"@,
    }
}

/// The samples of a map, in the order of the keys.
pub open spec fn points_listed(m: TextMap<MetricPoint>) -> Seq<PointModel> {
    Seq::new(m.keys().len(), |i: int| m@[m.keys()[i]]@)
}

/// The tags of a run, with its name as one of them.
pub open spec fn tags_shown(record: RunRecord) -> Seq<(Seq<char>, Seq<char>)> {
    match record.run_name {
        Some(name) => text_pairs(record.tags).push(("mlflow.runName"@, name@)),
        None => text_pairs(record.tags),
    }
}

/// How a response shows a run.
pub open spec fn run_shown(record: RunRecord) -> RunModel {
    RunModel {
        run_id: record.run_id@,
        experiment_id: decimal(record.experiment_id as nat),
        status: status_text(record.status),
        start_time: record.start_time_ms,
        end_time: record.end_time_ms,
        lifecycle_stage: stage_text(record.lifecycle is Deleted),
        artifact_uri: run_uri(record.experiment_id, record.run_id@),
        run_name: opt_text(record.run_name),
        metrics: points_listed(record.latest_metrics),
        params: text_pairs(record.params),
        tags: tags_shown(record),
    }
}

fn points_of(m: &TextMap<MetricPoint>) -> (r: Vec<MetricPoint>)
    ensures
        views(r@) == points_listed(*m),
{
    let n: usize = m.len();
    let mut r: Vec<MetricPoint> = Vec::new();
    let mut i: usize = 0;
    while i < n
        invariant
            i <= n,
            n == m.keys().len(),
            views(r@) == points_listed(*m).take(i as int),
        decreases n - i,
    {
        let point: MetricPoint = copied_point(m.value_at(i));
        proof {
            lemma_views_push(r@, point);
        }
        r.push(point);
        assert(views(r@) =~= points_listed(*m).take(i + 1));
        i += 1;
    }
    assert(points_listed(*m).take(i as int) =~= points_listed(*m));
    r
}

/// Shows a run.
pub fn run_out(record: &RunRecord) -> (r: RunOut)
    ensures
        r@ == run_shown(*record),
{
    let mut tags: Vec<KeyValue> = pairs_of(&record.tags);
    if let Some(name) = &record.run_name {
        let tag: KeyValue = KeyValue { key: "mlflow.runName".to_owned(), value: copied(name) };
        proof {
            lemma_views_push(tags@, tag);
        }
        tags.push(tag);
    }
    let status: &'static str = match record.status {
        RunStatus::Running => "RUNNING",
        RunStatus::Finished => "FINISHED",
        RunStatus::Failed => "FAILED",
        RunStatus::Killed => "KILLED",
    };
    let lifecycle_stage: &'static str = match record.lifecycle {
        RunLifecycle::Active => "active",
        RunLifecycle::Deleted => "deleted",
    };
    RunOut {
        info: RunInfo {
            run_id: copied(&record.run_id),
            experiment_id: decimal_text(record.experiment_id as u128),
            status,
            start_time: record.start_time_ms,
            end_time: record.end_time_ms,
            lifecycle_stage,
            artifact_uri: run_artifact_uri(record.experiment_id, record.run_id.as_str()),
            run_name: copied_opt(&record.run_name),
        },
        data: RunData {
            metrics: points_of(&record.latest_metrics),
            params: pairs_of(&record.params),
            tags,
        },
    }
}

/// A metric value on the wire: numbers that JSON has no form for are texts.
#[derive(Debug)]
pub enum MetricValueOut {
    Text(&'static str),
    Number(Double),
}

/// The text of a number that JSON has no form for.
pub open spec fn special_text(value: Double) -> Option<Seq<char>> {
    if is_nan(value) {
        Some("NaN"@)
    } else if is_infinite(value) && !is_negative(value) {
        Some("Infinity"@)
    } else if is_infinite(value) {
        Some("-Infinity"@)
    } else {
        None
    }
}

/// The form of a metric value on the wire.
pub fn metric_value_out(value: Double) -> (r: MetricValueOut)
    ensures
        match r {
            MetricValueOut::Text(t) => special_text(value) == Some(t@),
            MetricValueOut::Number(n) => special_text(value) is None && n == value,
        },
{
    if value.nan() {
        MetricValueOut::Text("NaN")
    } else if value.infinite() {
        if value.negative() {
            MetricValueOut::Text("-Infinity")
        } else {
            MetricValueOut::Text("Infinity")
        }
    } else {
        MetricValueOut::Number(value)
    }
}

/// A metric value that was given as a text: a special number, or the text of a
/// number.
#[derive(Debug)]
pub enum MetricValueIn {
    Special(Double),
    Text,
}

/// The number that a special text stands for.
pub open spec fn special_value(text: Seq<char>) -> Option<Double> {
    if text == "NaN"@ {
        Some((Double { bits: 0x7FF8_0000_0000_0000 }))
    } else if text == "Infinity"@ {
        Some((Double { bits: 0x7FF0_0000_0000_0000 }))
    } else if text == "-Infinity"@ {
        Some((Double { bits: 0xFFF0_0000_0000_0000 }))
    } else {
        None
    }
}

/// Reads a metric value that was given as a text.
pub fn metric_value_in(text: &str) -> (r: Result<MetricValueIn, String>)
    ensures
        match r {
            Ok(MetricValueIn::Special(value)) => special_value(text@) == Some(value),
            Ok(MetricValueIn::Text) => special_value(text@) is None && is_float_text(text@),
            Err(e) => special_value(text@) is None && !is_float_text(text@) && e@ == around(
                "invalid metric value '"@,
                text@,
                "'"@,
            ),
        },
{
    if same_text(text, "NaN") {
        Ok(MetricValueIn::Special(Double { bits: 0x7FF8_0000_0000_0000 }))
    } else if same_text(text, "Infinity") {
        Ok(MetricValueIn::Special(Double { bits: 0x7FF0_0000_0000_0000 }))
    } else if same_text(text, "-Infinity") {
        Ok(MetricValueIn::Special(Double { bits: 0xFFF0_0000_0000_0000 }))
    } else {
        let t: Vec<char> = chars_of(text);
        if float_text(t.as_slice()) {
            Ok(MetricValueIn::Text)
        } else {
            Err(text_around("invalid metric value '", text, "'"))
        }
    }
}

/// What is shown of a number that JSON has no form for reads back as that
/// infinity, or as a number that is none.
pub proof fn law_special_values_survive(value: Double)
    requires
        special_text(value) is Some,
    ensures
        special_value(special_text(value)->0) is Some,
        is_infinite(value) ==> special_value(special_text(value)->0) == Some(value),
        is_nan(value) ==> is_nan(special_value(special_text(value)->0)->0),
{
    reveal_strlit("NaN");
    reveal_strlit("Infinity");
    reveal_strlit("-Infinity");
    assert("Infinity"@[0] == 'I' && "-Infinity"@[0] == '-' && "NaN"@[0] == 'N');
}

/// `rand::thread_rng` and `fill_bytes`: sixteen random bytes. Nothing is said
/// of their values, which rest on chance.
#[verifier::external_body]
fn random_id_bytes() -> (r: [u8; 16]) {
    let mut bytes: [u8; 16] = [0u8; 16];
    rand::thread_rng().fill_bytes(&mut bytes);
    bytes
}

/// The id that sixteen bytes give.
pub fn id_from_bytes(bytes: &[u8; 16]) -> (r: String)
    ensures
        r@ == hex_text(bytes@),
        r@.len() == 32,
{
    hex_of(bytes.as_slice())
}

/// A fresh opaque id: 32 hexadecimal digits, from random bytes.
pub fn uuid_like_id() -> (r: String)
    ensures
        exists|bytes: Seq<u8>| bytes.len() == 16 && r@ == #[trigger] hex_text(bytes),
{
    let bytes: [u8; 16] = random_id_bytes();
    let r: String = id_from_bytes(&bytes);
    assert(r@ == hex_text(bytes@));
    r
}

/// What an update does to the status of a run.
#[derive(Clone, Copy, Debug, PartialEq, Eq, Structural)]
pub enum RunTransition {
    Keep,
    Reopen,
    Finish(RunStatus),
}

/// What an update to a status does.
pub open spec fn transition_to(status: Option<Seq<char>>) -> Result<RunTransition, ErrorModel> {
    match status {
        None => Ok(RunTransition::Keep),
        Some(s) => if s == "RUNNING"@ {
            Ok(RunTransition::Reopen)
        } else if s == "FINISHED"@ {
            Ok(RunTransition::Finish(RunStatus::Finished))
        } else if s == "FAILED"@ {
            Ok(RunTransition::Finish(RunStatus::Failed))
        } else if s == "KILLED"@ {
            Ok(RunTransition::Finish(RunStatus::Killed))
        } else {
            Err(
                invalid_error(
                    around(
                        "unsupported run status '"@,
                        s,
                        "' (slice 2: RUNNING | FINISHED | FAILED | KILLED)"@,
                    ),
                ),
            )
        },
    }
}

pub open spec fn transition_view(r: Result<RunTransition, MlflowError>) -> Result<
    RunTransition,
    ErrorModel,
> {
    match r {
        Ok(t) => Ok(t),
        Err(e) => Err(e@),
    }
}

/// What a request to update a run does.
pub open spec fn run_update(run_id: Seq<char>, status: Option<Seq<char>>) -> Result<
    RunTransition,
    ErrorModel,
> {
    if run_id.len() == 0 {
        Err(invalid_error("run_id must not be empty"@))
    } else {
        transition_to(status)
    }
}

/// A batch is within its caps.
pub open spec fn batch_fits(metrics: nat, params: nat, tags: nat) -> bool {
    metrics <= 1000 && params <= 100 && tags <= 100
}

/// What a request to update a run does: its id must be given, and its status
/// known.
pub fn runs_update(run_id: &str, status: Option<&str>) -> (r: Result<RunTransition, MlflowError>)
    ensures
        transition_view(r) == run_update(run_id@, opt_view(status)),
{
    if run_id.unicode_len() == 0 {
        return Err(MlflowError::invalid("run_id must not be empty".to_owned()));
    }
    match status {
        None => Ok(RunTransition::Keep),
        Some(s) => if same_text(s, "RUNNING") {
            Ok(RunTransition::Reopen)
        } else if same_text(s, "FINISHED") {
            Ok(RunTransition::Finish(RunStatus::Finished))
        } else if same_text(s, "FAILED") {
            Ok(RunTransition::Finish(RunStatus::Failed))
        } else if same_text(s, "KILLED") {
            Ok(RunTransition::Finish(RunStatus::Killed))
        } else {
            Err(
                MlflowError::invalid(
                    text_around(
                        "unsupported run status '",
                        s,
                        "' (slice 2: RUNNING | FINISHED | FAILED | KILLED)",
                    ),
                ),
            )
        },
    }
}

/// Whether a batch is within its caps.
pub fn check_batch(metrics: usize, params: usize, tags: usize) -> (r: Result<(), MlflowError>)
    ensures
        outcome(r) == if !batch_fits(metrics as nat, params as nat, tags as nat) {
            Err(invalid_error("log-batch caps: 1000 metrics, 100 params, 100 tags"@))
        } else {
            Ok(())
        },
{
    if metrics > 1000 || params > 100 || tags > 100 {
        return Err(
            MlflowError::invalid("log-batch caps: 1000 metrics, 100 params, 100 tags".to_owned()),
        );
    }
    Ok(())
}

/// A step of a batch: a parameter, a sample or a tag, by its position in the
/// request.
#[derive(Clone, Copy, Debug, PartialEq, Eq, Structural)]
pub enum BatchStep {
    Param(usize),
    Metric(usize),
    Tag(usize),
}

/// The steps of a batch, in order: every parameter, every sample, every tag.
pub open spec fn batch_steps(metrics: nat, params: nat, tags: nat) -> Seq<BatchStep> {
    Seq::new(params, |i: int| BatchStep::Param(i as usize)) + Seq::new(
        metrics,
        |i: int| BatchStep::Metric(i as usize),
    ) + Seq::new(tags, |i: int| BatchStep::Tag(i as usize))
}

/// The steps of a batch, where it is not too large. They are taken until one
/// fails.
pub fn runs_log_batch(metrics: usize, params: usize, tags: usize) -> (r: Result<
    Vec<BatchStep>,
    MlflowError,
>)
    ensures
        match r {
            Ok(steps) => batch_fits(metrics as nat, params as nat, tags as nat) && steps@
                == batch_steps(metrics as nat, params as nat, tags as nat),
            Err(e) => !batch_fits(metrics as nat, params as nat, tags as nat) && e@ == invalid_error(
                "log-batch caps: 1000 metrics, 100 params, 100 tags"@,
            ),
        },
{
    match check_batch(metrics, params, tags) {
        Err(e) => {
            return Err(e);
        },
        Ok(()) => {},
    }
    let ghost all = batch_steps(metrics as nat, params as nat, tags as nat);
    let mut r: Vec<BatchStep> = Vec::new();
    let mut i: usize = 0;
    while i < params
        invariant
            i <= params,
            all == batch_steps(metrics as nat, params as nat, tags as nat),
            r@ == all.take(i as int),
        decreases params - i,
    {
        r.push(BatchStep::Param(i));
        assert(r@ =~= all.take(i + 1));
        i += 1;
    }
    let mut k: usize = 0;
    while k < metrics
        invariant
            k <= metrics,
            all == batch_steps(metrics as nat, params as nat, tags as nat),
            r@ == all.take(params + k),
        decreases metrics - k,
    {
        r.push(BatchStep::Metric(k));
        assert(r@ =~= all.take(params + k + 1));
        k += 1;
    }
    let mut j: usize = 0;
    while j < tags
        invariant
            j <= tags,
            all == batch_steps(metrics as nat, params as nat, tags as nat),
            r@ == all.take(params + metrics + j),
        decreases tags - j,
    {
        r.push(BatchStep::Tag(j));
        assert(r@ =~= all.take(params + metrics + j + 1));
        j += 1;
    }
    assert(r@ =~= all);
    Ok(r)
}

/// Whether a request gives a required text.
pub fn require_text(text: &str, message: &str) -> (r: Result<(), MlflowError>)
    ensures
        outcome(r) == if text@.len() == 0 {
            Err(invalid_error(message@))
        } else {
            Ok(())
        },
{
    if text.unicode_len() == 0 {
        return Err(MlflowError::invalid(message.to_owned()));
    }
    Ok(())
}

/// The sample comes earlier in a history: by step, and by time within a step.
pub open spec fn point_before(a: PointModel, b: PointModel) -> bool {
    a.step < b.step || (a.step == b.step && a.timestamp_ms < b.timestamp_ms)
}

impl Ranked for MetricPoint {
    open spec fn ranks_before(&self, other: &Self) -> bool {
        point_before(self@, other@)
    }

    fn is_before(&self, other: &Self) -> (r: bool) {
        self.step < other.step || (self.step == other.step && self.timestamp_ms
            < other.timestamp_ms)
    }
}

/// The order in which a history is shown.
pub open spec fn history_shown(history: Seq<PointModel>) -> Seq<PointModel> {
    stable_sorted(history, |a: PointModel, b: PointModel| point_before(a, b))
}

/// Shows the history of a metric: by step, and by time within a step.
pub fn metrics_get_history(run_id: &str, key: &str, history: Vec<MetricPoint>) -> (r: Result<
    Vec<MetricPoint>,
    MlflowError,
>)
    ensures
        outcomes(r) == if run_id@.len() == 0 || key@.len() == 0 {
            Err(invalid_error("run_id and metric_key must not be empty"@))
        } else {
            Ok(history_shown(views(history@)))
        },
{
    if run_id.unicode_len() == 0 || key.unicode_len() == 0 {
        return Err(
            MlflowError::invalid("run_id and metric_key must not be empty".to_owned()),
        );
    }
    let ghost before = rank_order::<MetricPoint>();
    proof {
        lemma_sorted_map(
            history@,
            before,
            |p: MetricPoint| p@,
            |a: PointModel, b: PointModel| point_before(a, b),
        );
    }
    let ghost given = history@;
    let r: Vec<MetricPoint> = sort_stable(history);
    assert(views(r@) =~= r@.map_values(|p: MetricPoint| p@));
    assert(views(given) =~= given.map_values(|p: MetricPoint| p@));
    Ok(r)
}

} // verus!
