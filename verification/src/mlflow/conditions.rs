//! The predicates that filters state of experiments and runs.

use vstd::prelude::*;
use vstd::string::*;
use crate::mlflow::double::{Comparison, Double, compares, holds};
use crate::mlflow::error::{
    ErrorModel, MlflowError, around, invalid_error, outcome, outcomes, text_around,
};
use crate::mlflow::filter::{
    FilterParts, PartsModel, clause_parts, filter_clauses, lower_case, parse_filter_parts,
    split_filter_clauses,
};
use crate::mlflow::pattern::{is_like, like_match};
use crate::mlflow::records::{ExperimentRecord, ExperimentStage, RunRecord};
use crate::text::ascii::lower_text;
use crate::text::chars::{chars_of, lemma_views_push, same_text, text_of_range, texts, views};
use crate::text::collect::{all_ok, lemma_all_ok_error, lemma_all_ok_step};
use crate::text::finite::{double_text, is_double_text};
use crate::text::float::{float_text, is_float_text};
use crate::text::map::{TextMap, text_entries, text_under};
use crate::text::search::{has_part_at, starts_with};

verus! {

/// What a clause of a filter demands of an experiment.
#[derive(Debug)]
pub enum ExperimentFilter {
    NameEq(String),
    NameLike(String),
    TagEq(String, String),
    Lifecycle(ExperimentStage),
}

pub enum ExperimentCondition {
    NameEq(Seq<char>),
    NameLike(Seq<char>),
    TagEq(Seq<char>, Seq<char>),
    Lifecycle(ExperimentStage),
}

impl View for ExperimentFilter {
    type V = ExperimentCondition;

    open spec fn view(&self) -> ExperimentCondition {
        match self {
            ExperimentFilter::NameEq(name) => ExperimentCondition::NameEq(name@),
            ExperimentFilter::NameLike(pattern) => ExperimentCondition::NameLike(pattern@),
            ExperimentFilter::TagEq(key, value) => ExperimentCondition::TagEq(key@, value@),
            ExperimentFilter::Lifecycle(stage) => ExperimentCondition::Lifecycle(*stage),
        }
    }
}

/// The text under a key of a map of texts.
pub open spec fn text_at(m: TextMap<String>, key: Seq<char>) -> Option<Seq<char>> {
    text_under(text_entries(m), key)
}

/// The experiment meets a condition.
pub open spec fn experiment_meets(c: ExperimentCondition, experiment: ExperimentRecord) -> bool {
    match c {
        ExperimentCondition::NameEq(name) => experiment.name@ == name,
        ExperimentCondition::NameLike(pattern) => is_like(experiment.name@, pattern),
        ExperimentCondition::TagEq(key, value) => text_at(experiment.tags, key) == Some(value),
        ExperimentCondition::Lifecycle(stage) => experiment.stage == stage,
    }
}

/// Whether the map holds this text under the key.
fn holds_text(m: &TextMap<String>, key: &str, value: &str) -> (r: bool)
    ensures
        r == (text_at(*m, key@) == Some(value@)),
{
    match m.get(key) {
        Some(t) => same_text(t.as_str(), value),
        None => false,
    }
}

/// Whether the map holds a text under the key that matches a pattern.
fn holds_like(m: &TextMap<String>, key: &str, pattern: &str) -> (r: bool)
    ensures
        r == match text_at(*m, key@) {
            Some(t) => is_like(t, pattern@),
            None => false,
        },
{
    match m.get(key) {
        Some(t) => like_match(t.as_str(), pattern),
        None => false,
    }
}

impl ExperimentFilter {
    /// Whether an experiment meets this condition.
    pub fn matches(&self, experiment: &ExperimentRecord) -> (r: bool)
        ensures
            r == experiment_meets(self@, *experiment),
    {
        match self {
            ExperimentFilter::NameEq(name) => same_text(experiment.name.as_str(), name.as_str()),
            ExperimentFilter::NameLike(pattern) => like_match(
                experiment.name.as_str(),
                pattern.as_str(),
            ),
            ExperimentFilter::TagEq(key, value) => holds_text(
                &experiment.tags,
                key.as_str(),
                value.as_str(),
            ),
            ExperimentFilter::Lifecycle(stage) => experiment.stage == *stage,
        }
    }
}

/// The condition that a tag clause of an experiment filter states.
pub open spec fn experiment_tag_condition(parts: PartsModel) -> Result<
    ExperimentCondition,
    ErrorModel,
> {
    if parts.op == "="@ {
        Ok(ExperimentCondition::TagEq(parts.key, parts.value))
    } else {
        Err(invalid_error("experiment tag filter supports = only"@))
    }
}

/// The condition that any other clause of an experiment filter states.
pub open spec fn experiment_field_condition(parts: PartsModel) -> Result<
    ExperimentCondition,
    ErrorModel,
> {
    let field = lower_text(parts.key);
    if field == "name"@ || field == "attributes.name"@ {
        if parts.op == "="@ {
            Ok(ExperimentCondition::NameEq(parts.value))
        } else if parts.op == "LIKE"@ {
            Ok(ExperimentCondition::NameLike(parts.value))
        } else {
            Err(invalid_error("experiment name filter supports = / LIKE"@))
        }
    } else if field == "attributes.lifecycle_stage"@ && parts.op == "="@ {
        if lower_text(parts.value) == "active"@ {
            Ok(ExperimentCondition::Lifecycle(ExperimentStage::Active))
        } else if lower_text(parts.value) == "deleted"@ {
            Ok(ExperimentCondition::Lifecycle(ExperimentStage::Deleted))
        } else {
            Err(
                invalid_error(around("invalid experiment lifecycle_stage '"@, parts.value, "'"@)),
            )
        }
    } else {
        Err(invalid_error(around("unsupported experiment filter field '"@, field, "'"@)))
    }
}

/// The condition that a clause of an experiment filter states.
pub open spec fn experiment_condition(clause: Seq<char>) -> Result<
    ExperimentCondition,
    ErrorModel,
> {
    if starts_with(clause, "tags."@) {
        match clause_parts(clause.skip(5), true) {
            Err(e) => Err(e),
            Ok(parts) => experiment_tag_condition(parts),
        }
    } else {
        match clause_parts(clause, true) {
            Err(e) => Err(e),
            Ok(parts) => experiment_field_condition(parts),
        }
    }
}

/// The conditions that the clauses of an experiment filter state.
pub open spec fn experiment_conditions(filter: Seq<char>) -> Result<
    Seq<ExperimentCondition>,
    ErrorModel,
> {
    match filter_clauses(filter) {
        Err(e) => Err(e),
        Ok(clauses) => all_ok(clauses.map_values(|c: Seq<char>| experiment_condition(c))),
    }
}

/// Reads a tag clause of an experiment filter.
pub fn experiment_tag_filter(parts: FilterParts) -> (r: Result<ExperimentFilter, MlflowError>)
    ensures
        outcome(r) == experiment_tag_condition(parts@),
{
    if same_text(parts.op.as_str(), "=") {
        Ok(ExperimentFilter::TagEq(parts.key, parts.value))
    } else {
        Err(MlflowError::invalid("experiment tag filter supports = only".to_owned()))
    }
}

/// Reads any other clause of an experiment filter.
pub fn experiment_field_filter(parts: FilterParts) -> (r: Result<ExperimentFilter, MlflowError>)
    ensures
        outcome(r) == experiment_field_condition(parts@),
{
    let field: String = lower_case(parts.key.as_str());
    let equals: bool = same_text(parts.op.as_str(), "=");
    if same_text(field.as_str(), "name") || same_text(field.as_str(), "attributes.name") {
        if equals {
            Ok(ExperimentFilter::NameEq(parts.value))
        } else if same_text(parts.op.as_str(), "LIKE") {
            Ok(ExperimentFilter::NameLike(parts.value))
        } else {
            Err(MlflowError::invalid("experiment name filter supports = / LIKE".to_owned()))
        }
    } else if same_text(field.as_str(), "attributes.lifecycle_stage") && equals {
        let stage: String = lower_case(parts.value.as_str());
        if same_text(stage.as_str(), "active") {
            Ok(ExperimentFilter::Lifecycle(ExperimentStage::Active))
        } else if same_text(stage.as_str(), "deleted") {
            Ok(ExperimentFilter::Lifecycle(ExperimentStage::Deleted))
        } else {
            Err(
                MlflowError::invalid(
                    text_around("invalid experiment lifecycle_stage '", parts.value.as_str(), "'"),
                ),
            )
        }
    } else {
        Err(
            MlflowError::invalid(
                text_around("unsupported experiment filter field '", field.as_str(), "'"),
            ),
        )
    }
}

/// What follows a prefix of a text; `None` where the text begins otherwise.
pub fn after_prefix(s: &str, prefix: &str) -> (r: Option<String>)
    ensures
        match r {
            Some(rest) => starts_with(s@, prefix@) && rest@ == s@.skip(prefix@.len() as int),
            None => !starts_with(s@, prefix@),
        },
{
    let s: Vec<char> = chars_of(s);
    let p: Vec<char> = chars_of(prefix);
    if has_part_at(s.as_slice(), 0, p.as_slice()) {
        let rest: String = text_of_range(s.as_slice(), p.len(), s.len());
        assert(rest@ =~= s@.skip(p@.len() as int));
        Some(rest)
    } else {
        None
    }
}

fn experiment_clause(clause: &str) -> (r: Result<ExperimentFilter, MlflowError>)
    ensures
        outcome(r) == experiment_condition(clause@),
{
    proof {
        reveal_strlit("tags.");
    }
    match after_prefix(clause, "tags.") {
        Some(rest) => match parse_filter_parts(rest.as_str(), true) {
            Err(e) => Err(e),
            Ok(parts) => experiment_tag_filter(parts),
        },
        None => match parse_filter_parts(clause, true) {
            Err(e) => Err(e),
            Ok(parts) => experiment_field_filter(parts),
        },
    }
}

/// Reads a filter on experiments.
pub fn parse_experiment_filter(filter: &str) -> (r: Result<Vec<ExperimentFilter>, MlflowError>)
    ensures
        outcomes(r) == experiment_conditions(filter@),
{
    let clauses: Vec<String> = match split_filter_clauses(filter) {
        Err(e) => {
            return Err(e);
        },
        Ok(clauses) => clauses,
    };
    let ghost results = texts(clauses@).map_values(|c: Seq<char>| experiment_condition(c));
    assert(texts(clauses@) =~= views(clauses@));
    let mut r: Vec<ExperimentFilter> = Vec::new();
    let mut i: usize = 0;
    assert(results.take(0) =~= Seq::empty());
    assert(views(r@) =~= Seq::empty());
    while i < clauses.len()
        invariant
            i <= clauses@.len(),
            results == texts(clauses@).map_values(|c: Seq<char>| experiment_condition(c)),
            all_ok(results.take(i as int)) == Ok::<Seq<ExperimentCondition>, ErrorModel>(
                views(r@),
            ),
            experiment_conditions(filter@) == all_ok(results),
        decreases clauses@.len() - i,
    {
        proof {
            lemma_all_ok_step(results, i as int);
            assert(results[i as int] == experiment_condition(clauses@[i as int]@));
        }
        match experiment_clause(clauses[i].as_str()) {
            Err(e) => {
                proof {
                    lemma_all_ok_error(results, i + 1);
                }
                return Err(e);
            },
            Ok(condition) => {
                proof {
                    lemma_views_push(r@, condition);
                }
                r.push(condition);
            },
        }
        i += 1;
    }
    assert(results.take(i as int) =~= results);
    Ok(r)
}

/// What a clause of a filter demands of a run. A metric is compared with the
/// number that the text denotes.
#[derive(Debug)]
pub enum FieldFilter {
    ParamEq(String, String),
    ParamNe(String, String),
    ParamLike(String, String),
    TagEq(String, String),
    TagNe(String, String),
    TagLike(String, String),
    MetricCmp(String, String, Comparison),
}

pub enum RunCondition {
    ParamEq(Seq<char>, Seq<char>),
    ParamNe(Seq<char>, Seq<char>),
    ParamLike(Seq<char>, Seq<char>),
    TagEq(Seq<char>, Seq<char>),
    TagNe(Seq<char>, Seq<char>),
    TagLike(Seq<char>, Seq<char>),
    Metric(Seq<char>, Seq<char>, Comparison),
}

impl View for FieldFilter {
    type V = RunCondition;

    open spec fn view(&self) -> RunCondition {
        match self {
            FieldFilter::ParamEq(k, v) => RunCondition::ParamEq(k@, v@),
            FieldFilter::ParamNe(k, v) => RunCondition::ParamNe(k@, v@),
            FieldFilter::ParamLike(k, p) => RunCondition::ParamLike(k@, p@),
            FieldFilter::TagEq(k, v) => RunCondition::TagEq(k@, v@),
            FieldFilter::TagNe(k, v) => RunCondition::TagNe(k@, v@),
            FieldFilter::TagLike(k, p) => RunCondition::TagLike(k@, p@),
            FieldFilter::MetricCmp(k, v, op) => RunCondition::Metric(k@, v@, *op),
        }
    }
}

/// The run meets a condition, where `number` is what the number of a metric
/// condition denotes.
pub open spec fn run_meets(c: RunCondition, run: RunRecord, number: Double) -> bool {
    match c {
        RunCondition::ParamEq(k, v) => text_at(run.params, k) == Some(v),
        RunCondition::ParamNe(k, v) => text_at(run.params, k) != Some(v),
        RunCondition::ParamLike(k, p) => match text_at(run.params, k) {
            Some(v) => is_like(v, p),
            None => false,
        },
        RunCondition::TagEq(k, v) => text_at(run.tags, k) == Some(v),
        RunCondition::TagNe(k, v) => text_at(run.tags, k) != Some(v),
        RunCondition::TagLike(k, p) => match text_at(run.tags, k) {
            Some(v) => is_like(v, p),
            None => false,
        },
        RunCondition::Metric(k, _, op) => run.latest_metrics@.dom().contains(k) && compares(
            op,
            run.latest_metrics@[k].value,
            number,
        ),
    }
}

impl FieldFilter {
    /// The number that a metric condition compares with, as its text.
    pub fn number(&self) -> (r: Option<&String>)
        ensures
            match r {
                Some(t) => self@ matches RunCondition::Metric(_, v, _) && t@ == v,
                None => !(self@ is Metric),
            },
    {
        match self {
            FieldFilter::MetricCmp(_, v, _) => Some(v),
            _ => None,
        }
    }

    /// Whether a run meets this condition, where `number` is what the number of
    /// a metric condition denotes.
    pub fn matches(&self, run: &RunRecord, number: Double) -> (r: bool)
        ensures
            r == run_meets(self@, *run, number),
    {
        match self {
            FieldFilter::ParamEq(k, v) => holds_text(&run.params, k.as_str(), v.as_str()),
            FieldFilter::ParamNe(k, v) => !holds_text(&run.params, k.as_str(), v.as_str()),
            FieldFilter::ParamLike(k, p) => holds_like(&run.params, k.as_str(), p.as_str()),
            FieldFilter::TagEq(k, v) => holds_text(&run.tags, k.as_str(), v.as_str()),
            FieldFilter::TagNe(k, v) => !holds_text(&run.tags, k.as_str(), v.as_str()),
            FieldFilter::TagLike(k, p) => holds_like(&run.tags, k.as_str(), p.as_str()),
            FieldFilter::MetricCmp(k, _, op) => match run.latest_metrics.get(k.as_str()) {
                Some(point) => holds(*op, point.value, number),
                None => false,
            },
        }
    }
}

/// The comparison that an operator names.
pub open spec fn comparison_named(op: Seq<char>) -> Option<Comparison> {
    if op == "<"@ {
        Some(Comparison::Less)
    } else if op == "<="@ {
        Some(Comparison::LessOrEqual)
    } else if op == ">"@ {
        Some(Comparison::Greater)
    } else if op == ">="@ {
        Some(Comparison::GreaterOrEqual)
    } else if op == "="@ {
        Some(Comparison::Equal)
    } else if op == "!="@ {
        Some(Comparison::NotEqual)
    } else {
        None
    }
}

/// The condition that a metric clause states. Its number must be finite.
pub open spec fn metric_condition(parts: PartsModel) -> Result<RunCondition, ErrorModel> {
    if !is_float_text(parts.value) {
        Err(invalid_error("metric filter needs a number, got "@ + parts.value))
    } else if !is_double_text(parts.value) {
        Err(invalid_error("metric filter value must be finite"@))
    } else {
        match comparison_named(parts.op) {
            None => Err(invalid_error(around("unsupported comparison '"@, parts.op, "'"@))),
            Some(op) => Ok(RunCondition::Metric(parts.key, parts.value, op)),
        }
    }
}

pub open spec fn param_condition(parts: PartsModel) -> Result<RunCondition, ErrorModel> {
    if parts.op == "="@ {
        Ok(RunCondition::ParamEq(parts.key, parts.value))
    } else if parts.op == "!="@ {
        Ok(RunCondition::ParamNe(parts.key, parts.value))
    } else if parts.op == "LIKE"@ {
        Ok(RunCondition::ParamLike(parts.key, parts.value))
    } else {
        Err(invalid_error(around("params filter supports = / != / LIKE, got '"@, parts.op, "'"@)))
    }
}

pub open spec fn tag_condition(parts: PartsModel) -> Result<RunCondition, ErrorModel> {
    if parts.op == "="@ {
        Ok(RunCondition::TagEq(parts.key, parts.value))
    } else if parts.op == "!="@ {
        Ok(RunCondition::TagNe(parts.key, parts.value))
    } else if parts.op == "LIKE"@ {
        Ok(RunCondition::TagLike(parts.key, parts.value))
    } else {
        Err(invalid_error(around("tags filter supports = / != / LIKE, got '"@, parts.op, "'"@)))
    }
}

/// The condition that a clause of a run filter states.
pub open spec fn run_condition(clause: Seq<char>) -> Result<RunCondition, ErrorModel> {
    if starts_with(clause, "metrics."@) {
        match clause_parts(clause.skip(8), false) {
            Err(e) => Err(e),
            Ok(parts) => metric_condition(parts),
        }
    } else if starts_with(clause, "params."@) {
        match clause_parts(clause.skip(7), true) {
            Err(e) => Err(e),
            Ok(parts) => param_condition(parts),
        }
    } else if starts_with(clause, "tags."@) {
        match clause_parts(clause.skip(5), true) {
            Err(e) => Err(e),
            Ok(parts) => tag_condition(parts),
        }
    } else {
        Err(
            invalid_error(
                around(
                    "unsupported filter clause '"@,
                    clause,
                    "' (slice 2: params. / metrics. / tags. clauses ANDed together)"@,
                ),
            ),
        )
    }
}

/// The conditions that the clauses of a run filter state.
pub open spec fn run_conditions(filter: Seq<char>) -> Result<Seq<RunCondition>, ErrorModel> {
    match filter_clauses(filter) {
        Err(e) => Err(e),
        Ok(clauses) => all_ok(clauses.map_values(|c: Seq<char>| run_condition(c))),
    }
}

fn comparison_of(op: &str) -> (r: Option<Comparison>)
    ensures
        r == comparison_named(op@),
{
    if same_text(op, "<") {
        Some(Comparison::Less)
    } else if same_text(op, "<=") {
        Some(Comparison::LessOrEqual)
    } else if same_text(op, ">") {
        Some(Comparison::Greater)
    } else if same_text(op, ">=") {
        Some(Comparison::GreaterOrEqual)
    } else if same_text(op, "=") {
        Some(Comparison::Equal)
    } else if same_text(op, "!=") {
        Some(Comparison::NotEqual)
    } else {
        None
    }
}

/// Reads a metric clause.
pub fn metric_filter(parts: FilterParts) -> (r: Result<FieldFilter, MlflowError>)
    ensures
        outcome(r) == metric_condition(parts@),
{
    let value: Vec<char> = chars_of(parts.value.as_str());
    if !float_text(value.as_slice()) {
        let mut message: String = "metric filter needs a number, got ".to_owned();
        message.append(parts.value.as_str());
        return Err(MlflowError::invalid(message));
    }
    if !double_text(value.as_slice()) {
        return Err(MlflowError::invalid("metric filter value must be finite".to_owned()));
    }
    match comparison_of(parts.op.as_str()) {
        None => Err(
            MlflowError::invalid(text_around("unsupported comparison '", parts.op.as_str(), "'")),
        ),
        Some(op) => Ok(FieldFilter::MetricCmp(parts.key, parts.value, op)),
    }
}

/// Reads a parameter clause.
pub fn param_filter(parts: FilterParts) -> (r: Result<FieldFilter, MlflowError>)
    ensures
        outcome(r) == param_condition(parts@),
{
    if same_text(parts.op.as_str(), "=") {
        Ok(FieldFilter::ParamEq(parts.key, parts.value))
    } else if same_text(parts.op.as_str(), "!=") {
        Ok(FieldFilter::ParamNe(parts.key, parts.value))
    } else if same_text(parts.op.as_str(), "LIKE") {
        Ok(FieldFilter::ParamLike(parts.key, parts.value))
    } else {
        Err(
            MlflowError::invalid(
                text_around("params filter supports = / != / LIKE, got '", parts.op.as_str(), "'"),
            ),
        )
    }
}

/// Reads a tag clause.
pub fn tag_filter(parts: FilterParts) -> (r: Result<FieldFilter, MlflowError>)
    ensures
        outcome(r) == tag_condition(parts@),
{
    if same_text(parts.op.as_str(), "=") {
        Ok(FieldFilter::TagEq(parts.key, parts.value))
    } else if same_text(parts.op.as_str(), "!=") {
        Ok(FieldFilter::TagNe(parts.key, parts.value))
    } else if same_text(parts.op.as_str(), "LIKE") {
        Ok(FieldFilter::TagLike(parts.key, parts.value))
    } else {
        Err(
            MlflowError::invalid(
                text_around("tags filter supports = / != / LIKE, got '", parts.op.as_str(), "'"),
            ),
        )
    }
}

fn run_clause(clause: &str) -> (r: Result<FieldFilter, MlflowError>)
    ensures
        outcome(r) == run_condition(clause@),
{
    proof {
        reveal_strlit("metrics.");
        reveal_strlit("params.");
        reveal_strlit("tags.");
    }
    if let Some(rest) = after_prefix(clause, "metrics.") {
        return match parse_filter_parts(rest.as_str(), false) {
            Err(e) => Err(e),
            Ok(parts) => metric_filter(parts),
        };
    }
    if let Some(rest) = after_prefix(clause, "params.") {
        return match parse_filter_parts(rest.as_str(), true) {
            Err(e) => Err(e),
            Ok(parts) => param_filter(parts),
        };
    }
    if let Some(rest) = after_prefix(clause, "tags.") {
        return match parse_filter_parts(rest.as_str(), true) {
            Err(e) => Err(e),
            Ok(parts) => tag_filter(parts),
        };
    }
    Err(
        MlflowError::invalid(
            text_around(
                "unsupported filter clause '",
                clause,
                "' (slice 2: params. / metrics. / tags. clauses ANDed together)",
            ),
        ),
    )
}

/// Reads a filter on runs.
pub fn parse_run_filter(filter: &str) -> (r: Result<Vec<FieldFilter>, MlflowError>)
    ensures
        outcomes(r) == run_conditions(filter@),
{
    let clauses: Vec<String> = match split_filter_clauses(filter) {
        Err(e) => {
            return Err(e);
        },
        Ok(clauses) => clauses,
    };
    let ghost results = texts(clauses@).map_values(|c: Seq<char>| run_condition(c));
    assert(texts(clauses@) =~= views(clauses@));
    let mut r: Vec<FieldFilter> = Vec::new();
    let mut i: usize = 0;
    assert(results.take(0) =~= Seq::empty());
    assert(views(r@) =~= Seq::empty());
    while i < clauses.len()
        invariant
            i <= clauses@.len(),
            results == texts(clauses@).map_values(|c: Seq<char>| run_condition(c)),
            all_ok(results.take(i as int)) == Ok::<Seq<RunCondition>, ErrorModel>(views(r@)),
            run_conditions(filter@) == all_ok(results),
        decreases clauses@.len() - i,
    {
        proof {
            lemma_all_ok_step(results, i as int);
            assert(results[i as int] == run_condition(clauses@[i as int]@));
        }
        match run_clause(clauses[i].as_str()) {
            Err(e) => {
                proof {
                    lemma_all_ok_error(results, i + 1);
                }
                return Err(e);
            },
            Ok(condition) => {
                proof {
                    lemma_views_push(r@, condition);
                }
                r.push(condition);
            },
        }
        i += 1;
    }
    assert(results.take(i as int) =~= results);
    Ok(r)
}

} // verus!
