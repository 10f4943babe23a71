//! The indexed fields of documents, and the filters that find them.

use vstd::prelude::*;
use crate::mlflow::documents::{
    counter_fields, counters_in, field_views, fields_of_counters, law_counters_read_back,
};
use crate::mlflow::logged::StoredModel;
use crate::mlflow::records::{ExperimentRecord, TraceRecord};
use crate::mlflow::store::StoredRun;
use crate::text::chars::{lemma_views_push, views};
use crate::text::map::{TextMap, is_listing};
use crate::text::search::starts_with;

verus! {

/// The value of an indexed field.
#[derive(Debug)]
pub enum FieldValue {
    Text(String),
    Number(i64),
}

#[verifier::ext_equal]
pub enum FieldModel {
    Text(Seq<char>),
    Number(i64),
}

impl View for FieldValue {
    type V = FieldModel;

    open spec fn view(&self) -> FieldModel {
        match self {
            FieldValue::Text(t) => FieldModel::Text(t@),
            FieldValue::Number(n) => FieldModel::Number(*n),
        }
    }
}

/// A field of a document, or the condition that a field has a value.
#[derive(Debug)]
pub struct IndexField {
    pub path: String,
    pub value: FieldValue,
}

impl View for IndexField {
    type V = (Seq<char>, FieldModel);

    open spec fn view(&self) -> (Seq<char>, FieldModel) {
        (self.path@, self.value@)
    }
}

pub open spec fn text_field(path: Seq<char>, text: Seq<char>) -> (Seq<char>, FieldModel) {
    (path, FieldModel::Text(text))
}

pub open spec fn number_field(path: Seq<char>, n: i64) -> (Seq<char>, FieldModel) {
    (path, FieldModel::Number(n))
}

/// The value of a field. Of several values the last one counts.
pub open spec fn value_at(fields: Seq<(Seq<char>, FieldModel)>, path: Seq<char>) -> Option<
    FieldModel,
>
    decreases fields.len(),
{
    if fields.len() == 0 {
        None
    } else if fields.last().0 == path {
        Some(fields.last().1)
    } else {
        value_at(fields.drop_last(), path)
    }
}

/// A document with these fields meets every condition.
pub open spec fn meets(
    fields: Seq<(Seq<char>, FieldModel)>,
    conditions: Seq<(Seq<char>, FieldModel)>,
) -> bool {
    forall|i: int|
        0 <= i < conditions.len() ==> value_at(fields, (#[trigger] conditions[i]).0) == Some(
            conditions[i].1,
        )
}

/// The condition, or the field, that a path has a text.
pub fn eq_cond(path: &str, value: &str) -> (r: IndexField)
    ensures
        r@ == text_field(path@, value@),
{
    IndexField { path: path.to_owned(), value: FieldValue::Text(value.to_owned()) }
}

/// The condition, or the field, that a path has a number.
pub fn number_cond(path: &str, value: i64) -> (r: IndexField)
    ensures
        r@ == number_field(path@, value),
{
    IndexField { path: path.to_owned(), value: FieldValue::Number(value) }
}

/// The fields of an experiment.
pub open spec fn experiment_index(name: Seq<char>, stage: Seq<char>) -> Seq<
    (Seq<char>, FieldModel),
> {
    seq![
        text_field("kind"@, "experiment"@),
        text_field("name"@, name),
        text_field("stage"@, stage),
    ]
}

/// The fields of a record that belongs to an experiment.
pub open spec fn member_index(
    kind: Seq<char>,
    experiment_id: u64,
    state_path: Seq<char>,
    state: Seq<char>,
) -> Seq<(Seq<char>, FieldModel)> {
    seq![
        text_field("kind"@, kind),
        number_field("experiment_id"@, experiment_id as i64),
        text_field(state_path, state),
    ]
}

/// The fields of counters.
pub open spec fn counter_index(counters: TextMap<u64>) -> Seq<(Seq<char>, FieldModel)> {
    counter_fields(counters).map_values(
        |f: (Seq<char>, i64)| (f.0, FieldModel::Number(f.1)),
    )
}

/// The fields of a run, with its counters beside it.
pub open spec fn run_index(
    experiment_id: u64,
    lifecycle: Seq<char>,
    counters: TextMap<u64>,
) -> Seq<(Seq<char>, FieldModel)> {
    member_index("run"@, experiment_id, "lifecycle"@, lifecycle) + counter_index(counters)
}

/// The fields of a trace.
pub open spec fn trace_index(experiment_id: u64, state: Seq<char>) -> Seq<
    (Seq<char>, FieldModel),
> {
    member_index("trace"@, experiment_id, "state"@, state)
}

/// The fields of a logged model, with its counters beside it.
pub open spec fn logged_model_index(
    experiment_id: u64,
    lifecycle: Seq<char>,
    counters: TextMap<u64>,
) -> Seq<(Seq<char>, FieldModel)> {
    member_index("logged_model"@, experiment_id, "lifecycle"@, lifecycle) + counter_index(counters)
}

/// The fields of a sample.
pub open spec fn sample_index(
    kind: Seq<char>,
    owner_path: Seq<char>,
    owner: Seq<char>,
    key: Seq<char>,
    seq: u64,
) -> Seq<(Seq<char>, FieldModel)> {
    seq![
        text_field("kind"@, kind),
        text_field(owner_path, owner),
        text_field("key"@, key),
        number_field("seq"@, seq as i64),
    ]
}

/// The fields of a sample of a run's metric.
pub open spec fn metric_index(run_id: Seq<char>, key: Seq<char>, seq: u64) -> Seq<
    (Seq<char>, FieldModel),
> {
    sample_index("metric"@, "run_id"@, run_id, key, seq)
}

/// The fields of a sample of a logged model's metric.
pub open spec fn model_metric_index(model_id: Seq<char>, key: Seq<char>, seq: u64) -> Seq<
    (Seq<char>, FieldModel),
> {
    sample_index("model_metric"@, "model_id"@, model_id, key, seq)
}

/// The fields of a dataset that a run has read.
pub open spec fn dataset_index(run_id: Seq<char>) -> Seq<(Seq<char>, FieldModel)> {
    seq![text_field("kind"@, "dataset"@), text_field("run_id"@, run_id)]
}

/// The conditions that find the records of a kind in an experiment.
pub open spec fn members_filter(kind: Seq<char>, experiment_id: u64) -> Seq<
    (Seq<char>, FieldModel),
> {
    seq![
        text_field("kind"@, kind),
        number_field("experiment_id"@, experiment_id as i64),
    ]
}

/// The conditions that find the history of a run's metric.
pub open spec fn history_filter(run_id: Seq<char>, key: Seq<char>) -> Seq<
    (Seq<char>, FieldModel),
> {
    seq![
        text_field("kind"@, "metric"@),
        text_field("run_id"@, run_id),
        text_field("key"@, key),
    ]
}

/// The conditions that find the samples of a logged model.
pub open spec fn model_filter(model_id: Seq<char>) -> Seq<(Seq<char>, FieldModel)> {
    seq![text_field("kind"@, "model_metric"@), text_field("model_id"@, model_id)]
}

/// The fields of an experiment.
pub fn experiment_fields(experiment: &ExperimentRecord, stage: &str) -> (r: Vec<IndexField>)
    ensures
        views(r@) == experiment_index(experiment.name@, stage@),
{
    let mut r: Vec<IndexField> = Vec::new();
    r.push(eq_cond("kind", "experiment"));
    r.push(eq_cond("name", experiment.name.as_str()));
    r.push(eq_cond("stage", stage));
    assert(views(r@) =~= experiment_index(experiment.name@, stage@));
    r
}

fn member_fields(kind: &str, experiment_id: u64, state_path: &str, state: &str) -> (r: Vec<
    IndexField,
>)
    ensures
        views(r@) == member_index(kind@, experiment_id, state_path@, state@),
{
    let mut r: Vec<IndexField> = Vec::new();
    r.push(eq_cond("kind", kind));
    r.push(number_cond("experiment_id", experiment_id as i64));
    r.push(eq_cond(state_path, state));
    assert(views(r@) =~= member_index(kind@, experiment_id, state_path@, state@));
    r
}

fn push_counters(fields: &mut Vec<IndexField>, counters: &TextMap<u64>)
    ensures
        views(final(fields)@) == views(old(fields)@) + counter_index(*counters),
{
    let ghost before = views(fields@);
    let ghost all = counter_index(*counters);
    let kept: Vec<(String, i64)> = fields_of_counters(counters);
    assert(field_views(kept@) == counter_fields(*counters));
    let mut i: usize = 0;
    assert(views(fields@) =~= before + all.take(0));
    while i < kept.len()
        invariant
            i <= kept@.len(),
            all == counter_index(*counters),
            field_views(kept@) == counter_fields(*counters),
            kept@.len() == all.len(),
            views(fields@) == before + all.take(i as int),
        decreases kept@.len() - i,
    {
        let field: IndexField = number_cond(kept[i].0.as_str(), kept[i].1);
        assert(field_views(kept@)[i as int] == (kept@[i as int].0@, kept@[i as int].1));
        assert(field@ == all[i as int]);
        proof {
            lemma_views_push(fields@, field);
        }
        fields.push(field);
        assert(views(fields@) =~= before + all.take(i + 1));
        i += 1;
    }
    assert(all.take(i as int) =~= all);
}

/// The fields of a run, with its counters beside it.
pub fn run_fields(stored: &StoredRun, lifecycle: &str) -> (r: Vec<IndexField>)
    ensures
        views(r@) == run_index(stored.run.experiment_id, lifecycle@, stored.counters),
{
    let mut r: Vec<IndexField> = member_fields(
        "run",
        stored.run.experiment_id,
        "lifecycle",
        lifecycle,
    );
    push_counters(&mut r, &stored.counters);
    r
}

/// The fields of a trace.
pub fn trace_fields(trace: &TraceRecord) -> (r: Vec<IndexField>)
    ensures
        views(r@) == trace_index(trace.experiment_id, trace.state@),
{
    member_fields("trace", trace.experiment_id, "state", trace.state.as_str())
}

/// The fields of a logged model, with its counters beside it.
pub fn logged_model_fields(stored: &StoredModel, lifecycle: &str) -> (r: Vec<IndexField>)
    ensures
        views(r@) == logged_model_index(stored.model.experiment_id, lifecycle@, stored.counters),
{
    let mut r: Vec<IndexField> = member_fields(
        "logged_model",
        stored.model.experiment_id,
        "lifecycle",
        lifecycle,
    );
    push_counters(&mut r, &stored.counters);
    r
}

fn sample_fields(kind: &str, owner_path: &str, owner: &str, key: &str, seq: u64) -> (r: Vec<
    IndexField,
>)
    ensures
        views(r@) == sample_index(kind@, owner_path@, owner@, key@, seq),
{
    let mut r: Vec<IndexField> = Vec::new();
    r.push(eq_cond("kind", kind));
    r.push(eq_cond(owner_path, owner));
    r.push(eq_cond("key", key));
    r.push(number_cond("seq", seq as i64));
    assert(views(r@) =~= sample_index(kind@, owner_path@, owner@, key@, seq));
    r
}

/// The fields of a sample of a run's metric.
pub fn metric_fields(run_id: &str, key: &str, seq: u64) -> (r: Vec<IndexField>)
    ensures
        views(r@) == metric_index(run_id@, key@, seq),
{
    sample_fields("metric", "run_id", run_id, key, seq)
}

/// The fields of a sample of a logged model's metric.
pub fn model_metric_fields(model_id: &str, key: &str, seq: u64) -> (r: Vec<IndexField>)
    ensures
        views(r@) == model_metric_index(model_id@, key@, seq),
{
    sample_fields("model_metric", "model_id", model_id, key, seq)
}

/// The fields of a dataset that a run has read; also the conditions that find
/// the datasets of a run.
pub fn dataset_fields(run_id: &str) -> (r: Vec<IndexField>)
    ensures
        views(r@) == dataset_index(run_id@),
{
    let mut r: Vec<IndexField> = Vec::new();
    r.push(eq_cond("kind", "dataset"));
    r.push(eq_cond("run_id", run_id));
    assert(views(r@) =~= dataset_index(run_id@));
    r
}

/// The conditions that find the experiments.
pub fn experiments_conditions() -> (r: Vec<IndexField>)
    ensures
        views(r@) == seq![text_field("kind"@, "experiment"@)],
{
    let mut r: Vec<IndexField> = Vec::new();
    r.push(eq_cond("kind", "experiment"));
    assert(views(r@) =~= seq![text_field("kind"@, "experiment"@)]);
    r
}

/// The conditions that find the records of a kind (`run`, `trace` or
/// `logged_model`) in an experiment.
pub fn member_conditions(kind: &str, experiment_id: u64) -> (r: Vec<IndexField>)
    ensures
        views(r@) == members_filter(kind@, experiment_id),
{
    let mut r: Vec<IndexField> = Vec::new();
    r.push(eq_cond("kind", kind));
    r.push(number_cond("experiment_id", experiment_id as i64));
    assert(views(r@) =~= members_filter(kind@, experiment_id));
    r
}

/// The conditions that find the history of a run's metric.
pub fn history_conditions(run_id: &str, key: &str) -> (r: Vec<IndexField>)
    ensures
        views(r@) == history_filter(run_id@, key@),
{
    let mut r: Vec<IndexField> = Vec::new();
    r.push(eq_cond("kind", "metric"));
    r.push(eq_cond("run_id", run_id));
    r.push(eq_cond("key", key));
    assert(views(r@) =~= history_filter(run_id@, key@));
    r
}

/// The conditions that find the samples of a logged model: of one metric where a
/// key is given, else of all.
pub fn model_metric_conditions(model_id: &str, key: Option<&str>) -> (r: Vec<IndexField>)
    ensures
        views(r@) == match key {
            Some(k) => model_filter(model_id@).push(text_field("key"@, k@)),
            None => model_filter(model_id@),
        },
{
    let mut r: Vec<IndexField> = Vec::new();
    r.push(eq_cond("kind", "model_metric"));
    r.push(eq_cond("model_id", model_id));
    assert(views(r@) =~= model_filter(model_id@));
    if let Some(k) = key {
        let ghost before = views(r@);
        r.push(eq_cond("key", k));
        assert(views(r@) =~= before.push(text_field("key"@, k@)));
    }
    r
}

/// The integer fields of a document.
pub open spec fn number_fields(fields: Seq<(Seq<char>, FieldModel)>) -> Seq<(Seq<char>, i64)>
    decreases fields.len(),
{
    if fields.len() == 0 {
        Seq::empty()
    } else {
        match fields.last().1 {
            FieldModel::Number(n) => number_fields(fields.drop_last()).push((fields.last().0, n)),
            FieldModel::Text(_) => number_fields(fields.drop_last()),
        }
    }
}

proof fn lemma_value_behind(
    front: Seq<(Seq<char>, FieldModel)>,
    back: Seq<(Seq<char>, FieldModel)>,
    path: Seq<char>,
)
    requires
        forall|i: int| 0 <= i < back.len() ==> (#[trigger] back[i]).0 != path,
    ensures
        value_at(front + back, path) == value_at(front, path),
    decreases back.len(),
{
    let all = front + back;
    if back.len() == 0 {
        assert(all =~= front);
    } else {
        assert(all.last() == back.last());
        assert(all.drop_last() =~= front + back.drop_last());
        assert(back[back.len() - 1].0 != path);
        assert forall|i: int| 0 <= i < back.drop_last().len() implies (
        #[trigger] back.drop_last()[i]).0 != path by {
            assert(back[i].0 != path);
        }
        lemma_value_behind(front, back.drop_last(), path);
    }
}

proof fn lemma_value_at_last(
    fields: Seq<(Seq<char>, FieldModel)>,
    field: (Seq<char>, FieldModel),
    path: Seq<char>,
)
    ensures
        value_at(fields.push(field), path) == if field.0 == path {
            Some(field.1)
        } else {
            value_at(fields, path)
        },
{
    assert(fields.push(field).drop_last() =~= fields);
}

proof fn lemma_counter_paths(counters: TextMap<u64>, i: int)
    requires
        0 <= i < counter_index(counters).len(),
    ensures
        counter_index(counters)[i].0 != "kind"@,
        counter_index(counters)[i].0 != "experiment_id"@,
{
    reveal_strlit("ctr_");
    reveal_strlit("kind");
    reveal_strlit("experiment_id");
    let path = counter_index(counters)[i].0;
    assert(path[0] == 'c');
    assert("kind"@[0] == 'k');
    assert("experiment_id"@[0] == 'e');
}

proof fn lemma_member_values(
    kind: Seq<char>,
    experiment_id: u64,
    state_path: Seq<char>,
    state: Seq<char>,
    counters: Seq<(Seq<char>, FieldModel)>,
)
    requires
        state_path != "kind"@,
        state_path != "experiment_id"@,
        forall|i: int|
            0 <= i < counters.len() ==> (#[trigger] counters[i]).0 != "kind"@ && counters[i].0
                != "experiment_id"@,
    ensures
        value_at(
            member_index(kind, experiment_id, state_path, state) + counters,
            "kind"@,
        ) == Some(FieldModel::Text(kind)),
        value_at(
            member_index(kind, experiment_id, state_path, state) + counters,
            "experiment_id"@,
        ) == Some(FieldModel::Number(experiment_id as i64)),
{
    reveal_strlit("kind");
    reveal_strlit("experiment_id");
    let all = member_index(kind, experiment_id, state_path, state);
    lemma_value_behind(all, counters, "kind"@);
    lemma_value_behind(all, counters, "experiment_id"@);
    let none = Seq::<(Seq<char>, FieldModel)>::empty();
    let one = none.push(text_field("kind"@, kind));
    let two = one.push(number_field("experiment_id"@, experiment_id as i64));
    assert(all =~= two.push(text_field(state_path, state)));
    assert("kind"@ != "experiment_id"@) by {
        assert("kind"@.len() != "experiment_id"@.len());
    }
    lemma_value_at_last(none, text_field("kind"@, kind), "kind"@);
    lemma_value_at_last(one, number_field("experiment_id"@, experiment_id as i64), "kind"@);
    lemma_value_at_last(
        one,
        number_field("experiment_id"@, experiment_id as i64),
        "experiment_id"@,
    );
    lemma_value_at_last(two, text_field(state_path, state), "kind"@);
    lemma_value_at_last(two, text_field(state_path, state), "experiment_id"@);
}

proof fn lemma_members_found(
    fields: Seq<(Seq<char>, FieldModel)>,
    kind: Seq<char>,
    experiment_id: u64,
    wanted_kind: Seq<char>,
    wanted_id: u64,
)
    requires
        value_at(fields, "kind"@) == Some(FieldModel::Text(kind)),
        value_at(fields, "experiment_id"@) == Some(FieldModel::Number(experiment_id as i64)),
    ensures
        meets(fields, members_filter(wanted_kind, wanted_id)) == (kind == wanted_kind
            && experiment_id == wanted_id),
{
    let filter = members_filter(wanted_kind, wanted_id);
    assert(filter[0] == text_field("kind"@, wanted_kind));
    assert(filter[1] == number_field("experiment_id"@, wanted_id as i64));
    assert(experiment_id != wanted_id ==> experiment_id as i64 != wanted_id as i64) by (bit_vector);
    if kind == wanted_kind && experiment_id == wanted_id {
        assert forall|i: int| 0 <= i < filter.len() implies value_at(
            fields,
            (#[trigger] filter[i]).0,
        ) == Some(filter[i].1) by {
            assert(i == 0 || i == 1);
        }
    }
}

/// A listing of an experiment's runs finds the runs of that experiment, and no
/// other document that belongs to an experiment.
pub proof fn law_runs_are_found(
    experiment_id: u64,
    lifecycle: Seq<char>,
    counters: TextMap<u64>,
    kind: Seq<char>,
    wanted: u64,
)
    ensures
        meets(run_index(experiment_id, lifecycle, counters), members_filter(kind, wanted)) == (kind
            == "run"@ && experiment_id == wanted),
{
    reveal_strlit("lifecycle");
    reveal_strlit("kind");
    reveal_strlit("experiment_id");
    assert("lifecycle"@.len() == 9);
    assert forall|i: int| 0 <= i < counter_index(counters).len() implies (
    #[trigger] counter_index(counters)[i]).0 != "kind"@ && counter_index(counters)[i].0
        != "experiment_id"@ by {
        lemma_counter_paths(counters, i);
    }
    lemma_member_values("run"@, experiment_id, "lifecycle"@, lifecycle, counter_index(counters));
    lemma_members_found(
        run_index(experiment_id, lifecycle, counters),
        "run"@,
        experiment_id,
        kind,
        wanted,
    );
}

/// A listing of an experiment's traces finds the traces of that experiment, and
/// no other document that belongs to an experiment.
pub proof fn law_traces_are_found(
    experiment_id: u64,
    state: Seq<char>,
    kind: Seq<char>,
    wanted: u64,
)
    ensures
        meets(trace_index(experiment_id, state), members_filter(kind, wanted)) == (kind
            == "trace"@ && experiment_id == wanted),
{
    reveal_strlit("state");
    reveal_strlit("kind");
    reveal_strlit("experiment_id");
    let none = Seq::<(Seq<char>, FieldModel)>::empty();
    assert(trace_index(experiment_id, state) + none =~= trace_index(experiment_id, state));
    assert("state"@.len() == 5);
    lemma_member_values("trace"@, experiment_id, "state"@, state, none);
    lemma_members_found(trace_index(experiment_id, state), "trace"@, experiment_id, kind, wanted);
}

/// A listing of an experiment's logged models finds those of that experiment,
/// and no other document that belongs to an experiment.
pub proof fn law_logged_models_are_found(
    experiment_id: u64,
    lifecycle: Seq<char>,
    counters: TextMap<u64>,
    kind: Seq<char>,
    wanted: u64,
)
    ensures
        meets(logged_model_index(experiment_id, lifecycle, counters), members_filter(kind, wanted))
            == (kind == "logged_model"@ && experiment_id == wanted),
{
    reveal_strlit("lifecycle");
    reveal_strlit("kind");
    reveal_strlit("experiment_id");
    assert("lifecycle"@.len() == 9);
    assert forall|i: int| 0 <= i < counter_index(counters).len() implies (
    #[trigger] counter_index(counters)[i]).0 != "kind"@ && counter_index(counters)[i].0
        != "experiment_id"@ by {
        lemma_counter_paths(counters, i);
    }
    lemma_member_values(
        "logged_model"@,
        experiment_id,
        "lifecycle"@,
        lifecycle,
        counter_index(counters),
    );
    lemma_members_found(
        logged_model_index(experiment_id, lifecycle, counters),
        "logged_model"@,
        experiment_id,
        kind,
        wanted,
    );
}

proof fn lemma_sample_values(
    kind: Seq<char>,
    owner_path: Seq<char>,
    owner: Seq<char>,
    key: Seq<char>,
    seq: u64,
)
    requires
        owner_path.len() == 6 || owner_path.len() == 8,
    ensures
        ({
            let fields = sample_index(kind, owner_path, owner, key, seq);
            &&& value_at(fields, "kind"@) == Some(FieldModel::Text(kind))
            &&& value_at(fields, owner_path) == Some(FieldModel::Text(owner))
            &&& value_at(fields, "key"@) == Some(FieldModel::Text(key))
        }),
{
    reveal_strlit("kind");
    reveal_strlit("key");
    reveal_strlit("seq");
    let none = Seq::<(Seq<char>, FieldModel)>::empty();
    let one = none.push(text_field("kind"@, kind));
    let two = one.push(text_field(owner_path, owner));
    let three = two.push(text_field("key"@, key));
    let last = number_field("seq"@, seq as i64);
    assert(sample_index(kind, owner_path, owner, key, seq) =~= three.push(last));
    assert("kind"@.len() == 4 && "key"@.len() == 3 && "seq"@.len() == 3);
    assert("key"@[0] == 'k' && "seq"@[0] == 's');
    lemma_value_at_last(none, text_field("kind"@, kind), "kind"@);
    lemma_value_at_last(one, text_field(owner_path, owner), "kind"@);
    lemma_value_at_last(two, text_field("key"@, key), "kind"@);
    lemma_value_at_last(three, last, "kind"@);
    lemma_value_at_last(one, text_field(owner_path, owner), owner_path);
    lemma_value_at_last(two, text_field("key"@, key), owner_path);
    lemma_value_at_last(three, last, owner_path);
    lemma_value_at_last(two, text_field("key"@, key), "key"@);
    lemma_value_at_last(three, last, "key"@);
}

/// A history finds the samples of its run and key, and no others.
pub proof fn law_samples_are_found(
    run_id: Seq<char>,
    key: Seq<char>,
    seq: u64,
    wanted_run: Seq<char>,
    wanted_key: Seq<char>,
)
    ensures
        meets(metric_index(run_id, key, seq), history_filter(wanted_run, wanted_key)) == (run_id
            == wanted_run && key == wanted_key),
{
    reveal_strlit("run_id");
    let fields = metric_index(run_id, key, seq);
    let filter = history_filter(wanted_run, wanted_key);
    lemma_sample_values("metric"@, "run_id"@, run_id, key, seq);
    assert(filter[0] == text_field("kind"@, "metric"@));
    assert(filter[1] == text_field("run_id"@, wanted_run));
    assert(filter[2] == text_field("key"@, wanted_key));
    if run_id == wanted_run && key == wanted_key {
        assert forall|i: int| 0 <= i < filter.len() implies value_at(
            fields,
            (#[trigger] filter[i]).0,
        ) == Some(filter[i].1) by {
            assert(i == 0 || i == 1 || i == 2);
        }
    }
}

/// The samples of a run and those of a logged model are never found together,
/// even under one id.
pub proof fn law_model_samples_are_apart(
    id: Seq<char>,
    key: Seq<char>,
    seq: u64,
    wanted_run: Seq<char>,
    wanted_key: Seq<char>,
)
    ensures
        !meets(model_metric_index(id, key, seq), history_filter(wanted_run, wanted_key)),
        meets(model_metric_index(id, key, seq), model_filter(id)),
        !meets(metric_index(id, key, seq), model_filter(id)),
{
    reveal_strlit("model_id");
    reveal_strlit("run_id");
    reveal_strlit("metric");
    reveal_strlit("model_metric");
    lemma_sample_values("model_metric"@, "model_id"@, id, key, seq);
    lemma_sample_values("metric"@, "run_id"@, id, key, seq);
    let filter = history_filter(wanted_run, wanted_key);
    let models = model_filter(id);
    assert(filter[0] == text_field("kind"@, "metric"@));
    assert(models[0] == text_field("kind"@, "model_metric"@));
    assert(models[1] == text_field("model_id"@, id));
    assert("metric"@.len() != "model_metric"@.len());
    let fields = model_metric_index(id, key, seq);
    assert forall|i: int| 0 <= i < models.len() implies value_at(fields, (#[trigger] models[i]).0)
        == Some(models[i].1) by {
        assert(i == 0 || i == 1);
    }
}

proof fn lemma_number_fields_of_counters(
    front: Seq<(Seq<char>, FieldModel)>,
    counters: Seq<(Seq<char>, i64)>,
)
    ensures
        number_fields(
            front + counters.map_values(|f: (Seq<char>, i64)| (f.0, FieldModel::Number(f.1))),
        ) == number_fields(front) + counters,
    decreases counters.len(),
{
    let f = |f: (Seq<char>, i64)| (f.0, FieldModel::Number(f.1));
    let back = counters.map_values(f);
    let all = front + back;
    if counters.len() == 0 {
        assert(all =~= front);
        assert(number_fields(front) + counters =~= number_fields(front));
    } else {
        lemma_number_fields_of_counters(front, counters.drop_last());
        assert(all.drop_last() =~= front + counters.drop_last().map_values(f));
        assert(all.last() == (counters.last().0, FieldModel::Number(counters.last().1)));
        assert((number_fields(front) + counters.drop_last()).push(counters.last())
            =~= number_fields(front) + counters);
    }
}

proof fn lemma_counters_behind(front: Seq<(Seq<char>, i64)>, back: Seq<(Seq<char>, i64)>)
    requires
        counters_in(front) == Map::<Seq<char>, u64>::empty(),
    ensures
        counters_in(front + back) == counters_in(back),
    decreases back.len(),
{
    if back.len() == 0 {
        assert(front + back =~= front);
    } else {
        lemma_counters_behind(front, back.drop_last());
        assert((front + back).drop_last() =~= front + back.drop_last());
        assert((front + back).last() == back.last());
    }
}

/// The counters of a run survive in its document: its integer fields hold them,
/// and nothing that reads as another counter.
pub proof fn law_counters_survive(
    experiment_id: u64,
    lifecycle: Seq<char>,
    counters: TextMap<u64>,
)
    requires
        is_listing(counters.keys(), counters@),
    ensures
        counters_in(number_fields(run_index(experiment_id, lifecycle, counters))) == counters@,
        counters_in(number_fields(logged_model_index(experiment_id, lifecycle, counters)))
            == counters@,
{
    law_counters_read_back(counters);
    lemma_member_numbers("run"@, experiment_id, lifecycle, counters);
    lemma_member_numbers("logged_model"@, experiment_id, lifecycle, counters);
}

proof fn lemma_member_numbers(
    kind: Seq<char>,
    experiment_id: u64,
    lifecycle: Seq<char>,
    counters: TextMap<u64>,
)
    ensures
        counters_in(
            number_fields(
                member_index(kind, experiment_id, "lifecycle"@, lifecycle) + counter_index(counters),
            ),
        ) == counters_in(counter_fields(counters)),
{
    reveal_strlit("ctr_");
    reveal_strlit("experiment_id");
    let front = member_index(kind, experiment_id, "lifecycle"@, lifecycle);
    lemma_number_fields_of_counters(front, counter_fields(counters));
    let none = Seq::<(Seq<char>, FieldModel)>::empty();
    let one = none.push(text_field("kind"@, kind));
    let two = one.push(number_field("experiment_id"@, experiment_id as i64));
    assert(front =~= two.push(text_field("lifecycle"@, lifecycle)));
    assert(front.drop_last() =~= two);
    assert(two.drop_last() =~= one);
    assert(one.drop_last() =~= none);
    assert(number_fields(none) =~= Seq::<(Seq<char>, i64)>::empty());
    assert(number_fields(one) =~= Seq::<(Seq<char>, i64)>::empty());
    let numbers = Seq::<(Seq<char>, i64)>::empty().push(("experiment_id"@, experiment_id as i64));
    assert(number_fields(two) =~= numbers);
    assert(number_fields(front) =~= numbers);
    assert(!starts_with("experiment_id"@, "ctr_"@)) by {
        if starts_with("experiment_id"@, "ctr_"@) {
            assert("experiment_id"@.subrange(0, 4)[0] == "ctr_"@[0]);
        }
    }
    assert(numbers.drop_last() =~= Seq::<(Seq<char>, i64)>::empty());
    assert(counters_in(numbers.drop_last()) == Map::<Seq<char>, u64>::empty());
    lemma_counters_behind(numbers, counter_fields(counters));
}

} // verus!
