//! The operations of the tracking store on logged models.

use vstd::prelude::*;
use vstd::string::*;
use crate::mlflow::documents::{counter_key, counter_name, model_metric_doc, model_metric_doc_id};
use crate::mlflow::error::RunStoreError;
use crate::mlflow::records::{ExperimentRecord, LoggedModelRecord, LoggedModelStatus, RunLifecycle};
use crate::mlflow::states::{
    ExperimentState, Lifecycled, LoggedModelState, StoreError, list_records, listed, opt_of,
    remove_text, set_text, stored,
};
use crate::mlflow::store::{
    SampleDoc, check_open, count_under, list_outcome, open_experiment, order_samples,
    samples_in_order,
};
use crate::text::chars::{copied, same_text};
use crate::text::map::{TextMap, text_pairs};
use crate::text::order::{comes_before, text_before};
use crate::text::sort::{Ranked, rank_order, sort_stable, stable_sorted};

verus! {

/// A logged model with its counters.
#[derive(Debug)]
pub struct StoredModel {
    pub model: LoggedModelRecord,
    pub counters: TextMap<u64>,
}

pub struct StoredModelState {
    pub model: LoggedModelState,
    pub counters: Map<Seq<char>, u64>,
}

impl View for StoredModel {
    type V = StoredModelState;

    open spec fn view(&self) -> StoredModelState {
        StoredModelState { model: self.model@, counters: self.counters@ }
    }
}

/// A model can be created.
pub open spec fn model_created(
    model: LoggedModelState,
    experiment: Option<ExperimentState>,
    exists_already: bool,
) -> Result<StoredModelState, StoreError> {
    if model.name.len() == 0 {
        Err(StoreError::Empty("name"@))
    } else if model.model_id.len() == 0 {
        Err(StoreError::Empty("model_id"@))
    } else {
        match open_experiment(model.experiment_id, experiment) {
            Err(e) => Err(e),
            Ok(_) => if exists_already {
                Err(StoreError::LoggedModelIdConflict(model.model_id))
            } else {
                Ok(StoredModelState { model, counters: Map::empty() })
            },
        }
    }
}

/// Creates a logged model in an experiment that is not deleted.
pub fn create_logged_model(
    model: LoggedModelRecord,
    experiment: &Option<ExperimentRecord>,
    exists_already: bool,
) -> (r: Result<StoredModel, RunStoreError>)
    ensures
        stored(r) == model_created(model@, opt_of(*experiment), exists_already),
{
    if model.name.as_str().unicode_len() == 0 {
        return Err(RunStoreError::Empty { field: "name" });
    }
    if model.model_id.as_str().unicode_len() == 0 {
        return Err(RunStoreError::Empty { field: "model_id" });
    }
    match check_open(model.experiment_id, experiment) {
        Err(e) => {
            return Err(e);
        },
        Ok(()) => {},
    }
    if exists_already {
        return Err(RunStoreError::LoggedModelIdConflict { model_id: model.model_id });
    }
    Ok(StoredModel { model, counters: TextMap::new() })
}

/// The model that was read, or the error for its absence.
pub open spec fn known_model(model_id: Seq<char>, found: Option<StoredModelState>) -> Result<
    StoredModelState,
    StoreError,
> {
    match found {
        Some(model) => Ok(model),
        None => Err(StoreError::UnknownLoggedModel(model_id)),
    }
}

/// The model that was read, with its counters.
pub fn logged_model_with_counters(model_id: &str, found: Option<StoredModel>) -> (r: Result<
    StoredModel,
    RunStoreError,
>)
    ensures
        stored(r) == known_model(model_id@, opt_of(found)),
{
    match found {
        Some(model) => Ok(model),
        None => Err(RunStoreError::UnknownLoggedModel { model_id: model_id.to_owned() }),
    }
}

/// The model that was read. A deleted one is as good as absent, unless it is
/// allowed.
pub open spec fn visible_model(
    model_id: Seq<char>,
    found: Option<StoredModelState>,
    allow_deleted: bool,
) -> Result<StoredModelState, StoreError> {
    match found {
        Some(s) => if !allow_deleted && s.model.lifecycle is Deleted {
            Err(StoreError::UnknownLoggedModel(model_id))
        } else {
            Ok(s)
        },
        None => Err(StoreError::UnknownLoggedModel(model_id)),
    }
}

/// The model that was read.
pub fn get_logged_model(model_id: &str, found: Option<StoredModel>, allow_deleted: bool) -> (r:
    Result<StoredModel, RunStoreError>)
    ensures
        stored(r) == visible_model(model_id@, opt_of(found), allow_deleted),
{
    match found {
        Some(s) => {
            if !allow_deleted && !s.model.is_active() {
                Err(RunStoreError::UnknownLoggedModel { model_id: model_id.to_owned() })
            } else {
                Ok(s)
            }
        },
        None => Err(RunStoreError::UnknownLoggedModel { model_id: model_id.to_owned() }),
    }
}

/// One model comes before another: by the time of its creation, and by its id
/// where these are the same.
pub open spec fn model_before(a: LoggedModelRecord, b: LoggedModelRecord) -> bool {
    a.creation_time_ms < b.creation_time_ms || (a.creation_time_ms == b.creation_time_ms
        && text_before(a.model_id@, b.model_id@))
}

impl Ranked for LoggedModelRecord {
    open spec fn ranks_before(&self, other: &Self) -> bool {
        model_before(*self, *other)
    }

    fn is_before(&self, other: &Self) -> (r: bool) {
        self.creation_time_ms < other.creation_time_ms || (self.creation_time_ms
            == other.creation_time_ms && comes_before(
            self.model_id.as_str(),
            other.model_id.as_str(),
        ))
    }
}

impl Lifecycled for LoggedModelRecord {
    open spec fn active(&self) -> bool {
        self.lifecycle is Active
    }

    fn is_active(&self) -> (r: bool) {
        match self.lifecycle {
            RunLifecycle::Active => true,
            RunLifecycle::Deleted => false,
        }
    }
}

/// The models of an experiment in their order, the deleted ones where they are
/// asked for.
pub fn list_logged_models(records: Vec<LoggedModelRecord>, include_deleted: bool) -> (r: Vec<
    LoggedModelRecord,
>)
    ensures
        r@ == listed(stable_sorted(records@, rank_order::<LoggedModelRecord>()), include_deleted),
{
    list_records(sort_stable(records), include_deleted)
}

/// A model in a new status.
pub open spec fn model_finalized(
    model_id: Seq<char>,
    status: LoggedModelStatus,
    now_ms: i64,
    found: Option<StoredModelState>,
) -> Result<StoredModelState, StoreError> {
    match known_model(model_id, found) {
        Err(e) => Err(e),
        Ok(s) => Ok(
            (StoredModelState {
                model: LoggedModelState { status, last_updated_time_ms: now_ms, ..s.model },
                ..s
            }),
        ),
    }
}

/// A deleted model.
pub open spec fn model_deleted(
    model_id: Seq<char>,
    now_ms: i64,
    found: Option<StoredModelState>,
) -> Result<StoredModelState, StoreError> {
    match known_model(model_id, found) {
        Err(e) => Err(e),
        Ok(s) => Ok(
            (StoredModelState {
                model: LoggedModelState {
                    lifecycle: RunLifecycle::Deleted,
                    last_updated_time_ms: now_ms,
                    ..s.model
                },
                ..s
            }),
        ),
    }
}

/// Sets the status of a model.
pub fn finalize_logged_model(
    model_id: &str,
    status: LoggedModelStatus,
    now_ms: i64,
    found: Option<StoredModel>,
) -> (r: Result<StoredModel, RunStoreError>)
    ensures
        stored(r) == model_finalized(model_id@, status, now_ms, opt_of(found)),
{
    match logged_model_with_counters(model_id, found) {
        Err(e) => Err(e),
        Ok(s) => Ok(
            StoredModel {
                model: LoggedModelRecord { status, last_updated_time_ms: now_ms, ..s.model },
                counters: s.counters,
            },
        ),
    }
}

/// Deletes a model.
pub fn delete_logged_model(model_id: &str, now_ms: i64, found: Option<StoredModel>) -> (r: Result<
    StoredModel,
    RunStoreError,
>)
    ensures
        stored(r) == model_deleted(model_id@, now_ms, opt_of(found)),
{
    match logged_model_with_counters(model_id, found) {
        Err(e) => Err(e),
        Ok(s) => Ok(
            StoredModel {
                model: LoggedModelRecord {
                    lifecycle: RunLifecycle::Deleted,
                    last_updated_time_ms: now_ms,
                    ..s.model
                },
                counters: s.counters,
            },
        ),
    }
}

/// The parameters with more of them, in the order of their keys. Each keeps its
/// first value.
pub open spec fn with_params(
    model_id: Seq<char>,
    params: Map<Seq<char>, Seq<char>>,
    more: Seq<(Seq<char>, Seq<char>)>,
) -> Result<Map<Seq<char>, Seq<char>>, StoreError>
    decreases more.len(),
{
    if more.len() == 0 {
        Ok(params)
    } else {
        match with_params(model_id, params, more.drop_last()) {
            Err(e) => Err(e),
            Ok(m) => {
                let (key, value) = more.last();
                if !m.dom().contains(key) {
                    Ok(m.insert(key, value))
                } else if m[key] == value {
                    Ok(m)
                } else {
                    Err(StoreError::ParamImmutable(key, model_id))
                }
            },
        }
    }
}

proof fn lemma_with_params_error(
    model_id: Seq<char>,
    params: Map<Seq<char>, Seq<char>>,
    more: Seq<(Seq<char>, Seq<char>)>,
    k: int,
)
    requires
        0 <= k <= more.len(),
        with_params(model_id, params, more.take(k)) is Err,
    ensures
        with_params(model_id, params, more) == with_params(model_id, params, more.take(k)),
    decreases more.len() - k,
{
    if k < more.len() {
        assert(more.take(k + 1).drop_last() =~= more.take(k));
        lemma_with_params_error(model_id, params, more, k + 1);
    } else {
        assert(more.take(k) =~= more);
    }
}

/// A model with more parameters.
pub open spec fn model_with_params(
    model_id: Seq<char>,
    more: Seq<(Seq<char>, Seq<char>)>,
    now_ms: i64,
    found: Option<StoredModelState>,
) -> Result<StoredModelState, StoreError> {
    match known_model(model_id, found) {
        Err(e) => Err(e),
        Ok(s) => match with_params(model_id, s.model.params, more) {
            Err(e) => Err(e),
            Ok(m) => Ok(
                (StoredModelState {
                    model: LoggedModelState { params: m, last_updated_time_ms: now_ms, ..s.model },
                    ..s
                }),
            ),
        },
    }
}

/// Adds parameters to a model. All of them are new or the same, or nothing is
/// written.
pub fn log_logged_model_params(
    model_id: &str,
    params: &TextMap<String>,
    now_ms: i64,
    found: Option<StoredModel>,
) -> (r: Result<StoredModel, RunStoreError>)
    ensures
        stored(r) == model_with_params(model_id@, text_pairs(*params), now_ms, opt_of(found)),
{
    let mut s: StoredModel = match logged_model_with_counters(model_id, found) {
        Err(e) => {
            return Err(e);
        },
        Ok(s) => s,
    };
    let ghost given = s@;
    let ghost pairs = text_pairs(*params);
    let n: usize = params.len();
    let mut i: usize = 0;
    assert(pairs.take(0) =~= Seq::empty());
    while i < n
        invariant
            i <= n,
            n == params.keys().len(),
            pairs == text_pairs(*params),
            opt_of(found) == Some(given),
            with_params(model_id@, given.model.params, pairs.take(i as int)) == Ok::<
                Map<Seq<char>, Seq<char>>,
                StoreError,
            >(s@.model.params),
            s@ == (StoredModelState {
                model: LoggedModelState { params: s@.model.params, ..given.model },
                ..given
            }),
        decreases n - i,
    {
        assert(pairs.take(i + 1).drop_last() =~= pairs.take(i as int));
        let key: &String = params.key_at(i);
        let value: &String = params.value_at(i);
        assert(pairs[i as int] == (key@, value@));
        let present: bool = match s.model.params.get(key.as_str()) {
            Some(existing) => {
                if !same_text(existing.as_str(), value.as_str()) {
                    proof {
                        lemma_with_params_error(model_id@, given.model.params, pairs, i + 1);
                    }
                    return Err(
                        RunStoreError::ParamImmutable {
                            key: copied(key),
                            run_id: model_id.to_owned(),
                        },
                    );
                }
                true
            },
            None => false,
        };
        if !present {
            set_text(&mut s.model.params, copied(key), copied(value));
        }
        i += 1;
    }
    assert(pairs.take(i as int) =~= pairs);
    s.model.last_updated_time_ms = now_ms;
    Ok(s)
}

/// The tags with more of them set, in the order of their keys.
pub open spec fn with_tags(
    tags: Map<Seq<char>, Seq<char>>,
    more: Seq<(Seq<char>, Seq<char>)>,
) -> Map<Seq<char>, Seq<char>>
    decreases more.len(),
{
    if more.len() == 0 {
        tags
    } else {
        with_tags(tags, more.drop_last()).insert(more.last().0, more.last().1)
    }
}

/// A model with more tags set.
pub open spec fn model_with_tags(
    model_id: Seq<char>,
    more: Seq<(Seq<char>, Seq<char>)>,
    now_ms: i64,
    found: Option<StoredModelState>,
) -> Result<StoredModelState, StoreError> {
    match known_model(model_id, found) {
        Err(e) => Err(e),
        Ok(s) => Ok(
            (StoredModelState {
                model: LoggedModelState {
                    tags: with_tags(s.model.tags, more),
                    last_updated_time_ms: now_ms,
                    ..s.model
                },
                ..s
            }),
        ),
    }
}

/// A model without a tag that it had.
pub open spec fn model_untagged(
    model_id: Seq<char>,
    key: Seq<char>,
    now_ms: i64,
    found: Option<StoredModelState>,
) -> Result<StoredModelState, StoreError> {
    match known_model(model_id, found) {
        Err(e) => Err(e),
        Ok(s) => if !s.model.tags.dom().contains(key) {
            Err(StoreError::UnknownLoggedModelTag(model_id, key))
        } else {
            Ok(
                (StoredModelState {
                    model: LoggedModelState {
                        tags: s.model.tags.remove(key),
                        last_updated_time_ms: now_ms,
                        ..s.model
                    },
                    ..s
                }),
            )
        },
    }
}

/// Sets tags of a model.
pub fn set_logged_model_tags(
    model_id: &str,
    tags: &TextMap<String>,
    now_ms: i64,
    found: Option<StoredModel>,
) -> (r: Result<StoredModel, RunStoreError>)
    ensures
        stored(r) == model_with_tags(model_id@, text_pairs(*tags), now_ms, opt_of(found)),
{
    let mut s: StoredModel = match logged_model_with_counters(model_id, found) {
        Err(e) => {
            return Err(e);
        },
        Ok(s) => s,
    };
    let ghost given = s@;
    let ghost pairs = text_pairs(*tags);
    let n: usize = tags.len();
    let mut i: usize = 0;
    assert(pairs.take(0) =~= Seq::empty());
    while i < n
        invariant
            i <= n,
            n == tags.keys().len(),
            pairs == text_pairs(*tags),
            s@ == (StoredModelState {
                model: LoggedModelState {
                    tags: with_tags(given.model.tags, pairs.take(i as int)),
                    ..given.model
                },
                ..given
            }),
        decreases n - i,
    {
        assert(pairs.take(i + 1).drop_last() =~= pairs.take(i as int));
        let key: &String = tags.key_at(i);
        let value: &String = tags.value_at(i);
        assert(pairs[i as int] == (key@, value@));
        set_text(&mut s.model.tags, copied(key), copied(value));
        i += 1;
    }
    assert(pairs.take(i as int) =~= pairs);
    s.model.last_updated_time_ms = now_ms;
    Ok(s)
}

/// Removes a tag that a model has.
pub fn delete_logged_model_tag(
    model_id: &str,
    key: &str,
    now_ms: i64,
    found: Option<StoredModel>,
) -> (r: Result<StoredModel, RunStoreError>)
    ensures
        stored(r) == model_untagged(model_id@, key@, now_ms, opt_of(found)),
{
    let mut s: StoredModel = match logged_model_with_counters(model_id, found) {
        Err(e) => {
            return Err(e);
        },
        Ok(s) => s,
    };
    if s.model.tags.get(key).is_none() {
        return Err(
            RunStoreError::UnknownLoggedModelTag {
                model_id: model_id.to_owned(),
                key: key.to_owned(),
            },
        );
    }
    remove_text(&mut s.model.tags, key);
    s.model.last_updated_time_ms = now_ms;
    Ok(s)
}

/// What an append wrote: the model, the id of the sample's own document, and how
/// long the history of the metric is now.
#[derive(Debug)]
pub struct ModelMetricAppend {
    pub stored: StoredModel,
    pub doc_id: String,
    pub history_len: u64,
}

/// Counts a sample of a metric of a model. A deleted model takes none.
pub fn log_model_metric(model_id: &str, key: &str, found: Option<StoredModel>) -> (r: Result<
    ModelMetricAppend,
    RunStoreError,
>)
    requires
        opt_of(found) matches Some(s) ==> count_under(s.counters, counter_name(key@)) < u64::MAX,
    ensures
        match r {
            Ok(a) => {
                let before = opt_of(found)->0;
                let name = counter_name(key@);
                &&& visible_model(model_id@, opt_of(found), false) is Ok
                &&& a.history_len == count_under(before.counters, name) + 1
                &&& a.stored@ == StoredModelState {
                    counters: before.counters.insert(name, a.history_len),
                    ..before
                }
                &&& a.doc_id@ == model_metric_doc(model_id@, key@, a.history_len)
            },
            Err(e) => visible_model(model_id@, opt_of(found), false) == Err::<
                StoredModelState,
                StoreError,
            >(e@),
        },
{
    let mut s: StoredModel = match get_logged_model(model_id, found, false) {
        Err(e) => {
            return Err(e);
        },
        Ok(s) => s,
    };
    let name: String = counter_key(key);
    let next: u64 = match s.counters.get(name.as_str()) {
        Some(n) => *n + 1,
        None => 1,
    };
    let doc_id: String = model_metric_doc_id(model_id, key, next);
    s.counters.insert(name, next);
    Ok(ModelMetricAppend { stored: s, doc_id, history_len: next })
}

/// The samples of a model, deleted or not, in the order in which they were
/// logged.
pub fn model_metric_history<T>(
    model_id: &str,
    found: &Option<StoredModel>,
    docs: Vec<SampleDoc<T>>,
) -> (r: Result<Vec<T>, RunStoreError>)
    ensures
        list_outcome(r) == if *found is None {
            Err(StoreError::UnknownLoggedModel(model_id@))
        } else {
            samples_in_order(docs@, "model metric"@, ""@)
        },
{
    match found {
        None => Err(RunStoreError::UnknownLoggedModel { model_id: model_id.to_owned() }),
        Some(_) => order_samples(docs, "model metric", ""),
    }
}

/// The parameters of a model keep their first values.
pub proof fn law_model_params_are_immutable(
    model_id: Seq<char>,
    params: Map<Seq<char>, Seq<char>>,
    more: Seq<(Seq<char>, Seq<char>)>,
)
    ensures
        match with_params(model_id, params, more) {
            Ok(after) => forall|k: Seq<char>|
                #[trigger] params.dom().contains(k) ==> after.dom().contains(k) && after[k]
                    == params[k],
            Err(_) => true,
        },
    decreases more.len(),
{
    if more.len() > 0 {
        law_model_params_are_immutable(model_id, params, more.drop_last());
    }
}

} // verus!
