//! Reading records from their documents.

use vstd::prelude::*;
use crate::mlflow::documents::{counters_from_fields, counters_in, field_views};
use crate::mlflow::error::{RunStoreError, around, text_around};
use crate::mlflow::logged::{StoredModel, StoredModelState};
use crate::mlflow::records::{LoggedModelRecord, RunRecord};
use crate::mlflow::states::StoreError;
use crate::mlflow::store::{SampleRead, StoredRun, StoredRunState, list_outcome};
use crate::text::collect::{all_ok, lemma_all_ok_error, lemma_all_ok_step};

verus! {

/// A document that a record is read from.
#[derive(Debug)]
pub struct RecordDoc<T> {
    pub id: String,
    /// What stands in the place of the record's text.
    pub shown: String,
    pub record: SampleRead<T>,
}

/// The record of a document, or why there is none: no text to read it from, or
/// none that is a record.
pub open spec fn record_of<T>(doc: RecordDoc<T>, kind: Seq<char>, missing: Seq<char>) -> Result<
    T,
    StoreError,
> {
    match doc.record {
        SampleRead::Sample(t) => Ok(t),
        SampleRead::Missing => Err(StoreError::Internal(missing)),
        SampleRead::Corrupt => Err(
            StoreError::Internal("corrupt "@ + kind + " doc '"@ + doc.id@ + "'"@),
        ),
    }
}

/// The message for a document without a record's text.
pub open spec fn no_record_text<T>(doc: RecordDoc<T>) -> Seq<char> {
    "tracking document '"@ + doc.id@ + "' has no string payload ("@ + doc.shown@ + ")"@
}

/// The message for a dataset's document without a text.
pub open spec fn no_dataset_text<T>(doc: RecordDoc<T>) -> Seq<char> {
    "dataset doc '"@ + doc.id@ + "' has no payload"@
}

pub open spec fn record_outcome<T>(r: Result<T, RunStoreError>) -> Result<T, StoreError> {
    match r {
        Ok(t) => Ok(t),
        Err(e) => Err(e@),
    }
}

fn read_record<T>(doc: RecordDoc<T>, kind: &str, missing: String) -> (r: Result<T, RunStoreError>)
    ensures
        record_outcome(r) == record_of(doc, kind@, missing@),
{
    match doc.record {
        SampleRead::Sample(t) => Ok(t),
        SampleRead::Missing => Err(RunStoreError::Internal { message: missing }),
        SampleRead::Corrupt => {
            let mut message: String = "corrupt ".to_owned();
            message.append(kind);
            message.append(" doc '");
            message.append(doc.id.as_str());
            message.append("'");
            Err(RunStoreError::Internal { message })
        },
    }
}

fn missing_record<T>(doc: &RecordDoc<T>, dataset: bool) -> (r: String)
    ensures
        r@ == if dataset {
            no_dataset_text(*doc)
        } else {
            no_record_text(*doc)
        },
{
    if dataset {
        text_around("dataset doc '", doc.id.as_str(), "' has no payload")
    } else {
        let mut m: String = text_around(
            "tracking document '",
            doc.id.as_str(),
            "' has no string payload (",
        );
        m.append(doc.shown.as_str());
        m.append(")");
        m
    }
}

/// The records of documents, or the first failure.
pub open spec fn records_of<T>(docs: Seq<RecordDoc<T>>, kind: Seq<char>, dataset: bool) -> Result<
    Seq<T>,
    StoreError,
> {
    all_ok(
        docs.map_values(
            |d: RecordDoc<T>|
                record_of(
                    d,
                    kind,
                    if dataset {
                        no_dataset_text(d)
                    } else {
                        no_record_text(d)
                    },
                ),
        ),
    )
}

fn read_all<T>(docs: Vec<RecordDoc<T>>, kind: &str, dataset: bool) -> (r: Result<
    Vec<T>,
    RunStoreError,
>)
    ensures
        list_outcome(r) == records_of(docs@, kind@, dataset),
{
    let ghost all = docs@;
    let ghost results = all.map_values(
        |d: RecordDoc<T>|
            record_of(
                d,
                kind@,
                if dataset {
                    no_dataset_text(d)
                } else {
                    no_record_text(d)
                },
            ),
    );
    let mut back: Vec<RecordDoc<T>> = Vec::new();
    let mut unread: Vec<RecordDoc<T>> = docs;
    while unread.len() > 0
        invariant
            unread@.len() + back@.len() == all.len(),
            unread@ == all.take(unread@.len() as int),
            forall|j: int| 0 <= j < back@.len() ==> #[trigger] back@[j] == all[all.len() - 1 - j],
        decreases unread@.len(),
    {
        let ghost n = unread@.len();
        if let Some(doc) = unread.pop() {
            assert(doc == all[n - 1]);
            assert(unread@ =~= all.take(n - 1));
            back.push(doc);
        }
    }
    let mut r: Vec<T> = Vec::new();
    assert(results.take(0) =~= Seq::empty());
    while back.len() > 0
        invariant
            r@.len() + back@.len() == all.len(),
            all == docs@,
            results == all.map_values(
                |d: RecordDoc<T>|
                    record_of(
                        d,
                        kind@,
                        if dataset {
                            no_dataset_text(d)
                        } else {
                            no_record_text(d)
                        },
                    ),
            ),
            records_of(all, kind@, dataset) == all_ok(results),
            forall|j: int| 0 <= j < back@.len() ==> #[trigger] back@[j] == all[all.len() - 1 - j],
            all_ok(results.take(r@.len() as int)) == Ok::<Seq<T>, StoreError>(r@),
        decreases back@.len(),
    {
        let ghost k = r@.len() as int;
        if let Some(doc) = back.pop() {
            assert(doc == all[k]);
            proof {
                lemma_all_ok_step(results, k);
            }
            let missing: String = missing_record(&doc, dataset);
            match read_record(doc, kind, missing) {
                Err(e) => {
                    proof {
                        lemma_all_ok_error(results, k + 1);
                    }
                    return Err(e);
                },
                Ok(t) => {
                    r.push(t);
                },
            }
        }
    }
    assert(results.take(r@.len() as int) =~= results);
    Ok(r)
}

/// Reads the records of a kind (`experiment`, `run`, `trace` or
/// `logged-model`) from their documents.
pub fn read_records<T>(docs: Vec<RecordDoc<T>>, kind: &str) -> (r: Result<Vec<T>, RunStoreError>)
    ensures
        list_outcome(r) == records_of(docs@, kind@, false),
{
    read_all(docs, kind, false)
}

/// The datasets that a run has read, in the order of their documents.
pub fn dataset_inputs<T>(run_id: &str, found: &Option<StoredRun>, docs: Vec<RecordDoc<T>>) -> (r:
    Result<Vec<T>, RunStoreError>)
    ensures
        list_outcome(r) == if *found is None {
            Err(StoreError::UnknownRun(run_id@))
        } else {
            records_of(docs@, "dataset"@, true)
        },
{
    match found {
        None => Err(RunStoreError::UnknownRun { run_id: run_id.to_owned() }),
        Some(_) => read_all(docs, "dataset", true),
    }
}

/// The model of an optional stored record.
pub open spec fn opt_stored<T: View>(r: Result<Option<T>, RunStoreError>) -> Result<
    Option<T::V>,
    StoreError,
> {
    match r {
        Ok(Some(t)) => Ok(Some(t@)),
        Ok(None) => Ok(None),
        Err(e) => Err(e@),
    }
}

/// Reads a run from its document, with the counters among its integer fields.
pub fn read_run(
    run_id: &str,
    doc: Option<RecordDoc<RunRecord>>,
    fields: &Vec<(String, i64)>,
) -> (r: Result<Option<StoredRun>, RunStoreError>)
    ensures
        opt_stored(r) == match doc {
            None => Ok(None),
            Some(d) => match record_of(
                d,
                "run"@,
                around("run document '"@, run_id@, "' has no payload"@),
            ) {
                Err(e) => Err(e),
                Ok(run) => Ok(
                    Some(
                        StoredRunState {
                            run: run@,
                            counters: counters_in(field_views(fields@)),
                        },
                    ),
                ),
            },
        },
{
    match doc {
        None => Ok(None),
        Some(d) => {
            let missing: String = text_around("run document '", run_id, "' has no payload");
            match read_record(d, "run", missing) {
                Err(e) => Err(e),
                Ok(run) => Ok(Some(StoredRun { run, counters: counters_from_fields(fields) })),
            }
        },
    }
}

/// Reads a logged model from its document, with the counters among its integer
/// fields.
pub fn read_logged_model(
    model_id: &str,
    doc: Option<RecordDoc<LoggedModelRecord>>,
    fields: &Vec<(String, i64)>,
) -> (r: Result<Option<StoredModel>, RunStoreError>)
    ensures
        opt_stored(r) == match doc {
            None => Ok(None),
            Some(d) => match record_of(
                d,
                "logged-model"@,
                around("logged-model document '"@, model_id@, "' has no payload"@),
            ) {
                Err(e) => Err(e),
                Ok(model) => Ok(
                    Some(
                        StoredModelState {
                            model: model@,
                            counters: counters_in(field_views(fields@)),
                        },
                    ),
                ),
            },
        },
{
    match doc {
        None => Ok(None),
        Some(d) => {
            let missing: String = text_around(
                "logged-model document '",
                model_id,
                "' has no payload",
            );
            match read_record(d, "logged-model", missing) {
                Err(e) => Err(e),
                Ok(model) => Ok(
                    Some(StoredModel { model, counters: counters_from_fields(fields) }),
                ),
            }
        },
    }
}

} // verus!
