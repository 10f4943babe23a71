//! How statements are parsed, and how records are scanned and read.

use vstd::prelude::*;
use vstd::string::*;
use crate::mlflow::error::ErrorModel;
use crate::mlflow::filter::filter_clauses;
use crate::mlflow::index::{FieldModel, dataset_index, experiment_index, text_field};
use crate::mlflow::reading::{RecordDoc, no_dataset_text, no_record_text, record_of, records_of};
use crate::mlflow::registry::{ModelCondition, model_condition, model_conditions};
use crate::mlflow::states::{StoreError, TraceState};
use crate::mlflow::store::SampleRead;
use crate::mlflow::traces::{
    assessed, assessment_index, assessment_of, law_deleted_assessment_is_gone,
    law_upserted_assessment_is_found, unassessed,
};
use crate::records::row::{Record, RecordModel, ScanModel, is_asked_for};
use crate::records::scan::{decides, is_filtered_scan, kept_rows};
use crate::scram::password::is_nonce;
use crate::sql::authority::ast::{EventModel, QueryModel, SetBody};
use crate::sql::authority::channel::has_named_channels;
use crate::sql::authority::collector::{collected_targets, direct_tables, table_count};
use crate::sql::authority::normalize::normalized;
use crate::sql::authority::record::sql_events;
use crate::sql::authority::targets::{PlanModel, parse_plan, sql_catalog_targets};
use crate::sql::authority::tokens::{SqlToken, sql_tokens, within_bounds};
use crate::sql::select::{select_expressions, select_items};
use crate::text::chars::views;
use crate::text::collect::all_ok;
use crate::text::offset::byte_len;

verus! {

/// The tables among the operands of a query are counted, through its set
/// operations.
pub proof fn law_table_operands_are_counted(
    events: Seq<EventModel>,
    query: QueryModel,
    left: SetBody,
    right: SetBody,
    other: EventModel,
)
    ensures
        direct_tables(SetBody::Table) == 1,
        direct_tables(SetBody::Other) == 0,
        direct_tables(SetBody::Operation(Box::new(left), Box::new(right))) == direct_tables(left)
            + direct_tables(right),
        table_count(events.push(EventModel::EnterQuery(query)), events.len() as int + 1)
            == table_count(events, events.len() as int) + direct_tables(query.body),
        !(other is EnterQuery) ==> table_count(events.push(other), events.len() as int + 1)
            == table_count(events, events.len() as int),
        table_count(Seq::empty(), 0) == 0,
{
    lemma_same_count(events, events.push(EventModel::EnterQuery(query)), events.len() as int);
    lemma_same_count(events, events.push(other), events.len() as int);
}

proof fn lemma_same_count(a: Seq<EventModel>, b: Seq<EventModel>, n: int)
    requires
        0 <= n <= a.len() <= b.len(),
        forall|i: int| 0 <= i < n ==> #[trigger] a[i] == b[i],
    ensures
        table_count(a, n) == table_count(b, n),
    decreases n,
{
    if n > 0 {
        assert(a[n - 1] == b[n - 1]);
        lemma_same_count(a, b, n - 1);
    }
}

/// A statement without such tables is taken as it was parsed. Otherwise, and
/// where it was not parsed, it is parsed anew with its tables rewritten, as long
/// as each of them was; and else it is refused.
pub proof fn law_statements_with_tables_are_rewritten(
    sql: Seq<char>,
    tokens: Seq<SqlToken>,
    events: Seq<EventModel>,
    text: Seq<char>,
    n: nat,
)
    ensures
        ({
            let tables = table_count(events, events.len() as int);
            let plan = parse_plan(sql, tokens, Some(events));
            let blind = parse_plan(sql, tokens, None);
            &&& tables == 0 ==> plan is AsParsed
            &&& tables > 0 && normalized(sql, tokens) == Some((text, tables)) ==> plan
                == PlanModel::Reparse(text)
            &&& tables > 0 && normalized(sql, tokens) == Some((text, n)) && n != tables ==> plan
                is Reject
            &&& tables > 0 && normalized(sql, tokens) is None ==> plan is Reject
            &&& normalized(sql, tokens) == Some((text, n)) ==> blind == PlanModel::Reparse(text)
            &&& normalized(sql, tokens) is None ==> blind is Reject
        }),
{
}

/// A statement that is too long, that has no tokens, that is out of bounds, that
/// does not name its channel, or that is refused has no targets; another has
/// those of its walk.
pub proof fn law_refused_statements_have_no_targets(
    sql: Seq<char>,
    tokens: Seq<SqlToken>,
    events: Seq<EventModel>,
)
    ensures
        byte_len(sql) > 1_048_576 ==> sql_catalog_targets(sql).len() == 0,
        sql_tokens(sql) is None ==> sql_catalog_targets(sql).len() == 0,
        sql_tokens(sql) == Some(tokens) && (!within_bounds(tokens) || !has_named_channels(tokens))
            ==> sql_catalog_targets(sql).len() == 0,
        sql_tokens(sql) == Some(tokens) && parse_plan(sql, tokens, sql_events(sql)) is Reject
            ==> sql_catalog_targets(sql).len() == 0,
        byte_len(sql) <= 1_048_576 && sql_tokens(sql) == Some(tokens) && within_bounds(tokens)
            && has_named_channels(tokens) && sql_events(sql) == Some(events) && table_count(
            events,
            events.len() as int,
        ) == 0 ==> sql_catalog_targets(sql) == collected_targets(events),
{
}

/// A rewritten statement has the targets of its own walk.
pub proof fn law_rewritten_statements_have_their_targets(
    sql: Seq<char>,
    tokens: Seq<SqlToken>,
    text: Seq<char>,
    again: Seq<SqlToken>,
    events: Seq<EventModel>,
)
    requires
        byte_len(sql) <= 1_048_576,
        sql_tokens(sql) == Some(tokens) && within_bounds(tokens) && has_named_channels(tokens),
        parse_plan(sql, tokens, sql_events(sql)) == PlanModel::Reparse(text),
    ensures
        sql_tokens(text) == Some(again) && has_named_channels(again) && sql_events(text) == Some(
            events,
        ) ==> sql_catalog_targets(sql) == collected_targets(events),
        sql_tokens(text) == Some(again) && !has_named_channels(again) ==> sql_catalog_targets(
            sql,
        ).len() == 0,
        sql_tokens(text) is None || sql_events(text) is None ==> sql_catalog_targets(sql).len()
            == 0,
{
}

/// A scan with a predicate gives records that were asked for, at most as many as
/// its limit. Without a predicate, and where it gives fewer than its limit, it gives
/// each that was asked for.
pub proof fn law_filtered_records_are_asked_for<F: Fn(&Record) -> bool>(
    r: Seq<RecordModel>,
    list: Seq<Record>,
    options: ScanModel,
    predicate: Option<F>,
    kept: Seq<bool>,
    i: int,
)
    requires
        is_filtered_scan(r, list, options, predicate, kept),
    ensures
        0 <= i < r.len() ==> is_asked_for(options, r[i]) && views(list).contains(r[i]),
        options.limit matches Some(n) ==> r.len() <= n,
        (options.limit is None || r.len() < options.limit->0) && predicate is None && 0 <= i
            < list.len() && is_asked_for(options, list[i]@) ==> r.contains(list[i]@),
{
    assert forall|k: int| 0 <= k < kept.len() && #[trigger] kept[k] implies is_asked_for(
        options,
        views(list)[k],
    ) by {
        assert(decides(options, predicate, list[k], kept[k]));
    }
    lemma_kept(views(list), options, kept, i);
    if (options.limit is None || r.len() < options.limit->0) && predicate is None && 0 <= i
        < list.len() && is_asked_for(options, list[i]@) {
        assert(decides(options, predicate, list[i], kept[i]));
        lemma_kept_stays(views(list), kept, i);
    }
}

proof fn lemma_kept(all: Seq<RecordModel>, options: ScanModel, kept: Seq<bool>, i: int)
    requires
        kept.len() <= all.len(),
        forall|k: int| 0 <= k < kept.len() && #[trigger] kept[k] ==> is_asked_for(options, all[k]),
    ensures
        0 <= i < kept_rows(all, kept).len() ==> is_asked_for(options, kept_rows(all, kept)[i])
            && all.contains(kept_rows(all, kept)[i]),
    decreases kept.len(),
{
    if kept.len() > 0 {
        let n = kept.len() as int;
        let rest = kept.drop_last();
        assert forall|k: int| 0 <= k < rest.len() && #[trigger] rest[k] implies is_asked_for(
            options,
            all[k],
        ) by {
            assert(kept[k]);
        }
        lemma_kept(all, options, rest, i);
        assert(all.contains(all[n - 1]));
        if kept.last() {
            assert(kept[n - 1]);
        }
    }
}

proof fn lemma_kept_stays(all: Seq<RecordModel>, kept: Seq<bool>, i: int)
    requires
        0 <= i < kept.len() <= all.len(),
        kept[i],
    ensures
        kept_rows(all, kept).contains(all[i]),
    decreases kept.len(),
{
    let n = kept.len() as int;
    let before = kept_rows(all, kept.drop_last());
    if i < n - 1 {
        assert(kept.drop_last()[i]);
        lemma_kept_stays(all, kept.drop_last(), i);
        let k = choose|k: int| 0 <= k < before.len() && before[k] == all[i];
        assert(kept_rows(all, kept)[k] == all[i]);
    } else {
        assert(kept_rows(all, kept)[before.len() as int] == all[i]);
    }
}

/// Documents are read in their order, each with its record; where one has none
/// or cannot be read, nothing is read, and the store is at fault.
pub proof fn law_documents_are_read_in_order<T>(
    docs: Seq<RecordDoc<T>>,
    doc: RecordDoc<T>,
    kind: Seq<char>,
    dataset: bool,
    record: T,
)
    ensures
        records_of(Seq::<RecordDoc<T>>::empty(), kind, dataset) == Ok::<Seq<T>, StoreError>(
            Seq::empty(),
        ),
        records_of(docs, kind, dataset) is Ok && doc.record == SampleRead::Sample(record)
            ==> records_of(docs.push(doc), kind, dataset) == Ok::<Seq<T>, StoreError>(
            records_of(docs, kind, dataset)->Ok_0.push(record),
        ),
        records_of(docs, kind, dataset) is Ok && (doc.record is Missing || doc.record is Corrupt)
            ==> (records_of(docs.push(doc), kind, dataset) matches Err(e) && e is Internal),
        records_of(docs, kind, dataset) is Err ==> records_of(docs.push(doc), kind, dataset)
            == records_of(docs, kind, dataset),
{
    let f = |d: RecordDoc<T>|
        record_of(
            d,
            kind,
            if dataset {
                no_dataset_text(d)
            } else {
                no_record_text(d)
            },
        );
    let all = docs.push(doc).map_values(f);
    assert(all.drop_last() =~= docs.map_values(f));
    assert(all.last() == f(doc));
    assert(Seq::<RecordDoc<T>>::empty().map_values(f) =~= Seq::empty());
}

/// What is kept of an experiment beside its record tells its kind, name and
/// stage; of a dataset, its kind and run.
pub proof fn law_index_fields_tell_the_record(
    name: Seq<char>,
    stage: Seq<char>,
    other: Seq<char>,
    run: Seq<char>,
)
    ensures
        experiment_index(name, stage).contains(("kind"@, FieldModel::Text("experiment"@))),
        experiment_index(name, stage).contains(("name"@, FieldModel::Text(name))),
        experiment_index(name, stage).contains(("stage"@, FieldModel::Text(stage))),
        experiment_index(name, stage) == experiment_index(other, stage) ==> name == other,
        dataset_index(run).contains(("kind"@, FieldModel::Text("dataset"@))),
        dataset_index(run).contains(("run_id"@, FieldModel::Text(run))),
{
    let e = experiment_index(name, stage);
    let f = experiment_index(other, stage);
    let d = dataset_index(run);
    assert(e[0] == text_field("kind"@, "experiment"@));
    assert(e[1] == text_field("name"@, name));
    assert(e[2] == text_field("stage"@, stage));
    assert(f[1] == text_field("name"@, other));
    assert(d[0] == text_field("kind"@, "dataset"@));
    assert(d[1] == text_field("run_id"@, run));
}

/// Without a filter a search for models has no condition; with one it has the
/// condition of each clause, in order, and is refused where one is.
pub proof fn law_every_model_clause_is_a_condition(
    filter: Seq<char>,
    clauses: Seq<Seq<char>>,
    i: int,
)
    requires
        filter_clauses(filter) == Ok::<Seq<Seq<char>>, ErrorModel>(clauses),
        0 <= i < clauses.len(),
    ensures
        model_conditions(None) == Ok::<Seq<ModelCondition>, ErrorModel>(Seq::empty()),
        model_conditions(Some(filter)) matches Ok(conditions) ==> conditions.len() == clauses.len()
            && model_condition(clauses[i]) == Ok::<ModelCondition, ErrorModel>(conditions[i]),
        model_condition(clauses[i]) is Err ==> model_conditions(Some(filter)) is Err,
        clauses.len() == 1 && model_condition(clauses[0]) is Ok ==> model_conditions(
            Some(filter),
        ) is Ok,
{
    let all = clauses.map_values(|c: Seq<char>| model_condition(c));
    lemma_all_or_none(all, i);
    assert(all[i] == model_condition(clauses[i]));
    if clauses.len() == 1 {
        reveal_with_fuel(all_ok, 2);
        assert(all.drop_last() =~= Seq::empty());
        assert(all.last() == model_condition(clauses[0]));
    }
}

proof fn lemma_all_or_none<T, E>(s: Seq<Result<T, E>>, i: int)
    requires
        0 <= i < s.len(),
    ensures
        all_ok(s) matches Ok(v) ==> v.len() == s.len() && s[i] == Ok::<T, E>(v[i]),
        s[i] is Err ==> all_ok(s) is Err,
    decreases s.len(),
{
    if i < s.len() - 1 {
        lemma_all_or_none(s.drop_last(), i);
    } else if s.len() > 1 {
        lemma_all_or_none(s.drop_last(), 0);
    } else {
        reveal_with_fuel(all_ok, 2);
    }
}

/// An assessment that is put on a trace is read from it, and one that is removed
/// is unknown; nothing else of the trace changes. An unknown trace stays so.
pub proof fn law_assessments_are_read_back(
    trace_id: Seq<char>,
    a: (Seq<char>, Seq<char>),
    t: TraceState,
    i: int,
)
    ensures
        0 <= i < t.assessments.len() && t.assessments[i].0 == a.0 ==> (assessment_of(
            trace_id,
            a.0,
            Some(t),
        ) matches Ok(found) && found.0 == a.0 && t.assessments.contains(found)),
        assessed(trace_id, a, Some(t)) matches Ok(u) && assessment_of(trace_id, a.0, Some(u))
            == Ok::<(Seq<char>, Seq<char>), StoreError>(a) && u == (TraceState {
            assessments: u.assessments,
            ..t
        }),
        unassessed(trace_id, a.0, Some(t)) matches Ok(u) ==> assessment_of(
            trace_id,
            a.0,
            Some(u),
        ) == Err::<(Seq<char>, Seq<char>), StoreError>(
            StoreError::UnknownAssessment(trace_id, a.0),
        ) && u == (TraceState { assessments: u.assessments, ..t }),
        unassessed(trace_id, a.0, Some(t)) is Ok <==> assessment_of(
            trace_id,
            a.0,
            Some(t),
        ) is Ok,
        assessed(trace_id, a, None) == Err::<TraceState, StoreError>(
            StoreError::UnknownTrace(trace_id),
        ),
        unassessed(trace_id, a.0, None) == Err::<TraceState, StoreError>(
            StoreError::UnknownTrace(trace_id),
        ),
        assessment_of(trace_id, a.0, None) == Err::<(Seq<char>, Seq<char>), StoreError>(
            StoreError::UnknownTrace(trace_id),
        ),
        unassessed(trace_id, a.0, Some(t)) is Err ==> unassessed(trace_id, a.0, Some(t)) == Err::<
            TraceState,
            StoreError,
        >(StoreError::UnknownAssessment(trace_id, a.0)),
{
    if 0 <= i < t.assessments.len() && t.assessments[i].0 == a.0 {
        lemma_assessment_stands(t.assessments, a.0, 0, i);
    }
    law_upserted_assessment_is_found(t.assessments, a);
    law_deleted_assessment_is_gone(t.assessments, a.0);
}

proof fn lemma_assessment_stands(
    s: Seq<(Seq<char>, Seq<char>)>,
    id: Seq<char>,
    k: int,
    i: int,
)
    requires
        0 <= k <= i < s.len(),
        s[i].0 == id,
    ensures
        assessment_index(s, id, k) matches Some(j) && k <= j <= i && s[j].0 == id,
    decreases i - k,
{
    if s[k].0 != id {
        lemma_assessment_stands(s, id, k + 1, i);
    }
}

/// The expressions of a projection are those of its items.
pub proof fn law_expressions_are_those_of_the_items(sql: Seq<char>, i: int)
    requires
        0 <= i < select_items(sql).len(),
    ensures
        select_expressions(sql).len() == select_items(sql).len(),
        select_expressions(sql)[i] == select_items(sql)[i].expression,
{
}

/// A nonce is made of printable characters without a space and a comma.
pub proof fn law_nonces_hold_no_separator(s: Seq<char>, c: char)
    requires
        is_nonce(s),
    ensures
        !s.contains(',') && !s.contains(' ') && !s.contains('\n'),
        '!' <= c <= '~' && c != ',' ==> is_nonce(s.push(c)),
{
    if s.contains(',') || s.contains(' ') || s.contains('\n') {
        let i = choose|i: int|
            0 <= i < s.len() && (s[i] == ',' || s[i] == ' ' || s[i] == '\n');
        assert(s[i] != ',');
    }
    let t = s.push(c);
    if '!' <= c <= '~' && c != ',' {
        assert forall|i: int| 0 <= i < t.len() implies '!' <= #[trigger] t[i] && t[i] <= '~' && t[i]
            != ',' by {
            if i < s.len() {
                assert(t[i] == s[i]);
            }
        }
    }
}

} // verus!
