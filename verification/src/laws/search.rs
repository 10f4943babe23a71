//! What searches find, and in what order.

use vstd::prelude::*;
use vstd::string::*;
use crate::laws::lookup::lemma_no_doubled;
use crate::laws::parts::lemma_last_blank;
use crate::mlflow::conditions::{
    RunCondition, experiment_condition, experiment_field_condition, experiment_meets,
    experiment_tag_condition, metric_condition, param_condition, run_condition, run_conditions,
    run_meets, tag_condition, text_at,
};
use crate::mlflow::double::Double;
use crate::mlflow::error::ErrorModel;
use crate::mlflow::filter::{PartsModel, clause_regex, decoded_name, filter_clauses};
use crate::mlflow::page::page_of;
use crate::mlflow::pattern::{is_like, is_meta, like_pieces, like_regex, regex_captures};
use crate::mlflow::records::{ExperimentRecord, RunRecord};
use crate::mlflow::search::{
    ExperimentsQueryModel, RunsQueryModel, experiment_by_name, experiment_selected,
    experiments_found, experiments_query, law_runs_come_in_order, named_from, newest_first,
    order_clause, run_order, run_selected, runs_found, runs_query,
};
use crate::mlflow::wire::experiment_shown;
use crate::text::ascii::{is_alphanumeric, is_letter, lower_text, upper, upper_text};
use crate::text::collect::all_ok;
use crate::text::number::{decimal, lemma_decimal, lemma_parse_decimal};
use crate::text::order::text_before;
use crate::text::search::{lemma_replaced_absent, starts_with};
use crate::text::trim::lemma_trimmed_part;

verus! {

proof fn lemma_view_types()
    ensures
        "ACTIVE_ONLY"@ != "DELETED_ONLY"@,
        "ACTIVE_ONLY"@ != "ALL"@,
        "DELETED_ONLY"@ != "ALL"@,
{
    reveal_strlit("ACTIVE_ONLY");
    reveal_strlit("DELETED_ONLY");
    reveal_strlit("ALL");
    assert("ACTIVE_ONLY"@.len() == 11 && "DELETED_ONLY"@.len() == 12 && "ALL"@.len() == 3);
}

/// Without a filter a search for experiments finds the active ones, the deleted
/// ones or all, as its view type says; without a view type the active ones.
pub proof fn law_experiment_views_show_their_stage(
    view: Option<Seq<char>>,
    record: ExperimentRecord,
)
    ensures
        view is None || view == Some("ACTIVE_ONLY"@) ==> (experiments_query(
            view,
            None,
        ) matches Ok(q) && (experiment_selected(q, record) <==> record.stage is Active)),
        view == Some("DELETED_ONLY"@) ==> (experiments_query(view, None) matches Ok(q) && (
        experiment_selected(q, record) <==> record.stage is Deleted)),
        view == Some("ALL"@) ==> (experiments_query(view, None) matches Ok(q)
            && experiment_selected(q, record)),
        view is Some && view != Some("ACTIVE_ONLY"@) && view != Some("DELETED_ONLY"@) && view
            != Some("ALL"@) ==> experiments_query(view, None) is Err,
{
    lemma_view_types();
}

/// The same of runs.
pub proof fn law_run_views_show_their_stage(
    view: Option<Seq<char>>,
    experiments: nat,
    record: RunRecord,
)
    requires
        experiments > 0,
    ensures
        view is None || view == Some("ACTIVE_ONLY"@) ==> (runs_query(
            experiments,
            view,
            None,
            Seq::empty(),
        ) matches Ok(q) && (run_selected(q, Seq::empty(), record) <==> record.lifecycle is Active)),
        view == Some("DELETED_ONLY"@) ==> (runs_query(
            experiments,
            view,
            None,
            Seq::empty(),
        ) matches Ok(q) && (run_selected(q, Seq::empty(), record)
            <==> record.lifecycle is Deleted)),
        view == Some("ALL"@) ==> (runs_query(experiments, view, None, Seq::empty()) matches Ok(q)
            && run_selected(q, Seq::empty(), record)),
        view is Some && view != Some("ACTIVE_ONLY"@) && view != Some("DELETED_ONLY"@) && view
            != Some("ALL"@) ==> runs_query(experiments, view, None, Seq::empty()) is Err,
        runs_query(0, view, None, Seq::empty()) is Err,
{
    lemma_view_types();
}

/// What is found is selected, and is shown as it is.
pub proof fn law_found_experiments_are_selected(
    query: ExperimentsQueryModel,
    records: Seq<ExperimentRecord>,
    i: int,
) -> (k: int)
    requires
        0 <= i < experiments_found(query, records).len(),
    ensures
        0 <= k < records.len(),
        experiment_selected(query, records[k]),
        experiments_found(query, records)[i] == experiment_shown(records[k]),
    decreases records.len(),
{
    let earlier = experiments_found(query, records.drop_last());
    if i < earlier.len() {
        law_found_experiments_are_selected(query, records.drop_last(), i)
    } else {
        records.len() - 1
    }
}

/// What is selected is found.
pub proof fn law_selected_experiments_are_found(
    query: ExperimentsQueryModel,
    records: Seq<ExperimentRecord>,
    k: int,
) -> (i: int)
    requires
        0 <= k < records.len(),
        experiment_selected(query, records[k]),
    ensures
        0 <= i < experiments_found(query, records).len(),
        experiments_found(query, records)[i] == experiment_shown(records[k]),
    decreases records.len(),
{
    let earlier = experiments_found(query, records.drop_last());
    if k < records.len() - 1 {
        law_selected_experiments_are_found(query, records.drop_last(), k)
    } else {
        earlier.len() as int
    }
}

/// A selected experiment meets every condition, and one that meets every
/// condition and is in the stage that is shown is selected.
pub proof fn law_every_experiment_condition_counts(
    query: ExperimentsQueryModel,
    record: ExperimentRecord,
    i: int,
)
    requires
        0 <= i < query.conditions.len(),
    ensures
        !experiment_meets(query.conditions[i], record) ==> !experiment_selected(query, record),
{
}

/// The same of runs.
pub proof fn law_every_run_condition_counts(
    query: RunsQueryModel,
    numbers: Seq<Double>,
    record: RunRecord,
    i: int,
)
    requires
        0 <= i < query.conditions.len(),
    ensures
        !run_meets(query.conditions[i], record, numbers[i]) ==> !run_selected(
            query,
            numbers,
            record,
        ),
{
}

proof fn lemma_words_differ()
    ensures
        "="@ != "LIKE"@,
        "active"@ != "deleted"@,
        "name"@ != "attributes.lifecycle_stage"@,
        "attributes.name"@ != "attributes.lifecycle_stage"@,
{
    reveal_strlit("=");
    reveal_strlit("LIKE");
    reveal_strlit("active");
    reveal_strlit("deleted");
    reveal_strlit("name");
    reveal_strlit("attributes.name");
    reveal_strlit("attributes.lifecycle_stage");
    assert("="@.len() == 1 && "LIKE"@.len() == 4 && "active"@.len() == 6 && "deleted"@.len() == 7
        && "name"@.len() == 4 && "attributes.name"@.len() == 15
        && "attributes.lifecycle_stage"@.len() == 26);
}

/// A clause on the name of an experiment selects by the name, one on its
/// lifecycle stage by the stage, and one on a tag by the tag.
pub proof fn law_experiment_clauses_mean_what_they_say(
    key: Seq<char>,
    value: Seq<char>,
    record: ExperimentRecord,
)
    ensures
        lower_text(key) == "name"@ || lower_text(key) == "attributes.name"@ ==> {
            &&& experiment_field_condition(
                PartsModel { key, op: "="@, value },
            ) matches Ok(c) && (experiment_meets(c, record) <==> record.name@ == value)
            &&& experiment_field_condition(
                PartsModel { key, op: "LIKE"@, value },
            ) matches Ok(c) && (experiment_meets(c, record) <==> is_like(record.name@, value))
            &&& experiment_field_condition(PartsModel { key, op: "!="@, value }) is Err
        },
        lower_text(key) == "attributes.lifecycle_stage"@ && lower_text(value) == "active"@ ==> (
        experiment_field_condition(PartsModel { key, op: "="@, value }) matches Ok(c) && (
        experiment_meets(c, record) <==> record.stage is Active)),
        lower_text(key) == "attributes.lifecycle_stage"@ && lower_text(value) == "deleted"@ ==> (
        experiment_field_condition(PartsModel { key, op: "="@, value }) matches Ok(c) && (
        experiment_meets(c, record) <==> record.stage is Deleted)),
        experiment_tag_condition(PartsModel { key, op: "="@, value }) matches Ok(c) && (
        experiment_meets(c, record) <==> text_at(record.tags, key) == Some(value)),
        experiment_tag_condition(PartsModel { key, op: "!="@, value }) is Err,
{
    lemma_words_differ();
    reveal_strlit("!=");
    reveal_strlit("=");
    reveal_strlit("LIKE");
    assert("!="@.len() == 2);
}

/// What a clause begins with decides what it is about: `metrics.`, `params.` and
/// `tags.` are read as such, each with what its regular expression captures, and
/// anything else is refused.
pub proof fn law_clauses_are_about_what_they_name(
    rest: Seq<char>,
    whole: Option<Seq<char>>,
    k: Seq<char>,
    op: Seq<char>,
    v: Seq<char>,
)
    requires
        k.len() > 0 && k[0] != '`' && k[0] != '"',
        !v.contains('\''),
    ensures
        regex_captures(clause_regex(false), rest) == Ok::<
            Option<Seq<Option<Seq<char>>>>,
            Seq<char>,
        >(Some(seq![whole, Some(k), Some(op), Some(v)])) ==> run_condition("metrics."@ + rest)
            == metric_condition(PartsModel { key: k, op: upper_text(op), value: v }),
        regex_captures(clause_regex(true), rest) == Ok::<
            Option<Seq<Option<Seq<char>>>>,
            Seq<char>,
        >(Some(seq![whole, Some(k), Some(op), Some(v)])) ==> {
            &&& run_condition("params."@ + rest) == param_condition(
                PartsModel { key: k, op: upper_text(op), value: v },
            )
            &&& run_condition("tags."@ + rest) == tag_condition(
                PartsModel { key: k, op: upper_text(op), value: v },
            )
            &&& experiment_condition("tags."@ + rest) == experiment_tag_condition(
                PartsModel { key: k, op: upper_text(op), value: v },
            )
        },
        regex_captures(clause_regex(true), rest) == Ok::<
            Option<Seq<Option<Seq<char>>>>,
            Seq<char>,
        >(None) ==> run_condition("params."@ + rest) is Err && run_condition("tags."@ + rest) is Err,
        regex_captures(clause_regex(false), rest) == Ok::<
            Option<Seq<Option<Seq<char>>>>,
            Seq<char>,
        >(None) ==> run_condition("metrics."@ + rest) is Err,
{
    reveal_strlit("metrics.");
    reveal_strlit("params.");
    reveal_strlit("tags.");
    let m = "metrics."@ + rest;
    let p = "params."@ + rest;
    let t = "tags."@ + rest;
    assert(m.subrange(0, 8) =~= "metrics."@);
    assert(p.subrange(0, 7) =~= "params."@);
    assert(t.subrange(0, 5) =~= "tags."@);
    assert(m.skip(8) =~= rest && p.skip(7) =~= rest && t.skip(5) =~= rest);
    lemma_other_beginning(p, "metrics."@);
    lemma_other_beginning(t, "metrics."@);
    lemma_other_beginning(t, "params."@);
    assert(decoded_name(k) == k);
    lemma_no_doubled(v, 0);
    reveal_strlit("''");
    assert("''"@ =~= seq!['\'', '\'']);
    lemma_replaced_absent(v, "''"@, "'"@, 0);
    assert(v.skip(0) =~= v);
}

proof fn lemma_other_beginning(s: Seq<char>, part: Seq<char>)
    requires
        s.len() > 0,
        part.len() > 0,
        s[0] != part[0],
    ensures
        !starts_with(s, part),
{
    if starts_with(s, part) {
        assert(s.subrange(0, part.len() as int)[0] == part[0]);
    }
}

/// What begins with none of the three is refused.
pub proof fn law_other_clauses_are_refused(clause: Seq<char>)
    requires
        !starts_with(clause, "metrics."@),
        !starts_with(clause, "params."@),
        !starts_with(clause, "tags."@),
    ensures
        run_condition(clause) is Err,
{
}

/// Every clause of a filter becomes a condition, in order; one that is refused
/// fails the filter.
pub proof fn law_every_clause_is_a_condition(filter: Seq<char>, i: int)
    ensures
        (filter_clauses(filter) matches Ok(clauses) && run_conditions(filter) matches Ok(conditions)
            && 0 <= i < clauses.len()) ==> {
            &&& run_conditions(filter)->Ok_0.len() == filter_clauses(filter)->Ok_0.len()
            &&& run_condition(filter_clauses(filter)->Ok_0[i]) == Ok::<RunCondition, ErrorModel>(
                run_conditions(filter)->Ok_0[i],
            )
        },
        (filter_clauses(filter) matches Ok(clauses) && 0 <= i < clauses.len() && run_condition(
            clauses[i],
        ) is Err) ==> run_conditions(filter) is Err,
        filter_clauses(filter) is Err ==> run_conditions(filter) is Err,
{
    if let Ok(clauses) = filter_clauses(filter) {
        let results = clauses.map_values(|c: Seq<char>| run_condition(c));
        lemma_all_ok_each(results);
        if 0 <= i < clauses.len() {
            assert(results[i] == run_condition(clauses[i]));
        }
    }
}

pub(crate) proof fn lemma_all_ok_each<T, E>(s: Seq<Result<T, E>>)
    ensures
        all_ok(s) matches Ok(v) ==> v.len() == s.len() && forall|i: int|
            0 <= i < s.len() ==> #[trigger] s[i] == Ok::<T, E>(v[i]),
        all_ok(s) is Ok <==> forall|i: int| 0 <= i < s.len() ==> (#[trigger] s[i]) is Ok,
    decreases s.len(),
{
    if s.len() > 0 {
        let fewer = s.drop_last();
        lemma_all_ok_each(fewer);
        assert(forall|i: int| 0 <= i < fewer.len() ==> fewer[i] == #[trigger] s[i]);
        assert(s.last() == s[s.len() - 1]);
        if all_ok(fewer) is Ok {
            assert forall|i: int| 0 <= i < fewer.len() implies (#[trigger] s[i]) is Ok by {
                assert(fewer[i] is Ok);
            }
        } else {
            let i = choose|i: int| 0 <= i < fewer.len() && !((#[trigger] fewer[i]) is Ok);
            assert(s[i] == fewer[i]);
        }
    }
}

/// The experiment that a name finds has the name, and where one has it, it is
/// found; a blank name is refused.
pub proof fn law_experiments_are_found_by_name(
    records: Seq<ExperimentRecord>,
    name: Seq<char>,
    k: int,
)
    requires
        0 <= k < records.len(),
        records[k].name@ == name,
    ensures
        name.len() > 0 ==> (experiment_by_name(records, name) matches Ok(found) && found.name
            == name),
        experiment_by_name(records, Seq::empty()) is Err,
{
    lemma_named(records, name, 0, k);
}

proof fn lemma_named(records: Seq<ExperimentRecord>, name: Seq<char>, from: int, k: int)
    requires
        0 <= from <= k < records.len(),
        records[k].name@ == name,
    ensures
        named_from(records, name, from) matches Some(r) && r.name@ == name,
    decreases k - from,
{
    if from < k && records[from].name@ != name {
        lemma_named(records, name, from + 1, k);
    }
}

/// A name that no experiment has is not found.
pub proof fn law_unknown_names_are_not_found(records: Seq<ExperimentRecord>, name: Seq<char>)
    requires
        name.len() > 0,
        forall|k: int| 0 <= k < records.len() ==> (#[trigger] records[k]).name@ != name,
    ensures
        experiment_by_name(records, name) matches Err(e) && e.status == 404,
{
    lemma_none_named(records, name, 0);
}

proof fn lemma_none_named(records: Seq<ExperimentRecord>, name: Seq<char>, from: int)
    requires
        0 <= from <= records.len(),
        forall|k: int| 0 <= k < records.len() ==> (#[trigger] records[k]).name@ != name,
    ensures
        named_from(records, name, from) is None,
    decreases records.len() - from,
{
    if from < records.len() {
        assert(records[from].name@ != name);
        lemma_none_named(records, name, from + 1);
    }
}

/// The order of a search: `attributes.start_time` with `ASC` puts the earliest
/// first, with `DESC` the latest, in any case; without a clause the latest come
/// first, the last clause counts, and anything else is refused.
pub proof fn law_order_clauses_mean_what_they_say(
    direction: Seq<char>,
    earlier: Seq<Seq<char>>,
    clause: Seq<char>,
)
    ensures
        newest_first(Seq::empty()) == Ok::<bool, ErrorModel>(true),
        upper_text(direction) == "ASC"@ ==> order_clause("attributes.start_time "@ + direction)
            == Ok::<bool, ErrorModel>(false),
        upper_text(direction) == "DESC"@ ==> order_clause("attributes.start_time "@ + direction)
            == Ok::<bool, ErrorModel>(true),
        newest_first(earlier) is Ok ==> newest_first(earlier.push(clause)) == order_clause(clause),
{
    reveal_strlit("ASC");
    reveal_strlit("DESC");
    reveal_strlit("attributes.start_time ");
    reveal_strlit("attributes.start_time");
    assert(earlier.push(clause).drop_last() =~= earlier);
    let field = "attributes.start_time"@;
    let given = "attributes.start_time "@ + direction;
    assert("attributes.start_time "@ =~= field + seq![' ']);
    assert(upper_text(direction).len() == direction.len());
    if upper_text(direction) == "ASC"@ || upper_text(direction) == "DESC"@ {
        let word = upper_text(direction);
        assert(upper_text(word) =~= word);
        assert forall|j: int| 0 <= j < direction.len() implies is_letter(
            #[trigger] direction[j],
        ) by {
            assert(upper_text(direction)[j] == upper(direction[j]));
        }
        let k = field.len() as int;
        assert(given[0] == 'a');
        assert(given.last() == direction.last());
        assert(is_letter(direction[direction.len() - 1]));
        lemma_trimmed_part(given, 0, given.len() as int);
        assert(given.subrange(0, given.len() as int) =~= given);
        assert(given[k] == ' ');
        assert forall|j: int| k < j < given.len() implies given[j] != ' ' by {
            assert(given[j] == direction[j - k - 1]);
            assert(is_letter(direction[j - k - 1]));
        }
        lemma_last_blank(given, k, given.len() as int);
        assert(given.take(k) =~= field);
        assert(given.skip(k + 1) =~= direction);
        lemma_trimmed_part(field, 0, field.len() as int);
        assert(field.subrange(0, field.len() as int) =~= field);
        assert(is_letter(direction[0]));
        lemma_trimmed_part(direction, 0, direction.len() as int);
        assert(direction.subrange(0, direction.len() as int) =~= direction);
        assert("ASC"@.len() == 3 && "DESC"@.len() == 4);
    }
}

/// Runs come by their start times in the order that was asked for, and by their
/// ids where these are the same.
pub proof fn law_runs_are_ordered_by_start(
    query: RunsQueryModel,
    numbers: Seq<Double>,
    records: Seq<RunRecord>,
    i: int,
    j: int,
)
    requires
        0 <= i < j < runs_found(query, numbers, records).len(),
    ensures
        query.descending ==> runs_found(query, numbers, records)[i].start_time >= runs_found(
            query,
            numbers,
            records,
        )[j].start_time,
        !query.descending ==> runs_found(query, numbers, records)[i].start_time <= runs_found(
            query,
            numbers,
            records,
        )[j].start_time,
        runs_found(query, numbers, records)[i].start_time == runs_found(
            query,
            numbers,
            records,
        )[j].start_time ==> !text_before(
            runs_found(query, numbers, records)[j].run_id,
            runs_found(query, numbers, records)[i].run_id,
        ),
{
    law_runs_come_in_order(query, numbers, records);
    let found = runs_found(query, numbers, records);
    let before = run_order(query.descending);
    assert(!before(found[j], found[i]));
}

/// A page begins where its token says, or at the start; it holds as many results
/// as asked for, or 1000, as long as there are; and it names the next page
/// exactly where more results follow.
pub proof fn law_pages_hold_what_was_asked_for<T>(items: Seq<T>, n: u32, start: nat)
    requires
        n > 0,
        start <= items.len() <= usize::MAX,
    ensures
        page_of(items, Some(n), None) == page_of(items, Some(n), Some(decimal(0))),
        page_of(items, None, None) == page_of(items, Some(1000), None),
        page_of(items, Some(0), None) is Err,
        page_of(items, Some(n), Some(decimal(start))) matches Ok((page, next)) && {
            &&& page.len() == (if items.len() - start < n {
                items.len() - start
            } else {
                n as int
            })
            &&& forall|i: int| 0 <= i < page.len() ==> #[trigger] page[i] == items[start + i]
            &&& next is Some <==> start + n < items.len()
            &&& next matches Some(t) ==> t == decimal((start + n) as nat)
        },
{
    lemma_decimal(0);
    lemma_parse_decimal(0, usize::MAX as nat);
    lemma_decimal(start);
    lemma_parse_decimal(start, usize::MAX as nat);
}

/// A `LIKE` pattern stands for its characters, `%` for any run of them and `_`
/// for any one; it has to match the whole value.
pub proof fn law_like_patterns_are_read(p: Seq<char>, c: char)
    ensures
        like_regex(Seq::empty()) == "(?s)^$"@,
        like_regex(p.push('%')) == like_regex(p).drop_last() + ".*$"@,
        like_regex(p.push('_')) == like_regex(p).drop_last() + ".$"@,
        is_alphanumeric(c) || c == ' ' || c == '/' || c == ':' || c == '@' ==> like_regex(
            p.push(c),
        ) == like_regex(p).drop_last() + seq![c, '$'],
        c == '.' || c == '*' || c == '+' || c == '?' || c == '(' || c == ')' || c == '[' || c == ']'
            || c == '{' || c == '}' || c == '|' || c == '^' || c == '$' || c == '\\' ==> like_regex(
            p.push(c),
        ) == like_regex(p).drop_last() + seq!['\\', c, '$'],
{
    reveal_strlit("(?s)^$");
    reveal_strlit("(?s)^");
    reveal_strlit("$");
    reveal_strlit(".*");
    reveal_strlit(".*$");
    reveal_strlit(".");
    reveal_strlit(".$");
    let head = "(?s)^"@;
    assert(like_regex(Seq::empty()) =~= "(?s)^$"@);
    assert(like_regex(p).drop_last() =~= head + like_pieces(p));
    assert(p.push('%').drop_last() =~= p);
    assert(p.push('_').drop_last() =~= p);
    assert(p.push(c).drop_last() =~= p);
    assert(like_regex(p.push('%')) =~= head + like_pieces(p) + ".*$"@);
    assert(like_regex(p.push('_')) =~= head + like_pieces(p) + ".$"@);
    assert(is_alphanumeric(c) || c == ' ' || c == '/' || c == ':' || c == '@' ==> like_regex(
        p.push(c),
    ) =~= head + like_pieces(p) + seq![c, '$']);
    if c != '%' && c != '_' && is_meta(c) {
        assert(like_regex(p.push(c)) =~= head + like_pieces(p) + seq!['\\', c, '$']);
    }
}

} // verus!
