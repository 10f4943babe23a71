//! The catalog objects that a statement names.

use vstd::prelude::*;
use vstd::string::*;
use crate::sql::authority::ast::{
    ArgumentModel, CallModel, EventModel, IdentModel, QueryModel, StatementModel, TableModel,
};
use crate::sql::authority::collector::{
    ScopeModel, call_targets, collected_targets, collector_at, collector_step, declares,
    identifier_key, identifier_keys, is_catalog_function_name, is_cte_reference, last_alias,
    part_values, relation_path, statement_targets, written_names, written_tables,
};
use crate::text::ascii::{eq_ci, is_lower, lower, lower_text, upper, upper_text};
use crate::text::split::joined;

verus! {

/// A character whose capital is a capital letter or no letter has that
/// capital's small form.
proof fn lemma_lower_of_upper(c: char, w: char)
    requires
        upper(c) == w,
    ensures
        lower(c) == lower(w),
{
}

/// What is a word in capitals is the word in any case.
proof fn lemma_eq_ci_of_upper(s: Seq<char>, word: Seq<char>)
    ensures
        upper_text(s) == word ==> eq_ci(s, word),
{
    if upper_text(s) == word {
        assert(s.len() == word.len());
        assert forall|i: int| 0 <= i < word.len() implies lower(s[0 + i]) == lower(
            #[trigger] word[i],
        ) by {
            assert(upper_text(s)[i] == upper(s[i]));
            lemma_lower_of_upper(s[i], word[i]);
        }
    }
}

proof fn lemma_upper_of_lower(c: char, w: char)
    requires
        lower(c) == lower(w),
        !is_lower(w),
    ensures
        upper(c) == w,
{
}

/// What is a word in capitals up to case is the word in capitals.
proof fn lemma_upper_of_eq_ci(s: Seq<char>, word: Seq<char>)
    requires
        forall|i: int| 0 <= i < word.len() ==> !is_lower(#[trigger] word[i]),
    ensures
        eq_ci(s, word) ==> upper_text(s) == word,
{
    if eq_ci(s, word) {
        assert forall|i: int| 0 <= i < word.len() implies upper(s[i]) == word[i] by {
            assert(lower(s[0 + i]) == lower(word[i]));
            lemma_upper_of_lower(s[i], word[i]);
        }
        assert(upper_text(s) =~= word);
    }
}

proof fn lemma_collector_prefix(a: Seq<EventModel>, b: Seq<EventModel>, n: int)
    requires
        0 <= n <= a.len(),
        n <= b.len(),
        forall|i: int| 0 <= i < n ==> a[i] == b[i],
    ensures
        collector_at(a, n) == collector_at(b, n),
    decreases n,
{
    if n > 0 {
        lemma_collector_prefix(a, b, n - 1);
    }
}

/// One more step adds its targets behind those already found.
proof fn lemma_one_more(events: Seq<EventModel>, event: EventModel)
    ensures
        collector_at(events.push(event), (events.len() + 1) as int) == collector_step(
            collector_at(events, events.len() as int),
            event,
        ),
{
    lemma_collector_prefix(events.push(event), events, events.len() as int);
}

proof fn lemma_catalog_function(name: Seq<char>)
    ensures
        is_catalog_function_name(name) <==> (upper_text(name) == "VECTOR_SEARCH"@ || upper_text(
            name,
        ) == "DOCUMENT_QUERY"@ || upper_text(name) == "LOGS"@ || upper_text(name) == "METRICS"@
            || upper_text(name) == "TRACES"@ || upper_text(name) == "RERANK"@),
{
    reveal_strlit("VECTOR_SEARCH");
    reveal_strlit("DOCUMENT_QUERY");
    reveal_strlit("LOGS");
    reveal_strlit("METRICS");
    reveal_strlit("TRACES");
    reveal_strlit("RERANK");
    lemma_eq_ci_of_upper(name, "VECTOR_SEARCH"@);
    lemma_eq_ci_of_upper(name, "DOCUMENT_QUERY"@);
    lemma_eq_ci_of_upper(name, "LOGS"@);
    lemma_eq_ci_of_upper(name, "METRICS"@);
    lemma_eq_ci_of_upper(name, "TRACES"@);
    lemma_eq_ci_of_upper(name, "RERANK"@);
    lemma_upper_of_eq_ci(name, "VECTOR_SEARCH"@);
    lemma_upper_of_eq_ci(name, "DOCUMENT_QUERY"@);
    lemma_upper_of_eq_ci(name, "LOGS"@);
    lemma_upper_of_eq_ci(name, "METRICS"@);
    lemma_upper_of_eq_ci(name, "TRACES"@);
    lemma_upper_of_eq_ci(name, "RERANK"@);
}

/// Wherever a call of `VECTOR_SEARCH`, `DOCUMENT_QUERY`, `LOGS`, `METRICS`,
/// `TRACES` or `RERANK` stands, in any case and without quotes, the text or the
/// identifier that is its first argument becomes a target, unless it is empty or
/// a placeholder.
pub proof fn law_catalog_calls_name_their_target(
    events: Seq<EventModel>,
    call: CallModel,
    ident: IdentModel,
    x: Seq<char>,
)
    requires
        call.name.len() > 0,
        call.name.last() == Some(ident),
        !ident.quoted,
        upper_text(ident.value) == "VECTOR_SEARCH"@ || upper_text(ident.value)
            == "DOCUMENT_QUERY"@ || upper_text(ident.value) == "LOGS"@ || upper_text(ident.value)
            == "METRICS"@ || upper_text(ident.value) == "TRACES"@ || upper_text(ident.value)
            == "RERANK"@,
        call.args.len() > 0,
        call.args[0] == ArgumentModel::Literal(Some(x)) || call.args[0]
            == ArgumentModel::Identifier(x),
        x.len() > 0,
        x[0] != '$',
        x != "?"@,
    ensures
        collected_targets(seq![EventModel::Table(TableModel::Call(call))]) == seq![x],
        collected_targets(events.push(EventModel::Table(TableModel::Call(call))))
            == collected_targets(events).push(x),
        collected_targets(events.push(EventModel::Expression(Some(call)))) == collected_targets(
            events,
        ).push(x),
        collected_targets(events.push(EventModel::Statement(StatementModel::Call(Some(call)))))
            == collected_targets(events).push(x),
        collected_targets(
            events.push(EventModel::Statement(StatementModel::InsertIntoCall(Some(call)))),
        ) == collected_targets(events).push(x),
{
    lemma_catalog_function(ident.value);
    let before = collected_targets(events);
    let none = Seq::<EventModel>::empty();
    let table = EventModel::Table(TableModel::Call(call));
    assert(call_targets(call) =~= seq![x]);
    lemma_one_more(none, table);
    assert(none.push(table) =~= seq![table]);
    assert(collected_targets(none) =~= Seq::<Seq<char>>::empty());
    assert(collected_targets(seq![table]) =~= seq![x]);
    lemma_one_more(events, table);
    lemma_one_more(events, EventModel::Expression(Some(call)));
    lemma_one_more(events, EventModel::Statement(StatementModel::Call(Some(call))));
    lemma_one_more(events, EventModel::Statement(StatementModel::InsertIntoCall(Some(call))));
    assert(before + seq![x] =~= before.push(x));
}

/// A dotted first argument of such a call becomes the target under its dotted
/// name.
pub proof fn law_dotted_arguments_name_a_target(
    events: Seq<EventModel>,
    call: CallModel,
    ident: IdentModel,
    schema: Seq<char>,
    table: Seq<char>,
)
    requires
        call.name.len() > 0,
        call.name.last() == Some(ident),
        !ident.quoted,
        upper_text(ident.value) == "VECTOR_SEARCH"@ || upper_text(ident.value)
            == "DOCUMENT_QUERY"@ || upper_text(ident.value) == "LOGS"@ || upper_text(ident.value)
            == "METRICS"@ || upper_text(ident.value) == "TRACES"@ || upper_text(ident.value)
            == "RERANK"@,
        call.args.len() > 0,
        call.args[0] == ArgumentModel::Compound(seq![schema, table]),
        schema.len() > 0,
        schema[0] != '$',
    ensures
        collected_targets(events.push(EventModel::Expression(Some(call)))) == collected_targets(
            events,
        ).push(schema + seq!['.'] + table),
{
    reveal_strlit(".");
    reveal_strlit("?");
    lemma_catalog_function(ident.value);
    let parts = seq![schema, table];
    let path = schema + seq!['.'] + table;
    assert(parts.drop_last() =~= seq![schema]);
    assert("."@ =~= seq!['.']);
    reveal_with_fuel(joined, 2);
    assert(joined(parts, "."@) =~= path);
    assert(path[0] == schema[0]);
    assert(path.len() >= 2);
    lemma_one_more(events, EventModel::Expression(Some(call)));
    assert(call_targets(call) =~= seq![path]);
    assert(collected_targets(events) + seq![path] =~= collected_targets(events).push(path));
}

/// Calls of other functions, of a quoted name, without arguments, or with a
/// first argument that is empty, a placeholder or another expression name no
/// target.
pub proof fn law_other_calls_name_nothing(events: Seq<EventModel>, call: CallModel)
    requires
        ({
            ||| call.name.len() == 0
            ||| call.name.last() is None
            ||| call.name.last()->0.quoted
            ||| ({
                let name = upper_text(call.name.last()->0.value);
                &&& name != "VECTOR_SEARCH"@
                &&& name != "DOCUMENT_QUERY"@
                &&& name != "LOGS"@
                &&& name != "METRICS"@
                &&& name != "TRACES"@
                &&& name != "RERANK"@
            })
            ||| call.args.len() == 0
            ||| call.args[0] is Other
            ||| call.args[0] == ArgumentModel::Literal(None)
            ||| call.args[0] == ArgumentModel::Literal(Some(Seq::empty()))
            ||| call.args[0] == ArgumentModel::Literal(Some("?"@))
            ||| (call.args[0] matches ArgumentModel::Literal(Some(x)) && x.len() > 0 && x[0] == '$')
        }),
    ensures
        collected_targets(events.push(EventModel::Table(TableModel::Call(call))))
            == collected_targets(events),
        collected_targets(events.push(EventModel::Expression(Some(call)))) == collected_targets(
            events,
        ),
        collected_targets(events.push(EventModel::Statement(StatementModel::Call(Some(call)))))
            == collected_targets(events),
        collected_targets(events.push(EventModel::Expression(None))) == collected_targets(events),
{
    if call.name.len() > 0 && call.name.last() is Some {
        lemma_catalog_function(call.name.last()->0.value);
    }
    assert(call_targets(call) =~= Seq::<Seq<char>>::empty());
    lemma_one_more(events, EventModel::Table(TableModel::Call(call)));
    lemma_one_more(events, EventModel::Expression(Some(call)));
    lemma_one_more(events, EventModel::Expression(None));
    lemma_one_more(events, EventModel::Statement(StatementModel::Call(Some(call))));
    assert(collected_targets(events) + Seq::<Seq<char>>::empty() =~= collected_targets(events));
}

/// The dotted path of a name that consists of identifiers.
pub open spec fn is_path(name: Seq<Option<IdentModel>>, path: Seq<char>) -> bool {
    ||| name.len() == 1 && (name[0] matches Some(a) && path == a.value)
    ||| name.len() == 2 && (name[0] matches Some(a) && name[1] matches Some(b) && path == a.value
        + seq!['.'] + b.value)
    ||| name.len() == 3 && (name[0] matches Some(a) && name[1] matches Some(b)
        && name[2] matches Some(c) && path == a.value + seq!['.'] + b.value + seq!['.'] + c.value)
}

proof fn lemma_path(name: Seq<Option<IdentModel>>, path: Seq<char>)
    requires
        is_path(name, path),
    ensures
        relation_path(name) == seq![path],
{
    reveal_strlit(".");
    assert("."@ =~= seq!['.']);
    let values = part_values(name);
    assert(joined(values, "."@) == path) by {
        reveal_with_fuel(joined, 3);
        if name.len() == 2 {
            assert(values.drop_last() =~= seq![values[0]]);
        } else if name.len() == 3 {
            assert(values.drop_last().drop_last() =~= seq![values[0]]);
            assert(values.drop_last().last() == values[1]);
        }
        assert(joined(values, "."@) =~= path);
    }
}

/// A table that is inserted into, updated, merged into or deleted from is a
/// target under its dotted name, whatever the common table expressions are
/// called; a `DELETE` that lists tables deletes from these and not from its
/// `FROM` tables.
pub proof fn law_written_tables_are_targets(
    events: Seq<EventModel>,
    name: Seq<Option<IdentModel>>,
    path: Seq<char>,
    from: Seq<TableModel>,
)
    requires
        is_path(name, path),
    ensures
        collected_targets(events.push(EventModel::Statement(StatementModel::InsertInto(name))))
            == collected_targets(events).push(path),
        collected_targets(
            events.push(
                EventModel::Statement(StatementModel::Update(TableModel::Relation(name))),
            ),
        ) == collected_targets(events).push(path),
        collected_targets(
            events.push(EventModel::Statement(StatementModel::Merge(TableModel::Relation(name)))),
        ) == collected_targets(events).push(path),
        collected_targets(
            events.push(
                EventModel::Statement(
                    StatementModel::Delete {
                        tables: Seq::empty(),
                        from: seq![TableModel::Relation(name)],
                    },
                ),
            ),
        ) == collected_targets(events).push(path),
        collected_targets(
            events.push(
                EventModel::Statement(StatementModel::Delete { tables: seq![name], from }),
            ),
        ) == collected_targets(events).push(path),
        collected_targets(events.push(EventModel::Statement(StatementModel::Other)))
            == collected_targets(events),
{
    lemma_path(name, path);
    let before = collected_targets(events);
    assert(before + seq![path] =~= before.push(path));
    assert(before + Seq::<Seq<char>>::empty() =~= before);
    lemma_one_more(events, EventModel::Statement(StatementModel::InsertInto(name)));
    lemma_one_more(
        events,
        EventModel::Statement(StatementModel::Update(TableModel::Relation(name))),
    );
    lemma_one_more(
        events,
        EventModel::Statement(StatementModel::Merge(TableModel::Relation(name))),
    );
    lemma_one_more(events, EventModel::Statement(StatementModel::Other));
    let by_from = StatementModel::Delete {
        tables: Seq::empty(),
        from: seq![TableModel::Relation(name)],
    };
    let by_list = StatementModel::Delete { tables: seq![name], from };
    lemma_one_more(events, EventModel::Statement(by_from));
    lemma_one_more(events, EventModel::Statement(by_list));
    reveal_with_fuel(written_tables, 2);
    reveal_with_fuel(written_names, 2);
    assert(statement_targets(by_from) =~= seq![path]);
    assert(statement_targets(by_list) =~= seq![path]);
}

/// A `DELETE` from several tables has each of them as a target, in order.
pub proof fn law_every_deleted_table_is_a_target(
    events: Seq<EventModel>,
    tables: Seq<Seq<Option<IdentModel>>>,
    name: Seq<Option<IdentModel>>,
    path: Seq<char>,
)
    requires
        tables.len() > 0,
        name.len() == 1 && (name[0] matches Some(a) && path == a.value),
    ensures
        collected_targets(
            events.push(
                EventModel::Statement(
                    StatementModel::Delete { tables: tables.push(name), from: Seq::empty() },
                ),
            ),
        ) == collected_targets(
            events.push(
                EventModel::Statement(StatementModel::Delete { tables, from: Seq::empty() }),
            ),
        ).push(path),
{
    lemma_path(name, path);
    let more = tables.push(name);
    lemma_written_names_prefix(more, tables, tables.len() as int);
    let before = collected_targets(events);
    let old_targets = written_names(tables, tables.len() as int);
    assert(written_names(more, more.len() as int) == old_targets + seq![path]);
    lemma_one_more(
        events,
        EventModel::Statement(StatementModel::Delete { tables: more, from: Seq::empty() }),
    );
    lemma_one_more(
        events,
        EventModel::Statement(StatementModel::Delete { tables, from: Seq::empty() }),
    );
    assert(before + (old_targets + seq![path]) =~= (before + old_targets).push(path));
}

proof fn lemma_written_names_prefix(
    a: Seq<Seq<Option<IdentModel>>>,
    b: Seq<Seq<Option<IdentModel>>>,
    n: int,
)
    requires
        0 <= n <= a.len(),
        n <= b.len(),
        forall|i: int| 0 <= i < n ==> a[i] == b[i],
    ensures
        written_names(a, n) == written_names(b, n),
    decreases n,
{
    if n > 0 {
        lemma_written_names_prefix(a, b, n - 1);
    }
}

/// A table that is read is a target under its dotted name. A dotted name never
/// stands for a common table expression, and neither does any name outside every
/// query with such expressions.
pub proof fn law_read_tables_are_targets(
    events: Seq<EventModel>,
    name: Seq<Option<IdentModel>>,
    path: Seq<char>,
)
    requires
        is_path(name, path),
        name.len() > 1 || forall|i: int|
            0 <= i < events.len() ==> ((#[trigger] events[i]) matches EventModel::EnterQuery(q)
                ==> q.ctes.len() == 0),
    ensures
        collected_targets(events.push(EventModel::Table(TableModel::Relation(name))))
            == collected_targets(events).push(path),
{
    lemma_path(name, path);
    let before = collected_targets(events);
    assert(before + seq![path] =~= before.push(path));
    lemma_one_more(events, EventModel::Table(TableModel::Relation(name)));
    if name.len() == 1 {
        lemma_no_names(events, events.len() as int);
    }
}

proof fn lemma_no_names(events: Seq<EventModel>, n: int)
    requires
        0 <= n <= events.len(),
        forall|i: int|
            0 <= i < n ==> ((#[trigger] events[i]) matches EventModel::EnterQuery(q)
                ==> q.ctes.len() == 0),
    ensures
        forall|i: int|
            0 <= i < collector_at(events, n).scopes.len() ==> (#[trigger] collector_at(
                events,
                n,
            ).scopes[i]).aliases.len() == 0,
    decreases n,
{
    if n > 0 {
        lemma_no_names(events, n - 1);
        let before = collector_at(events, n - 1).scopes;
        let now = collector_at(events, n).scopes;
        assert forall|i: int| 0 <= i < now.len() implies (#[trigger] now[i]).aliases.len() == 0 by {
            if i < before.len() {
                assert(before[i].aliases.len() == 0);
            }
            if let EventModel::EnterQuery(q) = events[n - 1] {
                assert(identifier_keys(q.ctes).len() == 0);
            }
        }
    }
}

/// In the body of a query, a name is no target where the query declares it:
/// without quotes case does not count, and in quotes it does. Behind the query
/// the name is an ordinary one again.
pub proof fn law_declared_names_are_no_targets(
    query: QueryModel,
    k: int,
    ident: IdentModel,
)
    requires
        0 <= k < query.ctes.len(),
        query.calls.len() == 0,
        !ident.quoted && !query.ctes[k].quoted && upper_text(ident.value) == upper_text(
            query.ctes[k].value,
        ) || ident.quoted && query.ctes[k].quoted && ident.value == query.ctes[k].value,
    ensures
        collected_targets(
            seq![
                EventModel::EnterQuery(query),
                EventModel::Table(TableModel::Relation(seq![Some(ident)])),
            ],
        ).len() == 0,
        collected_targets(
            seq![
                EventModel::EnterQuery(query),
                EventModel::LeaveQuery,
                EventModel::Table(TableModel::Relation(seq![Some(ident)])),
            ],
        ) == seq![ident.value],
{
    let name = seq![Some(ident)];
    let read = EventModel::Table(TableModel::Relation(name));
    let enter = EventModel::EnterQuery(query);
    let body = seq![enter, read];
    reveal_with_fuel(collector_at, 4);
    lemma_path(name, ident.value);
    let key = identifier_key(ident);
    let scopes = collector_at(body, 1).scopes;
    assert(identifier_keys(query.ctes)[k] =~= key) by {
        if !ident.quoted {
            assert(upper_text(ident.value).len() == ident.value.len());
            assert(upper_text(query.ctes[k].value).len() == query.ctes[k].value.len());
            assert forall|i: int| 0 <= i < ident.value.len() implies lower(ident.value[i])
                == lower(query.ctes[k].value[i]) by {
                assert(upper_text(ident.value)[i] == upper(ident.value[i]));
                assert(upper_text(query.ctes[k].value)[i] == upper(query.ctes[k].value[i]));
            }
        }
    }
    lemma_last_alias(scopes[0].aliases, key, scopes[0].aliases.len() as int, k);
    assert(scopes.len() == 1 && declares(scopes[0], key));
    assert(is_cte_reference(scopes, name));
    let behind = seq![enter, EventModel::LeaveQuery, read];
    assert(collector_at(behind, 2).scopes =~= Seq::<ScopeModel>::empty());
    assert(collected_targets(behind) =~= seq![ident.value]);
}

proof fn lemma_last_alias(aliases: Seq<Seq<char>>, key: Seq<char>, n: int, k: int)
    requires
        0 <= k < n <= aliases.len(),
        aliases[k] == key,
    ensures
        last_alias(aliases, key, n) matches Some(i) && k <= i < n,
    decreases n,
{
    if aliases[n - 1] != key {
        lemma_last_alias(aliases, key, n - 1, k);
    }
}

/// In the body of a query, a name that the query does not declare is a target.
pub proof fn law_undeclared_names_are_targets(query: QueryModel, ident: IdentModel)
    requires
        query.calls.len() == 0,
        forall|k: int|
            0 <= k < query.ctes.len() ==> upper_text((#[trigger] query.ctes[k]).value)
                != upper_text(ident.value),
    ensures
        collected_targets(
            seq![
                EventModel::EnterQuery(query),
                EventModel::Table(TableModel::Relation(seq![Some(ident)])),
            ],
        ) == seq![ident.value],
{
    let name = seq![Some(ident)];
    let read = EventModel::Table(TableModel::Relation(name));
    let enter = EventModel::EnterQuery(query);
    let body = seq![enter, read];
    reveal_with_fuel(collector_at, 3);
    lemma_path(name, ident.value);
    let key = identifier_key(ident);
    let scopes = collector_at(body, 1).scopes;
    assert forall|k: int| 0 <= k < query.ctes.len() implies identifier_keys(query.ctes)[k]
        != key by {
        let other = query.ctes[k];
        if identifier_key(other) == key {
            assert(other.value.len() == ident.value.len()) by {
                assert(lower_text(other.value).len() == other.value.len());
                assert(lower_text(ident.value).len() == ident.value.len());
            }
            assert forall|i: int| 0 <= i < ident.value.len() implies upper(ident.value[i])
                == upper(other.value[i]) by {
                assert(identifier_key(other)[i] == key[i]);
            }
            assert(upper_text(other.value) =~= upper_text(ident.value));
        }
    }
    lemma_no_alias(scopes[0].aliases, key, scopes[0].aliases.len() as int);
    assert(!is_cte_reference(scopes, name));
    assert(collected_targets(body) =~= seq![ident.value]);
}

proof fn lemma_no_alias(aliases: Seq<Seq<char>>, key: Seq<char>, n: int)
    requires
        0 <= n <= aliases.len(),
        forall|i: int| 0 <= i < n ==> aliases[i] != key,
    ensures
        last_alias(aliases, key, n) is None,
    decreases n,
{
    if n > 0 {
        lemma_no_alias(aliases, key, n - 1);
    }
}

/// A name is declared from the place of its definition on: the names before the
/// visible end are, those from it on are not, and no others are.
pub proof fn law_names_are_declared_in_order(scope: ScopeModel, i: int, other: Seq<char>)
    requires
        0 <= i < scope.aliases.len(),
        forall|j: int| 0 <= j < scope.aliases.len() && j != i ==> #[trigger] scope.aliases[j]
            != scope.aliases[i],
        forall|j: int| 0 <= j < scope.aliases.len() ==> #[trigger] scope.aliases[j] != other,
    ensures
        i < scope.visible ==> declares(scope, scope.aliases[i]),
        i >= scope.visible ==> !declares(scope, scope.aliases[i]),
        !declares(scope, other),
{
    lemma_only_alias(scope.aliases, i, scope.aliases.len() as int);
    lemma_no_alias(scope.aliases, other, scope.aliases.len() as int);
}

proof fn lemma_only_alias(aliases: Seq<Seq<char>>, i: int, n: int)
    requires
        0 <= i < n <= aliases.len(),
        forall|j: int| 0 <= j < aliases.len() && j != i ==> #[trigger] aliases[j] != aliases[i],
    ensures
        last_alias(aliases, aliases[i], n) == Some(i),
    decreases n,
{
    if n - 1 > i {
        assert(aliases[n - 1] != aliases[i]);
        lemma_only_alias(aliases, i, n - 1);
    }
}

} // verus!
