//! The federated SQL of requests over several models.

use vstd::prelude::*;
use vstd::string::*;
use crate::query::json::{Json, JsonNumber, member};
use crate::query::literal::escaped;
use crate::query::multimodel::{
    component_sql, component_texts, components_sql, multi_model_sql, query_vector_text,
};
use crate::sql::cypher::with_graph_target;
use crate::text::number::decimal;
use crate::text::search::{find_part, lemma_replaced_absent};
use crate::text::split::joined;

verus! {

/// A request is the components in order, each two joined by ` UNION ALL `: one
/// component is the whole query, a further one is added behind the query of
/// those before it, and so two components `p` and `q` make `p UNION ALL q`.
pub proof fn law_components_are_united(
    one: Json,
    fewer: Json,
    more: Json,
    component: Json,
    sql: Seq<char>,
    query: Seq<char>,
)
    requires
        member(one, "components"@) matches Some(Json::Array(v)) && v@ == seq![component],
        member(fewer, "components"@) matches Some(Json::Array(v)) && v@.len() > 0,
        multi_model_sql(fewer) == Ok::<Option<Seq<char>>, Seq<char>>(Some(query)),
        member(more, "components"@) matches Some(Json::Array(v)) && (
        member(fewer, "components"@) matches Some(Json::Array(w)) && v@ == w@.push(component)
            && component_sql(component, w@.len()) == Ok::<Seq<char>, Seq<char>>(sql)),
    ensures
        component_sql(component, 0) == Ok::<Seq<char>, Seq<char>>(sql) ==> multi_model_sql(one)
            == Ok::<Option<Seq<char>>, Seq<char>>(Some(sql)),
        multi_model_sql(more) == Ok::<Option<Seq<char>>, Seq<char>>(
            Some(query + " UNION ALL "@ + sql),
        ),
{
    let single = seq![component];
    assert(single.drop_last() =~= Seq::<Json>::empty());
    reveal_with_fuel(components_sql, 2);
    assert(Seq::<Seq<char>>::empty().push(sql) =~= seq![sql]);
    let few = member(fewer, "components"@)->0->Array_0@;
    assert(few.push(component).drop_last() =~= few);
    lemma_component_count(few);
    let parts = components_sql(few)->Ok_0;
    assert(parts.push(sql).drop_last() =~= parts);
}

proof fn lemma_component_count(components: Seq<Json>)
    ensures
        components_sql(components) matches Ok(parts) ==> parts.len() == components.len(),
    decreases components.len(),
{
    if components.len() > 0 {
        lemma_component_count(components.drop_last());
    }
}

/// A component that has no query fails the request, and the error is that of the
/// first such component.
pub proof fn law_no_component_is_left_out(request: Json, i: int)
    requires
        member(request, "components"@) matches Some(Json::Array(v)) && 0 <= i < v@.len()
            && component_sql(v@[i], i as nat) is Err && forall|j: int|
            0 <= j < i ==> component_sql(#[trigger] v@[j], j as nat) is Ok,
    ensures
        multi_model_sql(request) == Err::<Option<Seq<char>>, Seq<char>>(
            component_sql(member(request, "components"@)->0->Array_0@[i], i as nat)->Err_0,
        ),
{
    lemma_first_failure(member(request, "components"@)->0->Array_0@, i);
}

proof fn lemma_first_failure(components: Seq<Json>, i: int)
    requires
        0 <= i < components.len(),
        component_sql(components[i], i as nat) is Err,
        forall|j: int| 0 <= j < i ==> component_sql(#[trigger] components[j], j as nat) is Ok,
    ensures
        components_sql(components) == Err::<Seq<Seq<char>>, Seq<char>>(
            component_sql(components[i], i as nat)->Err_0,
        ),
    decreases components.len(),
{
    if i < components.len() - 1 {
        lemma_first_failure(components.drop_last(), i);
    } else {
        lemma_all_have_sql(components.drop_last());
    }
}

proof fn lemma_all_have_sql(components: Seq<Json>)
    requires
        forall|j: int|
            0 <= j < components.len() ==> component_sql(#[trigger] components[j], j as nat) is Ok,
    ensures
        components_sql(components) is Ok,
    decreases components.len(),
{
    if components.len() > 0 {
        assert forall|j: int| 0 <= j < components.drop_last().len() implies component_sql(
            #[trigger] components.drop_last()[j],
            j as nat,
        ) is Ok by {
            assert(components[j] == components.drop_last()[j]);
        }
        lemma_all_have_sql(components.drop_last());
        assert(components.last() == components[components.len() - 1]);
    }
}

/// A request without components has no query.
pub proof fn law_no_components_no_query(request: Json)
    requires
        member(request, "components"@) is None || (
        member(request, "components"@) matches Some(Json::Array(v)) && v@.len() == 0),
    ensures
        multi_model_sql(request) == Ok::<Option<Seq<char>>, Seq<char>>(None),
{
}

proof fn lemma_kinds_differ()
    ensures
        "vector"@ != "document"@,
        "vector"@ != "graph"@,
        "document"@ != "graph"@,
        "vector"@ != "observability"@,
        "document"@ != "observability"@,
        "graph"@ != "observability"@,
        "vector"@ != "log"@,
        "document"@ != "log"@,
        "graph"@ != "log"@,
        "vector"@ != "metric"@,
        "document"@ != "metric"@,
        "graph"@ != "metric"@,
        "observability"@ != "metric"@,
        "log"@ != "metric"@,
{
    reveal_strlit("vector");
    reveal_strlit("document");
    reveal_strlit("graph");
    reveal_strlit("observability");
    reveal_strlit("log");
    reveal_strlit("metric");
    assert("vector"@.len() == 6 && "document"@.len() == 8 && "graph"@.len() == 5
        && "observability"@.len() == 13 && "log"@.len() == 3 && "metric"@.len() == 6);
    assert("vector"@[0] != "metric"@[0]);
}

/// The component's kind is the given one, and its configuration says of a key
/// what is given.
pub open spec fn is_component(component: Json, kind: Seq<char>) -> bool {
    member(component, "component_type"@) matches Some(Json::String(t)) && t@ == kind
}

pub open spec fn configures(component: Json, key: Seq<char>, value: Seq<char>) -> bool {
    member(component, "config"@) matches Some(config) && (
    member(config, key) matches Some(Json::String(t)) && t@ == value)
}

pub open spec fn leaves_out(component: Json, key: Seq<char>) -> bool {
    member(component, "config"@) matches Some(config) ==> member(config, key) is None
}

/// A document component queries its own collection with its own filter, and with
/// one that every document meets where none is given.
pub proof fn law_document_components(
    component: Json,
    index: nat,
    collection: Seq<char>,
    filter: Seq<char>,
)
    requires
        is_component(component, "document"@),
        configures(component, "collection"@, collection),
    ensures
        configures(component, "filter"@, filter) ==> component_sql(component, index) == Ok::<
            Seq<char>,
            Seq<char>,
        >(
            "SELECT * FROM DOCUMENT_QUERY('"@ + escaped(collection) + "', '"@ + escaped(filter)
                + "')"@,
        ),
        leaves_out(component, "filter"@) ==> component_sql(component, index) == Ok::<
            Seq<char>,
            Seq<char>,
        >("SELECT * FROM DOCUMENT_QUERY('"@ + escaped(collection) + "', '1=1')"@),
{
    lemma_kinds_differ();
    reveal_strlit("1=1");
    reveal_strlit("', '1=1')");
    reveal_strlit("', '");
    reveal_strlit("')");
    let plain = "1=1"@;
    assert(find_part(plain, seq!['\''], 0) is None) by {
        reveal_with_fuel(find_part, 4);
        assert(plain.subrange(0, 1)[0] == '1');
        assert(plain.subrange(1, 2)[0] == '=');
        assert(plain.subrange(2, 3)[0] == '1');
    }
    lemma_replaced_absent(plain, seq!['\''], seq!['\'', '\''], 0);
    assert(escaped(plain) =~= plain);
    assert("SELECT * FROM DOCUMENT_QUERY('"@ + escaped(collection) + "', '"@ + plain + "')"@
        =~= "SELECT * FROM DOCUMENT_QUERY('"@ + escaped(collection) + "', '1=1')"@);
}

/// A vector component searches its own collection for its own vector, for as
/// many results as it asks for, and for 10 where it does not say.
pub proof fn law_vector_components(
    component: Json,
    index: nat,
    collection: Seq<char>,
    vector: Seq<char>,
    k: u64,
)
    requires
        is_component(component, "vector"@),
        configures(component, "collection"@, collection),
        query_vector_text(member(component, "config"@), index) == Ok::<Seq<char>, Seq<char>>(
            vector,
        ),
    ensures
        (member(component, "config"@) matches Some(config) && member(
            config,
            "top_k"@,
        ) matches Some(Json::Number(n)) && n.unsigned == Some(k)) ==> component_sql(
            component,
            index,
        ) == Ok::<Seq<char>, Seq<char>>(
            "SELECT * FROM VECTOR_SEARCH('"@ + escaped(collection) + "', '"@ + vector + "', "@
                + decimal(k as nat) + ")"@,
        ),
        leaves_out(component, "top_k"@) ==> component_sql(component, index) == Ok::<
            Seq<char>,
            Seq<char>,
        >(
            "SELECT * FROM VECTOR_SEARCH('"@ + escaped(collection) + "', '"@ + vector + "', "@
                + decimal(10) + ")"@,
        ),
{
    lemma_kinds_differ();
}

/// The query vector is the listed numbers in single precision, between brackets
/// and with commas between them; what is no number is refused.
pub proof fn law_query_vectors_list_their_numbers(
    one: Json,
    fewer: Json,
    more: Json,
    number: JsonNumber,
    text: String,
    vector: Seq<char>,
    index: nat,
)
    requires
        number.narrow == Some(text),
        member(one, "query_vector"@) matches Some(Json::Array(v)) && v@ == seq![
            Json::Number(number),
        ],
        member(fewer, "query_vector"@) matches Some(Json::Array(v)) && v@.len() > 0,
        query_vector_text(Some(fewer), index) == Ok::<Seq<char>, Seq<char>>(vector),
        member(more, "query_vector"@) matches Some(Json::Array(v)) && (
        member(fewer, "query_vector"@) matches Some(Json::Array(w)) && v@ == w@.push(
            Json::Number(number),
        )),
    ensures
        query_vector_text(Some(one), index) == Ok::<Seq<char>, Seq<char>>(
            "["@ + text@ + "]"@,
        ),
        query_vector_text(Some(more), index) == Ok::<Seq<char>, Seq<char>>(
            vector.drop_last() + ","@ + text@ + "]"@,
        ),
{
    let value = Json::Number(number);
    let single = seq![value];
    reveal_strlit("]");
    assert(single.drop_last() =~= Seq::<Json>::empty());
    reveal_with_fuel(component_texts, 2);
    assert(Seq::<Seq<char>>::empty().push(text@) =~= seq![text@]);
    let few = member(fewer, "query_vector"@)->0->Array_0@;
    assert(few.push(value).drop_last() =~= few);
    lemma_number_count(few, index);
    let parts = component_texts(few, index)->Ok_0;
    assert(parts.push(text@).drop_last() =~= parts);
    assert(vector.drop_last() =~= "["@ + joined(parts, ","@));
    assert("["@ + joined(parts.push(text@), ","@) + "]"@ =~= vector.drop_last() + ","@ + text@
        + "]"@);
}

proof fn lemma_number_count(values: Seq<Json>, index: nat)
    ensures
        component_texts(values, index) matches Ok(parts) ==> parts.len() == values.len(),
    decreases values.len(),
{
    if values.len() > 0 {
        lemma_number_count(values.drop_last(), index);
    }
}

/// A log or metric component reads its own namespace, or the one called
/// `default` where it names none: logs for `log` and `observability`, metrics
/// for `metric`.
pub proof fn law_observability_components(
    component: Json,
    index: nat,
    namespace: Seq<char>,
)
    requires
        configures(component, "namespace"@, namespace) || leaves_out(component, "namespace"@)
            && namespace == "default"@,
    ensures
        is_component(component, "log"@) || is_component(component, "observability"@)
            ==> component_sql(component, index) == Ok::<Seq<char>, Seq<char>>(
            "SELECT * FROM LOGS('"@ + escaped(namespace) + "')"@,
        ),
        is_component(component, "metric"@) ==> component_sql(component, index) == Ok::<
            Seq<char>,
            Seq<char>,
        >("SELECT * FROM METRICS('"@ + escaped(namespace) + "')"@),
{
    lemma_kinds_differ();
    reveal_strlit("SELECT * FROM ");
    reveal_strlit("LOGS");
    reveal_strlit("METRICS");
    reveal_strlit("('");
    reveal_strlit("SELECT * FROM LOGS('");
    reveal_strlit("SELECT * FROM METRICS('");
    assert("SELECT * FROM "@ + "LOGS"@ + "('"@ =~= "SELECT * FROM LOGS('"@);
    assert("SELECT * FROM "@ + "METRICS"@ + "('"@ =~= "SELECT * FROM METRICS('"@);
}

/// A graph component runs its own query on its own graph, or on the one called
/// `default`; without a query it lists up to ten nodes.
pub proof fn law_graph_components(
    component: Json,
    index: nat,
    graph: Seq<char>,
    cypher: Seq<char>,
)
    requires
        is_component(component, "graph"@),
        configures(component, "graph"@, graph) || leaves_out(component, "graph"@) && graph
            == "default"@,
        configures(component, "cypher"@, cypher) || leaves_out(component, "cypher"@) && cypher
            == "MATCH (n) RETURN n LIMIT 10"@,
    ensures
        component_sql(component, index) == Ok::<Seq<char>, Seq<char>>(
            "SELECT * FROM GRAPH_QUERY('"@ + escaped(with_graph_target(graph, cypher)) + "')"@,
        ),
{
    lemma_kinds_differ();
}

/// Other kinds of components are refused, and so are components without a
/// collection where one is needed.
pub proof fn law_other_components_are_refused(component: Json, index: nat, kind: Seq<char>)
    requires
        is_component(component, kind),
        kind != "vector"@ && kind != "document"@ && kind != "graph"@ && kind != "observability"@
            && kind != "log"@ && kind != "metric"@ || (kind == "vector"@ || kind == "document"@)
            && leaves_out(component, "collection"@),
    ensures
        component_sql(component, index) is Err,
{
}

} // verus!
