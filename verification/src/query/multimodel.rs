//! Multi-model requests: one federated query over several components.

use vstd::prelude::*;
use vstd::string::*;
use crate::query::json::{
    Json, as_text, as_unsigned, get_member, get_text, member, opt_json, opt_member, text_member,
};
use crate::query::literal::{escape_sql_text, escaped};
use crate::query::uql::opt_text_result;
use crate::query::values::text_result;
use crate::sql::cypher::{inject_graph_target_into_cypher, with_graph_target};
use crate::text::chars::{copied, same_text, texts};
use crate::text::number::{decimal, decimal_text};
use crate::text::split::{join_texts, joined};

verus! {

/// A place in the request: `components[i]` and what follows.
pub open spec fn at_component(index: nat, rest: Seq<char>) -> Seq<char> {
    "components["@ + decimal(index) + "]"@ + rest
}

/// A configured text: absent, or a string, or an error.
pub open spec fn configured_text(
    config: Option<Json>,
    key: Seq<char>,
    index: nat,
) -> Result<Option<Seq<char>>, Seq<char>> {
    match opt_member(config, key) {
        None => Ok(None),
        Some(v) => match as_text(v) {
            Some(t) => Ok(Some(t)),
            None => Err(at_component(index, ".config."@ + key + " must be a string"@)),
        },
    }
}

/// The collection, which has to be given.
pub open spec fn collection_name(config: Option<Json>, index: nat) -> Result<
    Seq<char>,
    Seq<char>,
> {
    match configured_text(config, "collection"@, index) {
        Err(e) => Err(e),
        Ok(None) => Err(at_component(index, ".config.collection is required"@)),
        Ok(Some(t)) => Ok(t),
    }
}

/// A place in the query vector.
pub open spec fn at_value(index: nat, value_index: nat, rest: Seq<char>) -> Seq<char> {
    at_component(index, ".config.query_vector["@ + decimal(value_index) + "]"@ + rest)
}

/// The text of one component of the query vector.
pub open spec fn component_text(value: Json, index: nat, value_index: nat) -> Result<
    Seq<char>,
    Seq<char>,
> {
    match value {
        Json::Number(n) => match n.narrow {
            Some(t) => Ok(t@),
            None => Err(at_value(index, value_index, " must be a finite f32"@)),
        },
        _ => Err(at_value(index, value_index, " must be numeric"@)),
    }
}

/// The texts of the query vector's components, or the error of the first
/// component that is none.
pub open spec fn component_texts(values: Seq<Json>, index: nat) -> Result<
    Seq<Seq<char>>,
    Seq<char>,
>
    decreases values.len(),
{
    if values.len() == 0 {
        Ok(Seq::empty())
    } else {
        match component_texts(values.drop_last(), index) {
            Err(e) => Err(e),
            Ok(earlier) => match component_text(
                values.last(),
                index,
                (values.len() - 1) as nat,
            ) {
                Err(e) => Err(e),
                Ok(t) => Ok(earlier.push(t)),
            },
        }
    }
}

/// The text of the query vector.
pub open spec fn query_vector_text(config: Option<Json>, index: nat) -> Result<
    Seq<char>,
    Seq<char>,
> {
    match opt_member(config, "query_vector"@) {
        None => Err(at_component(index, ".config.query_vector is required"@)),
        Some(Json::Array(values)) => if values@.len() == 0 {
            Err(at_component(index, ".config.query_vector must be non-empty"@))
        } else {
            match component_texts(values@, index) {
                Err(e) => Err(e),
                Ok(parts) => Ok("["@ + joined(parts, ","@) + "]"@),
            }
        },
        Some(_) => Err(at_component(index, ".config.query_vector must be an array"@)),
    }
}

/// The number of results asked for, 10 by default.
pub open spec fn top_k(config: Option<Json>, index: nat) -> Result<nat, Seq<char>> {
    match opt_member(config, "top_k"@) {
        None => Ok(10),
        Some(v) => match as_unsigned(v) {
            Some(n) => Ok(n as nat),
            None => Err(
                at_component(index, ".config.top_k must be a non-negative integer"@),
            ),
        },
    }
}

pub open spec fn vector_sql(config: Option<Json>, index: nat) -> Result<Seq<char>, Seq<char>> {
    match collection_name(config, index) {
        Err(e) => Err(e),
        Ok(collection) => match query_vector_text(config, index) {
            Err(e) => Err(e),
            Ok(vector) => match top_k(config, index) {
                Err(e) => Err(e),
                Ok(k) => Ok(
                    "SELECT * FROM VECTOR_SEARCH('"@ + escaped(collection) + "', '"@ + vector
                        + "', "@ + decimal(k) + ")"@,
                ),
            },
        },
    }
}

pub open spec fn document_sql(config: Option<Json>, index: nat) -> Result<Seq<char>, Seq<char>> {
    match collection_name(config, index) {
        Err(e) => Err(e),
        Ok(collection) => match configured_text(config, "filter"@, index) {
            Err(e) => Err(e),
            Ok(filter) => {
                let filter = match filter {
                    Some(t) => t,
                    None => "1=1"@,
                };
                Ok(
                    "SELECT * FROM DOCUMENT_QUERY('"@ + escaped(collection) + "', '"@ + escaped(
                        filter,
                    ) + "')"@,
                )
            },
        },
    }
}

pub open spec fn graph_sql(config: Option<Json>, index: nat) -> Result<Seq<char>, Seq<char>> {
    let cypher = match text_member(config, "cypher"@) {
        Some(t) => t,
        None => "MATCH (n) RETURN n LIMIT 10"@,
    };
    match configured_text(config, "graph"@, index) {
        Err(e) => Err(e),
        Ok(graph) => {
            let graph = match graph {
                Some(t) => t,
                None => "default"@,
            };
            Ok(
                "SELECT * FROM GRAPH_QUERY('"@ + escaped(with_graph_target(graph, cypher))
                    + "')"@,
            )
        },
    }
}

pub open spec fn observability_sql(config: Option<Json>, table: Seq<char>) -> Seq<char> {
    let namespace = match text_member(config, "namespace"@) {
        Some(t) => t,
        None => "default"@,
    };
    "SELECT * FROM "@ + table + "('"@ + escaped(namespace) + "')"@
}

/// The SQL of one component.
pub open spec fn component_sql(component: Json, index: nat) -> Result<Seq<char>, Seq<char>> {
    let config = member(component, "config"@);
    match text_member(Some(component), "component_type"@) {
        None => Err(at_component(index, ".component_type must be a string"@)),
        Some(kind) => if kind == "vector"@ {
            vector_sql(config, index)
        } else if kind == "document"@ {
            document_sql(config, index)
        } else if kind == "graph"@ {
            graph_sql(config, index)
        } else if kind == "observability"@ || kind == "log"@ {
            Ok(observability_sql(config, "LOGS"@))
        } else if kind == "metric"@ {
            Ok(observability_sql(config, "METRICS"@))
        } else {
            Err(at_component(index, ".component_type '"@ + kind + "' is unsupported"@))
        },
    }
}

/// The SQL of all components, or the error of the first that has none.
pub open spec fn components_sql(components: Seq<Json>) -> Result<Seq<Seq<char>>, Seq<char>>
    decreases components.len(),
{
    if components.len() == 0 {
        Ok(Seq::empty())
    } else {
        match components_sql(components.drop_last()) {
            Err(e) => Err(e),
            Ok(earlier) => match component_sql(
                components.last(),
                (components.len() - 1) as nat,
            ) {
                Err(e) => Err(e),
                Ok(sql) => Ok(earlier.push(sql)),
            },
        }
    }
}

/// The federated SQL of a request: the union of its components. A request
/// without components has none; a malformed component is an error.
pub open spec fn multi_model_sql(request: Json) -> Result<Option<Seq<char>>, Seq<char>> {
    match member(request, "components"@) {
        None => Ok(None),
        Some(Json::Array(components)) => if components@.len() == 0 {
            Ok(None)
        } else {
            match components_sql(components@) {
                Err(e) => Err(e),
                Ok(parts) => Ok(Some(joined(parts, " UNION ALL "@))),
            }
        },
        Some(_) => Err("components must be an array"@),
    }
}

fn at_component_message(index: usize, rest: &str) -> (r: String)
    ensures
        r@ == at_component(index as nat, rest@),
{
    let mut r: String = "components[".to_owned();
    let digits: String = decimal_text(index as u128);
    r.append(digits.as_str());
    r.append("]");
    r.append(rest);
    r
}

fn text_from_config<'a>(config: Option<&'a Json>, key: &str, index: usize) -> (r: Result<
    Option<&'a str>,
    String,
>)
    ensures
        match r {
            Ok(None) => configured_text(opt_json(config), key@, index as nat) == Ok::<
                Option<Seq<char>>,
                Seq<char>,
            >(None),
            Ok(Some(t)) => configured_text(opt_json(config), key@, index as nat) == Ok::<
                Option<Seq<char>>,
                Seq<char>,
            >(Some(t@)),
            Err(e) => configured_text(opt_json(config), key@, index as nat) == Err::<
                Option<Seq<char>>,
                Seq<char>,
            >(e@),
        },
{
    match get_member(config, key) {
        None => Ok(None),
        Some(Json::String(t)) => Ok(Some(t.as_str())),
        Some(_) => {
            let mut rest: String = ".config.".to_owned();
            rest.append(key);
            rest.append(" must be a string");
            Err(at_component_message(index, rest.as_str()))
        },
    }
}

fn collection_from_config<'a>(config: Option<&'a Json>, index: usize) -> (r: Result<
    &'a str,
    String,
>)
    ensures
        match r {
            Ok(t) => collection_name(opt_json(config), index as nat) == Ok::<
                Seq<char>,
                Seq<char>,
            >(t@),
            Err(e) => collection_name(opt_json(config), index as nat) == Err::<
                Seq<char>,
                Seq<char>,
            >(e@),
        },
{
    match text_from_config(config, "collection", index) {
        Err(e) => Err(e),
        Ok(None) => Err(at_component_message(index, ".config.collection is required")),
        Ok(Some(t)) => Ok(t),
    }
}

fn at_value_message(index: usize, value_index: usize, rest: &str) -> (r: String)
    ensures
        r@ == at_value(index as nat, value_index as nat, rest@),
{
    let mut place: String = ".config.query_vector[".to_owned();
    let digits: String = decimal_text(value_index as u128);
    place.append(digits.as_str());
    place.append("]");
    place.append(rest);
    at_component_message(index, place.as_str())
}

proof fn lemma_component_texts_error(values: Seq<Json>, index: nat, k: int)
    requires
        0 <= k <= values.len(),
        component_texts(values.take(k), index) is Err,
    ensures
        component_texts(values, index) == component_texts(values.take(k), index),
    decreases values.len() - k,
{
    if k < values.len() {
        assert(values.take(k + 1).drop_last() =~= values.take(k));
        lemma_component_texts_error(values, index, k + 1);
    } else {
        assert(values.take(k) =~= values);
    }
}

fn query_vector_from_config(config: Option<&Json>, index: usize) -> (r: Result<String, String>)
    ensures
        text_result(r) == query_vector_text(opt_json(config), index as nat),
{
    let values: &Vec<Json> = match get_member(config, "query_vector") {
        None => {
            return Err(at_component_message(index, ".config.query_vector is required"));
        },
        Some(Json::Array(values)) => values,
        Some(_) => {
            return Err(at_component_message(index, ".config.query_vector must be an array"));
        },
    };
    if values.len() == 0 {
        return Err(at_component_message(index, ".config.query_vector must be non-empty"));
    }
    let mut parts: Vec<String> = Vec::new();
    let mut i: usize = 0;
    assert(values@.take(0) =~= Seq::<Json>::empty());
    assert(texts(parts@) =~= Seq::<Seq<char>>::empty());
    while i < values.len()
        invariant
            i <= values@.len(),
            values@.len() > 0,
            opt_member(opt_json(config), "query_vector"@) matches Some(Json::Array(v)) && v
                == *values,
            component_texts(values@.take(i as int), index as nat) == Ok::<
                Seq<Seq<char>>,
                Seq<char>,
            >(texts(parts@)),
        decreases values@.len() - i,
    {
        let ghost seen = values@.take(i + 1);
        assert(seen.drop_last() =~= values@.take(i as int));
        assert(seen.last() == values@[i as int]);
        match &values[i] {
            Json::Number(n) => match &n.narrow {
                Some(t) => {
                    let ghost before = texts(parts@);
                    parts.push(copied(t));
                    assert(texts(parts@) =~= before.push(t@));
                },
                None => {
                    proof {
                        lemma_component_texts_error(values@, index as nat, i + 1);
                    }
                    return Err(at_value_message(index, i, " must be a finite f32"));
                },
            },
            _ => {
                proof {
                    lemma_component_texts_error(values@, index as nat, i + 1);
                }
                return Err(at_value_message(index, i, " must be numeric"));
            },
        }
        i += 1;
    }
    assert(values@.take(values@.len() as int) =~= values@);
    let inner: String = join_texts(parts.as_slice(), ",");
    let mut r: String = "[".to_owned();
    r.append(inner.as_str());
    r.append("]");
    Ok(r)
}

fn top_k_from_config(config: Option<&Json>, index: usize) -> (r: Result<u64, String>)
    ensures
        match r {
            Ok(k) => top_k(opt_json(config), index as nat) == Ok::<nat, Seq<char>>(k as nat),
            Err(e) => top_k(opt_json(config), index as nat) == Err::<nat, Seq<char>>(e@),
        },
{
    match get_member(config, "top_k") {
        None => Ok(10),
        Some(Json::Number(n)) => match n.unsigned {
            Some(k) => Ok(k),
            None => Err(
                at_component_message(index, ".config.top_k must be a non-negative integer"),
            ),
        },
        Some(_) => Err(
            at_component_message(index, ".config.top_k must be a non-negative integer"),
        ),
    }
}

fn vector_component(config: Option<&Json>, index: usize) -> (r: Result<String, String>)
    ensures
        text_result(r) == vector_sql(opt_json(config), index as nat),
{
    let collection: &str = match collection_from_config(config, index) {
        Err(e) => {
            return Err(e);
        },
        Ok(t) => t,
    };
    let vector: String = match query_vector_from_config(config, index) {
        Err(e) => {
            return Err(e);
        },
        Ok(t) => t,
    };
    let k: u64 = match top_k_from_config(config, index) {
        Err(e) => {
            return Err(e);
        },
        Ok(k) => k,
    };
    let collection: String = escape_sql_text(collection);
    let k: String = decimal_text(k as u128);
    let mut r: String = "SELECT * FROM VECTOR_SEARCH('".to_owned();
    r.append(collection.as_str());
    r.append("', '");
    r.append(vector.as_str());
    r.append("', ");
    r.append(k.as_str());
    r.append(")");
    Ok(r)
}

fn document_component(config: Option<&Json>, index: usize) -> (r: Result<String, String>)
    ensures
        text_result(r) == document_sql(opt_json(config), index as nat),
{
    let collection: &str = match collection_from_config(config, index) {
        Err(e) => {
            return Err(e);
        },
        Ok(t) => t,
    };
    let filter: &str = match text_from_config(config, "filter", index) {
        Err(e) => {
            return Err(e);
        },
        Ok(Some(t)) => t,
        Ok(None) => "1=1",
    };
    let collection: String = escape_sql_text(collection);
    let filter: String = escape_sql_text(filter);
    let mut r: String = "SELECT * FROM DOCUMENT_QUERY('".to_owned();
    r.append(collection.as_str());
    r.append("', '");
    r.append(filter.as_str());
    r.append("')");
    Ok(r)
}

fn graph_component(config: Option<&Json>, index: usize) -> (r: Result<String, String>)
    ensures
        text_result(r) == graph_sql(opt_json(config), index as nat),
{
    let cypher: &str = match get_text(config, "cypher") {
        Some(t) => t,
        None => "MATCH (n) RETURN n LIMIT 10",
    };
    let graph: &str = match text_from_config(config, "graph", index) {
        Err(e) => {
            return Err(e);
        },
        Ok(Some(t)) => t,
        Ok(None) => "default",
    };
    let cypher: String = inject_graph_target_into_cypher(graph, cypher);
    let cypher: String = escape_sql_text(cypher.as_str());
    let mut r: String = "SELECT * FROM GRAPH_QUERY('".to_owned();
    r.append(cypher.as_str());
    r.append("')");
    Ok(r)
}

fn observability_component(config: Option<&Json>, table: &str) -> (r: String)
    ensures
        r@ == observability_sql(opt_json(config), table@),
{
    let namespace: &str = match get_text(config, "namespace") {
        Some(t) => t,
        None => "default",
    };
    let namespace: String = escape_sql_text(namespace);
    let mut r: String = "SELECT * FROM ".to_owned();
    r.append(table);
    r.append("('");
    r.append(namespace.as_str());
    r.append("')");
    r
}

fn component_to_sql(component: &Json, index: usize) -> (r: Result<String, String>)
    ensures
        text_result(r) == component_sql(*component, index as nat),
{
    let kind: &str = match get_text(Some(component), "component_type") {
        None => {
            return Err(at_component_message(index, ".component_type must be a string"));
        },
        Some(t) => t,
    };
    let config: Option<&Json> = get_member(Some(component), "config");
    assert(opt_json(config) == member(*component, "config"@));
    if same_text(kind, "vector") {
        vector_component(config, index)
    } else if same_text(kind, "document") {
        document_component(config, index)
    } else if same_text(kind, "graph") {
        graph_component(config, index)
    } else if same_text(kind, "observability") || same_text(kind, "log") {
        Ok(observability_component(config, "LOGS"))
    } else if same_text(kind, "metric") {
        Ok(observability_component(config, "METRICS"))
    } else {
        let mut rest: String = ".component_type '".to_owned();
        rest.append(kind);
        rest.append("' is unsupported");
        Err(at_component_message(index, rest.as_str()))
    }
}

proof fn lemma_components_error(components: Seq<Json>, k: int)
    requires
        0 <= k <= components.len(),
        components_sql(components.take(k)) is Err,
    ensures
        components_sql(components) == components_sql(components.take(k)),
    decreases components.len() - k,
{
    if k < components.len() {
        assert(components.take(k + 1).drop_last() =~= components.take(k));
        lemma_components_error(components, k + 1);
    } else {
        assert(components.take(k) =~= components);
    }
}

/// Converts a multi-model request to federated SQL. `None` where the request
/// has no components; a malformed component fails the whole request.
pub fn json_to_multi_model_sql(request: &Json) -> (r: Result<Option<String>, String>)
    ensures
        opt_text_result(r) == multi_model_sql(*request),
{
    let components: &Vec<Json> = match get_member(Some(request), "components") {
        None => {
            return Ok(None);
        },
        Some(Json::Array(components)) => components,
        Some(_) => {
            return Err("components must be an array".to_owned());
        },
    };
    if components.len() == 0 {
        return Ok(None);
    }
    let mut parts: Vec<String> = Vec::new();
    let mut i: usize = 0;
    assert(components@.take(0) =~= Seq::<Json>::empty());
    assert(texts(parts@) =~= Seq::<Seq<char>>::empty());
    while i < components.len()
        invariant
            i <= components@.len(),
            components@.len() > 0,
            member(*request, "components"@) matches Some(Json::Array(v)) && v == *components,
            components_sql(components@.take(i as int)) == Ok::<Seq<Seq<char>>, Seq<char>>(
                texts(parts@),
            ),
        decreases components@.len() - i,
    {
        let ghost seen = components@.take(i + 1);
        assert(seen.drop_last() =~= components@.take(i as int));
        assert(seen.last() == components@[i as int]);
        match component_to_sql(&components[i], i) {
            Err(e) => {
                proof {
                    lemma_components_error(components@, i + 1);
                }
                return Err(e);
            },
            Ok(sql) => {
                let ghost before = texts(parts@);
                parts.push(sql);
                assert(texts(parts@) =~= before.push(sql@));
            },
        }
        i += 1;
    }
    assert(components@.take(components@.len() as int) =~= components@);
    Ok(Some(join_texts(parts.as_slice(), " UNION ALL ")))
}

} // verus!
