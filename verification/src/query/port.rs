//! The query port: what is sent to the federated executor for each request.

use std::sync::Arc;
use vstd::prelude::*;
use vstd::string::*;
use crate::query::bind::{bind_federated_sql_parameters, bound_query};
use crate::query::json::{Json, as_unsigned, get_member, get_text, member, text_member};
use crate::query::multimodel::{json_to_multi_model_sql, multi_model_sql};
use crate::query::uql::{UqlStatement, lowered_query, uql_to_federated_sql};
use crate::query::values::{ProximaValue, text_result};
use crate::text::chars::opt_text;
use crate::text::trim::{trim, trimmed};

verus! {

/// The services behind the query port: the executor's adapter, the cache of
/// prepared statements, and the catalog where there is one.
pub struct UnifiedQueryPortImpl<A, C, M> {
    adapter: Arc<A>,
    cache: Arc<C>,
    catalog_manager: Option<Arc<M>>,
}

impl<A, C, M> UnifiedQueryPortImpl<A, C, M> {
    pub closed spec fn adapter(self) -> Arc<A> {
        self.adapter
    }

    pub closed spec fn cache(self) -> Arc<C> {
        self.cache
    }

    pub closed spec fn catalog_manager(self) -> Option<Arc<M>> {
        self.catalog_manager
    }

    /// A port with a default cache and without a catalog.
    pub fn new(adapter: Arc<A>) -> (r: Self) where C: Default
        ensures
            r.adapter() == adapter,
            call_ensures(C::default, (), *r.cache()),
            r.catalog_manager() is None,
    {
        let cache: C = C::default();
        UnifiedQueryPortImpl { adapter, cache: Arc::new(cache), catalog_manager: None }
    }

    /// A port with a cache of its own and without a catalog.
    pub fn with_cache(adapter: Arc<A>, cache: Arc<C>) -> (r: Self)
        ensures
            r.adapter() == adapter,
            r.cache() == cache,
            r.catalog_manager() is None,
    {
        UnifiedQueryPortImpl { adapter, cache, catalog_manager: None }
    }

    /// The port with a catalog, which `EXPLAIN` reads storage authority from.
    pub fn with_catalog_manager(self, catalog_manager: Arc<M>) -> (r: Self)
        ensures
            r.adapter() == self.adapter(),
            r.cache() == self.cache(),
            r.catalog_manager() == Some(catalog_manager),
    {
        UnifiedQueryPortImpl {
            adapter: self.adapter,
            cache: self.cache,
            catalog_manager: Some(catalog_manager),
        }
    }

    /// The executor's adapter.
    pub fn adapter_ref(&self) -> (r: &Arc<A>)
        ensures
            *r == self.adapter(),
    {
        &self.adapter
    }

    /// The cache of prepared statements.
    pub fn cache_ref(&self) -> (r: &Arc<C>)
        ensures
            *r == self.cache(),
    {
        &self.cache
    }

    /// The catalog.
    pub fn catalog_ref(&self) -> (r: Option<&Arc<M>>)
        ensures
            r is Some <==> self.catalog_manager() is Some,
            r is Some ==> self.catalog_manager() == Some(*r->0),
    {
        match &self.catalog_manager {
            Some(catalog) => Some(catalog),
            None => None,
        }
    }
}

/// The first rows, as many as asked for.
pub open spec fn limited<T>(rows: Seq<T>, limit: Option<u32>) -> Seq<T> {
    match limit {
        Some(n) => if n < rows.len() {
            rows.take(n as int)
        } else {
            rows
        },
        None => if u32::MAX < rows.len() {
            rows.take(u32::MAX as int)
        } else {
            rows
        },
    }
}

/// Keeps the first rows, as many as asked for. A result without a limit is
/// still bounded by `u32::MAX` rows.
pub fn limit_rows<T>(rows: Vec<T>, limit: Option<u32>) -> (r: Vec<T>)
    ensures
        r@ == limited(rows@, limit),
{
    let n: u32 = match limit {
        Some(n) => n,
        None => u32::MAX,
    };
    let mut r: Vec<T> = rows;
    if r.len() as u64 > n as u64 {
        r.truncate(n as usize);
    }
    r
}

/// A failed request: the error, and the step that it happened in.
#[derive(Debug)]
pub struct QueryFailure {
    pub context: Option<String>,
    pub message: String,
}

pub struct FailureModel {
    pub context: Option<Seq<char>>,
    pub message: Seq<char>,
}

impl View for QueryFailure {
    type V = FailureModel;

    open spec fn view(&self) -> FailureModel {
        FailureModel { context: opt_text(self.context), message: self.message@ }
    }
}

pub open spec fn failure_result(r: Result<String, QueryFailure>) -> Result<
    Seq<char>,
    FailureModel,
> {
    match r {
        Ok(t) => Ok(t@),
        Err(e) => Err(e@),
    }
}

/// The query holds white space alone.
pub open spec fn is_blank(s: Seq<char>) -> bool {
    trim(s).len() == 0
}

/// A failure without a step.
pub open spec fn plain_failure(message: Seq<char>) -> FailureModel {
    FailureModel { context: None, message }
}

/// The SQL of a federated query.
pub open spec fn federated_sql(query: Seq<char>, parameters: Seq<ProximaValue>) -> Result<
    Seq<char>,
    FailureModel,
> {
    if is_blank(query) {
        Err(plain_failure("query cannot be empty"@))
    } else {
        match bound_query(query, parameters) {
            Ok(sql) => Ok(sql),
            Err(e) => Err(plain_failure(e)),
        }
    }
}

/// The SQL of a unified query: the lowered statement, or, where the text is no
/// unified-query statement, the text with its parameters bound.
pub open spec fn unified_sql(
    query: Seq<char>,
    parsed: Option<UqlStatement>,
    parameters: Seq<ProximaValue>,
    limit: Option<u32>,
) -> Result<Seq<char>, FailureModel> {
    if is_blank(query) {
        Err(plain_failure("query cannot be empty"@))
    } else {
        match lowered_query(parsed, parameters, limit) {
            Err(e) => Err(
                FailureModel {
                    context: Some("UQL lowering failed for query '"@ + query + "'"@),
                    message: e,
                },
            ),
            Ok(Some(sql)) => Ok(sql),
            Ok(None) => federated_sql(query, parameters),
        }
    }
}

/// The SQL of a federated query with its parameters.
pub fn execute_federated_query_sql(query: &str, parameters: &Vec<ProximaValue>) -> (r: Result<
    String,
    QueryFailure,
>)
    ensures
        failure_result(r) == federated_sql(query@, parameters@),
{
    if trimmed(query).unicode_len() == 0 {
        return Err(QueryFailure { context: None, message: "query cannot be empty".to_owned() });
    }
    match bind_federated_sql_parameters(query, parameters) {
        Ok(sql) => Ok(sql),
        Err(e) => Err(QueryFailure { context: None, message: e }),
    }
}

/// The SQL of a unified query, from what the query parser made of it.
pub fn execute_unified_query_sql(
    query: &str,
    parsed: &Option<UqlStatement>,
    parameters: &Vec<ProximaValue>,
    limit: Option<u32>,
) -> (r: Result<String, QueryFailure>)
    ensures
        failure_result(r) == unified_sql(query@, *parsed, parameters@, limit),
{
    if trimmed(query).unicode_len() == 0 {
        return Err(QueryFailure { context: None, message: "query cannot be empty".to_owned() });
    }
    match uql_to_federated_sql(parsed, parameters, limit) {
        Err(e) => {
            let mut context: String = "UQL lowering failed for query '".to_owned();
            context.append(query);
            context.append("'");
            Err(QueryFailure { context: Some(context), message: e })
        },
        Ok(Some(sql)) => Ok(sql),
        Ok(None) => execute_federated_query_sql(query, parameters),
    }
}

/// The SQL of a multi-model request: its components' union, its `query` text,
/// or a constant.
pub open spec fn multi_model_request_sql(request: Json) -> Result<Seq<char>, Seq<char>> {
    match multi_model_sql(request) {
        Err(e) => Err(e),
        Ok(Some(sql)) => Ok(sql),
        Ok(None) => match text_member(Some(request), "query"@) {
            Some(t) => Ok(t),
            None => Ok("SELECT 1"@),
        },
    }
}

/// The SQL of a multi-model request.
pub fn execute_multi_model_query_sql(request: &Json) -> (r: Result<String, String>)
    ensures
        text_result(r) == multi_model_request_sql(*request),
{
    match json_to_multi_model_sql(request) {
        Err(e) => Err(e),
        Ok(Some(sql)) => Ok(sql),
        Ok(None) => match get_text(Some(request), "query") {
            Some(t) => Ok(t.to_owned()),
            None => Ok("SELECT 1".to_owned()),
        },
    }
}

/// The row limit of a distributed request: the low 32 bits of its `limit`.
pub open spec fn distributed_limit(request: Json) -> Option<u32> {
    match member(request, "limit"@) {
        Some(v) => match as_unsigned(v) {
            Some(n) => Some((n as int % 0x1_0000_0000) as u32),
            None => None,
        },
        None => None,
    }
}

/// The query and the row limit of a distributed request.
pub fn distributed_query_request(request: &Json) -> (r: Result<(String, Option<u32>), String>)
    ensures
        match text_member(Some(*request), "query"@) {
            Some(t) => r matches Ok((query, limit)) && query@ == t && limit == distributed_limit(
                *request,
            ),
            None => r matches Err(e) && e@ == "distributed query request must have a 'query' field"@,
        },
{
    let query: &str = match get_text(Some(request), "query") {
        None => {
            return Err("distributed query request must have a 'query' field".to_owned());
        },
        Some(t) => t,
    };
    let limit: Option<u32> = match get_member(Some(request), "limit") {
        Some(Json::Number(number)) => match number.unsigned {
            Some(n) => Some((n % 0x1_0000_0000) as u32),
            None => None,
        },
        _ => None,
    };
    Ok((query.to_owned(), limit))
}

/// Why a prepared statement could not be run.
#[derive(Debug)]
pub enum PreparedStatementError {
    NotFound,
    Expired,
    Other(String),
}

/// The message of a failed prepared statement.
pub open spec fn prepared_failure(error: PreparedStatementError, id: Seq<char>) -> Seq<char> {
    match error {
        PreparedStatementError::NotFound => "prepared statement not found: "@ + id,
        PreparedStatementError::Expired => "prepared statement expired: "@ + id,
        PreparedStatementError::Other(text) => "prepared statement error: "@ + text@,
    }
}

/// The message of a failed prepared statement.
pub fn prepared_statement_message(error: &PreparedStatementError, statement_id: &str) -> (r: String)
    ensures
        r@ == prepared_failure(*error, statement_id@),
{
    match error {
        PreparedStatementError::NotFound => {
            let mut r: String = "prepared statement not found: ".to_owned();
            r.append(statement_id);
            r
        },
        PreparedStatementError::Expired => {
            let mut r: String = "prepared statement expired: ".to_owned();
            r.append(statement_id);
            r
        },
        PreparedStatementError::Other(text) => {
            let mut r: String = "prepared statement error: ".to_owned();
            r.append(text.as_str());
            r
        },
    }
}

} // verus!
