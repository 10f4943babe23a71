//! Parsing SQL text and recording a walk through its syntax tree.

use sqlparser::ast::{
    Delete, Expr, FromTable, Function, FunctionArg, FunctionArgExpr, FunctionArguments, Ident,
    ObjectName, PipeOperator, Query, SetExpr, Statement, TableFactor, TableObject, Visit, Visitor,
};
use sqlparser::dialect::GenericDialect;
use sqlparser::parser::Parser;
use std::ops::ControlFlow;
use vstd::prelude::*;
use crate::sql::authority::ast::{
    AstEvent, EventModel, SetBody, SqlArgument, SqlCall, SqlIdent, SqlName, SqlQuery, SqlStatement,
    SqlTable,
};
use crate::sql::authority::channel::has_named_channels;
use crate::sql::authority::normalize::normalized;
use crate::sql::authority::tokens::{sql_tokens, within_bounds};
use crate::text::chars::views;

verus! {

#[verifier::external_type_specification]
#[verifier::external_body]
pub struct ExIdent(sqlparser::ast::Ident);

#[verifier::external_type_specification]
#[verifier::external_body]
pub struct ExObjectName(sqlparser::ast::ObjectName);

#[verifier::external_type_specification]
#[verifier::external_body]
pub struct ExFunction(sqlparser::ast::Function);

#[verifier::external_type_specification]
#[verifier::external_body]
pub struct ExFunctionArg(sqlparser::ast::FunctionArg);

#[verifier::external_type_specification]
#[verifier::external_body]
pub struct ExTableFactor(sqlparser::ast::TableFactor);

#[verifier::external_type_specification]
#[verifier::external_body]
pub struct ExSetExpr(sqlparser::ast::SetExpr);

#[verifier::external_type_specification]
#[verifier::external_body]
pub struct ExDelete(sqlparser::ast::Delete);

#[verifier::external_type_specification]
#[verifier::external_body]
pub struct ExQuery(sqlparser::ast::Query);

#[verifier::external_type_specification]
#[verifier::external_body]
pub struct ExExpr(sqlparser::ast::Expr);

#[verifier::external_type_specification]
#[verifier::external_body]
pub struct ExStatement(sqlparser::ast::Statement);

/// An identifier of `sqlparser`.
#[verifier::external_body]
fn ident_of(ident: &Ident) -> SqlIdent {
    SqlIdent { value: ident.value.clone(), quoted: ident.quote_style.is_some() }
}

/// A name of `sqlparser`, part by part.
#[verifier::external_body]
fn name_of(name: &ObjectName) -> SqlName {
    SqlName { parts: name.0.iter().map(|part| part.as_ident().map(ident_of)).collect() }
}

/// An argument of `sqlparser`. The text of a string literal is that of
/// `Value::into_string`.
#[verifier::external_body]
fn argument_of(arg: &FunctionArg) -> SqlArgument {
    let arg = match arg {
        FunctionArg::Named { arg, .. } | FunctionArg::ExprNamed { arg, .. } => arg,
        FunctionArg::Unnamed(arg) => arg,
    };
    match arg {
        FunctionArgExpr::Expr(Expr::Value(v)) => SqlArgument::Literal(v.value.clone().into_string()),
        FunctionArgExpr::Expr(Expr::Identifier(i)) => SqlArgument::Identifier(i.value.clone()),
        FunctionArgExpr::Expr(Expr::CompoundIdentifier(parts)) => {
            SqlArgument::Compound(parts.iter().map(|i| i.value.clone()).collect())
        },
        _ => SqlArgument::Other,
    }
}

/// A call of `sqlparser`, from its name and its arguments.
#[verifier::external_body]
fn call_with(name: &ObjectName, args: &[FunctionArg]) -> SqlCall {
    SqlCall { name: name_of(name), args: args.iter().map(argument_of).collect() }
}

/// A function call of `sqlparser`; `None` where it has no argument list.
#[verifier::external_body]
fn call_of(function: &Function) -> Option<SqlCall> {
    match &function.args {
        FunctionArguments::List(list) => Some(call_with(&function.name, &list.args)),
        _ => None,
    }
}

/// A table factor of `sqlparser`.
#[verifier::external_body]
fn table_of(factor: &TableFactor) -> SqlTable {
    match factor {
        TableFactor::Table { name, args: None, .. } => SqlTable::Relation(name_of(name)),
        TableFactor::Table { name, args: Some(args), .. } => {
            SqlTable::Call(call_with(name, &args.args))
        },
        TableFactor::Function { name, args, .. } => SqlTable::Call(call_with(name, args)),
        _ => SqlTable::Other,
    }
}

/// The body of a query of `sqlparser`.
#[verifier::external_body]
fn body_of(body: &SetExpr) -> SetBody {
    match body {
        SetExpr::Table(_) => SetBody::Table,
        SetExpr::SetOperation { left, right, .. } => {
            SetBody::Operation(Box::new(body_of(left)), Box::new(body_of(right)))
        },
        _ => SetBody::Other,
    }
}

/// A query of `sqlparser`.
#[verifier::external_body]
fn query_of(query: &Query) -> SqlQuery {
    let with = query.with.as_ref();
    let calls = query.pipe_operators.iter().map(|operator| match operator {
        PipeOperator::Call { function, .. } => call_of(function),
        _ => None,
    });
    SqlQuery {
        body: body_of(&query.body),
        ctes: with.iter().flat_map(|w| &w.cte_tables).map(|cte| ident_of(&cte.alias.name)).collect(),
        recursive: with.is_some_and(|w| w.recursive),
        calls: calls.collect(),
    }
}

/// A `DELETE` statement of `sqlparser`.
#[verifier::external_body]
fn delete_of(delete: &Delete) -> SqlStatement {
    let from = match &delete.from {
        FromTable::WithFromKeyword(from) => from,
        FromTable::WithoutKeyword(from) => from,
    };
    SqlStatement::Delete {
        tables: delete.tables.iter().map(name_of).collect(),
        from: from.iter().map(|table| table_of(&table.relation)).collect(),
    }
}

/// A statement of `sqlparser`.
#[verifier::external_body]
fn statement_of(statement: &Statement) -> SqlStatement {
    match statement {
        Statement::Insert(insert) => match &insert.table {
            TableObject::TableName(name) => SqlStatement::InsertInto(name_of(name)),
            TableObject::TableFunction(call) => SqlStatement::InsertIntoCall(call_of(call)),
        },
        Statement::Update { table, .. } => SqlStatement::Update(table_of(&table.relation)),
        Statement::Delete(delete) => delete_of(delete),
        Statement::Merge { table, .. } => SqlStatement::Merge(table_of(table)),
        Statement::Call(function) => SqlStatement::Call(call_of(function)),
        _ => SqlStatement::Other,
    }
}

/// The call that an expression of `sqlparser` is; `None` where it is no call
/// with an argument list.
#[verifier::external_body]
fn expression_call_of(expr: &Expr) -> Option<SqlCall> {
    match expr {
        Expr::Function(function) => call_of(function),
        _ => None,
    }
}

/// Records the steps of a walk.
struct Recorder {
    events: Vec<AstEvent>,
}

impl Visitor for Recorder {
    type Break = ();

    fn pre_visit_query(&mut self, query: &Query) -> ControlFlow<()> {
        self.events.push(AstEvent::EnterQuery(query_of(query)));
        ControlFlow::Continue(())
    }

    fn post_visit_query(&mut self, _query: &Query) -> ControlFlow<()> {
        self.events.push(AstEvent::LeaveQuery);
        ControlFlow::Continue(())
    }

    fn pre_visit_table_factor(&mut self, table_factor: &TableFactor) -> ControlFlow<()> {
        self.events.push(AstEvent::Table(table_of(table_factor)));
        ControlFlow::Continue(())
    }

    fn pre_visit_expr(&mut self, expr: &Expr) -> ControlFlow<()> {
        self.events.push(AstEvent::Expression(expression_call_of(expr)));
        ControlFlow::Continue(())
    }

    fn pre_visit_statement(&mut self, statement: &Statement) -> ControlFlow<()> {
        self.events.push(AstEvent::Statement(statement_of(statement)));
        ControlFlow::Continue(())
    }
}

/// The walk through the statements that `sqlparser` parses a text into, in its
/// generic dialect. `None` where it reports an error.
pub uninterp spec fn sql_events(sql: Seq<char>) -> Option<Seq<EventModel>>;

/// The tokens of the text are few and flat enough, or it is the rewritten form
/// of such a text.
pub open spec fn is_bounded(sql: Seq<char>) -> bool {
    exists|text: Seq<char>|
        {
            &&& #[trigger] sql_tokens(text) matches Some(tokens) && within_bounds(tokens)
            &&& sql == text || (normalized(text, sql_tokens(text)->0) matches Some((rewritten, _))
                && sql == rewritten)
        }
}

/// The text is bounded, so that its tree does not grow without limit, and every
/// `FLUSH` in it names its channel in full.
pub open spec fn is_parsable(sql: Seq<char>) -> bool {
    is_bounded(sql) && (sql_tokens(sql) matches Some(tokens) && has_named_channels(tokens))
}

/// `Parser::parse_sql` of `sqlparser` in the generic dialect, and `Visit::visit`
/// over the statements. The walk is a function of the text. The parser panics
/// where the name of a channel is missing, and parsing and walking use the stack
/// as far as the tree is deep.
#[verifier::external_body]
pub(crate) fn parse_events(sql: &str) -> (r: Option<Vec<AstEvent>>)
    requires
        is_parsable(sql@),
    ensures
        r is Some <==> sql_events(sql@) is Some,
        r is Some ==> sql_events(sql@) == Some(views(r->0@)),
{
    let statements: Vec<Statement> = Parser::parse_sql(&GenericDialect {}, sql).ok()?;
    let mut recorder: Recorder = Recorder { events: Vec::new() };
    let _ = statements.visit(&mut recorder);
    Some(recorder.events)
}

} // verus!
