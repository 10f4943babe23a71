//! What the catalog targets depend on in a syntax tree.

use vstd::prelude::*;
use crate::text::chars::{opt_text, texts, views};

verus! {

/// An identifier, without its quotes.
#[derive(Debug)]
pub struct SqlIdent {
    pub value: String,
    pub quoted: bool,
}

pub struct IdentModel {
    pub value: Seq<char>,
    pub quoted: bool,
}

impl View for SqlIdent {
    type V = IdentModel;

    open spec fn view(&self) -> IdentModel {
        IdentModel { value: self.value@, quoted: self.quoted }
    }
}

/// The parts of a name; `None` for a part that is no identifier.
#[derive(Debug)]
pub struct SqlName {
    pub parts: Vec<Option<SqlIdent>>,
}

impl View for SqlName {
    type V = Seq<Option<IdentModel>>;

    open spec fn view(&self) -> Seq<Option<IdentModel>> {
        Seq::new(
            self.parts@.len(),
            |i: int|
                match self.parts@[i] {
                    Some(ident) => Some(ident@),
                    None => None,
                },
        )
    }
}

/// An argument of a call.
#[derive(Debug)]
pub enum SqlArgument {
    /// A literal, with its text where it is a string.
    Literal(Option<String>),
    Identifier(String),
    Compound(Vec<String>),
    /// Another expression or a wildcard.
    Other,
}

pub enum ArgumentModel {
    Literal(Option<Seq<char>>),
    Identifier(Seq<char>),
    Compound(Seq<Seq<char>>),
    Other,
}

impl View for SqlArgument {
    type V = ArgumentModel;

    open spec fn view(&self) -> ArgumentModel {
        match self {
            SqlArgument::Literal(text) => ArgumentModel::Literal(opt_text(*text)),
            SqlArgument::Identifier(name) => ArgumentModel::Identifier(name@),
            SqlArgument::Compound(parts) => ArgumentModel::Compound(texts(parts@)),
            SqlArgument::Other => ArgumentModel::Other,
        }
    }
}

/// A call of a function with an argument list.
#[derive(Debug)]
pub struct SqlCall {
    pub name: SqlName,
    pub args: Vec<SqlArgument>,
}

pub struct CallModel {
    pub name: Seq<Option<IdentModel>>,
    pub args: Seq<ArgumentModel>,
}

impl View for SqlCall {
    type V = CallModel;

    open spec fn view(&self) -> CallModel {
        CallModel { name: self.name@, args: views(self.args@) }
    }
}

pub open spec fn opt_call(call: Option<SqlCall>) -> Option<CallModel> {
    match call {
        Some(c) => Some(c@),
        None => None,
    }
}

/// A table in a `FROM` clause or a target of a statement.
#[derive(Debug)]
pub enum SqlTable {
    Relation(SqlName),
    Call(SqlCall),
    Other,
}

pub enum TableModel {
    Relation(Seq<Option<IdentModel>>),
    Call(CallModel),
    Other,
}

impl View for SqlTable {
    type V = TableModel;

    open spec fn view(&self) -> TableModel {
        match self {
            SqlTable::Relation(name) => TableModel::Relation(name@),
            SqlTable::Call(call) => TableModel::Call(call@),
            SqlTable::Other => TableModel::Other,
        }
    }
}

/// The targets that a statement names.
#[derive(Debug)]
pub enum SqlStatement {
    InsertInto(SqlName),
    /// A call without an argument list is `None`.
    InsertIntoCall(Option<SqlCall>),
    Update(SqlTable),
    Delete { tables: Vec<SqlName>, from: Vec<SqlTable> },
    Merge(SqlTable),
    Call(Option<SqlCall>),
    Other,
}

pub enum StatementModel {
    InsertInto(Seq<Option<IdentModel>>),
    InsertIntoCall(Option<CallModel>),
    Update(TableModel),
    Delete { tables: Seq<Seq<Option<IdentModel>>>, from: Seq<TableModel> },
    Merge(TableModel),
    Call(Option<CallModel>),
    Other,
}

impl View for SqlStatement {
    type V = StatementModel;

    open spec fn view(&self) -> StatementModel {
        match self {
            SqlStatement::InsertInto(name) => StatementModel::InsertInto(name@),
            SqlStatement::InsertIntoCall(call) => StatementModel::InsertIntoCall(opt_call(*call)),
            SqlStatement::Update(table) => StatementModel::Update(table@),
            SqlStatement::Delete { tables, from } => StatementModel::Delete {
                tables: views(tables@),
                from: views(from@),
            },
            SqlStatement::Merge(table) => StatementModel::Merge(table@),
            SqlStatement::Call(call) => StatementModel::Call(opt_call(*call)),
            SqlStatement::Other => StatementModel::Other,
        }
    }
}

/// The body of a query, as far as set operations and `TABLE` go.
#[derive(Debug)]
pub enum SetBody {
    Table,
    Operation(Box<SetBody>, Box<SetBody>),
    Other,
}

/// A query, on entering it.
#[derive(Debug)]
pub struct SqlQuery {
    pub body: SetBody,
    /// The names of its common table expressions, in order.
    pub ctes: Vec<SqlIdent>,
    pub recursive: bool,
    /// For each of its pipe operators, the call with an argument list that it
    /// is.
    pub calls: Vec<Option<SqlCall>>,
}

pub struct QueryModel {
    pub body: SetBody,
    pub ctes: Seq<IdentModel>,
    pub recursive: bool,
    pub calls: Seq<Option<CallModel>>,
}

impl View for SqlQuery {
    type V = QueryModel;

    open spec fn view(&self) -> QueryModel {
        QueryModel {
            body: self.body,
            ctes: views(self.ctes@),
            recursive: self.recursive,
            calls: Seq::new(self.calls@.len(), |i: int| opt_call(self.calls@[i])),
        }
    }
}

/// A step of a walk through the statements of a text, in document order. Right
/// after a query is entered, its common table expressions are walked.
#[derive(Debug)]
pub enum AstEvent {
    EnterQuery(SqlQuery),
    LeaveQuery,
    Table(SqlTable),
    /// An expression, with the call with an argument list that it is.
    Expression(Option<SqlCall>),
    Statement(SqlStatement),
}

pub enum EventModel {
    EnterQuery(QueryModel),
    LeaveQuery,
    Table(TableModel),
    Expression(Option<CallModel>),
    Statement(StatementModel),
}

impl View for AstEvent {
    type V = EventModel;

    open spec fn view(&self) -> EventModel {
        match self {
            AstEvent::EnterQuery(query) => EventModel::EnterQuery(query@),
            AstEvent::LeaveQuery => EventModel::LeaveQuery,
            AstEvent::Table(table) => EventModel::Table(table@),
            AstEvent::Expression(call) => EventModel::Expression(opt_call(*call)),
            AstEvent::Statement(statement) => EventModel::Statement(statement@),
        }
    }
}

} // verus!
