//! The catalog targets of SQL text.

use vstd::prelude::*;
use crate::sql::authority::ast::{AstEvent, EventModel};
use crate::sql::authority::channel::{channels_named, has_named_channels};
use crate::sql::authority::collector::{
    collect_targets, collected_targets, count_tables, table_count,
};
use crate::sql::authority::normalize::{lemma_body_count, normalize_table_query_bodies, normalized};
use crate::sql::authority::record::{parse_events, sql_events};
use crate::sql::authority::tokens::{
    MAX_SQL_AUTHORITY_BYTES, SqlToken, sql_tokens, tokenize, tokens_within_bounds, within_bounds,
};
use crate::text::chars::{texts, views};
use crate::text::offset::{byte_count, byte_len};

verus! {

/// How to go on from what the parser made of a text.
#[derive(Debug)]
pub enum ParsePlan {
    /// The statements are taken as they are.
    AsParsed,
    /// The rewritten text is parsed instead.
    Reparse(String),
    /// There are no targets.
    Reject,
}

pub enum PlanModel {
    AsParsed,
    Reparse(Seq<char>),
    Reject,
}

impl View for ParsePlan {
    type V = PlanModel;

    open spec fn view(&self) -> PlanModel {
        match self {
            ParsePlan::AsParsed => PlanModel::AsParsed,
            ParsePlan::Reparse(text) => PlanModel::Reparse(text@),
            ParsePlan::Reject => PlanModel::Reject,
        }
    }
}

/// A text without `TABLE` operands is taken as parsed. Else its `TABLE` query
/// bodies are rewritten, and all operands have to be such bodies. A text that
/// does not parse gets a second chance where it has `TABLE` query bodies.
pub open spec fn parse_plan(
    sql: Seq<char>,
    tokens: Seq<SqlToken>,
    parsed: Option<Seq<EventModel>>,
) -> PlanModel {
    match parsed {
        Some(events) => {
            let tables = table_count(events, events.len() as int);
            if tables == 0 {
                PlanModel::AsParsed
            } else {
                match normalized(sql, tokens) {
                    Some((rewritten, count)) => if count == tables {
                        PlanModel::Reparse(rewritten)
                    } else {
                        PlanModel::Reject
                    },
                    None => PlanModel::Reject,
                }
            }
        },
        None => match normalized(sql, tokens) {
            Some((rewritten, _)) => PlanModel::Reparse(rewritten),
            None => PlanModel::Reject,
        },
    }
}

/// The walk through the statements of a text, or of its rewritten form. A
/// rewritten text in which a `FLUSH` does not name its channel has none.
pub open spec fn authority_events(sql: Seq<char>, tokens: Seq<SqlToken>) -> Option<
    Seq<EventModel>,
> {
    match parse_plan(sql, tokens, sql_events(sql)) {
        PlanModel::AsParsed => sql_events(sql),
        PlanModel::Reparse(rewritten) => match sql_tokens(rewritten) {
            Some(again) => if has_named_channels(again) {
                sql_events(rewritten)
            } else {
                None
            },
            None => None,
        },
        PlanModel::Reject => None,
    }
}

/// The catalog targets of a text: the relations it reads that are no common
/// table expressions, those it writes, and the targets of catalog functions.
/// A text that is too large, too deep or not SQL has none; nor has one in which
/// a `FLUSH` does not name its channel.
pub open spec fn sql_catalog_targets(sql: Seq<char>) -> Seq<Seq<char>> {
    if byte_len(sql) > MAX_SQL_AUTHORITY_BYTES {
        Seq::empty()
    } else {
        match sql_tokens(sql) {
            None => Seq::empty(),
            Some(tokens) => if !within_bounds(tokens) || !has_named_channels(tokens) {
                Seq::empty()
            } else {
                match authority_events(sql, tokens) {
                    Some(events) => collected_targets(events),
                    None => Seq::empty(),
                }
            },
        }
    }
}

/// The model of an optional walk.
pub open spec fn opt_events(events: Option<Vec<AstEvent>>) -> Option<Seq<EventModel>> {
    match events {
        Some(v) => Some(views(v@)),
        None => None,
    }
}

/// Decides how to go on from what the parser made of a text.
pub fn plan_parse(sql: &str, tokens: &Vec<SqlToken>, parsed: &Option<Vec<AstEvent>>) -> (r:
    ParsePlan)
    requires
        within_bounds(tokens@),
    ensures
        r@ == parse_plan(sql@, tokens@, opt_events(*parsed)),
{
    proof {
        lemma_body_count(sql@, tokens@);
    }
    match parsed {
        Some(events) => {
            let tables: usize = count_tables(events);
            if tables == 0 {
                return ParsePlan::AsParsed;
            }
            match normalize_table_query_bodies(sql, tokens) {
                Some((rewritten, count)) => if count == tables {
                    ParsePlan::Reparse(rewritten)
                } else {
                    ParsePlan::Reject
                },
                None => ParsePlan::Reject,
            }
        },
        None => match normalize_table_query_bodies(sql, tokens) {
            Some((rewritten, _)) => ParsePlan::Reparse(rewritten),
            None => ParsePlan::Reject,
        },
    }
}

fn parse_rewritten(sql: &str, tokens: &Vec<SqlToken>, rewritten: &str) -> (r: Option<Vec<AstEvent>>)
    requires
        sql_tokens(sql@) == Some(tokens@),
        within_bounds(tokens@),
        normalized(sql@, tokens@) matches Some((text, _)) && text == rewritten@,
    ensures
        opt_events(r) == (match sql_tokens(rewritten@) {
            Some(again) => if has_named_channels(again) {
                sql_events(rewritten@)
            } else {
                None
            },
            None => None,
        }),
{
    match tokenize(rewritten) {
        Some(again) => if channels_named(&again) {
            parse_events(rewritten)
        } else {
            None
        },
        None => None,
    }
}

/// Appends the catalog targets of a text. `EXPLAIN` reports the storage
/// authority of these.
pub fn collect_sql_catalog_targets(sql: &str, targets: &mut Vec<String>)
    ensures
        texts(final(targets)@) == texts(old(targets)@) + sql_catalog_targets(sql@),
{
    let ghost before = texts(targets@);
    assert(before + Seq::<Seq<char>>::empty() =~= before);
    if byte_count(sql) > MAX_SQL_AUTHORITY_BYTES {
        return;
    }
    let tokens: Vec<SqlToken> = match tokenize(sql) {
        Some(tokens) => tokens,
        None => {
            return;
        },
    };
    if !tokens_within_bounds(&tokens) || !channels_named(&tokens) {
        return;
    }
    assert(sql_tokens(sql@) is Some);
    let parsed: Option<Vec<AstEvent>> = parse_events(sql);
    let events: Option<Vec<AstEvent>> = match plan_parse(sql, &tokens, &parsed) {
        ParsePlan::AsParsed => parsed,
        ParsePlan::Reparse(rewritten) => parse_rewritten(sql, &tokens, rewritten.as_str()),
        ParsePlan::Reject => None,
    };
    if let Some(events) = events {
        collect_targets(&events, targets);
    }
}

} // verus!
