//! `FLUSH` statements, whose channel has to be named in full.

use vstd::prelude::*;
use crate::sql::authority::normalize::{significant, significant_tokens};
use crate::sql::authority::tokens::{SqlKeyword, SqlToken, TokenKind};

verus! {

/// A word or a string stands at position `p`.
pub open spec fn is_name_part(tokens: Seq<SqlToken>, p: int) -> bool {
    0 <= p < tokens.len() && (tokens[p].kind is Word || tokens[p].kind is Text)
}

/// A name begins at position `p`: parts with periods between them, and a part
/// behind every period.
pub open spec fn is_full_name(tokens: Seq<SqlToken>, p: int) -> bool
    decreases tokens.len() - p,
{
    &&& is_name_part(tokens, p)
    &&& p + 1 < tokens.len() && tokens[p + 1].kind is Period ==> is_full_name(tokens, p + 2)
}

/// The keyword stands at position `p`.
pub open spec fn is_keyword(tokens: Seq<SqlToken>, p: int, keyword: SqlKeyword) -> bool {
    0 <= p < tokens.len() && tokens[p].kind == TokenKind::Word(keyword)
}

/// The position behind `FLUSH` at position `p` and the word that says where the
/// statement is logged.
pub open spec fn flush_object(tokens: Seq<SqlToken>, p: int) -> int {
    if is_keyword(tokens, p + 1, SqlKeyword::Local) || is_keyword(
        tokens,
        p + 1,
        SqlKeyword::NoWriteToBinlog,
    ) {
        p + 2
    } else {
        p + 1
    }
}

/// `RELAY LOGS FOR CHANNEL` stands at position `p`.
pub open spec fn is_channel_clause(tokens: Seq<SqlToken>, p: int) -> bool {
    &&& is_keyword(tokens, p, SqlKeyword::Relay)
    &&& is_keyword(tokens, p + 1, SqlKeyword::Logs)
    &&& is_keyword(tokens, p + 2, SqlKeyword::For)
    &&& is_keyword(tokens, p + 3, SqlKeyword::Channel)
}

/// A `FLUSH` at position `p` names its channel in full, where it has one.
pub open spec fn channel_is_named(tokens: Seq<SqlToken>, p: int) -> bool {
    is_keyword(tokens, p, SqlKeyword::Flush) && is_channel_clause(tokens, flush_object(tokens, p))
        ==> is_full_name(tokens, flush_object(tokens, p) + 4)
}

/// Every `FLUSH` names its channel in full, where it has one.
pub open spec fn has_named_channels(tokens: Seq<SqlToken>) -> bool {
    forall|p: int|
        0 <= p < significant(tokens).len() ==> #[trigger] channel_is_named(significant(tokens), p)
}

fn keyword_at(tokens: &Vec<SqlToken>, p: usize, keyword: SqlKeyword) -> (r: bool)
    ensures
        r == is_keyword(tokens@, p as int, keyword),
{
    if p >= tokens.len() {
        return false;
    }
    match tokens[p].kind {
        TokenKind::Word(k) => k == keyword,
        _ => false,
    }
}

fn name_part_at(tokens: &Vec<SqlToken>, p: usize) -> (r: bool)
    ensures
        r == is_name_part(tokens@, p as int),
{
    if p >= tokens.len() {
        return false;
    }
    match tokens[p].kind {
        TokenKind::Word(_) => true,
        TokenKind::Text => true,
        _ => false,
    }
}

fn full_name_at(tokens: &Vec<SqlToken>, from: usize) -> (r: bool)
    ensures
        r == is_full_name(tokens@, from as int),
{
    let mut p: usize = from;
    // The length fits a machine word, and so do the positions.
    let n: usize = tokens.len();
    while name_part_at(tokens, p)
        invariant
            n == tokens@.len(),
            from <= p,
            is_full_name(tokens@, from as int) == is_full_name(tokens@, p as int),
        decreases tokens@.len() - p,
    {
        if n - p < 2 {
            return true;
        }
        match tokens[p + 1].kind {
            TokenKind::Period => {},
            _ => {
                return true;
            },
        }
        if n - p == 2 {
            assert(!is_full_name(tokens@, p + 2));
            return false;
        }
        p += 2;
    }
    false
}

fn channel_named_at(tokens: &Vec<SqlToken>, p: usize) -> (r: bool)
    requires
        p < tokens@.len(),
    ensures
        r == channel_is_named(tokens@, p as int),
{
    let n: usize = tokens.len();
    if !keyword_at(tokens, p, SqlKeyword::Flush) || n - p < 5 {
        return true;
    }
    let at: usize = if keyword_at(tokens, p + 1, SqlKeyword::Local) || keyword_at(
        tokens,
        p + 1,
        SqlKeyword::NoWriteToBinlog,
    ) {
        p + 2
    } else {
        p + 1
    };
    if n - at < 4 {
        return true;
    }
    if !keyword_at(tokens, at, SqlKeyword::Relay) || !keyword_at(tokens, at + 1, SqlKeyword::Logs)
        || !keyword_at(tokens, at + 2, SqlKeyword::For) || !keyword_at(
        tokens,
        at + 3,
        SqlKeyword::Channel,
    ) {
        return true;
    }
    full_name_at(tokens, at + 4)
}

/// Whether every `FLUSH` names its channel in full, where it has one.
pub fn channels_named(tokens: &Vec<SqlToken>) -> (r: bool)
    ensures
        r == has_named_channels(tokens@),
{
    let all: Vec<SqlToken> = significant_tokens(tokens);
    let mut p: usize = 0;
    while p < all.len()
        invariant
            p <= all@.len(),
            all@ == significant(tokens@),
            forall|q: int| 0 <= q < p ==> #[trigger] channel_is_named(all@, q),
        decreases all@.len() - p,
    {
        if !channel_named_at(&all, p) {
            assert(!channel_is_named(significant(tokens@), p as int));
            return false;
        }
        p += 1;
    }
    true
}

} // verus!
