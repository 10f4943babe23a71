//! Query bodies that are tables, brackets, and the bounds on a statement.

use vstd::prelude::*;
use vstd::string::*;
use crate::sql::authority::brackets::{
    Bracket, behind_paren, behind_token, behind_type, open_brackets,
};
use crate::sql::authority::channel::{
    channel_is_named, flush_object, has_named_channels, is_channel_clause, is_full_name,
};
use crate::sql::authority::normalize::{
    find_location, insert_state, is_body_end, is_body_position, is_table_body, is_word, location_at,
    name_end, normalized, replaced_tokens, significant, table_bodies,
};
use crate::sql::authority::tokens::{
    MAX_SQL_AUTHORITY_NESTING, SqlKeyword, SqlToken, TokenKind, is_set_operator_token,
    set_operation_count, significant_count, within_bounds,
};

verus! {

/// The word stands at position `p`.
pub open spec fn word_of(tokens: Seq<SqlToken>, p: int, keyword: SqlKeyword) -> bool {
    0 <= p < tokens.len() && tokens[p].kind == TokenKind::Word(keyword)
}

/// A set operator stands at position `p`.
pub open spec fn set_word_of(tokens: Seq<SqlToken>, p: int) -> bool {
    word_of(tokens, p, SqlKeyword::Union) || word_of(tokens, p, SqlKeyword::Intersect) || word_of(
        tokens,
        p,
        SqlKeyword::Except,
    ) || word_of(tokens, p, SqlKeyword::Minus)
}

proof fn lemma_body_is_listed(tokens: Seq<SqlToken>, p: int, n: int)
    requires
        0 <= p < n <= tokens.len(),
        is_table_body(tokens, p),
    ensures
        table_bodies(tokens, n).contains(tokens[p]),
    decreases n,
{
    let rest = table_bodies(tokens, n - 1);
    if p == n - 1 {
        assert(rest.push(tokens[p]).last() == tokens[p]);
        assert(rest.push(tokens[p]).contains(rest.push(tokens[p])[rest.len() as int]));
    } else {
        lemma_body_is_listed(tokens, p, n - 1);
        let i = choose|i: int| 0 <= i < rest.len() && rest[i] == tokens[p];
        assert(table_bodies(tokens, n)[i] == tokens[p]);
    }
}

/// `TABLE name` is a query body at the beginning of a statement, in parentheses,
/// behind `AS`, and behind a set operator, where the body ends behind the name.
pub proof fn law_table_bodies_are_found(tokens: Seq<SqlToken>, p: int)
    requires
        word_of(tokens, p, SqlKeyword::Table),
        p + 1 < tokens.len() && tokens[p + 1].kind is Word,
        p == 0 || tokens[p - 1].kind is SemiColon || tokens[p - 1].kind is LParen || tokens[p
            - 1].kind is RParen || word_of(tokens, p - 1, SqlKeyword::As) || set_word_of(
            tokens,
            p - 1,
        ) || (set_word_of(tokens, p - 2) && (word_of(tokens, p - 1, SqlKeyword::All) || word_of(
            tokens,
            p - 1,
            SqlKeyword::Distinct,
        ))) || (set_word_of(tokens, p - 3) && word_of(tokens, p - 2, SqlKeyword::By) && word_of(
            tokens,
            p - 1,
            SqlKeyword::Name,
        )) || (set_word_of(tokens, p - 4) && (word_of(tokens, p - 3, SqlKeyword::All) || word_of(
            tokens,
            p - 3,
            SqlKeyword::Distinct,
        )) && word_of(tokens, p - 2, SqlKeyword::By) && word_of(tokens, p - 1, SqlKeyword::Name)),
        p + 2 == tokens.len() || tokens[p + 2].kind is SemiColon || tokens[p + 2].kind is RParen
            || tokens[p + 2].kind is Pipe || set_word_of(tokens, p + 2) || word_of(
            tokens,
            p + 2,
            SqlKeyword::Order,
        ) || word_of(tokens, p + 2, SqlKeyword::Limit) || word_of(
            tokens,
            p + 2,
            SqlKeyword::Offset,
        ) || word_of(tokens, p + 2, SqlKeyword::Fetch) || word_of(tokens, p + 2, SqlKeyword::For)
            || word_of(tokens, p + 2, SqlKeyword::Format) || word_of(tokens, p + 2, SqlKeyword::On)
            || word_of(tokens, p + 2, SqlKeyword::Returning) || word_of(
            tokens,
            p + 2,
            SqlKeyword::Settings,
        ),
    ensures
        is_table_body(tokens, p),
        table_bodies(tokens, tokens.len() as int).contains(tokens[p]),
{
    assert(name_end(tokens, p + 1) == Some(p + 2));
    assert(is_body_end(tokens, p + 2));
    assert(is_body_position(tokens, p));
    lemma_body_is_listed(tokens, p, tokens.len() as int);
}

/// The name of a table can be qualified once.
pub proof fn law_table_bodies_can_be_qualified(tokens: Seq<SqlToken>)
    requires
        word_of(tokens, 0, SqlKeyword::Table),
        tokens.len() == 4,
        tokens[1].kind is Word,
        tokens[2].kind is Period,
    ensures
        is_table_body(tokens, 0) <==> tokens[3].kind is Word,
{
    assert(is_word(tokens, 3) == (tokens[3].kind is Word));
}

proof fn lemma_no_insert(tokens: Seq<SqlToken>, n: int)
    requires
        0 <= n <= tokens.len(),
        forall|i: int| 0 <= i < n ==> #[trigger] tokens[i].kind != TokenKind::Word(SqlKeyword::Insert),
    ensures
        insert_state(tokens, n) == (false, false),
    decreases n,
{
    if n > 0 {
        lemma_no_insert(tokens, n - 1);
        assert(tokens[n - 1].kind != TokenKind::Word(SqlKeyword::Insert));
    }
}

/// What stands elsewhere, such as the `TABLE` of `CREATE TABLE`, is no query body;
/// nor is any other word, nor a table with something else behind its name.
pub proof fn law_other_tables_are_no_bodies(tokens: Seq<SqlToken>, p: int)
    requires
        0 < p < tokens.len(),
        forall|i: int| 0 <= i < p ==> #[trigger] tokens[i].kind != TokenKind::Word(SqlKeyword::Insert),
    ensures
        tokens[p - 1].kind == TokenKind::Word(SqlKeyword::Other) ==> !is_table_body(tokens, p),
        tokens[p - 1].kind is Other || tokens[p - 1].kind is Period || tokens[p - 1].kind is Text
            ==> !is_table_body(tokens, p),
        tokens[p].kind != TokenKind::Word(SqlKeyword::Table) ==> !is_table_body(tokens, p),
        p + 2 < tokens.len() && (tokens[p + 2].kind == TokenKind::Word(SqlKeyword::Other) || tokens[p
            + 2].kind is LParen || tokens[p + 2].kind is Other) ==> !is_table_body(tokens, p),
        p + 1 == tokens.len() ==> !is_table_body(tokens, p),
{
    lemma_no_insert(tokens, p);
}

proof fn lemma_insert_stays(tokens: Seq<SqlToken>, a: int, b: int, n: int)
    requires
        0 <= a < b < n <= tokens.len(),
        word_of(tokens, a, SqlKeyword::Insert),
        word_of(tokens, b, SqlKeyword::Into),
        forall|i: int| a < i < n ==> !(#[trigger] tokens[i].kind is SemiColon),
    ensures
        insert_state(tokens, n) == (true, true),
    decreases n,
{
    assert(!(tokens[n - 1].kind is SemiColon));
    if n - 1 > b {
        lemma_insert_stays(tokens, a, b, n - 1);
    } else {
        lemma_insert_pending(tokens, a, n - 1);
    }
}

proof fn lemma_insert_pending(tokens: Seq<SqlToken>, a: int, n: int)
    requires
        0 <= a < n <= tokens.len(),
        word_of(tokens, a, SqlKeyword::Insert),
        forall|i: int| a < i < n ==> !(#[trigger] tokens[i].kind is SemiColon),
    ensures
        insert_state(tokens, n).0,
    decreases n,
{
    if n - 1 > a {
        assert(!(tokens[n - 1].kind is SemiColon));
        lemma_insert_pending(tokens, a, n - 1);
    }
}

/// What is inserted can be a table: `INSERT INTO name TABLE other`.
pub proof fn law_tables_can_be_inserted(tokens: Seq<SqlToken>, a: int, b: int, p: int)
    requires
        0 <= a < b < p,
        word_of(tokens, a, SqlKeyword::Insert),
        word_of(tokens, b, SqlKeyword::Into),
        word_of(tokens, p, SqlKeyword::Table),
        p + 2 == tokens.len() && tokens[p + 1].kind is Word,
        forall|i: int| a < i < p ==> !(#[trigger] tokens[i].kind is SemiColon),
    ensures
        is_table_body(tokens, p),
{
    lemma_insert_stays(tokens, a, b, p);
    assert(name_end(tokens, p + 1) == Some(p + 2));
}

/// A position in a text has a line and a column, from 1 on: a line break begins
/// a line, and another character takes a column.
pub proof fn law_positions_have_a_line(s: Seq<char>, k: int)
    requires
        0 <= k < s.len(),
    ensures
        location_at(s, 0) == (1int, 1int),
        s[k] == '\n' ==> location_at(s, k + 1) == (location_at(s, k).0 + 1, 1int),
        s[k] != '\n' ==> location_at(s, k + 1) == (
            location_at(s, k).0,
            location_at(s, k).1 + 1,
        ),
{
}

proof fn lemma_locations_grow(s: Seq<char>, i: int, j: int)
    requires
        0 <= i < j <= s.len(),
    ensures
        location_at(s, i).0 < location_at(s, j).0 || (location_at(s, i).0 == location_at(s, j).0
            && location_at(s, i).1 < location_at(s, j).1),
    decreases j,
{
    if i < j - 1 {
        lemma_locations_grow(s, i, j - 1);
    }
}

proof fn lemma_location_is_found(s: Seq<char>, k: int, from: int)
    requires
        0 <= from <= k <= s.len(),
    ensures
        find_location(s, location_at(s, k), from) == Some(k),
    decreases k - from,
{
    if from < k {
        lemma_locations_grow(s, from, k);
        lemma_location_is_found(s, k, from + 1);
    }
}

/// Of a `TABLE` query body the keyword becomes `SELECT * FROM`; what stands
/// before and behind it stays.
pub proof fn law_table_keywords_are_replaced(
    a: Seq<char>,
    keyword: Seq<char>,
    b: Seq<char>,
    tokens: Seq<SqlToken>,
    body: SqlToken,
)
    requires
        table_bodies(significant(tokens), significant(tokens).len() as int) == seq![body],
        (body.start_line as int, body.start_column as int) == location_at(
            a + keyword + b,
            a.len() as int,
        ),
        (body.end_line as int, body.end_column as int) == location_at(
            a + keyword + b,
            a.len() as int + keyword.len(),
        ),
    ensures
        normalized(a + keyword + b, tokens) == Some((a + "SELECT * FROM"@ + b, 1nat)),
{
    let s = a + keyword + b;
    let n = a.len() as int;
    let m = n + keyword.len();
    lemma_location_is_found(s, n, 0);
    lemma_location_is_found(s, m, n);
    reveal_with_fuel(replaced_tokens, 2);
    assert(s.subrange(0, n) =~= a);
    assert(s.skip(m) =~= b);
    assert(a + "SELECT * FROM"@ + b =~= s.subrange(0, n) + "SELECT * FROM"@ + s.skip(m));
}

/// A text without such a body stays as it is.
pub proof fn law_nothing_to_rewrite(s: Seq<char>, tokens: Seq<SqlToken>)
    requires
        forall|p: int|
            0 <= p < significant(tokens).len() ==> #[trigger] significant(tokens)[p].kind
                != TokenKind::Word(SqlKeyword::Table),
    ensures
        normalized(s, tokens) is None,
{
    lemma_no_bodies(significant(tokens), significant(tokens).len() as int);
}

proof fn lemma_no_bodies(tokens: Seq<SqlToken>, n: int)
    requires
        0 <= n <= tokens.len(),
        forall|p: int|
            0 <= p < tokens.len() ==> #[trigger] tokens[p].kind != TokenKind::Word(
                SqlKeyword::Table,
            ),
    ensures
        table_bodies(tokens, n).len() == 0,
    decreases n,
{
    if n > 0 {
        lemma_no_bodies(tokens, n - 1);
        assert(tokens[n - 1].kind != TokenKind::Word(SqlKeyword::Table));
    }
}

/// White space is skipped, and nothing else is.
pub proof fn law_white_space_is_skipped(tokens: Seq<SqlToken>, token: SqlToken)
    ensures
        token.kind is Whitespace ==> significant(tokens.push(token)) == significant(tokens),
        !(token.kind is Whitespace) ==> significant(tokens.push(token)) == significant(
            tokens,
        ).push(token),
{
    assert(tokens.push(token).drop_last() =~= tokens);
}

/// A closing bracket closes what its opening one opened. A parenthesis closes a
/// type that was left open inside it; a `>` in a parenthesis closes nothing
/// outside.
pub proof fn law_brackets_close_what_they_opened(
    open: Seq<Bracket>,
    x: Option<TokenKind>,
    y: Option<TokenKind>,
)
    ensures
        behind_token(behind_token(open, TokenKind::LParen, x), TokenKind::RParen, y) == open,
        behind_token(
            behind_token(open, TokenKind::Lt, Some(TokenKind::Word(SqlKeyword::Array))),
            TokenKind::Gt,
            y,
        ) == open,
        behind_token(
            behind_token(open, TokenKind::Lt, Some(TokenKind::Word(SqlKeyword::Struct))),
            TokenKind::Gt,
            y,
        ) == open,
        behind_token(
            behind_token(
                behind_token(open, TokenKind::Lt, Some(TokenKind::Word(SqlKeyword::Array))),
                TokenKind::Lt,
                Some(TokenKind::Word(SqlKeyword::Struct)),
            ),
            TokenKind::ShiftRight,
            y,
        ) == open,
        behind_token(
            behind_token(
                behind_token(open, TokenKind::LParen, x),
                TokenKind::Lt,
                Some(TokenKind::Word(SqlKeyword::Array)),
            ),
            TokenKind::RParen,
            y,
        ) == open,
        behind_token(behind_token(open, TokenKind::LParen, x), TokenKind::Gt, y) == behind_token(
            open,
            TokenKind::LParen,
            x,
        ),
        behind_token(open, TokenKind::LParen, x).len() == open.len() + 1,
        behind_token(open, TokenKind::Lt, Some(TokenKind::Word(SqlKeyword::Array))).len()
            == open.len() + 1,
        behind_token(open, TokenKind::Lt, Some(TokenKind::Word(SqlKeyword::Struct))).len()
            == open.len() + 1,
{
    reveal_with_fuel(behind_paren, 3);
    let p = open.push(Bracket::Paren);
    let t = open.push(Bracket::Type);
    assert(p.drop_last() =~= open);
    assert(t.drop_last() =~= open);
    assert(t.push(Bracket::Type).drop_last() =~= t);
    assert(p.push(Bracket::Type).drop_last() =~= p);
}

/// Nothing else opens or closes: neither another word or sign, nor a `<` that
/// compares.
pub proof fn law_other_tokens_open_nothing(
    open: Seq<Bracket>,
    kind: TokenKind,
    before: Option<TokenKind>,
)
    ensures
        kind is Word || kind is Text || kind is Other || kind is Period || kind is SemiColon
            || kind is Pipe || kind is Whitespace ==> behind_token(open, kind, before) == open,
        before != Some(TokenKind::Word(SqlKeyword::Array)) && before != Some(
            TokenKind::Word(SqlKeyword::Struct),
        ) ==> behind_token(open, TokenKind::Lt, before) == open,
{
}

proof fn lemma_parens(tokens: Seq<SqlToken>, n: int)
    requires
        0 <= n <= tokens.len(),
        forall|i: int| 0 <= i < n ==> #[trigger] tokens[i].kind is LParen,
    ensures
        open_brackets(tokens, n).len() == n,
    decreases n,
{
    if n > 0 {
        lemma_parens(tokens, n - 1);
        assert(tokens[n - 1].kind is LParen);
    }
}

proof fn lemma_counts(tokens: Seq<SqlToken>, n: int)
    requires
        0 <= n <= tokens.len(),
    ensures
        significant_count(tokens, n) <= n,
        set_operation_count(tokens, n) <= n,
        open_brackets(tokens, n).len() <= n,
        (forall|i: int| 0 <= i < n ==> !(#[trigger] tokens[i].kind is Whitespace))
            ==> significant_count(tokens, n) == n,
        (forall|i: int| 0 <= i < n ==> #[trigger] set_word_of(tokens, i)) ==> set_operation_count(
            tokens,
            n,
        ) == n,
    decreases n,
{
    if n > 0 {
        lemma_counts(tokens, n - 1);
        lemma_shrinking(open_brackets(tokens, n - 1));
        lemma_shrinking(behind_type(open_brackets(tokens, n - 1)));
        if forall|i: int| 0 <= i < n ==> #[trigger] set_word_of(tokens, i) {
            assert(set_word_of(tokens, n - 1));
            assert(is_set_operator_token(tokens[n - 1]));
        }
        if forall|i: int| 0 <= i < n ==> !(#[trigger] tokens[i].kind is Whitespace) {
            assert(!(tokens[n - 1].kind is Whitespace));
        }
    }
}

proof fn lemma_shrinking(open: Seq<Bracket>)
    ensures
        behind_paren(open).len() <= open.len(),
        behind_type(open).len() <= open.len(),
    decreases open.len(),
{
    if open.len() > 0 {
        lemma_shrinking(open.drop_last());
    }
}

/// A statement has at most 16384 tokens, 512 set operators, and a depth of
/// brackets of 128; one of few tokens is never refused.
pub proof fn law_large_statements_are_refused(tokens: Seq<SqlToken>)
    ensures
        within_bounds(tokens) && (forall|i: int|
            0 <= i < tokens.len() ==> #[trigger] tokens[i].kind is LParen) ==> tokens.len() <= 128,
        within_bounds(tokens) && (forall|i: int|
            0 <= i < tokens.len() ==> #[trigger] set_word_of(tokens, i)) ==> tokens.len() <= 512,
        within_bounds(tokens) && (forall|i: int|
            0 <= i < tokens.len() ==> !(#[trigger] tokens[i].kind is Whitespace)) ==> tokens.len()
            <= 16384,
        tokens.len() <= 128 ==> within_bounds(tokens),
{
    let n = tokens.len() as int;
    lemma_counts(tokens, n);
    if forall|i: int| 0 <= i < tokens.len() ==> #[trigger] tokens[i].kind is LParen {
        lemma_parens(tokens, n);
    }
    if n <= 128 {
        assert forall|k: int| 0 <= k <= tokens.len() implies #[trigger] open_brackets(
            tokens,
            k,
        ).len() <= MAX_SQL_AUTHORITY_NESTING by {
            lemma_counts(tokens, k);
        }
    }
}

/// A channel is named by words or strings with periods between them. `FLUSH
/// RELAY LOGS FOR CHANNEL` needs one, also behind `LOCAL` or
/// `NO_WRITE_TO_BINLOG`; other statements do not.
pub proof fn law_channels_are_named(tokens: Seq<SqlToken>, p: int, q: int)
    requires
        0 <= p,
        word_of(tokens, p, SqlKeyword::Flush),
        q == p + 1 || (q == p + 2 && (word_of(tokens, p + 1, SqlKeyword::Local) || word_of(
            tokens,
            p + 1,
            SqlKeyword::NoWriteToBinlog,
        ))),
        word_of(tokens, q, SqlKeyword::Relay),
        word_of(tokens, q + 1, SqlKeyword::Logs),
        word_of(tokens, q + 2, SqlKeyword::For),
        word_of(tokens, q + 3, SqlKeyword::Channel),
    ensures
        q + 4 == tokens.len() ==> !channel_is_named(tokens, p),
        q + 5 == tokens.len() ==> (channel_is_named(tokens, p) <==> tokens[q + 4].kind is Word
            || tokens[q + 4].kind is Text),
        q + 6 == tokens.len() && tokens[q + 5].kind is Period ==> !channel_is_named(tokens, p),
        q + 7 == tokens.len() && tokens[q + 5].kind is Period ==> (channel_is_named(tokens, p)
            <==> (tokens[q + 4].kind is Word || tokens[q + 4].kind is Text) && (tokens[q + 6].kind
            is Word || tokens[q + 6].kind is Text)),
        significant(tokens) == tokens && !channel_is_named(tokens, p) ==> !has_named_channels(
            tokens,
        ),
{
    reveal_with_fuel(is_full_name, 3);
    assert(flush_object(tokens, p) == q);
    assert(is_channel_clause(tokens, q));
}

/// Without `FLUSH` there is no channel to name.
pub proof fn law_other_statements_need_no_channel(tokens: Seq<SqlToken>)
    requires
        forall|p: int|
            0 <= p < significant(tokens).len() ==> #[trigger] significant(tokens)[p].kind
                != TokenKind::Word(SqlKeyword::Flush),
    ensures
        has_named_channels(tokens),
{
    let all = significant(tokens);
    assert forall|p: int| 0 <= p < all.len() implies #[trigger] channel_is_named(all, p) by {
        assert(all[p].kind != TokenKind::Word(SqlKeyword::Flush));
    }
}

} // verus!
