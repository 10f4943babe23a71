//! Rewriting `TABLE name` query bodies to `SELECT * FROM name`.

use vstd::prelude::*;
use vstd::string::*;
use crate::sql::authority::tokens::{
    SqlKeyword, SqlToken, TokenKind, is_set_operator, keyword_is_set_operator, significant_count,
};
use crate::sql::lexical::same_position;
use crate::text::chars::{chars_of, opt_text, text_of_range};

verus! {

/// The tokens that are no white space.
pub open spec fn significant(tokens: Seq<SqlToken>) -> Seq<SqlToken>
    decreases tokens.len(),
{
    if tokens.len() == 0 {
        Seq::empty()
    } else if tokens.last().kind is Whitespace {
        significant(tokens.drop_last())
    } else {
        significant(tokens.drop_last()).push(tokens.last())
    }
}

/// The keyword `back` tokens before position `p`.
pub open spec fn keyword_back(tokens: Seq<SqlToken>, p: int, back: int) -> Option<SqlKeyword> {
    if p - back < 0 {
        None
    } else {
        match tokens[p - back].kind {
            TokenKind::Word(keyword) => Some(keyword),
            _ => None,
        }
    }
}

pub open spec fn is_set_operator_back(tokens: Seq<SqlToken>, p: int, back: int) -> bool {
    keyword_back(tokens, p, back) matches Some(keyword) && is_set_operator(keyword)
}

/// The statement that the first `n` tokens end in has an `INSERT`, and an
/// `INTO` behind it.
pub open spec fn insert_state(tokens: Seq<SqlToken>, n: int) -> (bool, bool)
    decreases n,
{
    if n <= 0 {
        (false, false)
    } else {
        let (insert, into) = insert_state(tokens, n - 1);
        match tokens[n - 1].kind {
            TokenKind::SemiColon => (false, false),
            TokenKind::Word(SqlKeyword::Insert) => (true, into),
            TokenKind::Word(SqlKeyword::Into) => (insert, into || insert),
            _ => (insert, into),
        }
    }
}

/// Behind `UNION ALL` and the like.
pub open spec fn after_quantifier(tokens: Seq<SqlToken>, p: int) -> bool {
    &&& keyword_back(tokens, p, 1) == Some(SqlKeyword::All) || keyword_back(tokens, p, 1) == Some(
        SqlKeyword::Distinct,
    )
    &&& is_set_operator_back(tokens, p, 2)
}

/// Behind `UNION BY NAME`, `UNION ALL BY NAME` and the like.
pub open spec fn after_by_name(tokens: Seq<SqlToken>, p: int) -> bool {
    &&& keyword_back(tokens, p, 1) == Some(SqlKeyword::Name)
    &&& keyword_back(tokens, p, 2) == Some(SqlKeyword::By)
    &&& is_set_operator_back(tokens, p, 3) || ((keyword_back(tokens, p, 3) == Some(SqlKeyword::All)
        || keyword_back(tokens, p, 3) == Some(SqlKeyword::Distinct)) && is_set_operator_back(
        tokens,
        p,
        4,
    ))
}

/// A query body can begin at position `p`.
pub open spec fn is_body_position(tokens: Seq<SqlToken>, p: int) -> bool {
    ||| p == 0
    ||| tokens[p - 1].kind is SemiColon
    ||| tokens[p - 1].kind is LParen
    ||| tokens[p - 1].kind is RParen
    ||| keyword_back(tokens, p, 1) == Some(SqlKeyword::As)
    ||| is_set_operator_back(tokens, p, 1)
    ||| after_quantifier(tokens, p)
    ||| after_by_name(tokens, p)
    ||| insert_state(tokens, p) == (true, true)
}

pub open spec fn is_word(tokens: Seq<SqlToken>, p: int) -> bool {
    0 <= p < tokens.len() && tokens[p].kind is Word
}

/// The position behind the name that begins at position `p`: one word, or two
/// with a period between them.
pub open spec fn name_end(tokens: Seq<SqlToken>, p: int) -> Option<int> {
    if !is_word(tokens, p) {
        None
    } else if p + 1 < tokens.len() && tokens[p + 1].kind is Period {
        if is_word(tokens, p + 2) {
            Some(p + 3)
        } else {
            None
        }
    } else {
        Some(p + 1)
    }
}

/// A keyword that can follow a query body.
pub open spec fn follows_body(keyword: SqlKeyword) -> bool {
    is_set_operator(keyword) || keyword is Order || keyword is Limit || keyword is Offset
        || keyword is Fetch || keyword is For || keyword is Format || keyword is On
        || keyword is Returning || keyword is Settings
}

/// A query body can end before position `p`.
pub open spec fn is_body_end(tokens: Seq<SqlToken>, p: int) -> bool {
    p >= tokens.len() || match tokens[p].kind {
        TokenKind::SemiColon => true,
        TokenKind::RParen => true,
        TokenKind::Pipe => true,
        TokenKind::Word(keyword) => follows_body(keyword),
        _ => false,
    }
}

/// The `TABLE` at position `p` is a query body.
pub open spec fn is_table_body(tokens: Seq<SqlToken>, p: int) -> bool {
    &&& tokens[p].kind == TokenKind::Word(SqlKeyword::Table)
    &&& is_body_position(tokens, p)
    &&& name_end(tokens, p + 1) matches Some(end) && is_body_end(tokens, end)
}

/// The `TABLE` tokens among the first `n` that are query bodies.
pub open spec fn table_bodies(tokens: Seq<SqlToken>, n: int) -> Seq<SqlToken>
    decreases n,
{
    if n <= 0 {
        Seq::empty()
    } else if is_table_body(tokens, n - 1) {
        table_bodies(tokens, n - 1).push(tokens[n - 1])
    } else {
        table_bodies(tokens, n - 1)
    }
}

/// The line and the column at position `k`.
pub open spec fn location_at(s: Seq<char>, k: int) -> (int, int)
    decreases k,
{
    if k <= 0 {
        (1, 1)
    } else {
        let (line, column) = location_at(s, k - 1);
        if s[k - 1] == '\n' {
            (line + 1, 1)
        } else {
            (line, column + 1)
        }
    }
}

/// The first position from `k` on at the given line and column.
pub open spec fn find_location(s: Seq<char>, at: (int, int), k: int) -> Option<int>
    decreases s.len() + 1 - k,
{
    if k < 0 || k > s.len() {
        None
    } else if location_at(s, k) == at {
        Some(k)
    } else {
        find_location(s, at, k + 1)
    }
}

/// The text from `cursor` on, with the tokens from index `i` on replaced.
pub open spec fn replaced_tokens(
    s: Seq<char>,
    tokens: Seq<SqlToken>,
    i: int,
    cursor: int,
) -> Option<Seq<char>>
    decreases tokens.len() - i,
{
    if i < 0 || i >= tokens.len() {
        Some(s.skip(cursor))
    } else {
        let token = tokens[i];
        match find_location(s, (token.start_line as int, token.start_column as int), cursor) {
            None => None,
            Some(start) => match find_location(
                s,
                (token.end_line as int, token.end_column as int),
                start,
            ) {
                None => None,
                Some(end) => match replaced_tokens(s, tokens, i + 1, end) {
                    None => None,
                    Some(rest) => Some(s.subrange(cursor, start) + "SELECT * FROM"@ + rest),
                },
            },
        }
    }
}

/// The text with its `TABLE` query bodies rewritten, and their number. `None`
/// where there are none.
pub open spec fn normalized(s: Seq<char>, tokens: Seq<SqlToken>) -> Option<(Seq<char>, nat)> {
    let all = significant(tokens);
    let bodies = table_bodies(all, all.len() as int);
    if bodies.len() == 0 {
        None
    } else {
        match replaced_tokens(s, bodies, 0, 0) {
            Some(text) => Some((text, bodies.len())),
            None => None,
        }
    }
}

/// There are no more query bodies than significant tokens.
pub proof fn lemma_body_count(s: Seq<char>, tokens: Seq<SqlToken>)
    ensures
        normalized(s, tokens) matches Some((_, count)) ==> count <= significant_count(
            tokens,
            tokens.len() as int,
        ),
{
    let all = significant(tokens);
    lemma_table_bodies_len(all, all.len() as int);
    lemma_significant_len(tokens, tokens.len() as int);
    assert(tokens.take(tokens.len() as int) =~= tokens);
}

proof fn lemma_table_bodies_len(tokens: Seq<SqlToken>, n: int)
    requires
        0 <= n,
    ensures
        table_bodies(tokens, n).len() <= n,
    decreases n,
{
    if n > 0 {
        lemma_table_bodies_len(tokens, n - 1);
    }
}

proof fn lemma_significant_len(tokens: Seq<SqlToken>, n: int)
    requires
        0 <= n <= tokens.len(),
    ensures
        significant(tokens.take(n)).len() == significant_count(tokens, n),
    decreases n,
{
    if n > 0 {
        lemma_significant_len(tokens, n - 1);
        assert(tokens.take(n).drop_last() =~= tokens.take(n - 1));
    }
}

pub fn significant_tokens(tokens: &Vec<SqlToken>) -> (r: Vec<SqlToken>)
    ensures
        r@ == significant(tokens@),
        r@.len() <= tokens@.len(),
{
    let mut r: Vec<SqlToken> = Vec::new();
    let mut i: usize = 0;
    assert(tokens@.take(0) =~= Seq::<SqlToken>::empty());
    while i < tokens.len()
        invariant
            i <= tokens@.len(),
            r@.len() <= i,
            r@ == significant(tokens@.take(i as int)),
        decreases tokens@.len() - i,
    {
        assert(tokens@.take(i + 1).drop_last() =~= tokens@.take(i as int));
        match tokens[i].kind {
            TokenKind::Whitespace => {},
            _ => {
                r.push(tokens[i]);
            },
        }
        i += 1;
    }
    assert(tokens@.take(tokens@.len() as int) =~= tokens@);
    r
}

fn keyword_before(tokens: &Vec<SqlToken>, p: usize, back: usize) -> (r: Option<SqlKeyword>)
    requires
        p < tokens@.len(),
        back > 0,
    ensures
        r == keyword_back(tokens@, p as int, back as int),
{
    if back > p {
        return None;
    }
    match tokens[p - back].kind {
        TokenKind::Word(keyword) => Some(keyword),
        _ => None,
    }
}

fn set_operator_before(tokens: &Vec<SqlToken>, p: usize, back: usize) -> (r: bool)
    requires
        p < tokens@.len(),
        back > 0,
    ensures
        r == is_set_operator_back(tokens@, p as int, back as int),
{
    match keyword_before(tokens, p, back) {
        Some(keyword) => keyword_is_set_operator(keyword),
        None => false,
    }
}

fn quantifier_before(tokens: &Vec<SqlToken>, p: usize, back: usize) -> (r: bool)
    requires
        p < tokens@.len(),
        back > 0,
    ensures
        r == (keyword_back(tokens@, p as int, back as int) == Some(SqlKeyword::All)
            || keyword_back(tokens@, p as int, back as int) == Some(SqlKeyword::Distinct)),
{
    match keyword_before(tokens, p, back) {
        Some(SqlKeyword::All) => true,
        Some(SqlKeyword::Distinct) => true,
        _ => false,
    }
}

fn body_position(tokens: &Vec<SqlToken>, p: usize, insert_into: bool) -> (r: bool)
    requires
        p < tokens@.len(),
        insert_into == (insert_state(tokens@, p as int) == (true, true)),
    ensures
        r == is_body_position(tokens@, p as int),
{
    if p == 0 || insert_into {
        return true;
    }
    match tokens[p - 1].kind {
        TokenKind::SemiColon => true,
        TokenKind::LParen => true,
        TokenKind::RParen => true,
        TokenKind::Word(SqlKeyword::As) => true,
        TokenKind::Word(SqlKeyword::Name) => keyword_before(tokens, p, 2) == Some(SqlKeyword::By)
            && (set_operator_before(tokens, p, 3) || (quantifier_before(tokens, p, 3)
            && set_operator_before(tokens, p, 4))),
        _ => set_operator_before(tokens, p, 1) || (quantifier_before(tokens, p, 1)
            && set_operator_before(tokens, p, 2)),
    }
}

fn word_at_position(tokens: &Vec<SqlToken>, p: usize) -> (r: bool)
    ensures
        r == is_word(tokens@, p as int),
{
    if p >= tokens.len() {
        return false;
    }
    match tokens[p].kind {
        TokenKind::Word(_) => true,
        _ => false,
    }
}

fn end_of_name(tokens: &Vec<SqlToken>, p: usize) -> (r: Option<usize>)
    requires
        p <= tokens@.len(),
    ensures
        same_position(r, name_end(tokens@, p as int)),
{
    let n: usize = tokens.len();
    if !word_at_position(tokens, p) {
        return None;
    }
    let qualified: bool = if p + 1 < n {
        match tokens[p + 1].kind {
            TokenKind::Period => true,
            _ => false,
        }
    } else {
        false
    };
    if !qualified {
        return Some(p + 1);
    }
    if p + 2 < n && word_at_position(tokens, p + 2) {
        Some(p + 3)
    } else {
        None
    }
}

fn body_end(tokens: &Vec<SqlToken>, p: usize) -> (r: bool)
    ensures
        r == is_body_end(tokens@, p as int),
{
    if p >= tokens.len() {
        return true;
    }
    match tokens[p].kind {
        TokenKind::SemiColon => true,
        TokenKind::RParen => true,
        TokenKind::Pipe => true,
        TokenKind::Word(keyword) => match keyword {
            SqlKeyword::Order => true,
            SqlKeyword::Limit => true,
            SqlKeyword::Offset => true,
            SqlKeyword::Fetch => true,
            SqlKeyword::For => true,
            SqlKeyword::Format => true,
            SqlKeyword::On => true,
            SqlKeyword::Returning => true,
            SqlKeyword::Settings => true,
            _ => keyword_is_set_operator(keyword),
        },
        _ => false,
    }
}

fn find_table_bodies(tokens: &Vec<SqlToken>) -> (r: Vec<SqlToken>)
    ensures
        r@ == table_bodies(tokens@, tokens@.len() as int),
        r@.len() <= tokens@.len(),
{
    let mut r: Vec<SqlToken> = Vec::new();
    let mut insert: bool = false;
    let mut into: bool = false;
    let mut p: usize = 0;
    while p < tokens.len()
        invariant
            p <= tokens@.len(),
            insert_state(tokens@, p as int) == (insert, into),
            r@.len() <= p,
            r@ == table_bodies(tokens@, p as int),
        decreases tokens@.len() - p,
    {
        match tokens[p].kind {
            TokenKind::Word(SqlKeyword::Table) => {
                if body_position(tokens, p, insert && into) {
                    if let Some(end) = end_of_name(tokens, p + 1) {
                        if body_end(tokens, end) {
                            r.push(tokens[p]);
                        }
                    }
                }
            },
            TokenKind::SemiColon => {
                insert = false;
                into = false;
            },
            TokenKind::Word(SqlKeyword::Insert) => {
                insert = true;
            },
            TokenKind::Word(SqlKeyword::Into) => {
                into = into || insert;
            },
            _ => {},
        }
        p += 1;
    }
    r
}

/// A position in a text, with its line and column.
struct Cursor {
    position: usize,
    line: u128,
    column: u128,
}

spec fn is_at(cursor: Cursor, s: Seq<char>) -> bool {
    &&& cursor.position <= s.len()
    &&& location_at(s, cursor.position as int) == (cursor.line as int, cursor.column as int)
}

proof fn lemma_location_bounds(s: Seq<char>, k: int)
    requires
        0 <= k,
    ensures
        1 <= location_at(s, k).0 <= k + 1,
        1 <= location_at(s, k).1 <= k + 1,
    decreases k,
{
    if k > 0 {
        lemma_location_bounds(s, k - 1);
    }
}

fn seek(s: &[char], from: &Cursor, line: u64, column: u64) -> (r: Option<Cursor>)
    requires
        is_at(*from, s@),
    ensures
        match r {
            Some(c) => is_at(c, s@) && find_location(
                s@,
                (line as int, column as int),
                from.position as int,
            ) == Some(c.position as int) && from.position <= c.position,
            None => find_location(s@, (line as int, column as int), from.position as int) is None,
        },
{
    let ghost at = (line as int, column as int);
    let mut c: Cursor = Cursor { position: from.position, line: from.line, column: from.column };
    loop
        invariant
            is_at(c, s@),
            at == (line as int, column as int),
            from.position <= c.position,
            find_location(s@, at, from.position as int) == find_location(
                s@,
                at,
                c.position as int,
            ),
        decreases s@.len() - c.position,
    {
        if c.line == line as u128 && c.column == column as u128 {
            return Some(c);
        }
        if c.position >= s.len() {
            assert(find_location(s@, at, c.position + 1) is None);
            return None;
        }
        proof {
            lemma_location_bounds(s@, c.position as int);
        }
        c = if s[c.position] == '\n' {
            Cursor { position: c.position + 1, line: c.line + 1, column: 1 }
        } else {
            Cursor { position: c.position + 1, line: c.line, column: c.column + 1 }
        };
    }
}

/// A text in front of an optional one.
spec fn in_front(head: Seq<char>, rest: Option<Seq<char>>) -> Option<Seq<char>> {
    match rest {
        Some(text) => Some(head + text),
        None => None,
    }
}

fn replace_tokens(s: &[char], tokens: &Vec<SqlToken>) -> (r: Option<String>)
    ensures
        opt_text(r) == replaced_tokens(s@, tokens@, 0, 0),
{
    let mut text: String = String::new();
    let mut cursor: Cursor = Cursor { position: 0, line: 1, column: 1 };
    let mut i: usize = 0;
    let ghost target = replaced_tokens(s@, tokens@, 0, 0);
    proof {
        if target is Some {
            assert(Seq::<char>::empty() + target->0 =~= target->0);
        }
    }
    while i < tokens.len()
        invariant
            i <= tokens@.len(),
            is_at(cursor, s@),
            target == replaced_tokens(s@, tokens@, 0, 0),
            in_front(
                text@,
                replaced_tokens(s@, tokens@, i as int, cursor.position as int),
            ) == target,
        decreases tokens@.len() - i,
    {
        let token: SqlToken = tokens[i];
        let start: Cursor = match seek(s, &cursor, token.start_line, token.start_column) {
            Some(c) => c,
            None => {
                return None;
            },
        };
        let end: Cursor = match seek(s, &start, token.end_line, token.end_column) {
            Some(c) => c,
            None => {
                return None;
            },
        };
        let ghost done = text@;
        let before: String = text_of_range(s, cursor.position, start.position);
        text.append(before.as_str());
        text.append("SELECT * FROM");
        proof {
            let rest = replaced_tokens(s@, tokens@, i + 1, end.position as int);
            if rest is Some {
                assert(text@ + rest->0 =~= done + (before@ + "SELECT * FROM"@ + rest->0));
            }
        }
        cursor = end;
        i += 1;
    }
    let rest: String = text_of_range(s, cursor.position, s.len());
    assert(rest@ =~= s@.skip(cursor.position as int));
    text.append(rest.as_str());
    Some(text)
}

/// Rewrites the `TABLE` query bodies of a text. Only the keyword itself is
/// replaced; everything else stays as it is.
pub fn normalize_table_query_bodies(sql: &str, tokens: &Vec<SqlToken>) -> (r: Option<
    (String, usize),
>)
    ensures
        r is Some <==> normalized(sql@, tokens@) is Some,
        r matches Some((text, count)) ==> normalized(sql@, tokens@) == Some((text@, count as nat)),
{
    let all: Vec<SqlToken> = significant_tokens(tokens);
    let bodies: Vec<SqlToken> = find_table_bodies(&all);
    if bodies.len() == 0 {
        return None;
    }
    let s: Vec<char> = chars_of(sql);
    match replace_tokens(s.as_slice(), &bodies) {
        Some(text) => Some((text, bodies.len())),
        None => None,
    }
}

} // verus!
