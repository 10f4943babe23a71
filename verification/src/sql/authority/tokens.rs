//! SQL tokens, and the bounds on what is parsed.

use sqlparser::dialect::GenericDialect;
use sqlparser::keywords::Keyword;
use sqlparser::tokenizer::{Token, TokenWithSpan, Tokenizer};
use vstd::prelude::*;
use crate::sql::authority::brackets::{Bracket, last_significant, open_brackets, pass_token};

verus! {

/// The keywords that decide where a query body can stand, those of types with
/// arguments, and those of a `FLUSH` statement that names a channel.
#[derive(Clone, Copy, Debug, PartialEq, Eq, Structural)]
pub enum SqlKeyword {
    All,
    Array,
    As,
    By,
    Channel,
    Distinct,
    Except,
    Fetch,
    Flush,
    For,
    Format,
    Insert,
    Intersect,
    Into,
    Limit,
    Local,
    Logs,
    Minus,
    Name,
    NoWriteToBinlog,
    Offset,
    On,
    Order,
    Relay,
    Returning,
    Settings,
    Struct,
    Table,
    Union,
    Other,
}

#[derive(Clone, Copy, Debug, PartialEq, Eq, Structural)]
pub enum TokenKind {
    Whitespace,
    LParen,
    RParen,
    SemiColon,
    Period,
    Pipe,
    Lt,
    Gt,
    ShiftRight,
    /// A string in single or double quotes.
    Text,
    Word(SqlKeyword),
    Other,
}

/// A token, with the lines and columns where it begins and ends. Both count
/// from 1.
#[derive(Clone, Copy, Debug, PartialEq, Eq, Structural)]
pub struct SqlToken {
    pub kind: TokenKind,
    pub start_line: u64,
    pub start_column: u64,
    pub end_line: u64,
    pub end_column: u64,
}

#[verifier::external_type_specification]
#[verifier::external_body]
pub struct ExKeyword(sqlparser::keywords::Keyword);

#[verifier::external_type_specification]
#[verifier::external_body]
pub struct ExTokenWithSpan(sqlparser::tokenizer::TokenWithSpan);

/// The tokens that `sqlparser`'s tokenizer makes of a text in its generic
/// dialect, without unescaping. `None` where it reports an error.
pub uninterp spec fn sql_tokens(sql: Seq<char>) -> Option<Seq<SqlToken>>;

/// A keyword of `sqlparser`, as far as this library tells keywords apart.
#[verifier::external_body]
fn keyword_of(keyword: Keyword) -> SqlKeyword {
    match keyword {
        Keyword::ALL => SqlKeyword::All, Keyword::AS => SqlKeyword::As,
        Keyword::BY => SqlKeyword::By, Keyword::DISTINCT => SqlKeyword::Distinct,
        Keyword::EXCEPT => SqlKeyword::Except, Keyword::FETCH => SqlKeyword::Fetch,
        Keyword::FOR => SqlKeyword::For, Keyword::FORMAT => SqlKeyword::Format,
        Keyword::INSERT => SqlKeyword::Insert, Keyword::INTERSECT => SqlKeyword::Intersect,
        Keyword::INTO => SqlKeyword::Into, Keyword::LIMIT => SqlKeyword::Limit,
        Keyword::MINUS => SqlKeyword::Minus, Keyword::NAME => SqlKeyword::Name,
        Keyword::OFFSET => SqlKeyword::Offset, Keyword::ON => SqlKeyword::On,
        Keyword::ORDER => SqlKeyword::Order, Keyword::RETURNING => SqlKeyword::Returning,
        Keyword::SETTINGS => SqlKeyword::Settings, Keyword::TABLE => SqlKeyword::Table,
        Keyword::UNION => SqlKeyword::Union, other => further_keyword_of(other),
    }
}

/// A keyword of `sqlparser`, as far as it stands in a type with arguments or in
/// a `FLUSH` statement.
#[verifier::external_body]
fn further_keyword_of(keyword: Keyword) -> SqlKeyword {
    match keyword {
        Keyword::ARRAY => SqlKeyword::Array,
        Keyword::CHANNEL => SqlKeyword::Channel,
        Keyword::FLUSH => SqlKeyword::Flush,
        Keyword::LOCAL => SqlKeyword::Local,
        Keyword::LOGS => SqlKeyword::Logs,
        Keyword::NO_WRITE_TO_BINLOG => SqlKeyword::NoWriteToBinlog,
        Keyword::RELAY => SqlKeyword::Relay,
        Keyword::STRUCT => SqlKeyword::Struct,
        _ => SqlKeyword::Other,
    }
}

/// A token of `sqlparser`, with its span.
#[verifier::external_body]
fn token_of(entry: &TokenWithSpan) -> SqlToken {
    let kind: TokenKind = match &entry.token {
        Token::Whitespace(_) => TokenKind::Whitespace,
        Token::LParen => TokenKind::LParen, Token::RParen => TokenKind::RParen,
        Token::Lt => TokenKind::Lt, Token::Gt => TokenKind::Gt,
        Token::ShiftRight => TokenKind::ShiftRight,
        Token::SemiColon => TokenKind::SemiColon, Token::Period => TokenKind::Period,
        Token::VerticalBarRightAngleBracket => TokenKind::Pipe,
        Token::SingleQuotedString(_) | Token::DoubleQuotedString(_) => TokenKind::Text,
        Token::Word(word) => TokenKind::Word(keyword_of(word.keyword)),
        _ => TokenKind::Other,
    };
    let (start, end) = (entry.span.start, entry.span.end);
    SqlToken { kind, start_line: start.line, start_column: start.column, end_line: end.line, end_column: end.column }
}

/// `Tokenizer::tokenize_with_location` of `sqlparser`, in the generic dialect
/// and without unescaping. The tokens are a function of the text.
#[verifier::external_body]
pub(crate) fn tokenize(sql: &str) -> (r: Option<Vec<SqlToken>>)
    ensures
        r is Some <==> sql_tokens(sql@) is Some,
        r is Some ==> sql_tokens(sql@) == Some(r->0@),
{
    let tokens: Vec<TokenWithSpan> = Tokenizer::new(&GenericDialect {}, sql)
        .with_unescape(false)
        .tokenize_with_location()
        .ok()?;
    Some(tokens.iter().map(token_of).collect())
}

/// The greatest length of a text that is parsed.
pub const MAX_SQL_AUTHORITY_BYTES: usize = 1_048_576;

pub const MAX_SQL_AUTHORITY_TOKENS: usize = 16_384;

/// The greatest depth of parentheses and type arguments in each other.
pub const MAX_SQL_AUTHORITY_NESTING: usize = 128;

pub const MAX_SQL_AUTHORITY_SET_OPERATIONS: usize = 512;

pub open spec fn is_set_operator(keyword: SqlKeyword) -> bool {
    keyword is Union || keyword is Intersect || keyword is Except || keyword is Minus
}

pub open spec fn is_set_operator_token(token: SqlToken) -> bool {
    token.kind matches TokenKind::Word(keyword) && is_set_operator(keyword)
}

/// The number of the first `n` tokens that are no white space.
pub open spec fn significant_count(tokens: Seq<SqlToken>, n: int) -> nat
    decreases n,
{
    if n <= 0 {
        0
    } else if tokens[n - 1].kind is Whitespace {
        significant_count(tokens, n - 1)
    } else {
        significant_count(tokens, n - 1) + 1
    }
}

/// The number of set operators among the first `n` tokens.
pub open spec fn set_operation_count(tokens: Seq<SqlToken>, n: int) -> nat
    decreases n,
{
    if n <= 0 {
        0
    } else if is_set_operator_token(tokens[n - 1]) {
        set_operation_count(tokens, n - 1) + 1
    } else {
        set_operation_count(tokens, n - 1)
    }
}

/// The text is small and flat enough to be parsed and walked.
pub open spec fn within_bounds(tokens: Seq<SqlToken>) -> bool {
    &&& significant_count(tokens, tokens.len() as int) <= MAX_SQL_AUTHORITY_TOKENS
    &&& set_operation_count(tokens, tokens.len() as int) <= MAX_SQL_AUTHORITY_SET_OPERATIONS
    &&& forall|n: int|
        0 <= n <= tokens.len() ==> #[trigger] open_brackets(tokens, n).len()
            <= MAX_SQL_AUTHORITY_NESTING
}

proof fn lemma_counts_grow(tokens: Seq<SqlToken>, n: int, m: int)
    requires
        0 <= n <= m <= tokens.len(),
    ensures
        significant_count(tokens, n) <= significant_count(tokens, m),
        set_operation_count(tokens, n) <= set_operation_count(tokens, m),
    decreases m - n,
{
    if n < m {
        lemma_counts_grow(tokens, n, m - 1);
    }
}

pub fn keyword_is_set_operator(keyword: SqlKeyword) -> (r: bool)
    ensures
        r == is_set_operator(keyword),
{
    match keyword {
        SqlKeyword::Union => true,
        SqlKeyword::Intersect => true,
        SqlKeyword::Except => true,
        SqlKeyword::Minus => true,
        _ => false,
    }
}

/// Whether the text is small and flat enough to be parsed and walked.
pub fn tokens_within_bounds(tokens: &Vec<SqlToken>) -> (r: bool)
    ensures
        r == within_bounds(tokens@),
{
    let mut significant: usize = 0;
    let mut open: Vec<Bracket> = Vec::new();
    let mut before: Option<TokenKind> = None;
    let mut set_operations: usize = 0;
    let mut i: usize = 0;
    while i < tokens.len()
        invariant
            i <= tokens@.len(),
            significant == significant_count(tokens@, i as int),
            open@ == open_brackets(tokens@, i as int),
            before == last_significant(tokens@, i as int),
            set_operations == set_operation_count(tokens@, i as int),
            significant <= MAX_SQL_AUTHORITY_TOKENS,
            set_operations <= MAX_SQL_AUTHORITY_SET_OPERATIONS,
            forall|n: int|
                0 <= n <= i ==> #[trigger] open_brackets(tokens@, n).len()
                    <= MAX_SQL_AUTHORITY_NESTING,
        decreases tokens@.len() - i,
    {
        proof {
            lemma_counts_grow(tokens@, i + 1, tokens@.len() as int);
        }
        let kind: TokenKind = tokens[i].kind;
        match kind {
            TokenKind::Whitespace => {},
            _ => {
                significant += 1;
                if significant > MAX_SQL_AUTHORITY_TOKENS {
                    return false;
                }
                pass_token(&mut open, kind, before);
                if open.len() > MAX_SQL_AUTHORITY_NESTING {
                    assert(open_brackets(tokens@, i + 1).len() > MAX_SQL_AUTHORITY_NESTING);
                    return false;
                }
                before = Some(kind);
                match kind {
                    TokenKind::Word(keyword) => {
                        if keyword_is_set_operator(keyword) {
                            set_operations += 1;
                            if set_operations > MAX_SQL_AUTHORITY_SET_OPERATIONS {
                                return false;
                            }
                        }
                    },
                    _ => {},
                }
            },
        }
        i += 1;
    }
    true
}

} // verus!
