//! Parentheses and type arguments, as far as they nest in a text.

use vstd::prelude::*;
use crate::sql::authority::tokens::{SqlKeyword, SqlToken, TokenKind};

verus! {

#[derive(Clone, Copy, Debug, PartialEq, Eq, Structural)]
pub enum Bracket {
    /// `(`
    Paren,
    /// The `<` of `ARRAY<..>` or `STRUCT<..>`.
    Type,
}

/// A `<` directly behind the word opens the arguments of a type.
pub open spec fn takes_arguments(word: Option<TokenKind>) -> bool {
    word == Some(TokenKind::Word(SqlKeyword::Array)) || word == Some(
        TokenKind::Word(SqlKeyword::Struct),
    )
}

/// The last of the first `n` tokens that is no white space.
pub open spec fn last_significant(tokens: Seq<SqlToken>, n: int) -> Option<TokenKind>
    decreases n,
{
    if n <= 0 {
        None
    } else if tokens[n - 1].kind is Whitespace {
        last_significant(tokens, n - 1)
    } else {
        Some(tokens[n - 1].kind)
    }
}

/// What is open behind a `>`: it closes a type only where nothing else was
/// opened inside.
pub open spec fn behind_type(open: Seq<Bracket>) -> Seq<Bracket> {
    if open.len() > 0 && open.last() is Type {
        open.drop_last()
    } else {
        open
    }
}

/// What is open behind a `)`: it closes the last parenthesis and what was
/// opened inside.
pub open spec fn behind_paren(open: Seq<Bracket>) -> Seq<Bracket>
    decreases open.len(),
{
    if open.len() == 0 {
        open
    } else if open.last() is Paren {
        open.drop_last()
    } else {
        behind_paren(open.drop_last())
    }
}

/// What is open behind a token; `before` is the significant token before it.
pub open spec fn behind_token(
    open: Seq<Bracket>,
    kind: TokenKind,
    before: Option<TokenKind>,
) -> Seq<Bracket> {
    match kind {
        TokenKind::LParen => open.push(Bracket::Paren),
        TokenKind::RParen => behind_paren(open),
        TokenKind::Lt => if takes_arguments(before) {
            open.push(Bracket::Type)
        } else {
            open
        },
        TokenKind::Gt => behind_type(open),
        TokenKind::ShiftRight => behind_type(behind_type(open)),
        _ => open,
    }
}

/// What is open behind the first `n` tokens, the outermost first.
pub open spec fn open_brackets(tokens: Seq<SqlToken>, n: int) -> Seq<Bracket>
    decreases n,
{
    if n <= 0 {
        Seq::empty()
    } else {
        behind_token(
            open_brackets(tokens, n - 1),
            tokens[n - 1].kind,
            last_significant(tokens, n - 1),
        )
    }
}

fn close_type(open: &mut Vec<Bracket>)
    ensures
        final(open)@ == behind_type(old(open)@),
{
    let len: usize = open.len();
    if len > 0 {
        match open[len - 1] {
            Bracket::Type => {
                open.pop();
            },
            Bracket::Paren => {},
        }
    }
}

fn close_paren(open: &mut Vec<Bracket>)
    ensures
        final(open)@ == behind_paren(old(open)@),
{
    while open.len() > 0
        invariant
            behind_paren(open@) == behind_paren(old(open)@),
        decreases open@.len(),
    {
        let len: usize = open.len();
        let last: Bracket = open[len - 1];
        open.pop();
        match last {
            Bracket::Paren => {
                return;
            },
            Bracket::Type => {},
        }
    }
}

/// Takes the next token into account; `before` is the significant token before
/// it.
pub fn pass_token(open: &mut Vec<Bracket>, kind: TokenKind, before: Option<TokenKind>)
    ensures
        final(open)@ == behind_token(old(open)@, kind, before),
{
    match kind {
        TokenKind::LParen => open.push(Bracket::Paren),
        TokenKind::RParen => close_paren(open),
        TokenKind::Lt => match before {
            Some(TokenKind::Word(SqlKeyword::Array)) => open.push(Bracket::Type),
            Some(TokenKind::Word(SqlKeyword::Struct)) => open.push(Bracket::Type),
            _ => {},
        },
        TokenKind::Gt => close_type(open),
        TokenKind::ShiftRight => {
            close_type(open);
            close_type(open);
        },
        _ => {},
    }
}

} // verus!
