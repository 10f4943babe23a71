//! SQL text literals.

use vstd::prelude::*;
use vstd::string::*;
use crate::sql::lexical::{Piece, pair_at, piece_at, quote_end};
use crate::sql::scan::decoded_identifier;
use crate::sql::tail::{PredicateValueModel, predicate_value};
use crate::text::ascii::{eq_ci, lower};
use crate::text::chars::{chars_of, text_of};
use crate::text::search::{part_at, replace_part, replaced, replaced_from};
use crate::text::trim::{is_space, trim, trim_start};

verus! {

/// A text with every single quote doubled.
pub open spec fn escaped(s: Seq<char>) -> Seq<char> {
    replaced(s, seq!['\''], seq!['\'', '\''])
}

/// The SQL literal of a text.
pub open spec fn quoted(s: Seq<char>) -> Seq<char> {
    seq!['\''] + escaped(s) + seq!['\'']
}

/// Doubles every single quote, so that the text can stand between quotes.
pub fn escape_sql_text(text: &str) -> (r: String)
    ensures
        r@ == escaped(text@),
{
    let s: Vec<char> = chars_of(text);
    let one: Vec<char> = vec!['\''];
    let two: Vec<char> = vec!['\'', '\''];
    assert(one@ =~= seq!['\'']);
    assert(two@ =~= seq!['\'', '\'']);
    let r: Vec<char> = replace_part(s.as_slice(), one.as_slice(), two.as_slice());
    text_of(r.as_slice())
}

/// The SQL literal of a text.
pub fn sql_quote(text: &str) -> (r: String)
    ensures
        r@ == quoted(text@),
{
    let inner: String = escape_sql_text(text);
    let mut r: String = String::new();
    r.push('\'');
    r.append(inner.as_str());
    r.push('\'');
    assert(r@ =~= quoted(text@));
    r
}

/// Replacing in a text that follows another one.
pub proof fn lemma_replaced_behind(
    a: Seq<char>,
    b: Seq<char>,
    part: Seq<char>,
    by: Seq<char>,
    k: int,
)
    requires
        0 <= k <= b.len(),
    ensures
        replaced_from(a + b, part, by, a.len() + k) == replaced_from(b, part, by, k),
    decreases b.len() - k,
{
    let s = a + b;
    let at = a.len() + k;
    if k < b.len() {
        assert(s[at] == b[k]);
        if k + part.len() <= b.len() {
            assert(s.subrange(at, at + part.len()) =~= b.subrange(k, k + part.len()));
        }
        assert(part_at(s, at, part) == part_at(b, k, part));
        if part.len() > 0 && part_at(b, k, part) {
            lemma_replaced_behind(a, b, part, by, k + part.len());
        } else {
            lemma_replaced_behind(a, b, part, by, k + 1);
        }
    }
}

/// Doubling, one character at a time.
proof fn lemma_doubled_step(s: Seq<char>, q: char)
    requires
        s.len() > 0,
    ensures
        replaced(s, seq![q], seq![q, q]) == (if s[0] == q {
            seq![q, q]
        } else {
            seq![s[0]]
        }) + replaced(s.skip(1), seq![q], seq![q, q]),
{
    let one = seq![q];
    lemma_replaced_behind(seq![s[0]], s.skip(1), one, seq![q, q], 0);
    assert(seq![s[0]] + s.skip(1) =~= s);
    assert(s.subrange(0, 1) =~= seq![s[0]]);
    if s[0] != q {
        assert(s.subrange(0, 1)[0] != one[0]);
    }
    assert(part_at(s, 0, one) == (s[0] == q));
}

/// Collapsing the doubled character undoes its doubling.
pub proof fn lemma_collapse_doubled(s: Seq<char>, q: char)
    ensures
        replaced(replaced(s, seq![q], seq![q, q]), seq![q, q], seq![q]) == s,
    decreases s.len(),
{
    let one = seq![q];
    let two = seq![q, q];
    let d = replaced(s, one, two);
    if s.len() == 0 {
        assert(d =~= Seq::<char>::empty());
        assert(replaced(d, two, one) =~= s);
    } else {
        let rest = replaced(s.skip(1), one, two);
        lemma_doubled_step(s, q);
        lemma_collapse_doubled(s.skip(1), q);
        if s[0] == q {
            assert(d =~= two + rest);
            assert(d.subrange(0, 2) =~= two);
            lemma_replaced_behind(two, rest, two, one, 0);
            assert(replaced(d, two, one) =~= one + replaced(rest, two, one));
        } else {
            assert(d =~= seq![s[0]] + rest);
            assert(!part_at(d, 0, two)) by {
                if part_at(d, 0, two) {
                    assert(d.subrange(0, 2)[0] == two[0]);
                }
            }
            lemma_replaced_behind(seq![s[0]], rest, two, one, 0);
            assert(replaced(d, two, one) =~= seq![s[0]] + replaced(rest, two, one));
        }
        assert(s =~= seq![s[0]] + s.skip(1));
    }
}

/// A text without leading and trailing white space is its own trimmed form.
proof fn lemma_trim_delimited(s: Seq<char>)
    requires
        s.len() > 0,
        !is_space(s[0]),
        !is_space(s.last()),
    ensures
        trim(s) == s,
{
    assert(trim_start(s) =~= s);
    assert(s.take(s.len() as int) =~= s);
}

/// Reading the SQL literal of a text gives the text back.
pub proof fn law_literal_reads_back(s: Seq<char>)
    ensures
        predicate_value(quoted(s)) == Some(PredicateValueModel::Text(s)),
{
    let t = quoted(s);
    let inner = escaped(s);
    reveal_strlit("NULL");
    reveal_strlit("TRUE");
    reveal_strlit("FALSE");
    assert(t.last() == '\'');
    lemma_trim_delimited(t);
    assert(t.subrange(1, t.len() - 1) =~= inner);
    assert(!eq_ci(t, "NULL"@)) by {
        if eq_ci(t, "NULL"@) {
            assert(lower(t[0]) == lower("NULL"@[0]));
        }
    }
    assert(!eq_ci(t, "TRUE"@)) by {
        if eq_ci(t, "TRUE"@) {
            assert(lower(t[0]) == lower("TRUE"@[0]));
        }
    }
    assert(!eq_ci(t, "FALSE"@)) by {
        if eq_ci(t, "FALSE"@) {
            assert(lower(t[0]) == lower("FALSE"@[0]));
        }
    }
    lemma_collapse_doubled(s, '\'');
}

/// The closing quote behind an escaped text.
proof fn lemma_escaped_end(a: Seq<char>, s: Seq<char>, b: Seq<char>)
    requires
        b.len() == 0 || b[0] != '\'',
    ensures
        quote_end(a + escaped(s) + seq!['\''] + b, a.len() as int, '\'') == Some(
            (a.len() + escaped(s).len() + 1) as int,
        ),
    decreases s.len(),
{
    let q = seq!['\''];
    let t = a + escaped(s) + q + b;
    let i = a.len() as int;
    if s.len() == 0 {
        assert(escaped(s) =~= Seq::<char>::empty());
        assert(t =~= a + q + b);
        assert(t[i] == '\'');
        if b.len() > 0 {
            assert(t[i + 1] == b[0]);
        }
        assert(!pair_at(t, i, '\'', '\''));
    } else {
        lemma_doubled_step(s, '\'');
        let head = if s[0] == '\'' {
            seq!['\'', '\'']
        } else {
            seq![s[0]]
        };
        let rest = escaped(s.skip(1));
        assert(escaped(s) =~= head + rest);
        lemma_escaped_end(a + head, s.skip(1), b);
        assert((a + head) + rest + q + b =~= t);
        assert(t[i] == head[0]);
        if s[0] == '\'' {
            assert(t[i + 1] == head[1]);
            assert(pair_at(t, i, '\'', '\''));
        } else {
            assert(!pair_at(t, i, '\'', '\''));
        }
    }
}

/// The SQL literal of a text is one complete quoted segment: whatever the text
/// holds, nothing of it is code.
pub proof fn law_literal_is_one_segment(before: Seq<char>, s: Seq<char>, after: Seq<char>)
    requires
        after.len() == 0 || after[0] != '\'',
    ensures
        piece_at(before + quoted(s) + after, before.len() as int) == (Piece::Quoted {
            end: Some((before.len() + quoted(s).len()) as int),
        }),
{
    let q = seq!['\''];
    let t = before + quoted(s) + after;
    assert(t =~= (before + q) + escaped(s) + q + after);
    lemma_escaped_end(before + q, s, after);
    assert(t[before.len() as int] == '\'');
}

/// A quoted identifier with its delimiter doubled inside decodes to what was
/// quoted.
pub proof fn law_identifier_decodes(s: Seq<char>, q: char)
    requires
        q == '"' || q == '`',
    ensures
        decoded_identifier(seq![q] + replaced(s, seq![q], seq![q, q]) + seq![q]) == s,
{
    let inner = replaced(s, seq![q], seq![q, q]);
    let t = seq![q] + inner + seq![q];
    assert(t.subrange(1, t.len() - 1) =~= inner);
    assert(t.last() == q);
    lemma_collapse_doubled(s, q);
}

} // verus!
