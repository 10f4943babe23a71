//! Comments, quotes and brackets in SQL and Cypher.

use vstd::prelude::*;
use vstd::string::*;
use crate::laws::clauses::{lemma_same_upper, lemma_trim_blank};
use crate::sql::cypher::{
    ascii_space_end, bare_query, clause_at, cypher_piece_at, cypher_quote_end, find_clause,
    find_clause_from, insertion_point, is_named, with_graph_target, words_end,
};
use crate::sql::lexical::{Piece, block_end, is_quote, lemma_piece_at, pair_at, piece_at, quote_end};
use crate::sql::scan::{
    behind_if_not_exists, behind_trivia, behind_word, find_word, find_word_in_code,
    stripped_if_not_exists, trivia_end, without_trivia,
};
use crate::sql::top_level::{find_at_top_level, scan, scan_from};
use crate::text::ascii::{is_alphanumeric, is_ascii_space, lower, upper, upper_text, word_at};
use crate::text::search::{find_char, lemma_find_char};
use crate::text::trim::{
    is_space, lemma_space_run_end, lemma_trim, lemma_trimmed_part, space_run_end, trim,
    trim_end_char,
};

verus! {

proof fn lemma_block(s: Seq<char>, i: int, e: int)
    requires
        0 <= i <= e,
        forall|j: int| i <= j < e ==> #[trigger] s[j] != '*' && s[j] != '/',
        pair_at(s, e, '*', '/'),
    ensures
        block_end(s, i, 1) == Some(e + 2),
    decreases e - i,
{
    reveal_with_fuel(block_end, 2);
    if i < e {
        assert(s[i] != '*' && s[i] != '/');
        lemma_block(s, i + 1, e);
    }
}

proof fn lemma_nested_block(s: Seq<char>, i: int, e: int)
    requires
        0 <= i <= e,
        forall|j: int| i <= j < e ==> #[trigger] s[j] != '*' && s[j] != '/',
        pair_at(s, e, '*', '/'),
        pair_at(s, e + 2, '*', '/'),
    ensures
        block_end(s, i, 2) == Some(e + 4),
    decreases e - i,
{
    reveal_with_fuel(block_end, 3);
    if i < e {
        assert(s[i] != '*' && s[i] != '/');
        lemma_nested_block(s, i + 1, e);
    }
}

proof fn lemma_quote(s: Seq<char>, i: int, e: int, q: char)
    requires
        0 <= i <= e < s.len(),
        forall|j: int| i <= j < e ==> #[trigger] s[j] != q,
        s[e] == q,
        e + 1 < s.len() ==> s[e + 1] != q,
    ensures
        quote_end(s, i, q) == Some(e + 1),
    decreases e - i,
{
    if i < e {
        assert(s[i] != q);
        lemma_quote(s, i + 1, e, q);
    }
}

proof fn lemma_cypher_quote(s: Seq<char>, i: int, e: int, q: char)
    requires
        0 <= i <= e < s.len(),
        is_quote(q),
        forall|j: int| i <= j < e ==> #[trigger] s[j] != q && s[j] != '\\',
        s[e] == q,
        e + 1 < s.len() ==> s[e + 1] != q,
    ensures
        cypher_quote_end(s, i, q) == Some(e + 1),
    decreases e - i,
{
    if i < e {
        assert(s[i] != q && s[i] != '\\');
        lemma_cypher_quote(s, i + 1, e, q);
    }
}

/// Between its marks a text is a comment or a quoted segment of SQL: `/*` and
/// `*/`, which nest, `--` and the line's end, and a pair of quotes of one kind.
pub proof fn law_sql_pieces(
    before: Seq<char>,
    body: Seq<char>,
    inner: Seq<char>,
    line: Seq<char>,
    q: char,
    behind: Seq<char>,
)
    requires
        !body.contains('*') && !body.contains('/'),
        !inner.contains(q),
        !line.contains('\n'),
        q == '\'' || q == '"' || q == '`',
        behind.len() > 0 ==> behind[0] != q,
    ensures
        ({
            let n = before.len() as int;
            let block = before + seq!['/', '*'] + body + seq!['*', '/'] + behind;
            let nested = before + seq!['/', '*', '/', '*'] + body + seq!['*', '/', '*', '/']
                + behind;
            let dashes = before + seq!['-', '-'] + line + seq!['\n'] + behind;
            let quoted = before + seq![q] + inner + seq![q] + behind;
            &&& piece_at(block, n) == (Piece::Comment { end: Some(n + body.len() + 4) })
            &&& piece_at(nested, n) == (Piece::Comment { end: Some(n + body.len() + 8) })
            &&& piece_at(dashes, n) == (Piece::Comment { end: Some(n + line.len() + 2) })
            &&& piece_at(quoted, n) == (Piece::Quoted { end: Some(n + inner.len() + 2) })
        }),
{
    let n = before.len() as int;
    let block = before + seq!['/', '*'] + body + seq!['*', '/'] + behind;
    let e = n + 2 + body.len();
    assert forall|j: int| n + 2 <= j < e implies #[trigger] block[j] != '*' && block[j] != '/' by {
        assert(block[j] == body[j - n - 2]);
        assert(body.contains(body[j - n - 2]));
    }
    lemma_block(block, n + 2, e);
    let nested = before + seq!['/', '*', '/', '*'] + body + seq!['*', '/', '*', '/'] + behind;
    let f = n + 4 + body.len();
    assert forall|j: int| n + 4 <= j < f implies #[trigger] nested[j] != '*' && nested[j]
        != '/' by {
        assert(nested[j] == body[j - n - 4]);
        assert(body.contains(body[j - n - 4]));
    }
    lemma_nested_block(nested, n + 4, f);
    assert(pair_at(nested, n + 2, '/', '*'));
    assert(block_end(nested, n + 2, 1) == block_end(nested, n + 4, 2));
    let dashes = before + seq!['-', '-'] + line + seq!['\n'] + behind;
    let g = n + 2 + line.len();
    assert(dashes[g] == '\n');
    assert forall|j: int| n + 2 <= j < g implies dashes[j] != '\n' by {
        assert(dashes[j] == line[j - n - 2]);
        assert(line.contains(line[j - n - 2]));
    }
    lemma_find_char(dashes, '\n', n + 2);
    assert(find_char(dashes, '\n', n + 2) == Some(g));
    let quoted = before + seq![q] + inner + seq![q] + behind;
    let h = n + 1 + inner.len();
    assert forall|j: int| n + 1 <= j < h implies #[trigger] quoted[j] != q by {
        assert(quoted[j] == inner[j - n - 1]);
        assert(inner.contains(inner[j - n - 1]));
    }
    lemma_quote(quoted, n + 1, h, q);
}

/// A doubled quote does not end a quoted segment, and a segment or a comment
/// without an end has none.
pub proof fn law_open_pieces_have_no_end(
    before: Seq<char>,
    a: Seq<char>,
    b: Seq<char>,
    q: char,
)
    requires
        !a.contains(q) && !b.contains(q),
        !b.contains('*'),
        q == '\'' || q == '"' || q == '`',
    ensures
        ({
            let n = before.len() as int;
            let doubled = before + seq![q] + a + seq![q, q] + b + seq![q];
            &&& piece_at(doubled, n) == (Piece::Quoted { end: Some(doubled.len() as int) })
            &&& piece_at(before + seq![q] + a, n) == (Piece::Quoted { end: None })
            &&& piece_at(before + seq!['/', '*'] + b, n) == (Piece::Comment { end: None })
        }),
{
    let n = before.len() as int;
    let doubled = before + seq![q] + a + seq![q, q] + b + seq![q];
    let m = n + 1 + a.len();
    assert(doubled[m] == q && doubled[m + 1] == q);
    let e = m + 2 + b.len();
    assert forall|j: int| m + 2 <= j < e implies #[trigger] doubled[j] != q by {
        assert(doubled[j] == b[j - m - 2]);
        assert(b.contains(b[j - m - 2]));
    }
    lemma_quote(doubled, m + 2, e, q);
    lemma_doubled(doubled, n + 1, m, q, before, a);
    let open = before + seq![q] + a;
    assert forall|j: int| n + 1 <= j < open.len() implies #[trigger] open[j] != q by {
        assert(open[j] == a[j - n - 1]);
        assert(a.contains(a[j - n - 1]));
    }
    lemma_unquoted(open, n + 1, q);
    let block = before + seq!['/', '*'] + b;
    assert forall|j: int| n + 2 <= j < block.len() implies #[trigger] block[j] != '*' by {
        assert(block[j] == b[j - n - 2]);
        assert(b.contains(b[j - n - 2]));
    }
    lemma_unblocked(block, n + 2, 1);
}

proof fn lemma_doubled(s: Seq<char>, i: int, m: int, q: char, before: Seq<char>, a: Seq<char>)
    requires
        0 <= before.len() + 1 <= i <= m == before.len() + 1 + a.len(),
        m + 1 < s.len(),
        forall|j: int| before.len() + 1 <= j < m ==> s[j] == #[trigger] a[j - before.len() - 1],
        !a.contains(q),
        s[m] == q && s[m + 1] == q,
    ensures
        quote_end(s, i, q) == quote_end(s, m + 2, q),
    decreases m - i,
{
    if i < m {
        let k = i - before.len() - 1;
        assert(s[i] == a[k]);
        assert(a.contains(a[k]));
        lemma_doubled(s, i + 1, m, q, before, a);
    }
}

proof fn lemma_unquoted(s: Seq<char>, i: int, q: char)
    requires
        0 <= i,
        forall|j: int| i <= j < s.len() ==> #[trigger] s[j] != q,
    ensures
        quote_end(s, i, q) is None,
    decreases s.len() - i,
{
    if i < s.len() {
        assert(s[i] != q);
        lemma_unquoted(s, i + 1, q);
    }
}

proof fn lemma_unblocked(s: Seq<char>, i: int, depth: nat)
    requires
        0 <= i,
        depth > 0,
        forall|j: int| i <= j < s.len() ==> #[trigger] s[j] != '*',
    ensures
        block_end(s, i, depth) is None,
    decreases s.len() - i,
{
    if i < s.len() {
        assert(s[i] != '*');
        if i + 1 < s.len() {
            assert(s[i + 1] != '*');
        }
        lemma_unblocked(s, i + 1, depth);
    }
}

/// A word is found where it stands in code, and a search goes on behind comments
/// and quoted segments.
pub proof fn law_words_are_found_in_code(s: Seq<char>, word: Seq<char>, i: int, e: int)
    requires
        0 <= i < s.len(),
    ensures
        s[i] != '-' && s[i] != '/' && s[i] != '\'' && s[i] != '"' && s[i] != '`' && word_at(
            s,
            i,
            word,
        ) ==> find_word_in_code(s, word, i) == Some(i),
        s[i] != '-' && s[i] != '/' && s[i] != '\'' && s[i] != '"' && s[i] != '`' && !word_at(
            s,
            i,
            word,
        ) ==> find_word_in_code(s, word, i) == find_word_in_code(s, word, i + 1),
        piece_at(s, i) == (Piece::Comment { end: Some(e) }) || piece_at(s, i) == (Piece::Quoted {
            end: Some(e),
        }) ==> find_word_in_code(s, word, i) == find_word_in_code(s, word, e),
        piece_at(s, i) == (Piece::Comment { end: None }) || piece_at(s, i) == (Piece::Quoted {
            end: None,
        }) ==> find_word_in_code(s, word, i) is None,
        word_at(s, i, word) ==> find_word(s, word, i) == Some(i),
        !word_at(s, i, word) ==> find_word(s, word, i) == find_word(s, word, i + 1),
{
}

/// White space and comments are skipped at the beginning, and nothing else is.
pub proof fn law_trivia_is_skipped(s: Seq<char>, body: Seq<char>, line: Seq<char>)
    requires
        !body.contains('*') && !body.contains('/'),
        !line.contains('\n'),
    ensures
        without_trivia(seq![' '] + s) == without_trivia(s),
        without_trivia(seq!['\n'] + s) == without_trivia(s),
        without_trivia(seq!['/', '*'] + body + seq!['*', '/'] + s) == without_trivia(s),
        without_trivia(seq!['-', '-'] + line + seq!['\n'] + s) == without_trivia(s),
        s.len() > 0 && !is_space(s[0]) && s[0] != '/' && s[0] != '-' ==> without_trivia(s) == s,
{
    let none = Seq::<char>::empty();
    let front = seq!['/', '*'] + body + seq!['*', '/'];
    let block = front + s;
    let lines = seq!['-', '-'] + line;
    let dashes = lines + (seq!['\n'] + s);
    let inner = none;
    let e = body.len() as int + 4;
    let g = line.len() as int + 2;
    assert(none + seq!['/', '*'] + body + seq!['*', '/'] + s =~= block);
    assert(none + seq!['-', '-'] + line + seq!['\n'] + s =~= dashes);
    assert(seq!['-', '-'] + line + seq!['\n'] + s =~= dashes);
    lemma_pieces_first(none, body, line, s);
    lemma_trivia_behind(seq![' '], s, 0);
    lemma_trivia_behind(seq!['\n'], s, 0);
    lemma_trivia_behind(front, s, 0);
    lemma_trivia_behind(lines, seq!['\n'] + s, 0);
    assert(space_run_end(block, 0) == 0);
    assert(trivia_end(block, 0) == trivia_end(block, e));
    assert(space_run_end(dashes, 0) == 0);
    assert(trivia_end(dashes, 0) == trivia_end(dashes, g));
    lemma_space_first(' ', s);
    lemma_space_first('\n', s);
    lemma_trivia_bounds(s, 0);
    lemma_trivia_bounds(seq!['\n'] + s, 0);
    assert(block.skip(e + trivia_end(s, 0)) =~= s.skip(trivia_end(s, 0)));
    let u = seq!['\n'] + s;
    assert(dashes.skip(g + trivia_end(u, 0)) =~= u.skip(trivia_end(u, 0)));
    if s.len() > 0 && !is_space(s[0]) {
        assert(s.skip(0) =~= s);
    }
}

proof fn lemma_space_first(c: char, s: Seq<char>)
    requires
        is_space(c),
    ensures
        without_trivia(seq![c] + s) == without_trivia(s),
{
    let t = seq![c] + s;
    assert(space_run_end(t, 0) == space_run_end(t, 1));
    assert(trivia_end(t, 0) == trivia_end(t, 1));
    lemma_trivia_behind(seq![c], s, 0);
    lemma_trivia_bounds(s, 0);
    assert(t.skip(1 + trivia_end(s, 0)) =~= s.skip(trivia_end(s, 0)));
}

proof fn lemma_pieces_first(none: Seq<char>, body: Seq<char>, line: Seq<char>, s: Seq<char>)
    requires
        none.len() == 0,
        !body.contains('*') && !body.contains('/'),
        !line.contains('\n'),
    ensures
        piece_at(none + seq!['/', '*'] + body + seq!['*', '/'] + s, 0) == (Piece::Comment {
            end: Some(body.len() as int + 4),
        }),
        piece_at(none + seq!['-', '-'] + line + seq!['\n'] + s, 0) == (Piece::Comment {
            end: Some(line.len() as int + 2),
        }),
{
    if s.len() > 0 && s[0] == '"' {
        law_sql_pieces(none, body, none, line, '`', s);
    } else {
        law_sql_pieces(none, body, none, line, '"', s);
    }
}

proof fn lemma_trivia_bounds(s: Seq<char>, i: int)
    requires
        0 <= i <= s.len(),
    ensures
        i <= trivia_end(s, i) <= s.len(),
    decreases s.len() - i,
{
    lemma_space_run_end(s, i);
    let k = space_run_end(s, i);
    if k < s.len() {
        lemma_piece_at(s, k);
        if let Piece::Comment { end: Some(e) } = piece_at(s, k) {
            lemma_trivia_bounds(s, e);
        }
    }
}

proof fn lemma_find_char_behind(a: Seq<char>, s: Seq<char>, c: char, i: int)
    requires
        0 <= i,
    ensures
        find_char(a + s, c, a.len() + i) == match find_char(s, c, i) {
            Some(k) => Some(a.len() + k),
            None => None::<int>,
        },
    decreases s.len() - i,
{
    if i < s.len() {
        assert((a + s)[a.len() + i] == s[i]);
        lemma_find_char_behind(a, s, c, i + 1);
    }
}

proof fn lemma_block_behind(a: Seq<char>, s: Seq<char>, i: int, depth: nat)
    requires
        0 <= i,
    ensures
        block_end(a + s, a.len() + i, depth) == match block_end(s, i, depth) {
            Some(k) => Some(a.len() + k),
            None => None::<int>,
        },
    decreases s.len() - i,
{
    let t = a + s;
    let n = a.len() as int;
    if depth > 0 && i < s.len() {
        assert(t[n + i] == s[i]);
        if i + 1 < s.len() {
            assert(t[n + i + 1] == s[i + 1]);
        }
        assert(pair_at(t, n + i, '/', '*') == pair_at(s, i, '/', '*'));
        assert(pair_at(t, n + i, '*', '/') == pair_at(s, i, '*', '/'));
        if i + 2 <= s.len() {
            lemma_block_behind(a, s, i + 2, depth + 1);
            lemma_block_behind(a, s, i + 2, (depth - 1) as nat);
        }
        lemma_block_behind(a, s, i + 1, depth);
    }
}

proof fn lemma_trivia_behind(a: Seq<char>, s: Seq<char>, i: int)
    requires
        0 <= i <= s.len(),
    ensures
        trivia_end(a + s, a.len() + i) == a.len() + trivia_end(s, i),
    decreases s.len() - i,
{
    let t = a + s;
    let n = a.len() as int;
    lemma_space_behind(a, s, i);
    lemma_space_run_end(s, i);
    let k = space_run_end(s, i);
    if k < s.len() {
        assert(t[n + k] == s[k]);
        if k + 1 < s.len() {
            assert(t[n + k + 1] == s[k + 1]);
        }
        assert(pair_at(t, n + k, '/', '*') == pair_at(s, k, '/', '*'));
        assert(pair_at(t, n + k, '-', '-') == pair_at(s, k, '-', '-'));
        lemma_block_behind(a, s, k + 2, 1);
        lemma_find_char_behind(a, s, '\n', k + 2);
        lemma_piece_at(s, k);
        if let Piece::Comment { end: Some(e) } = piece_at(s, k) {
            lemma_trivia_behind(a, s, e);
            assert(piece_at(t, n + k) == (Piece::Comment { end: Some(n + e) }));
        }
    }
}

proof fn lemma_space_behind(a: Seq<char>, s: Seq<char>, i: int)
    requires
        0 <= i <= s.len(),
    ensures
        space_run_end(a + s, a.len() + i) == a.len() + space_run_end(s, i),
    decreases s.len() - i,
{
    if i < s.len() {
        assert((a + s)[a.len() + i] == s[i]);
        if is_space(s[i]) {
            lemma_space_behind(a, s, i + 1);
        }
    }
}

/// `IF NOT EXISTS` is stripped in any case, before a name or a parenthesis. A
/// text that begins otherwise stays as it is, and so does one in which a name
/// only begins like it.
pub proof fn law_if_not_exists_is_stripped(
    a: Seq<char>,
    b: Seq<char>,
    c: Seq<char>,
    rest: Seq<char>,
)
    requires
        upper_text(a) == seq!['I', 'F'],
        upper_text(b) == seq!['N', 'O', 'T'],
        upper_text(c) == seq!['E', 'X', 'I', 'S', 'T', 'S'],
        rest.len() > 0 && !is_space(rest[0]) && rest[0] != '/' && rest[0] != '-',
    ensures
        ({
            let text = a + seq![' '] + b + seq![' '] + c;
            &&& stripped_if_not_exists(text + seq![' '] + rest) == (true, rest)
            &&& rest[0] == '(' || rest[0] == '"' || rest[0] == '`' ==> stripped_if_not_exists(
                text + rest,
            ) == (true, rest)
            &&& is_alphanumeric(rest[0]) ==> stripped_if_not_exists(text + rest) == (
                false,
                text + rest,
            )
            &&& rest[0] != 'i' && rest[0] != 'I' ==> stripped_if_not_exists(rest) == (false, rest)
        }),
{
    let none = Seq::<char>::empty();
    reveal_strlit("IF");
    reveal_strlit("NOT");
    reveal_strlit("EXISTS");
    assert("IF"@ =~= seq!['I', 'F']);
    assert("NOT"@ =~= seq!['N', 'O', 'T']);
    assert("EXISTS"@ =~= seq!['E', 'X', 'I', 'S', 'T', 'S']);
    assert(upper_text("IF"@) =~= "IF"@);
    assert(upper_text("NOT"@) =~= "NOT"@);
    assert(upper_text("EXISTS"@) =~= "EXISTS"@);
    lemma_prefix_is_read(a, b, c, seq![' '] + rest);
    lemma_prefix_is_read(a, b, c, rest);
    let text = a + seq![' '] + b + seq![' '] + c;
    assert(text + (seq![' '] + rest) =~= text + seq![' '] + rest);
    law_trivia_is_skipped(rest, none, none);
    lemma_behind_space(rest);
    if word_at(rest, 0, "IF"@) {
        assert(lower(rest[0]) == lower("IF"@[0]));
    }
}

proof fn lemma_word_first(a: Seq<char>, word: Seq<char>, rest: Seq<char>)
    requires
        upper_text(a) == upper_text(word),
    ensures
        behind_word(a + rest, word) == Some(rest),
{
    lemma_same_upper(a, word);
    let s = a + rest;
    assert forall|i: int| 0 <= i < word.len() implies lower(s[0 + i]) == lower(
        #[trigger] word[i],
    ) by {
        assert(s[i] == a[i]);
    }
    assert(s.skip(word.len() as int) =~= rest);
}

proof fn lemma_behind_space(s: Seq<char>)
    requires
        s.len() > 0 && !is_space(s[0]) && s[0] != '/' && s[0] != '-',
    ensures
        behind_trivia(seq![' '] + s) == Some(s),
        behind_trivia(s) is None,
        without_trivia(s) == s,
{
    let none = Seq::<char>::empty();
    law_trivia_is_skipped(s, none, none);
}

proof fn lemma_prefix_is_read(a: Seq<char>, b: Seq<char>, c: Seq<char>, rest: Seq<char>)
    requires
        upper_text(a) == "IF"@ && upper_text("IF"@) == "IF"@ && "IF"@ == seq!['I', 'F'],
        upper_text(b) == "NOT"@ && upper_text("NOT"@) == "NOT"@ && "NOT"@ == seq!['N', 'O', 'T'],
        upper_text(c) == "EXISTS"@ && upper_text("EXISTS"@) == "EXISTS"@ && "EXISTS"@ == seq![
            'E',
            'X',
            'I',
            'S',
            'T',
            'S',
        ],
    ensures
        behind_if_not_exists(a + seq![' '] + b + seq![' '] + c + rest) == Some(rest),
{
    let z = c + rest;
    let y = b + (seq![' '] + z);
    let x = a + (seq![' '] + y);
    assert(x =~= a + seq![' '] + b + seq![' '] + c + rest);
    assert(upper_text(a)[0] == upper(a[0]));
    assert(upper_text(b)[0] == upper(b[0]));
    assert(upper_text(c)[0] == upper(c[0]));
    assert(upper_text(a).len() == a.len());
    assert(upper_text(b).len() == b.len());
    assert(upper_text(c).len() == c.len());
    lemma_behind_space(x);
    lemma_word_first(a, "IF"@, seq![' '] + y);
    lemma_behind_space(y);
    lemma_word_first(b, "NOT"@, seq![' '] + z);
    lemma_behind_space(z);
    lemma_word_first(c, "EXISTS"@, rest);
}

/// Between its marks a text is a comment or a quoted segment of Cypher: `//` and
/// the line's end, `/*` and `*/`, and a pair of quotes of one kind. A quote
/// behind a backslash does not end a segment, except between backticks.
pub proof fn law_cypher_pieces(
    before: Seq<char>,
    body: Seq<char>,
    inner: Seq<char>,
    line: Seq<char>,
    q: char,
    behind: Seq<char>,
)
    requires
        !body.contains('*') && !body.contains('/'),
        !inner.contains(q) && !inner.contains('\\'),
        !line.contains('\n'),
        q == '\'' || q == '"' || q == '`',
        behind.len() > 0 ==> behind[0] != q,
    ensures
        ({
            let n = before.len() as int;
            let block = before + seq!['/', '*'] + body + seq!['*', '/'] + behind;
            let slashes = before + seq!['/', '/'] + line + seq!['\n'] + behind;
            let quoted = before + seq![q] + inner + seq![q] + behind;
            let escaped = before + seq![q] + seq!['\\', q] + inner + seq![q] + behind;
            &&& cypher_piece_at(block, n) == (Piece::Comment { end: Some(n + body.len() + 4) })
            &&& cypher_piece_at(slashes, n) == (Piece::Comment { end: Some(n + line.len() + 2) })
            &&& cypher_piece_at(quoted, n) == (Piece::Quoted { end: Some(n + inner.len() + 2) })
            &&& q != '`' ==> cypher_piece_at(escaped, n) == (Piece::Quoted {
                end: Some(n + inner.len() + 4),
            })
            &&& q == '`' && inner.len() > 0 ==> cypher_piece_at(escaped, n) == (Piece::Quoted {
                end: Some(n + 3),
            })
        }),
{
    let n = before.len() as int;
    if behind.len() > 0 && behind[0] == '"' {
        law_sql_pieces(before, body, Seq::empty(), line, '`', behind);
    } else {
        law_sql_pieces(before, body, Seq::empty(), line, '"', behind);
    }
    let block = before + seq!['/', '*'] + body + seq!['*', '/'] + behind;
    assert(block[n] == '/' && block[n + 1] == '*');
    let slashes = before + seq!['/', '/'] + line + seq!['\n'] + behind;
    let g = n + 2 + line.len();
    assert(slashes[g] == '\n');
    assert forall|j: int| n + 2 <= j < g implies slashes[j] != '\n' by {
        assert(slashes[j] == line[j - n - 2]);
        assert(line.contains(line[j - n - 2]));
    }
    lemma_find_char(slashes, '\n', n + 2);
    assert(find_char(slashes, '\n', n + 2) == Some(g));
    let quoted = before + seq![q] + inner + seq![q] + behind;
    let h = n + 1 + inner.len();
    assert forall|j: int| n + 1 <= j < h implies #[trigger] quoted[j] != q && quoted[j]
        != '\\' by {
        assert(quoted[j] == inner[j - n - 1]);
        assert(inner.contains(inner[j - n - 1]));
    }
    lemma_cypher_quote(quoted, n + 1, h, q);
    let escaped = before + seq![q] + seq!['\\', q] + inner + seq![q] + behind;
    let k = n + 3 + inner.len();
    assert forall|j: int| n + 3 <= j < k implies #[trigger] escaped[j] != q && escaped[j]
        != '\\' by {
        assert(escaped[j] == inner[j - n - 3]);
        assert(inner.contains(inner[j - n - 3]));
    }
    assert(escaped[n + 1] == '\\' && escaped[n + 2] == q && escaped[k] == q);
    if q != '`' {
        lemma_cypher_quote(escaped, n + 3, k, q);
    } else if inner.len() > 0 {
        assert(escaped[n + 3] != q);
        reveal_with_fuel(cypher_quote_end, 3);
    }
}

/// A clause is found where its words stand in code, and a search goes on behind
/// comments and quoted segments.
pub proof fn law_clauses_are_found_in_code(
    s: Seq<char>,
    word: Seq<char>,
    i: int,
    e: int,
)
    requires
        0 <= i < s.len(),
        word.len() > 0,
    ensures
        cypher_piece_at(s, i) is Code && (i == 0 || is_ascii_space(s[i - 1])) && word_at(s, i, word)
            && (i + word.len() == s.len() || is_ascii_space(s[i + word.len()]))
            ==> find_clause_from(s, seq![word], i) == Some(i),
        cypher_piece_at(s, i) is Code && i > 0 && !is_ascii_space(s[i - 1]) ==> find_clause_from(
            s,
            seq![word],
            i,
        ) == find_clause_from(s, seq![word], i + 1),
        cypher_piece_at(s, i) is Code && i + word.len() < s.len() && !is_ascii_space(
            s[i + word.len()],
        ) ==> find_clause_from(s, seq![word], i) == find_clause_from(s, seq![word], i + 1),
        cypher_piece_at(s, i) is Code && !word_at(s, i, word) ==> find_clause_from(s, seq![word], i)
            == find_clause_from(s, seq![word], i + 1),
        cypher_piece_at(s, i) == (Piece::Comment { end: Some(e) }) || cypher_piece_at(s, i) == (
        Piece::Quoted { end: Some(e) }) ==> find_clause_from(s, seq![word], i) == find_clause_from(
            s,
            seq![word],
            e,
        ),
{
    assert(seq![word].skip(1) =~= Seq::<Seq<char>>::empty());
    assert(words_end(s, i + word.len(), seq![word].skip(1)) == Some(i + word.len()));
}

/// A graph that has a name is named before every `WHERE`, `RETURN`, `ORDER BY`,
/// `LIMIT` and `SKIP` of a query that names none, at the beginning of one of
/// them, or at the end of the query. What stands before and behind stays.
pub proof fn law_graphs_are_named_in_front(graph: Seq<char>, cypher: Seq<char>) -> (at: int)
    requires
        is_named(graph),
        find_clause(bare_query(cypher), seq!["FROM"@]) is None,
    ensures
        ({
            let c = bare_query(cypher);
            let r = with_graph_target(graph, cypher);
            let a = find_clause(c, seq!["WHERE"@]);
            let b = find_clause(c, seq!["RETURN"@]);
            let o = find_clause(c, seq!["ORDER"@, "BY"@]);
            let l = find_clause(c, seq!["LIMIT"@]);
            let k = find_clause(c, seq!["SKIP"@]);
            let nothing = a is None && b is None && o is None && l is None && k is None;
            &&& a is Some ==> at <= a->0
            &&& b is Some ==> at <= b->0
            &&& o is Some ==> at <= o->0
            &&& l is Some ==> at <= l->0
            &&& k is Some ==> at <= k->0
            &&& !nothing ==> a == Some(at) || b == Some(at) || o == Some(at) || l == Some(at) || k
                == Some(at)
            &&& !nothing ==> r == c.take(at) + "FROM "@ + trim(graph) + " "@ + c.skip(at)
            &&& nothing ==> r == c + " FROM "@ + trim(graph)
        }),
{
    let c = bare_query(cypher);
    match insertion_point(c) {
        Some(k) => k,
        None => 0,
    }
}

/// A query that names its graph is left as it is, without the white space and
/// the semicolons around it; and so is one for the default graph.
pub proof fn law_named_queries_stay(graph: Seq<char>, cypher: Seq<char>)
    ensures
        find_clause(bare_query(cypher), seq!["FROM"@]) is Some ==> with_graph_target(graph, cypher)
            == bare_query(cypher),
        with_graph_target(seq!['d', 'e', 'f', 'a', 'u', 'l', 't'], cypher) == bare_query(cypher),
        with_graph_target(Seq::empty(), cypher) == bare_query(cypher),
        bare_query(cypher + seq![' ']) == bare_query(cypher),
        cypher.len() > 0 && !is_space(cypher[0]) && !is_space(cypher.last()) && cypher.last() != ';'
            ==> bare_query(cypher + seq![';']) == cypher && bare_query(cypher) == cypher,
{
    reveal_strlit("default");
    let word = seq!['d', 'e', 'f', 'a', 'u', 'l', 't'];
    assert("default"@ =~= word);
    lemma_trimmed_part(word, 0, 7);
    assert(word.subrange(0, 7) =~= word);
    let none = Seq::<char>::empty();
    let (x, y) = lemma_trim(none);
    assert(trim(none).len() == 0);
    lemma_trim_blank(cypher);
    if cypher.len() > 0 && !is_space(cypher[0]) && !is_space(cypher.last()) && cypher.last() != ';' {
        let n = cypher.len() as int;
        let t = cypher + seq![';'];
        lemma_trimmed_part(cypher, 0, n);
        lemma_trimmed_part(t, 0, n + 1);
        assert(cypher.subrange(0, n) =~= cypher);
        assert(t.subrange(0, n + 1) =~= t);
        reveal_with_fuel(trim_end_char, 2);
        assert(t.drop_last() =~= cypher);
    }
}

/// At the top level a word is found; inside parentheses, brackets and braces it
/// is not, and a bracket that does not match makes the text malformed.
pub proof fn law_brackets_hide_words(
    s: Seq<char>,
    word: Seq<char>,
    i: int,
    complete: bool,
    open: Seq<char>,
    found: Option<int>,
)
    requires
        0 <= i < s.len(),
        piece_at(s, i) is Code,
        open.len() > 0,
    ensures
        ({
            let none = Seq::<char>::empty();
            let other = s[i] != '(' && s[i] != '[' && s[i] != '{' && s[i] != ')' && s[i] != ']'
                && s[i] != '}';
            let closed = open.drop_last();
            let matched = (s[i] == ')' && open.last() == '(') || (s[i] == ']' && open.last() == '[')
                || (s[i] == '}' && open.last() == '{');
            let next = |o: Seq<char>| scan_from(s, word, None, complete, i + 1, o, found);
            let here = scan_from(s, word, None, complete, i, open, found);
            &&& other && word_at(s, i, word) ==> scan_from(s, word, None, false, i, none, None).found
                == Some(i)
            &&& other ==> here == next(open)
            &&& s[i] == '(' || s[i] == '[' || s[i] == '{' ==> here == next(open.push(s[i]))
            &&& matched ==> here == next(closed)
            &&& !matched && (s[i] == ')' || s[i] == ']' || s[i] == '}') ==> here.malformed
                && here.found is None
            &&& s[i] == ')' || s[i] == ']' || s[i] == '}' ==> scan_from(
                s,
                word,
                None,
                complete,
                i,
                none,
                found,
            ).malformed
            &&& scan_from(s, word, None, complete, s.len() as int, open, found).malformed
            &&& !scan_from(s, word, None, complete, s.len() as int, none, found).malformed
        }),
{
}

/// A quote that is never closed counts as plain text in a second scan: what
/// stands behind it is found there.
pub proof fn law_open_quotes_are_plain_text_once(s: Seq<char>, word: Seq<char>, u: int)
    requires
        0 <= u < s.len(),
        s[u] == '\'' || s[u] == '"' || s[u] == '`',
        scan(s, word, None, false).unterminated == Some(u),
        scan(s, word, None, false).found is None,
        !word_at(s, u, word),
    ensures
        find_at_top_level(s, word) == scan(s, word, Some(u), false).found,
        scan_from(s, word, Some(u), false, u, Seq::empty(), None) == scan_from(
            s,
            word,
            Some(u),
            false,
            u + 1,
            Seq::empty(),
            None,
        ),
{
}

/// The words of a clause are set off from each other, and from what stands
/// before and behind them.
pub proof fn law_clause_words_are_set_off(s: Seq<char>, i: int, a: Seq<char>, b: Seq<char>)
    requires
        0 <= i < s.len(),
        a.len() > 0,
    ensures
        clause_at(s, i, seq![a, b]) ==> is_ascii_space(s[i + a.len()]) && (i == 0
            || is_ascii_space(s[i - 1])),
        word_at(s, i, a) && is_ascii_space(s[i + a.len()]) && i + a.len() + 1 < s.len()
            && !is_ascii_space(s[i + a.len() + 1]) && word_at(s, i + a.len() + 1, b) && (i == 0
            || is_ascii_space(s[i - 1])) && i + a.len() + 1 + b.len() == s.len() ==> clause_at(
            s,
            i,
            seq![a, b],
        ),
{
    reveal_with_fuel(words_end, 3);
    reveal_with_fuel(ascii_space_end, 3);
    let words = seq![a, b];
    assert(words.skip(1) =~= seq![b]);
    assert(seq![b].skip(1) =~= Seq::<Seq<char>>::empty());
}

} // verus!
