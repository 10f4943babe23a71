//! The clauses of a `SELECT` statement.

use vstd::prelude::*;
use vstd::string::*;
use crate::sql::clauses::{
    clause_end, depth_behind, find_keyword, find_outside, is_literal_quote, lemma_find_keyword,
    list_items, stands_alone,
};
use crate::sql::lexical::{lemma_quote_end, pair_at, quote_end};
use crate::sql::select::group_by_columns;
use crate::sql::tail::{clause_predicate, order_by, order_entries, where_clause, where_predicate};
use crate::text::ascii::{is_letter, is_upper, lower, upper, upper_text, word_at};
use crate::text::trim::{is_space, lemma_trim, lemma_trimmed_part, trim};

verus! {

/// The depth of parentheses behind a text, read from position `i` at the given
/// depth. `None` where a quote stays open.
pub open spec fn depth_at_end(s: Seq<char>, i: int, depth: nat) -> Option<nat>
    decreases s.len() - i,
{
    if i < 0 || i >= s.len() {
        Some(depth)
    } else if is_literal_quote(s[i]) {
        match quote_end(s, i + 1, s[i]) {
            Some(e) => if i < e <= s.len() {
                depth_at_end(s, e, depth)
            } else {
                None
            },
            None => None,
        }
    } else {
        depth_at_end(s, i + 1, depth_behind(s[i], depth))
    }
}

/// The text leaves no quote and no parenthesis open.
pub open spec fn is_closed(s: Seq<char>) -> bool {
    depth_at_end(s, 0, 0) == Some(0nat)
}

pub(crate) proof fn lemma_quote_end_before(s: Seq<char>, t: Seq<char>, i: int, q: char)
    requires
        0 <= i <= s.len(),
        t.len() > 0 ==> t[0] != q,
        quote_end(s, i, q) is Some,
    ensures
        quote_end(s + t, i, q) == quote_end(s, i, q),
    decreases s.len() - i,
{
    if i < s.len() {
        assert((s + t)[i] == s[i]);
        if i + 1 < s.len() {
            assert((s + t)[i + 1] == s[i + 1]);
        } else if t.len() > 0 {
            assert((s + t)[i + 1] == t[0]);
        }
        if pair_at(s, i, q, q) {
            lemma_quote_end_before(s, t, i + 2, q);
        } else if s[i] != q {
            lemma_quote_end_before(s, t, i + 1, q);
        }
    }
}

pub(crate) proof fn lemma_quote_end_behind(a: Seq<char>, b: Seq<char>, i: int, q: char)
    requires
        0 <= i <= b.len(),
    ensures
        quote_end(a + b, a.len() + i, q) == (match quote_end(b, i, q) {
            Some(e) => Some(a.len() + e),
            None => None::<int>,
        }),
    decreases b.len() - i,
{
    let s = a + b;
    if i < b.len() {
        assert(s[a.len() + i] == b[i]);
        if i + 1 < b.len() {
            assert(s[a.len() + i + 1] == b[i + 1]);
        }
        if pair_at(b, i, q, q) {
            lemma_quote_end_behind(a, b, i + 2, q);
        } else if b[i] != q {
            lemma_quote_end_behind(a, b, i + 1, q);
        }
    }
}

pub(crate) proof fn lemma_word_before(s: Seq<char>, t: Seq<char>, i: int, word: Seq<char>)
    requires
        0 <= i,
        i + word.len() <= s.len(),
    ensures
        word_at(s + t, i, word) == word_at(s, i, word),
{
    assert forall|j: int| 0 <= j < word.len() implies (s + t)[i + j] == #[trigger] s[i + j] by {}
    if word_at(s + t, i, word) {
        assert forall|j: int| 0 <= j < word.len() implies lower(s[i + j]) == lower(
            #[trigger] word[j],
        ) by {
            assert(lower((s + t)[i + j]) == lower(word[j]));
        }
    }
    if word_at(s, i, word) {
        assert forall|j: int| 0 <= j < word.len() implies lower((s + t)[i + j]) == lower(
            #[trigger] word[j],
        ) by {
            assert(lower(s[i + j]) == lower(word[j]));
        }
    }
}

pub(crate) proof fn lemma_word_behind(a: Seq<char>, b: Seq<char>, i: int, word: Seq<char>)
    requires
        0 <= i,
    ensures
        word_at(a + b, a.len() + i, word) == word_at(b, i, word),
{
    let s = a + b;
    if word_at(s, a.len() + i, word) {
        assert forall|j: int| 0 <= j < word.len() implies lower(b[i + j]) == lower(
            #[trigger] word[j],
        ) by {
            assert(lower(s[a.len() + i + j]) == lower(word[j]));
            assert(s[a.len() + i + j] == b[i + j]);
        }
    }
    if word_at(b, i, word) {
        assert forall|j: int| 0 <= j < word.len() implies lower(s[a.len() + i + j]) == lower(
            #[trigger] word[j],
        ) by {
            assert(lower(b[i + j]) == lower(word[j]));
            assert(s[a.len() + i + j] == b[i + j]);
        }
    }
}

/// A keyword whose blanks are followed by a `B`, as in `GROUP BY`.
pub open spec fn is_keyword_text(word: Seq<char>) -> bool {
    &&& word.len() > 0
    &&& word[0] != ' '
    &&& forall|j: int|
        0 <= j < word.len() && #[trigger] word[j] == ' ' ==> j + 1 < word.len() && word[j + 1]
            == 'B'
}

/// A text goes on behind a keyword that it could not be part of.
pub open spec fn goes_on(t: Seq<char>) -> bool {
    &&& t.len() > 1
    &&& t[0] == ' '
    &&& t[1] != 'B'
    &&& t[1] != 'b'
}

proof fn lemma_no_span(s: Seq<char>, t: Seq<char>, k: int, word: Seq<char>)
    requires
        is_keyword_text(word),
        goes_on(t),
        0 <= k < s.len(),
        word_at(s + t, k, word),
    ensures
        k + word.len() <= s.len(),
{
    if k + word.len() > s.len() {
        let j = s.len() - k;
        assert(lower((s + t)[k + j]) == lower(word[j]));
        assert((s + t)[k + j] == t[0]);
        assert(word[j] == ' ');
        assert(word[j + 1] == 'B');
        assert(lower((s + t)[k + (j + 1)]) == lower(word[j + 1]));
        assert((s + t)[k + (j + 1)] == t[1]);
    }
}

/// What is found in a text is found where the text goes on; and what is not is
/// looked for in what follows.
pub(crate) proof fn lemma_find_before(
    s: Seq<char>,
    t: Seq<char>,
    word: Seq<char>,
    start: int,
    i: int,
    depth: nat,
)
    requires
        0 <= i <= s.len(),
        is_keyword_text(word),
        goes_on(t),
        depth_at_end(s, i, depth) is Some,
    ensures
        find_outside(s + t, word, start, true, i, depth) == (match find_outside(
            s,
            word,
            start,
            true,
            i,
            depth,
        ) {
            Some(k) => Some(k),
            None => find_outside(
                s + t,
                word,
                start,
                true,
                s.len() as int,
                depth_at_end(s, i, depth)->0,
            ),
        }),
    decreases s.len() - i,
{
    let whole = s + t;
    if i < s.len() {
        assert(whole[i] == s[i]);
        if is_literal_quote(s[i]) {
            lemma_quote_end(s, i + 1, s[i]);
            lemma_quote_end_before(s, t, i + 1, s[i]);
            lemma_find_before(s, t, word, start, quote_end(s, i + 1, s[i])->0, depth);
        } else {
            let behind = depth_behind(s[i], depth);
            if word_at(whole, i, word) {
                lemma_no_span(s, t, i, word);
            }
            if i + word.len() <= s.len() {
                lemma_word_before(s, t, i, word);
                if i > 0 {
                    assert(whole[i - 1] == s[i - 1]);
                }
                if i + word.len() < s.len() {
                    assert(whole[(i + word.len()) as int] == s[(i + word.len()) as int]);
                } else {
                    assert(whole[(i + word.len()) as int] == t[0]);
                }
                assert(stands_alone(whole, i, word) == stands_alone(s, i, word));
            }
            lemma_find_before(s, t, word, start, i + 1, behind);
        }
    }
}

/// Behind a text that ends with a blank, a word is found where it is found in
/// what follows.
pub(crate) proof fn lemma_find_behind(
    a: Seq<char>,
    b: Seq<char>,
    word: Seq<char>,
    start: int,
    i: int,
    depth: nat,
)
    requires
        a.len() > 0,
        a.last() == ' ',
        word.len() > 0,
        0 <= i <= b.len(),
        start <= a.len(),
    ensures
        find_outside(a + b, word, start, true, a.len() + i, depth) == (match find_outside(
            b,
            word,
            0,
            true,
            i,
            depth,
        ) {
            Some(k) => Some(a.len() + k),
            None => None::<int>,
        }),
    decreases b.len() - i,
{
    let s = a + b;
    if i < b.len() {
        assert(s[a.len() + i] == b[i]);
        if is_literal_quote(b[i]) {
            lemma_quote_end(b, i + 1, b[i]);
            lemma_quote_end_behind(a, b, i + 1, b[i]);
            match quote_end(b, i + 1, b[i]) {
                Some(e) => lemma_find_behind(a, b, word, start, e, depth),
                None => {},
            }
        } else {
            lemma_word_behind(a, b, i, word);
            if word_at(b, i, word) {
                if i > 0 {
                    assert(s[a.len() + i - 1] == b[i - 1]);
                } else {
                    assert(s[a.len() + i - 1] == a.last());
                }
                if i + word.len() < b.len() {
                    assert(s[a.len() + i + word.len()] == b[(i + word.len()) as int]);
                }
                assert(stands_alone(s, a.len() + i, word) == stands_alone(b, i, word));
            }
            lemma_find_behind(a, b, word, start, i + 1, depth_behind(b[i], depth));
        }
    }
}

/// Plain characters before the start, and blanks, are passed over.
pub(crate) proof fn lemma_find_passes(
    s: Seq<char>,
    word: Seq<char>,
    start: int,
    i: int,
    j: int,
    depth: nat,
)
    requires
        0 <= i <= j <= s.len(),
        is_keyword_text(word),
        forall|k: int|
            i <= k < j ==> !is_literal_quote(#[trigger] s[k]) && s[k] != '(' && s[k] != ')' && (k
                < start || s[k] == ' '),
    ensures
        find_outside(s, word, start, true, i, depth) == find_outside(
            s,
            word,
            start,
            true,
            j,
            depth,
        ),
    decreases j - i,
{
    if i < j {
        assert(!is_literal_quote(s[i]));
        if word_at(s, i, word) {
            assert(lower(s[i + 0]) == lower(word[0]));
        }
        lemma_find_passes(s, word, start, i + 1, j, depth);
    }
}

pub(crate) proof fn lemma_found_later(
    s: Seq<char>,
    word: Seq<char>,
    start: int,
    i: int,
    depth: nat,
)
    requires
        0 <= i,
    ensures
        find_outside(s, word, start, true, i, depth) matches Some(k) ==> i <= k < s.len() && start
            <= k,
    decreases s.len() - i,
{
    if i < s.len() {
        if is_literal_quote(s[i]) {
            lemma_quote_end(s, i + 1, s[i]);
            match quote_end(s, i + 1, s[i]) {
                Some(e) => lemma_found_later(s, word, start, e, depth),
                None => {},
            }
        } else {
            lemma_found_later(s, word, start, i + 1, depth_behind(s[i], depth));
        }
    }
}

/// The clause ends at the first of the keywords.
pub(crate) proof fn lemma_clause_ends_at(
    s: Seq<char>,
    start: int,
    keywords: Seq<Seq<char>>,
    end: int,
    j: int,
)
    requires
        0 <= end < s.len(),
        0 <= j < keywords.len(),
        find_keyword(s, keywords[j], start) == Some(end),
        forall|i: int|
            0 <= i < keywords.len() ==> (find_keyword(s, #[trigger] keywords[i], start) matches Some(
                k,
            ) ==> k >= end),
    ensures
        clause_end(s, start, keywords) == end,
    decreases keywords.len(),
{
    let fewer = keywords.drop_last();
    assert forall|i: int| 0 <= i < fewer.len() implies (find_keyword(
        s,
        #[trigger] fewer[i],
        start,
    ) matches Some(k) ==> k >= end) by {
        assert(fewer[i] == keywords[i]);
    }
    assert(keywords.last() == keywords[keywords.len() - 1]);
    if j < fewer.len() {
        assert(fewer[j] == keywords[j]);
        lemma_clause_ends_at(s, start, fewer, end, j);
    } else {
        lemma_clause_end_behind(s, start, fewer, end);
    }
}

proof fn lemma_clause_end_behind(s: Seq<char>, start: int, keywords: Seq<Seq<char>>, end: int)
    requires
        end <= s.len(),
        forall|i: int|
            0 <= i < keywords.len() ==> (find_keyword(s, #[trigger] keywords[i], start) matches Some(
                k,
            ) ==> k >= end),
    ensures
        clause_end(s, start, keywords) >= end,
    decreases keywords.len(),
{
    if keywords.len() > 0 {
        let fewer = keywords.drop_last();
        assert forall|i: int| 0 <= i < fewer.len() implies (find_keyword(
            s,
            #[trigger] fewer[i],
            start,
        ) matches Some(k) ==> k >= end) by {
            assert(fewer[i] == keywords[i]);
        }
        assert(keywords.last() == keywords[keywords.len() - 1]);
        lemma_clause_end_behind(s, start, fewer, end);
    }
}

/// Without any of the keywords the clause ends with the text.
pub(crate) proof fn lemma_clause_runs_to_the_end(s: Seq<char>, start: int, keywords: Seq<Seq<char>>)
    requires
        forall|i: int|
            0 <= i < keywords.len() ==> find_keyword(s, #[trigger] keywords[i], start) is None,
    ensures
        clause_end(s, start, keywords) == s.len(),
    decreases keywords.len(),
{
    if keywords.len() > 0 {
        let fewer = keywords.drop_last();
        assert forall|i: int| 0 <= i < fewer.len() implies find_keyword(
            s,
            #[trigger] fewer[i],
            start,
        ) is None by {
            assert(fewer[i] == keywords[i]);
        }
        assert(keywords.last() == keywords[keywords.len() - 1]);
        lemma_clause_runs_to_the_end(s, start, fewer);
    }
}

/// What follows a keyword that ends a clause: the keyword between blanks, and
/// any text.
pub open spec fn behind_clause(keyword: Seq<char>, rest: Seq<char>) -> Seq<char> {
    seq![' '] + keyword + seq![' '] + rest
}

pub(crate) proof fn lemma_behind_clause(s: Seq<char>, keyword: Seq<char>, rest: Seq<char>)
    requires
        is_keyword_text(keyword),
        keyword[0] != 'B' && keyword[0] != 'b',
    ensures
        goes_on(behind_clause(keyword, rest)),
        word_at(s + behind_clause(keyword, rest), s.len() as int + 1, keyword),
        stands_alone(s + behind_clause(keyword, rest), s.len() as int + 1, keyword),
        (s + behind_clause(keyword, rest))[s.len() as int] == ' ',
        s.len() + 1 + keyword.len() < (s + behind_clause(keyword, rest)).len(),
{
    let t = behind_clause(keyword, rest);
    let whole = s + t;
    assert(t[1] == keyword[0]);
    assert forall|j: int| 0 <= j < keyword.len() implies lower(whole[s.len() + 1 + j]) == lower(
        #[trigger] keyword[j],
    ) by {
        assert(whole[s.len() + 1 + j] == keyword[j]);
    }
    assert(whole[s.len() as int] == ' ');
    assert(whole[s.len() as int + 1 + keyword.len()] == ' ');
}

/// A clause that runs to the end of a text ends at a keyword that follows the
/// text.
pub(crate) proof fn lemma_clause_is_cut(
    s: Seq<char>,
    start: int,
    keywords: Seq<Seq<char>>,
    j: int,
    rest: Seq<char>,
)
    requires
        0 <= start <= s.len(),
        is_closed(s),
        0 <= j < keywords.len(),
        forall|i: int| 0 <= i < keywords.len() ==> is_keyword_text(#[trigger] keywords[i]),
        forall|i: int|
            0 <= i < keywords.len() ==> find_keyword(s, #[trigger] keywords[i], start) is None,
        keywords[j][0] != 'B' && keywords[j][0] != 'b',
        !is_literal_quote(keywords[j][0]) && keywords[j][0] != '(' && keywords[j][0] != ')',
    ensures
        clause_end(s + behind_clause(keywords[j], rest), start, keywords) == s.len() + 1,
{
    let t = behind_clause(keywords[j], rest);
    let whole = s + t;
    let n = s.len() as int;
    lemma_behind_clause(s, keywords[j], rest);
    assert forall|i: int| 0 <= i < keywords.len() implies (find_keyword(
        whole,
        #[trigger] keywords[i],
        start,
    ) matches Some(k) ==> k >= n + 1) by {
        lemma_find_before(s, t, keywords[i], start, 0, 0);
        lemma_find_passes(whole, keywords[i], start, n, n + 1, 0);
        lemma_found_later(whole, keywords[i], start, n + 1, 0);
    }
    lemma_find_before(s, t, keywords[j], start, 0, 0);
    lemma_find_passes(whole, keywords[j], start, n, n + 1, 0);
    assert(whole[n + 1] == keywords[j][0]);
    assert(find_keyword(whole, keywords[j], start) == Some(n + 1));
    lemma_clause_ends_at(whole, start, keywords, n + 1, j);
}

/// A keyword that stands in a text stands at the same place where the text goes
/// on.
pub(crate) proof fn lemma_keyword_stays(s: Seq<char>, t: Seq<char>, word: Seq<char>)
    requires
        is_closed(s),
        is_keyword_text(word),
        goes_on(t),
        find_keyword(s, word, 0) is Some,
    ensures
        find_keyword(s + t, word, 0) == find_keyword(s, word, 0),
{
    lemma_find_before(s, t, word, 0, 0, 0);
}

/// Blanks around a text do not change what trimming leaves.
pub(crate) proof fn lemma_trim_blank(s: Seq<char>)
    ensures
        trim(s + seq![' ']) == trim(s),
        trim(seq![' '] + s) == trim(s),
{
    assert((s + seq![' ']).subrange(0, s.len() as int) =~= s);
    assert((seq![' '] + s).subrange(1, 1 + s.len() as int) =~= s);
    lemma_trim_same(s, s + seq![' '], 0);
    lemma_trim_same(s, seq![' '] + s, 1);
}

/// A text with white space around it trims to the same.
pub(crate) proof fn lemma_trim_same(s: Seq<char>, t: Seq<char>, at: int)
    requires
        0 <= at,
        at + s.len() <= t.len(),
        t.subrange(at, at + s.len()) == s,
        forall|i: int| 0 <= i < at ==> is_space(#[trigger] t[i]),
        forall|i: int| at + s.len() <= i < t.len() ==> is_space(#[trigger] t[i]),
    ensures
        trim(t) == trim(s),
{
    let (a, b) = lemma_trim(s);
    let (x, y) = lemma_trim(t);
    assert forall|i: int| 0 <= i < s.len() implies t[at + i] == #[trigger] s[i] by {
        assert(t.subrange(at, at + s.len())[i] == s[i]);
    }
    if a < b {
        assert forall|i: int| 0 <= i < at + a implies is_space(#[trigger] t[i]) by {
            if i >= at {
                assert(is_space(s[i - at]));
            }
        }
        assert forall|i: int| at + b <= i < t.len() implies is_space(#[trigger] t[i]) by {
            if i < at + s.len() {
                assert(is_space(s[i - at]));
            }
        }
        assert(t[at + a] == s[a] && t[at + (b - 1)] == s[b - 1]);
        lemma_trimmed_part(t, at + a, at + b);
        assert(t.subrange(at + a, at + b) =~= s.subrange(a, b));
    } else {
        assert forall|i: int| 0 <= i < t.len() implies is_space(#[trigger] t[i]) by {
            if at <= i < at + s.len() {
                let j = i - at;
                assert(is_space(s[j]));
                assert(t[at + j] == s[j]);
            }
        }
        if x < y {
            assert(is_space(t[x]));
        }
        assert(trim(t) =~= Seq::<char>::empty());
        assert(trim(s) =~= Seq::<char>::empty());
    }
}

pub(crate) proof fn lemma_keywords()
    ensures
        is_keyword_text("GROUP BY"@) && "GROUP BY"@.len() == 8 && "GROUP BY"@[0] == 'G',
        is_keyword_text("ORDER BY"@) && "ORDER BY"@.len() == 8 && "ORDER BY"@[0] == 'O',
        is_keyword_text("LIMIT"@) && "LIMIT"@.len() == 5 && "LIMIT"@[0] == 'L',
        is_keyword_text("OFFSET"@) && "OFFSET"@.len() == 6 && "OFFSET"@[0] == 'O',
        is_keyword_text("HAVING"@) && "HAVING"@.len() == 6 && "HAVING"@[0] == 'H',
        is_keyword_text("WHERE"@) && "WHERE"@.len() == 5 && "WHERE"@[0] == 'W',
        is_keyword_text("SELECT"@) && "SELECT"@.len() == 6 && "SELECT"@[0] == 'S',
        is_keyword_text("FROM"@) && "FROM"@.len() == 4 && "FROM"@[0] == 'F',
        is_keyword_text(";"@) && ";"@.len() == 1 && ";"@[0] == ';',
{
    reveal_strlit("GROUP BY");
    reveal_strlit("ORDER BY");
    reveal_strlit("LIMIT");
    reveal_strlit("OFFSET");
    reveal_strlit("HAVING");
    reveal_strlit("WHERE");
    reveal_strlit("SELECT");
    reveal_strlit("FROM");
    reveal_strlit(";");
}

/// What follows the list of `GROUP BY` never changes its columns: a statement
/// that ends in the list has the same columns as with `HAVING`, `ORDER BY`,
/// `LIMIT`, `OFFSET` or a semicolon and any text behind it.
pub proof fn law_grouping_ends_with_its_clause(
    s: Seq<char>,
    keyword: Seq<char>,
    rest: Seq<char>,
)
    requires
        keyword == "HAVING"@ || keyword == "ORDER BY"@ || keyword == "LIMIT"@ || keyword
            == "OFFSET"@ || keyword == ";"@,
        is_closed(s),
        find_keyword(s, "GROUP BY"@, 0) matches Some(k) && {
            &&& find_keyword(s, "HAVING"@, k + 8) is None
            &&& find_keyword(s, "ORDER BY"@, k + 8) is None
            &&& find_keyword(s, "LIMIT"@, k + 8) is None
            &&& find_keyword(s, "OFFSET"@, k + 8) is None
            &&& find_keyword(s, ";"@, k + 8) is None
        },
    ensures
        group_by_columns(s + seq![' '] + keyword + seq![' '] + rest) == group_by_columns(s),
{
    lemma_keywords();
    let k = find_keyword(s, "GROUP BY"@, 0)->0;
    lemma_find_keyword(s, "GROUP BY"@, 0);
    let ends = seq!["ORDER BY"@, "LIMIT"@, "OFFSET"@, "HAVING"@, ";"@];
    assert(ends[0] == "ORDER BY"@ && ends[1] == "LIMIT"@ && ends[2] == "OFFSET"@ && ends[3]
        == "HAVING"@ && ends[4] == ";"@);
    let j: int = choose|j: int| 0 <= j < ends.len() && #[trigger] ends[j] == keyword;
    assert(0 <= j < ends.len() && ends[j] == keyword);
    let t = behind_clause(keyword, rest);
    let whole = s + t;
    assert(whole =~= s + seq![' '] + keyword + seq![' '] + rest);
    lemma_behind_clause(s, keyword, rest);
    lemma_keyword_stays(s, t, "GROUP BY"@);
    lemma_clause_is_cut(s, k + 8, ends, j, rest);
    lemma_clause_runs_to_the_end(s, k + 8, ends);
    let list = s.subrange(k + 8, s.len() as int);
    assert(whole.subrange(k + 8, s.len() as int + 1) =~= list + seq![' ']);
    lemma_trim_blank(list);
}

/// What follows the list of `ORDER BY` never changes the order.
pub proof fn law_ordering_ends_with_its_clause(
    s: Seq<char>,
    keyword: Seq<char>,
    rest: Seq<char>,
)
    requires
        keyword == "LIMIT"@ || keyword == "OFFSET"@ || keyword == ";"@,
        is_closed(s),
        find_keyword(s, "ORDER BY"@, 0) matches Some(k) && {
            &&& find_keyword(s, "LIMIT"@, k + 8) is None
            &&& find_keyword(s, "OFFSET"@, k + 8) is None
            &&& find_keyword(s, ";"@, k + 8) is None
        },
    ensures
        order_by(s + seq![' '] + keyword + seq![' '] + rest) == order_by(s),
{
    lemma_keywords();
    let k = find_keyword(s, "ORDER BY"@, 0)->0;
    lemma_find_keyword(s, "ORDER BY"@, 0);
    let ends = seq!["LIMIT"@, "OFFSET"@, ";"@];
    assert(ends[0] == "LIMIT"@ && ends[1] == "OFFSET"@ && ends[2] == ";"@);
    let j: int = choose|j: int| 0 <= j < ends.len() && #[trigger] ends[j] == keyword;
    assert(0 <= j < ends.len() && ends[j] == keyword);
    let t = behind_clause(keyword, rest);
    let whole = s + t;
    assert(whole =~= s + seq![' '] + keyword + seq![' '] + rest);
    lemma_behind_clause(s, keyword, rest);
    lemma_keyword_stays(s, t, "ORDER BY"@);
    lemma_clause_is_cut(s, k + 8, ends, j, rest);
    lemma_clause_runs_to_the_end(s, k + 8, ends);
    let list = s.subrange(k + 8, s.len() as int);
    assert(whole.subrange(k + 8, s.len() as int + 1) =~= list + seq![' ']);
    lemma_trim_blank(list);
}

/// What follows the predicate of `WHERE` never changes it.
pub proof fn law_filtering_ends_with_its_clause(
    s: Seq<char>,
    keyword: Seq<char>,
    rest: Seq<char>,
)
    requires
        keyword == "ORDER BY"@ || keyword == "GROUP BY"@ || keyword == "LIMIT"@ || keyword
            == "OFFSET"@ || keyword == "HAVING"@ || keyword == ";"@,
        is_closed(s),
        find_keyword(s, "WHERE"@, 0) matches Some(k) && {
            &&& find_keyword(s, "ORDER BY"@, k + 5) is None
            &&& find_keyword(s, "GROUP BY"@, k + 5) is None
            &&& find_keyword(s, "LIMIT"@, k + 5) is None
            &&& find_keyword(s, "OFFSET"@, k + 5) is None
            &&& find_keyword(s, "HAVING"@, k + 5) is None
            &&& find_keyword(s, ";"@, k + 5) is None
        },
    ensures
        where_clause(s + seq![' '] + keyword + seq![' '] + rest) == where_clause(s),
        where_predicate(s + seq![' '] + keyword + seq![' '] + rest) == where_predicate(s),
{
    lemma_keywords();
    let k = find_keyword(s, "WHERE"@, 0)->0;
    lemma_find_keyword(s, "WHERE"@, 0);
    let ends = seq!["ORDER BY"@, "GROUP BY"@, "LIMIT"@, "OFFSET"@, "HAVING"@, ";"@];
    assert(ends[0] == "ORDER BY"@ && ends[1] == "GROUP BY"@ && ends[2] == "LIMIT"@ && ends[3]
        == "OFFSET"@ && ends[4] == "HAVING"@ && ends[5] == ";"@);
    let j: int = choose|j: int| 0 <= j < ends.len() && #[trigger] ends[j] == keyword;
    assert(0 <= j < ends.len() && ends[j] == keyword);
    let t = behind_clause(keyword, rest);
    let whole = s + t;
    assert(whole =~= s + seq![' '] + keyword + seq![' '] + rest);
    lemma_behind_clause(s, keyword, rest);
    lemma_keyword_stays(s, t, "WHERE"@);
    lemma_clause_is_cut(s, k + 5, ends, j, rest);
    lemma_clause_runs_to_the_end(s, k + 5, ends);
    let clause = s.subrange(k + 5, s.len() as int);
    assert(whole.subrange(k + 5, s.len() as int + 1) =~= clause + seq![' ']);
    lemma_trim_blank(clause);
}

/// A keyword behind a closed text that does not hold it is found, in any case.
pub(crate) proof fn lemma_clause_found(
    p: Seq<char>,
    keyword: Seq<char>,
    word: Seq<char>,
    rest: Seq<char>,
)
    requires
        is_closed(p),
        is_keyword_text(word),
        is_letter(word[0]),
        word[0] != 'B' && word[0] != 'b',
        upper_text(keyword) == upper_text(word),
        find_keyword(p, word, 0) is None,
    ensures
        goes_on(behind_clause(keyword, rest)),
        find_keyword(p + behind_clause(keyword, rest), word, 0) == Some(p.len() as int + 1),
{
    let t = behind_clause(keyword, rest);
    let whole = p + t;
    let n = p.len() as int;
    lemma_same_upper(keyword, word);
    assert(t[1] == keyword[0]);
    lemma_find_before(p, t, word, 0, 0, 0);
    assert(whole[n] == ' ');
    lemma_find_passes(whole, word, 0, n, n + 1, 0);
    assert forall|j: int| 0 <= j < word.len() implies lower(whole[n + 1 + j]) == lower(
        #[trigger] word[j],
    ) by {
        assert(whole[n + 1 + j] == keyword[j]);
    }
    assert(whole[n + 1 + 0] == keyword[0]);
    assert(whole[n + 1 + word.len()] == ' ');
    assert(word_at(whole, n + 1, word));
    assert(stands_alone(whole, n + 1, word));
}

pub(crate) proof fn lemma_same_upper(a: Seq<char>, b: Seq<char>)
    requires
        upper_text(a) == upper_text(b),
    ensures
        a.len() == b.len(),
        forall|j: int| 0 <= j < b.len() ==> lower(a[j]) == lower(#[trigger] b[j]),
{
    assert(upper_text(a).len() == a.len() && upper_text(b).len() == b.len());
    assert forall|j: int| 0 <= j < b.len() implies lower(a[j]) == lower(#[trigger] b[j]) by {
        assert(upper_text(a)[j] == upper(a[j]));
        assert(upper_text(b)[j] == upper(b[j]));
    }
}

/// Behind such a keyword, another one is found where it is found in what
/// follows.
pub(crate) proof fn lemma_found_in_clause(
    p: Seq<char>,
    keyword: Seq<char>,
    word: Seq<char>,
    rest: Seq<char>,
    end: Seq<char>,
)
    requires
        is_closed(p),
        is_keyword_text(word),
        forall|j: int| 0 <= j < word.len() ==> is_letter(#[trigger] word[j]) || word[j] == ' ',
        goes_on(behind_clause(keyword, rest)),
        upper_text(keyword) == upper_text(word),
        is_keyword_text(end),
    ensures
        find_keyword(p + behind_clause(keyword, rest), end, p.len() as int + 1 + word.len()) == (
        match find_keyword(rest, end, 0) {
            Some(k) => Some(p.len() as int + 2 + word.len() + k),
            None => None::<int>,
        }),
{
    let t = behind_clause(keyword, rest);
    let whole = p + t;
    let start = p.len() as int + 1 + word.len();
    let a = p + (seq![' '] + keyword + seq![' ']);
    lemma_same_upper(keyword, word);
    assert(whole =~= a + rest);
    lemma_find_before(p, t, end, start, 0, 0);
    lemma_found_later(p, end, start, 0, 0);
    assert forall|k: int| p.len() <= k < a.len() implies !is_literal_quote(#[trigger] whole[k])
        && whole[k] != '(' && whole[k] != ')' && (k < start || whole[k] == ' ') by {
        let j = k - p.len() - 1;
        if 0 <= j < word.len() {
            assert(whole[k] == keyword[j]);
            assert(lower(keyword[j]) == lower(word[j]));
            assert(is_letter(word[j]) || word[j] == ' ');
        } else {
            assert(whole[k] == ' ');
        }
    }
    lemma_find_passes(whole, end, start, p.len() as int, a.len() as int, 0);
    lemma_find_behind(a, rest, end, start, 0, 0);
}

/// The columns of `GROUP BY`, in any case, are the items of the list behind it,
/// up to the next clause.
pub proof fn law_grouping_reads_its_list(p: Seq<char>, keyword: Seq<char>, list: Seq<char>)
    requires
        is_closed(p),
        find_keyword(p, "GROUP BY"@, 0) is None,
        upper_text(keyword) == "GROUP BY"@,
        find_keyword(list, "HAVING"@, 0) is None,
        find_keyword(list, "ORDER BY"@, 0) is None,
        find_keyword(list, "LIMIT"@, 0) is None,
        find_keyword(list, "OFFSET"@, 0) is None,
        find_keyword(list, ";"@, 0) is None,
    ensures
        group_by_columns(p + seq![' '] + keyword + seq![' '] + list) == list_items(trim(list)),
{
    lemma_keywords();
    lemma_letters();
    let word = "GROUP BY"@;
    let whole = p + behind_clause(keyword, list);
    assert(whole =~= p + seq![' '] + keyword + seq![' '] + list);
    assert(upper_text(word) =~= word);
    lemma_clause_found(p, keyword, word, list);
    let start = p.len() as int + 9;
    let ends = seq!["ORDER BY"@, "LIMIT"@, "OFFSET"@, "HAVING"@, ";"@];
    assert forall|i: int| 0 <= i < ends.len() implies find_keyword(
        whole,
        #[trigger] ends[i],
        start,
    ) is None by {
        lemma_found_in_clause(p, keyword, word, list, ends[i]);
    }
    lemma_clause_runs_to_the_end(whole, start, ends);
    assert(upper_text(keyword).len() == keyword.len());
    assert(whole.subrange(start, whole.len() as int) =~= seq![' '] + list);
    lemma_trim_blank(list);
}

pub(crate) proof fn lemma_letters()
    ensures
        forall|j: int|
            0 <= j < "GROUP BY"@.len() ==> is_upper(#[trigger] "GROUP BY"@[j]) || "GROUP BY"@[j]
                == ' ',
        forall|j: int|
            0 <= j < "ORDER BY"@.len() ==> is_upper(#[trigger] "ORDER BY"@[j]) || "ORDER BY"@[j]
                == ' ',
        forall|j: int| 0 <= j < "WHERE"@.len() ==> is_upper(#[trigger] "WHERE"@[j]),
        forall|j: int| 0 <= j < "LIMIT"@.len() ==> is_upper(#[trigger] "LIMIT"@[j]),
        forall|j: int| 0 <= j < "OFFSET"@.len() ==> is_upper(#[trigger] "OFFSET"@[j]),
        forall|j: int| 0 <= j < "SELECT"@.len() ==> is_upper(#[trigger] "SELECT"@[j]),
{
    reveal_strlit("GROUP BY");
    reveal_strlit("ORDER BY");
    reveal_strlit("WHERE");
    reveal_strlit("LIMIT");
    reveal_strlit("OFFSET");
    reveal_strlit("SELECT");
}

/// The order is that of the items of the list behind `ORDER BY`, in any case,
/// up to the next clause.
pub proof fn law_ordering_reads_its_list(p: Seq<char>, keyword: Seq<char>, list: Seq<char>)
    requires
        is_closed(p),
        find_keyword(p, "ORDER BY"@, 0) is None,
        upper_text(keyword) == "ORDER BY"@,
        find_keyword(list, "LIMIT"@, 0) is None,
        find_keyword(list, "OFFSET"@, 0) is None,
        find_keyword(list, ";"@, 0) is None,
    ensures
        order_by(p + seq![' '] + keyword + seq![' '] + list) == order_entries(
            list_items(trim(list)),
        ),
{
    lemma_keywords();
    lemma_letters();
    let word = "ORDER BY"@;
    let whole = p + behind_clause(keyword, list);
    assert(whole =~= p + seq![' '] + keyword + seq![' '] + list);
    assert(upper_text(word) =~= word);
    lemma_clause_found(p, keyword, word, list);
    let start = p.len() as int + 9;
    let ends = seq!["LIMIT"@, "OFFSET"@, ";"@];
    assert forall|i: int| 0 <= i < ends.len() implies find_keyword(
        whole,
        #[trigger] ends[i],
        start,
    ) is None by {
        lemma_found_in_clause(p, keyword, word, list, ends[i]);
    }
    lemma_clause_runs_to_the_end(whole, start, ends);
    assert(upper_text(keyword).len() == keyword.len());
    assert(whole.subrange(start, whole.len() as int) =~= seq![' '] + list);
    lemma_trim_blank(list);
}

/// The predicate of a statement is that of the text behind `WHERE`, in any case,
/// up to the next clause.
pub proof fn law_filtering_reads_its_clause(p: Seq<char>, keyword: Seq<char>, clause: Seq<char>)
    requires
        is_closed(p),
        find_keyword(p, "WHERE"@, 0) is None,
        upper_text(keyword) == "WHERE"@,
        find_keyword(clause, "ORDER BY"@, 0) is None,
        find_keyword(clause, "GROUP BY"@, 0) is None,
        find_keyword(clause, "LIMIT"@, 0) is None,
        find_keyword(clause, "OFFSET"@, 0) is None,
        find_keyword(clause, "HAVING"@, 0) is None,
        find_keyword(clause, ";"@, 0) is None,
    ensures
        where_clause(p + seq![' '] + keyword + seq![' '] + clause) == Some(trim(clause)),
        where_predicate(p + seq![' '] + keyword + seq![' '] + clause) == clause_predicate(
            trim(clause),
        ),
{
    lemma_keywords();
    lemma_letters();
    let word = "WHERE"@;
    let whole = p + behind_clause(keyword, clause);
    assert(whole =~= p + seq![' '] + keyword + seq![' '] + clause);
    assert(upper_text(word) =~= word);
    lemma_clause_found(p, keyword, word, clause);
    let start = p.len() as int + 6;
    let ends = seq!["ORDER BY"@, "GROUP BY"@, "LIMIT"@, "OFFSET"@, "HAVING"@, ";"@];
    assert forall|i: int| 0 <= i < ends.len() implies find_keyword(
        whole,
        #[trigger] ends[i],
        start,
    ) is None by {
        lemma_found_in_clause(p, keyword, word, clause, ends[i]);
    }
    lemma_clause_runs_to_the_end(whole, start, ends);
    assert(upper_text(keyword).len() == keyword.len());
    assert(whole.subrange(start, whole.len() as int) =~= seq![' '] + clause);
    lemma_trim_blank(clause);
}

} // verus!
