//! The parts of a clause: sort keys, predicates, bounds, projected items and
//! aggregates.

use vstd::prelude::*;
use vstd::string::*;
use crate::laws::clauses::{
    behind_clause, depth_at_end, is_closed, lemma_behind_clause, lemma_clause_found,
    lemma_clause_is_cut, lemma_clause_runs_to_the_end, lemma_find_before, lemma_found_in_clause,
    lemma_found_later, lemma_keyword_stays, lemma_keywords, lemma_letters, lemma_quote_end_before,
    lemma_same_upper, lemma_trim_blank,
};
use crate::sql::clauses::{
    depth_behind, find_keyword, find_operator, find_outside, is_literal_quote, lemma_find_keyword,
    lemma_find_outside,
};
use crate::sql::lexical::quote_end;
use crate::sql::tail::{
    PredicateModel, PredicateOp, PredicateValueModel, clause_predicate, comparison_from,
    comparison_operators, first_token, limit_of, number_behind, offset_of, order_entries,
    order_entry, predicate_around, predicate_value,
};
use crate::text::ascii::{
    ends_with_ci, eq_ci, is_digit, is_letter, is_upper, lower, upper_text, word_at,
};
use crate::text::float::digits_end;
use crate::text::number::{all_digits, decimal, lemma_decimal, lemma_parse_decimal};
use crate::text::search::find_char_back;
use crate::text::tokens::token_end;
use crate::text::trim::{is_space, lemma_trimmed_part, space_run_end, trim};

verus! {

/// A text that is not blank and has no white space around it.
pub open spec fn is_trimmed(s: Seq<char>) -> bool {
    s.len() > 0 && !is_space(s[0]) && !is_space(s.last())
}

proof fn lemma_trimmed_stays(s: Seq<char>)
    requires
        is_trimmed(s),
    ensures
        trim(s) == s,
{
    lemma_trimmed_part(s, 0, s.len() as int);
    assert(s.subrange(0, s.len() as int) =~= s);
}

/// A tail in any case ends the text.
proof fn lemma_tail(a: Seq<char>, t: Seq<char>, word: Seq<char>)
    requires
        upper_text(t) == upper_text(word),
    ensures
        ends_with_ci(a + t, word),
{
    lemma_same_upper(t, word);
    let s = a + t;
    let at = s.len() - word.len();
    assert forall|j: int| 0 <= j < word.len() implies lower(s[at + j]) == lower(
        #[trigger] word[j],
    ) by {
        assert(s[at + j] == t[j]);
    }
}

/// A text does not end with a word from which it differs near its end.
proof fn lemma_no_tail(s: Seq<char>, word: Seq<char>, back: int)
    requires
        1 <= back <= word.len(),
        back <= s.len(),
        lower(s[s.len() - back]) != lower(word[word.len() - back]),
    ensures
        !ends_with_ci(s, word),
{
    if ends_with_ci(s, word) {
        let at = s.len() - word.len();
        let j = word.len() - back;
        assert(lower(s[at + j]) == lower(word[j]));
    }
}

/// The last blank of a text behind whose blank only other characters follow.
pub(crate) proof fn lemma_last_blank(s: Seq<char>, k: int, to: int)
    requires
        0 <= k < to <= s.len(),
        s[k] == ' ',
        forall|i: int| k < i < to ==> s[i] != ' ',
    ensures
        find_char_back(s, ' ', to) == Some(k),
    decreases to,
{
    if to - 1 > k {
        assert(s[to - 1] != ' ');
        lemma_last_blank(s, k, to - 1);
    }
}

/// A sort key is its column, ascending unless it says `DESC`; nulls come as it
/// says, and else last where the order is ascending and first where it is
/// descending. Case does not count.
pub proof fn law_sort_keys_mean_what_they_say(
    column: Seq<char>,
    direction: Seq<char>,
    nulls: Seq<char>,
)
    requires
        is_trimmed(column),
        !ends_with_ci(column, " ASC"@) && !ends_with_ci(column, " DESC"@) && !ends_with_ci(
            column,
            " NULLS FIRST"@,
        ) && !ends_with_ci(column, " NULLS LAST"@),
        direction.len() == 0 || upper_text(direction) == " ASC"@ || upper_text(direction)
            == " DESC"@,
        nulls.len() == 0 || upper_text(nulls) == " NULLS FIRST"@ || upper_text(nulls)
            == " NULLS LAST"@,
    ensures
        order_entry(column + direction + nulls).column == column,
        order_entry(column + direction + nulls).ascending <==> upper_text(direction) != " DESC"@,
        order_entry(column + direction + nulls).nulls_first <==> (upper_text(nulls)
            == " NULLS FIRST"@ || nulls.len() == 0 && upper_text(direction) == " DESC"@),
{
    reveal_strlit(" ASC");
    reveal_strlit(" DESC");
    reveal_strlit(" NULLS FIRST");
    reveal_strlit(" NULLS LAST");
    let entry = column + direction + nulls;
    let key = column + direction;
    assert(upper_text(" ASC"@) =~= " ASC"@);
    assert(upper_text(" DESC"@) =~= " DESC"@);
    assert(upper_text(" NULLS FIRST"@) =~= " NULLS FIRST"@);
    assert(upper_text(" NULLS LAST"@) =~= " NULLS LAST"@);
    assert(upper_text(direction).len() == direction.len());
    assert(upper_text(nulls).len() == nulls.len());
    let m = direction.len() as int;
    let ascends = m > 0 && upper_text(direction) == " ASC"@;
    let descends = m > 0 && upper_text(direction) == " DESC"@;
    assert(m == 0 ==> key =~= column);
    assert(nulls.len() == 0 ==> entry =~= key);
    // The key begins and ends as what it consists of.
    assert(key[0] == column[0]);
    if ascends {
        lemma_same_upper(direction, " ASC"@);
        assert(lower(direction[0]) == lower(" ASC"@[0]));
        assert(lower(direction[1]) == lower(" ASC"@[1]));
        assert(lower(direction[2]) == lower(" ASC"@[2]));
        assert(lower(direction[3]) == lower(" ASC"@[3]));
    }
    if descends {
        lemma_same_upper(direction, " DESC"@);
        assert(lower(direction[0]) == lower(" DESC"@[0]));
        assert(lower(direction[1]) == lower(" DESC"@[1]));
        assert(lower(direction[2]) == lower(" DESC"@[2]));
        assert(lower(direction[3]) == lower(" DESC"@[3]));
        assert(lower(direction[4]) == lower(" DESC"@[4]));
    }
    if m > 0 {
        assert(key[key.len() - 1] == direction[m - 1]);
        assert(lower(key.last()) == 'c');
        assert(key[column.len() as int] == ' ');
        lemma_last_blank(key, column.len() as int, key.len() as int);
        assert(key.take(column.len() as int) =~= column);
        lemma_trimmed_stays(column);
        lemma_no_tail(key, " NULLS FIRST"@, 1);
        lemma_no_tail(key, " NULLS LAST"@, 1);
    }
    assert(is_trimmed(key));
    lemma_trimmed_stays(key);
    if descends {
        lemma_tail(column, direction, " DESC"@);
    } else if ascends {
        lemma_tail(column, direction, " ASC"@);
        assert(key[key.len() - 3] == direction[1]);
        lemma_no_tail(key, " DESC"@, 3);
    }
    if nulls.len() > 0 {
        let n = nulls.len() as int;
        if upper_text(nulls) == " NULLS FIRST"@ {
            lemma_tail(key, nulls, " NULLS FIRST"@);
            assert(entry.take(entry.len() - 12) =~= key);
        } else {
            lemma_same_upper(nulls, " NULLS LAST"@);
            lemma_tail(key, nulls, " NULLS LAST"@);
            assert(lower(nulls[n - 4]) == lower(" NULLS LAST"@[7]));
            assert(entry[entry.len() - 4] == nulls[n - 4]);
            lemma_no_tail(entry, " NULLS FIRST"@, 4);
            assert(entry.take(entry.len() - 11) =~= key);
        }
    }
}

/// Sort keys keep their order, and none with a column is left out.
pub proof fn law_sort_keys_keep_their_order(entries: Seq<Seq<char>>, entry: Seq<char>)
    ensures
        order_entry(entry).column.len() > 0 ==> order_entries(entries.push(entry))
            == order_entries(entries).push(order_entry(entry)),
{
    assert(entries.push(entry).drop_last() =~= entries);
}

/// The character is one of those that comparison operators consist of.
pub open spec fn is_operator_char(c: char) -> bool {
    c == '<' || c == '>' || c == '=' || c == '!'
}

/// No comparison operator stands in the text.
pub open spec fn is_operand(s: Seq<char>) -> bool {
    forall|i: int| 0 <= i < s.len() ==> !is_operator_char(#[trigger] s[i])
}

/// No quote and no parenthesis stands in the text.
pub open spec fn is_unquoted(s: Seq<char>) -> bool {
    forall|i: int|
        0 <= i < s.len() ==> !is_literal_quote(#[trigger] s[i]) && s[i] != '(' && s[i] != ')'
}

proof fn lemma_operator_found(s: Seq<char>, op: Seq<char>, i: int, k: int)
    requires
        0 <= i <= k,
        op.len() > 0,
        is_operator_char(op[0]),
        k + op.len() <= s.len(),
        s.subrange(k, k + op.len()) == op,
        forall|j: int|
            0 <= j < k ==> !is_operator_char(#[trigger] s[j]) && !is_literal_quote(s[j]) && s[j]
                != '(' && s[j] != ')',
    ensures
        find_outside(s, op, 0, false, i, 0) == Some(k),
    decreases k - i,
{
    if i < k {
        assert(!is_operator_char(s[i]));
        if word_at(s, i, op) {
            assert(lower(s[i + 0]) == lower(op[0]));
        }
        lemma_operator_found(s, op, i + 1, k);
    } else {
        assert forall|j: int| 0 <= j < op.len() implies lower(s[k + j]) == lower(
            #[trigger] op[j],
        ) by {
            assert(s.subrange(k, k + op.len())[j] == op[j]);
        }
        assert(s[k + 0] == s.subrange(k, k + op.len())[0]);
        assert(word_at(s, k, op));
    }
}

proof fn lemma_operator_absent(s: Seq<char>, op: Seq<char>, j: int)
    requires
        0 <= j < op.len(),
        is_operator_char(op[j]),
        forall|i: int| 0 <= i < s.len() ==> s[i] != op[j],
    ensures
        find_operator(s, op) is None,
{
    lemma_find_outside(s, op, 0, false, 0, 0);
    if let Some(k) = find_operator(s, op) {
        assert(lower(s[k + j]) == lower(op[j]));
        assert(s[k + j] != op[j]);
    }
}

proof fn lemma_operator_chosen(clause: Seq<char>, from: int, i: int, k: int)
    requires
        0 <= from <= i < comparison_operators().len(),
        find_operator(clause, comparison_operators()[i].0) == Some(k),
        forall|j: int|
            from <= j < i ==> find_operator(clause, (#[trigger] comparison_operators()[j]).0) is None,
    ensures
        comparison_from(clause, from) == predicate_around(
            clause,
            k,
            comparison_operators()[i].0.len() as int,
            comparison_operators()[i].1,
        ),
    decreases i - from,
{
    if from < i {
        assert(find_operator(clause, comparison_operators()[from].0) is None);
        lemma_operator_chosen(clause, from + 1, i, k);
    }
}

/// Where one operator stands in a clause, no other one is read in its place.
proof fn lemma_one_operator(clause: Seq<char>, op: Seq<char>, k: int)
    requires
        op == "="@ || op == "!="@ || op == "<>"@ || op == "<"@ || op == "<="@ || op == ">"@ || op
            == ">="@,
        find_operator(clause, op) == Some(k),
        forall|i: int|
            0 <= i < clause.len() && is_operator_char(#[trigger] clause[i]) ==> k <= i < k
                + op.len() && clause[i] == op[i - k],
    ensures
        op == "="@ ==> comparison_from(clause, 0) == predicate_around(
            clause,
            k,
            1,
            PredicateOp::Eq,
        ),
        op == "!="@ ==> comparison_from(clause, 0) == predicate_around(
            clause,
            k,
            2,
            PredicateOp::Ne,
        ),
        op == "<>"@ ==> comparison_from(clause, 0) == predicate_around(
            clause,
            k,
            2,
            PredicateOp::Ne,
        ),
        op == "<"@ ==> comparison_from(clause, 0) == predicate_around(
            clause,
            k,
            1,
            PredicateOp::Lt,
        ),
        op == "<="@ ==> comparison_from(clause, 0) == predicate_around(
            clause,
            k,
            2,
            PredicateOp::Le,
        ),
        op == ">"@ ==> comparison_from(clause, 0) == predicate_around(
            clause,
            k,
            1,
            PredicateOp::Gt,
        ),
        op == ">="@ ==> comparison_from(clause, 0) == predicate_around(
            clause,
            k,
            2,
            PredicateOp::Ge,
        ),
{
    lemma_operator_texts();
    let ops = comparison_operators();
    if op == "!="@ {
        lemma_operator_chosen(clause, 0, 0, k);
    } else {
        lemma_operator_absent(clause, "!="@, 0);
        if op == "<>"@ {
            lemma_operator_chosen(clause, 0, 1, k);
        } else {
            if op[0] == '>' {
                lemma_operator_absent(clause, "<>"@, 0);
            } else {
                lemma_operator_absent(clause, "<>"@, 1);
            }
            if op == ">="@ {
                lemma_operator_chosen(clause, 0, 2, k);
            } else {
                if op[0] == '>' {
                    lemma_operator_absent(clause, ">="@, 1);
                } else {
                    lemma_operator_absent(clause, ">="@, 0);
                }
                if op == "<="@ {
                    lemma_operator_chosen(clause, 0, 3, k);
                } else {
                    if op[0] == '<' {
                        lemma_operator_absent(clause, "<="@, 1);
                    } else {
                        lemma_operator_absent(clause, "<="@, 0);
                    }
                    if op == "="@ {
                        lemma_operator_chosen(clause, 0, 4, k);
                    } else {
                        lemma_operator_absent(clause, "="@, 0);
                        if op == ">"@ {
                            lemma_operator_chosen(clause, 0, 5, k);
                        } else {
                            lemma_operator_absent(clause, ">"@, 0);
                            lemma_operator_chosen(clause, 0, 6, k);
                        }
                    }
                }
            }
        }
    }
}

proof fn lemma_operator_texts()
    ensures
        "="@ == seq!['='],
        "!="@ == seq!['!', '='],
        "<>"@ == seq!['<', '>'],
        "<"@ == seq!['<'],
        "<="@ == seq!['<', '='],
        ">"@ == seq!['>'],
        ">="@ == seq!['>', '='],
{
    reveal_strlit("=");
    reveal_strlit("!=");
    reveal_strlit("<>");
    reveal_strlit("<");
    reveal_strlit("<=");
    reveal_strlit(">");
    reveal_strlit(">=");
    assert("="@ =~= seq!['=']);
    assert("!="@ =~= seq!['!', '=']);
    assert("<>"@ =~= seq!['<', '>']);
    assert("<"@ =~= seq!['<']);
    assert("<="@ =~= seq!['<', '=']);
    assert(">"@ =~= seq!['>']);
    assert(">="@ =~= seq!['>', '=']);
}

/// A clause that compares a column with a literal by one of `=`, `!=`, `<>`,
/// `<`, `<=`, `>` and `>=` is the predicate of that column, that operator and
/// the literal's value.
pub proof fn law_predicates_keep_their_operator(
    column: Seq<char>,
    op: Seq<char>,
    literal: Seq<char>,
    value: PredicateValueModel,
)
    requires
        is_trimmed(column) && is_operand(column) && is_unquoted(column),
        is_trimmed(literal) && is_operand(literal),
        predicate_value(literal) == Some(value),
        ({
            let clause = column + seq![' '] + op + seq![' '] + literal;
            &&& find_keyword(clause, "AND"@, 0) is None
            &&& find_keyword(clause, "OR"@, 0) is None
            &&& find_keyword(clause, "LIKE"@, 0) is None
            &&& !ends_with_ci(clause, " IS NULL"@)
            &&& !ends_with_ci(clause, " IS NOT NULL"@)
        }),
    ensures
        ({
            let found = clause_predicate(column + seq![' '] + op + seq![' '] + literal);
            &&& op == "="@ ==> found == Some(PredicateModel { column, op: PredicateOp::Eq, value })
            &&& op == "!="@ ==> found == Some(
                PredicateModel { column, op: PredicateOp::Ne, value },
            )
            &&& op == "<>"@ ==> found == Some(
                PredicateModel { column, op: PredicateOp::Ne, value },
            )
            &&& op == "<"@ ==> found == Some(PredicateModel { column, op: PredicateOp::Lt, value })
            &&& op == "<="@ ==> found == Some(
                PredicateModel { column, op: PredicateOp::Le, value },
            )
            &&& op == ">"@ ==> found == Some(PredicateModel { column, op: PredicateOp::Gt, value })
            &&& op == ">="@ ==> found == Some(
                PredicateModel { column, op: PredicateOp::Ge, value },
            )
        }),
{
    lemma_operator_texts();
    let clause = column + seq![' '] + op + seq![' '] + literal;
    let k = column.len() as int + 1;
    let n = op.len() as int;
    if op == "="@ || op == "!="@ || op == "<>"@ || op == "<"@ || op == "<="@ || op == ">"@ || op
        == ">="@ {
        assert(clause.subrange(k, k + n) =~= op);
        assert forall|j: int| 0 <= j < k implies !is_operator_char(#[trigger] clause[j])
            && !is_literal_quote(clause[j]) && clause[j] != '(' && clause[j] != ')' by {
            if j < column.len() {
                assert(clause[j] == column[j]);
            }
        }
        lemma_operator_found(clause, op, 0, k);
        assert(clause.take(k) =~= column + seq![' ']);
        lemma_trim_blank(column);
        lemma_trimmed_stays(column);
        assert(clause.skip(k + n) =~= seq![' '] + literal);
        lemma_trim_blank(literal);
        lemma_trimmed_stays(literal);
        assert(predicate_around(clause, k, n, PredicateOp::Eq) == Some(
            PredicateModel { column, op: PredicateOp::Eq, value },
        ));
        assert forall|i: int| 0 <= i < clause.len() && is_operator_char(#[trigger] clause[i]) implies k
            <= i < k + n && clause[i] == op[i - k] by {
            if i < column.len() {
                assert(clause[i] == column[i]);
            } else if i > k + n {
                assert(clause[i] == literal[i - k - n - 1]);
            }
        }
        lemma_one_operator(clause, op, k);
    }
}

/// A clause `c IS NULL` asks for null, and `c IS NOT NULL` for the opposite, in
/// any case.
pub proof fn law_null_tests_mean_what_they_say(column: Seq<char>, test: Seq<char>)
    requires
        is_trimmed(column),
        find_keyword(column + test, "AND"@, 0) is None,
        find_keyword(column + test, "OR"@, 0) is None,
    ensures
        upper_text(test) == " IS NULL"@ ==> clause_predicate(column + test) == Some(
            PredicateModel {
                column,
                op: PredicateOp::IsNull,
                value: PredicateValueModel::Null,
            },
        ),
        upper_text(test) == " IS NOT NULL"@ ==> clause_predicate(column + test) == Some(
            PredicateModel {
                column,
                op: PredicateOp::IsNotNull,
                value: PredicateValueModel::Null,
            },
        ),
{
    reveal_strlit(" IS NULL");
    reveal_strlit(" IS NOT NULL");
    let clause = column + test;
    assert(upper_text(" IS NULL"@) =~= " IS NULL"@);
    assert(upper_text(" IS NOT NULL"@) =~= " IS NOT NULL"@);
    assert(upper_text(test).len() == test.len());
    lemma_trimmed_stays(column);
    if upper_text(test) == " IS NULL"@ {
        lemma_same_upper(test, " IS NULL"@);
        lemma_tail(column, test, " IS NULL"@);
        assert(clause.take(clause.len() - 8) =~= column);
        assert(lower(test[1]) == lower(" IS NULL"@[1]));
        assert(clause[clause.len() - 7] == test[1]);
        lemma_no_tail(clause, " IS NOT NULL"@, 7);
    }
    if upper_text(test) == " IS NOT NULL"@ {
        lemma_tail(column, test, " IS NOT NULL"@);
        assert(clause.take(clause.len() - 12) =~= column);
    }
}

/// The literals `NULL`, `TRUE` and `FALSE` have their values in any case.
pub proof fn law_words_have_their_values(word: Seq<char>)
    ensures
        upper_text(word) == "NULL"@ ==> predicate_value(word) == Some(PredicateValueModel::Null),
        upper_text(word) == "TRUE"@ ==> predicate_value(word) == Some(
            PredicateValueModel::Bool(true),
        ),
        upper_text(word) == "FALSE"@ ==> predicate_value(word) == Some(
            PredicateValueModel::Bool(false),
        ),
{
    reveal_strlit("NULL");
    reveal_strlit("TRUE");
    reveal_strlit("FALSE");
    assert(upper_text("NULL"@) =~= "NULL"@);
    assert(upper_text("TRUE"@) =~= "TRUE"@);
    assert(upper_text("FALSE"@) =~= "FALSE"@);
    assert(upper_text(word).len() == word.len());
    if upper_text(word) == "NULL"@ {
        lemma_word_value(word, "NULL"@);
    }
    if upper_text(word) == "TRUE"@ {
        lemma_word_value(word, "TRUE"@);
        assert(lower(word[0]) == lower("TRUE"@[0]));
        assert(!eq_ci(word, "NULL"@)) by {
            if eq_ci(word, "NULL"@) {
                assert(lower(word[0int + 0]) == lower("NULL"@[0]));
            }
        }
    }
    if upper_text(word) == "FALSE"@ {
        lemma_word_value(word, "FALSE"@);
    }
}

proof fn lemma_word_value(word: Seq<char>, capitals: Seq<char>)
    requires
        upper_text(word) == upper_text(capitals),
        capitals.len() > 0,
        is_upper(capitals[0]),
        is_upper(capitals.last()),
    ensures
        trim(word) == word,
        eq_ci(word, capitals),
        forall|j: int| 0 <= j < capitals.len() ==> lower(word[j]) == lower(#[trigger] capitals[j]),
{
    lemma_same_upper(word, capitals);
    assert(lower(word[0]) == lower(capitals[0]));
    assert(lower(word[capitals.len() - 1]) == lower(capitals[capitals.len() - 1]));
    lemma_trimmed_stays(word);
    assert forall|j: int| 0 <= j < capitals.len() implies lower(word[0 + j]) == lower(
        #[trigger] capitals[j],
    ) by {}
}

/// The digits of an integer have its value, with and without a sign.
pub proof fn law_integers_have_their_values(n: i64)
    ensures
        n >= 0 ==> predicate_value(decimal(n as nat)) == Some(PredicateValueModel::Int(n as int)),
        n < 0 ==> predicate_value(seq!['-'] + decimal((-n) as nat)) == Some(
            PredicateValueModel::Int(n as int),
        ),
{
    reveal_strlit("NULL");
    reveal_strlit("TRUE");
    reveal_strlit("FALSE");
    let m: nat = if n >= 0 {
        n as nat
    } else {
        (-n) as nat
    };
    let digits = decimal(m);
    lemma_decimal(m);
    let text = if n >= 0 {
        digits
    } else {
        seq!['-'] + digits
    };
    assert(is_digit(digits[0]) && is_digit(digits[digits.len() - 1]));
    assert(text.last() == digits.last());
    assert(text[0] == '-' || text[0] == digits[0]);
    lemma_trimmed_stays(text);
    assert(!eq_ci(text, "NULL"@) && !eq_ci(text, "TRUE"@) && !eq_ci(text, "FALSE"@)) by {
        if eq_ci(text, "NULL"@) {
            assert(lower(text[0int + 0]) == lower("NULL"@[0]));
        }
        if eq_ci(text, "TRUE"@) {
            assert(lower(text[0int + 0]) == lower("TRUE"@[0]));
        }
        if eq_ci(text, "FALSE"@) {
            assert(lower(text[0int + 0]) == lower("FALSE"@[0]));
        }
    }
    if n < 0 {
        assert(text.skip(1) =~= digits);
    }
}

proof fn lemma_digits_read(digits: Seq<char>, behind: Seq<char>)
    requires
        digits.len() > 0,
        all_digits(digits),
        behind.len() == 0 || behind[0] == ' ',
    ensures
        first_token(seq![' '] + digits + behind) == digits,
{
    let s = seq![' '] + digits + behind;
    assert(s[1] == digits[0]);
    assert(is_digit(digits[0]));
    reveal_with_fuel(space_run_end, 2);
    assert(space_run_end(s, 0) == 1);
    lemma_token_of_digits(s, 1, 1 + digits.len() as int);
    assert(s.subrange(1, 1 + digits.len() as int) =~= digits);
}

proof fn lemma_token_of_digits(s: Seq<char>, k: int, end: int)
    requires
        0 <= k <= end <= s.len(),
        forall|i: int| k <= i < end ==> is_digit(#[trigger] s[i]),
        end == s.len() || s[end] == ' ',
    ensures
        token_end(s, k) == end,
    decreases end - k,
{
    if k < end {
        assert(is_digit(s[k]));
        lemma_token_of_digits(s, k + 1, end);
    }
}

/// The digits hold none of the keywords.
proof fn lemma_digits_plain(digits: Seq<char>, word: Seq<char>)
    requires
        all_digits(digits),
        word.len() > 0,
        is_letter(word[0]) || word[0] == ';',
    ensures
        find_keyword(digits, word, 0) is None,
        depth_at_end(digits, 0, 0) == Some(0nat),
{
    lemma_find_keyword(digits, word, 0);
    if let Some(k) = find_keyword(digits, word, 0) {
        assert(lower(digits[k + 0]) == lower(word[0]));
        assert(is_digit(digits[k]));
    }
    lemma_digits_closed(digits, 0);
}

proof fn lemma_digits_closed(digits: Seq<char>, i: int)
    requires
        all_digits(digits),
        0 <= i <= digits.len(),
    ensures
        depth_at_end(digits, i, 0) == Some(0nat),
    decreases digits.len() - i,
{
    if i < digits.len() {
        assert(is_digit(digits[i]));
        lemma_digits_closed(digits, i + 1);
    }
}

/// A statement that ends in `LIMIT n` asks for `n` rows, and one that ends in
/// `OFFSET n` passes over `n`; one that does not hold the words asks for no
/// number and passes over none.
pub proof fn law_bounds_are_read(p: Seq<char>, keyword: Seq<char>, n: nat)
    requires
        is_closed(p),
        n <= usize::MAX,
    ensures
        find_keyword(p, "LIMIT"@, 0) is None ==> limit_of(p) is None,
        find_keyword(p, "OFFSET"@, 0) is None ==> offset_of(p) == 0,
        find_keyword(p, "LIMIT"@, 0) is None && upper_text(keyword) == "LIMIT"@ ==> limit_of(
            p + seq![' '] + keyword + seq![' '] + decimal(n),
        ) == Some(n),
        find_keyword(p, "OFFSET"@, 0) is None && upper_text(keyword) == "OFFSET"@ ==> offset_of(
            p + seq![' '] + keyword + seq![' '] + decimal(n),
        ) == n,
{
    lemma_keywords();
    lemma_letters();
    lemma_decimal(n);
    let digits = decimal(n);
    let whole = p + behind_clause(keyword, digits);
    assert(whole =~= p + seq![' '] + keyword + seq![' '] + digits);
    if find_keyword(p, "LIMIT"@, 0) is None && upper_text(keyword) == "LIMIT"@ {
        lemma_bound(p, keyword, "LIMIT"@, "OFFSET"@, n);
    }
    if find_keyword(p, "OFFSET"@, 0) is None && upper_text(keyword) == "OFFSET"@ {
        lemma_bound(p, keyword, "OFFSET"@, "LIMIT"@, n);
    }
}

proof fn lemma_bound(
    p: Seq<char>,
    keyword: Seq<char>,
    word: Seq<char>,
    other: Seq<char>,
    n: nat,
)
    requires
        is_closed(p),
        n <= usize::MAX,
        word == "LIMIT"@ && other == "OFFSET"@ || word == "OFFSET"@ && other == "LIMIT"@,
        find_keyword(p, word, 0) is None,
        upper_text(keyword) == word,
    ensures
        number_behind(p + behind_clause(keyword, decimal(n)), word, seq![other, ";"@]) == Some(n),
{
    lemma_keywords();
    lemma_letters();
    lemma_decimal(n);
    let digits = decimal(n);
    let whole = p + behind_clause(keyword, digits);
    assert(upper_text(word) =~= word);
    assert(upper_text(keyword).len() == keyword.len());
    lemma_clause_found(p, keyword, word, digits);
    let start = p.len() as int + 1 + word.len();
    let ends = seq![other, ";"@];
    assert forall|i: int| 0 <= i < ends.len() implies find_keyword(
        whole,
        #[trigger] ends[i],
        start,
    ) is None by {
        lemma_digits_plain(digits, ends[i]);
        lemma_found_in_clause(p, keyword, word, digits, ends[i]);
    }
    lemma_clause_runs_to_the_end(whole, start, ends);
    assert(whole.subrange(start, whole.len() as int) =~= seq![' '] + digits + Seq::empty());
    lemma_digits_read(digits, Seq::empty());
    lemma_parse_decimal(n, usize::MAX as nat);
}

/// With `LIMIT n OFFSET m` at its end a statement asks for `n` rows behind the
/// first `m`.
pub proof fn law_both_bounds_are_read(p: Seq<char>, n: nat, m: nat)
    requires
        is_closed(p),
        n <= usize::MAX,
        m <= usize::MAX,
        find_keyword(p, "LIMIT"@, 0) is None,
        find_keyword(p, "OFFSET"@, 0) is None,
    ensures
        ({
            let sql = p + " LIMIT "@ + decimal(n) + " OFFSET "@ + decimal(m);
            limit_of(sql) == Some(n) && offset_of(sql) == m
        }),
{
    reveal_strlit("LIMIT");
    reveal_strlit("OFFSET");
    reveal_strlit(" LIMIT ");
    reveal_strlit(" OFFSET ");
    lemma_keywords();
    lemma_letters();
    lemma_decimal(n);
    lemma_decimal(m);
    let limit = "LIMIT"@;
    let offset = "OFFSET"@;
    let front = p + behind_clause(limit, decimal(n));
    let t = behind_clause(offset, decimal(m));
    let sql = front + t;
    assert(sql =~= p + " LIMIT "@ + decimal(n) + " OFFSET "@ + decimal(m));
    assert(upper_text(limit) =~= limit);
    assert(upper_text(offset) =~= offset);
    lemma_clause_found(p, limit, limit, decimal(n));
    lemma_closed_behind(p, limit, decimal(n));
    lemma_behind_clause(front, offset, decimal(m));
    // The limit ends at the offset.
    lemma_keyword_stays(front, t, limit);
    let start = p.len() as int + 6;
    let ends = seq![offset, ";"@];
    assert forall|i: int| 0 <= i < ends.len() implies find_keyword(
        front,
        #[trigger] ends[i],
        start,
    ) is None by {
        lemma_digits_plain(decimal(n), ends[i]);
        lemma_found_in_clause(p, limit, limit, decimal(n), ends[i]);
    }
    lemma_clause_is_cut(front, start, ends, 0, decimal(m));
    assert(ends[0] == offset);
    assert(sql.subrange(start, front.len() as int + 1) =~= seq![' '] + decimal(n) + seq![' ']);
    lemma_digits_read(decimal(n), seq![' ']);
    lemma_parse_decimal(n, usize::MAX as nat);
    // The offset is behind a text that does not hold one.
    assert(find_keyword(front, offset, 0) is None) by {
        lemma_find_before(p, behind_clause(limit, decimal(n)), offset, 0, 0, 0);
        lemma_find_keyword(front, offset, 0);
        lemma_found_later(front, offset, 0, p.len() as int, 0);
        if let Some(k) = find_keyword(front, offset, 0) {
            assert(lower(front[k + 0]) == lower(offset[0]));
            assert(lower(front[k + 1]) == lower(offset[1]));
            let j = k - p.len();
            if j == 0 {
                assert(front[k] == ' ');
            } else if j <= 5 {
                assert(front[k] == limit[j - 1]);
            } else if j == 6 {
                assert(front[k] == ' ');
            } else {
                assert(front[k] == decimal(n)[j - 7]);
                assert(is_digit(decimal(n)[j - 7]));
            }
        }
    }
    lemma_bound(front, offset, offset, limit, m);
}

/// A closed text stays closed with a keyword and digits behind it.
proof fn lemma_closed_behind(p: Seq<char>, word: Seq<char>, digits: Seq<char>)
    requires
        is_closed(p),
        all_digits(digits),
        forall|j: int| 0 <= j < word.len() ==> is_upper(#[trigger] word[j]),
    ensures
        is_closed(p + behind_clause(word, digits)),
{
    let t = behind_clause(word, digits);
    assert forall|i: int| 0 <= i < t.len() implies !is_literal_quote(#[trigger] t[i]) && t[i]
        != '(' && t[i] != ')' by {
        let n = word.len() as int;
        if 1 <= i <= n {
            assert(t[i] == word[i - 1]);
        } else if i > n + 1 {
            assert(t[i] == digits[i - n - 2]);
            assert(is_digit(digits[i - n - 2]));
        }
    }
    lemma_closed_before(p, t, 0, 0);
    lemma_plain_behind(p, t, 0);
}

proof fn lemma_closed_before(s: Seq<char>, t: Seq<char>, i: int, depth: nat)
    requires
        0 <= i <= s.len(),
        depth_at_end(s, i, depth) is Some,
        t.len() > 0 ==> !is_literal_quote(t[0]),
    ensures
        depth_at_end(s + t, i, depth) == depth_at_end(
            s + t,
            s.len() as int,
            depth_at_end(s, i, depth)->0,
        ),
    decreases s.len() - i,
{
    if i < s.len() {
        assert((s + t)[i] == s[i]);
        if is_literal_quote(s[i]) {
            lemma_quote_end_before(s, t, i + 1, s[i]);
            lemma_closed_before(s, t, quote_end(s, i + 1, s[i])->0, depth);
        } else {
            lemma_closed_before(s, t, i + 1, depth_behind(s[i], depth));
        }
    }
}

proof fn lemma_plain_behind(p: Seq<char>, t: Seq<char>, i: int)
    requires
        0 <= i <= t.len(),
        forall|j: int|
            0 <= j < t.len() ==> !is_literal_quote(#[trigger] t[j]) && t[j] != '(' && t[j] != ')',
    ensures
        depth_at_end(p + t, p.len() + i, 0) == Some(0nat),
    decreases t.len() - i,
{
    if i < t.len() {
        assert((p + t)[p.len() + i] == t[i]);
        lemma_plain_behind(p, t, i + 1);
    }
}

/// A clause with `LIKE` between a column and a literal matches the one with the
/// other.
pub proof fn law_patterns_are_predicates(
    column: Seq<char>,
    like: Seq<char>,
    literal: Seq<char>,
    value: PredicateValueModel,
)
    requires
        is_trimmed(column) && is_trimmed(literal),
        like.len() == 4,
        predicate_value(literal) == Some(value),
        ({
            let clause = column + seq![' '] + like + seq![' '] + literal;
            &&& find_keyword(clause, seq!['A', 'N', 'D'], 0) is None
            &&& find_keyword(clause, seq!['O', 'R'], 0) is None
            &&& find_keyword(clause, seq!['L', 'I', 'K', 'E'], 0) == Some(column.len() as int + 1)
            &&& !ends_with_ci(clause, " IS NULL"@)
            &&& !ends_with_ci(clause, " IS NOT NULL"@)
        }),
    ensures
        clause_predicate(column + seq![' '] + like + seq![' '] + literal) == Some(
            PredicateModel { column, op: PredicateOp::Like, value },
        ),
{
    reveal_strlit("AND");
    reveal_strlit("OR");
    reveal_strlit("LIKE");
    assert("AND"@ =~= seq!['A', 'N', 'D']);
    assert("OR"@ =~= seq!['O', 'R']);
    assert("LIKE"@ =~= seq!['L', 'I', 'K', 'E']);
    let clause = column + seq![' '] + like + seq![' '] + literal;
    let k = column.len() as int + 1;
    assert(clause.take(k) =~= column + seq![' ']);
    lemma_trim_blank(column);
    lemma_trimmed_stays(column);
    assert(clause.skip(k + 4) =~= seq![' '] + literal);
    lemma_trim_blank(literal);
    lemma_trimmed_stays(literal);
}

/// A clause that is empty, or that joins others by `AND` or `OR`, is no single
/// predicate.
pub proof fn law_joined_clauses_are_no_predicate(clause: Seq<char>)
    ensures
        clause_predicate(Seq::empty()) is None,
        find_keyword(clause, seq!['A', 'N', 'D'], 0) is Some ==> clause_predicate(clause) is None,
        find_keyword(clause, seq!['O', 'R'], 0) is Some ==> clause_predicate(clause) is None,
{
    reveal_strlit("AND");
    reveal_strlit("OR");
    assert("AND"@ =~= seq!['A', 'N', 'D']);
    assert("OR"@ =~= seq!['O', 'R']);
}

/// A text between two quotes of different kinds is no literal, and neither is
/// one that no quote closes.
pub proof fn law_quotes_come_in_pairs(q: char, r: char, inner: Seq<char>)
    requires
        q == '\'' || q == '"',
        r == '\'' || r == '"' || is_letter(r),
        q != r,
    ensures
        predicate_value(seq![q] + inner + seq![r]) is None,
{
    let s = seq![q] + inner + seq![r];
    let n = s.len() as int;
    reveal_strlit("NULL");
    reveal_strlit("TRUE");
    reveal_strlit("FALSE");
    reveal_strlit("inf");
    reveal_strlit("infinity");
    reveal_strlit("nan");
    lemma_trimmed_part(s, 0, n);
    assert(s.subrange(0, n) =~= s);
    assert(s[0] == q && s.last() == r);
    assert(!is_digit(s[0]));
    if eq_ci(s, "NULL"@) {
        assert(lower(s[0int + 0]) == lower("NULL"@[0]));
    }
    if eq_ci(s, "TRUE"@) {
        assert(lower(s[0int + 0]) == lower("TRUE"@[0]));
    }
    if eq_ci(s, "FALSE"@) {
        assert(lower(s[0int + 0]) == lower("FALSE"@[0]));
    }
    if eq_ci(s, "inf"@) {
        assert(lower(s[0int + 0]) == lower("inf"@[0]));
    }
    if eq_ci(s, "infinity"@) {
        assert(lower(s[0int + 0]) == lower("infinity"@[0]));
    }
    if eq_ci(s, "nan"@) {
        assert(lower(s[0int + 0]) == lower("nan"@[0]));
    }
    assert(digits_end(s, 0) == 0);
}

} // verus!
