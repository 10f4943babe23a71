//! Numbers, letters, and the parts of texts.

use vstd::prelude::*;
use vstd::string::*;
use crate::laws::clauses::lemma_same_upper;
use crate::queue::path::lemma_pieces_of_both;
use crate::text::ascii::{
    eq_ci, is_alphanumeric, is_ascii_space, is_digit, is_letter, lower, upper, upper_text, word_at,
};
use crate::text::float::{digits_end, is_float_text, is_number_text, is_sign};
use crate::text::number::{
    all_digits, decimal, lemma_decimal, parse_signed, parse_unsigned, signed_decimal,
};
use crate::text::order::text_before;
use crate::text::search::{find_char, lemma_find_char};
use crate::text::split::{joined, lemma_joined_first, pieces};
use crate::text::tokens::{lemma_token_end, token_end, tokens, tokens_from};
use crate::text::trim::{is_space, lemma_space_run_end, lemma_trim, space_run_end, trim};

verus! {

/// The pieces of a text hold no separator, and with one between each two they
/// are the text.
pub proof fn law_pieces_join_back(s: Seq<char>, c: char)
    ensures
        joined(pieces(s, c), seq![c]) == s,
        forall|i: int| 0 <= i < pieces(s, c).len() ==> !(#[trigger] pieces(s, c)[i]).contains(c),
    decreases s.len(),
{
    lemma_find_char(s, c, 0);
    match find_char(s, c, 0) {
        None => {
            assert(s.skip(0) =~= s);
            assert(pieces(s, c) =~= seq![s]);
            assert(!s.contains(c));
        },
        Some(k) => {
            let a = s.take(k);
            let b = s.skip(k + 1);
            assert(s =~= a + seq![c] + b);
            lemma_pieces_of_both(a, b, c);
            lemma_find_char(a, c, 0);
            assert(find_char(a, c, 0) is None);
            assert(a.skip(0) =~= a);
            assert(pieces(a, c) =~= seq![a]);
            law_pieces_join_back(b, c);
            let parts = pieces(s, c);
            let rest = pieces(b, c);
            assert(parts =~= seq![a] + rest);
            lemma_find_char(b, c, 0);
            assert(rest.len() > 0);
            lemma_joined_first(parts, seq![c]);
            assert(parts.skip(1) =~= rest);
            assert forall|i: int| 0 <= i < parts.len() implies !(#[trigger] parts[i]).contains(
                c,
            ) by {
                if i > 0 {
                    assert(parts[i] == rest[i - 1]);
                }
            }
        },
    }
}

/// A trimmed text is what is left of a text without white space around it.
pub proof fn law_trimming_leaves_the_middle(s: Seq<char>) -> (r: (int, int))
    ensures
        0 <= r.0 <= r.1 <= s.len(),
        trim(s) == s.subrange(r.0, r.1),
        forall|i: int| 0 <= i < r.0 ==> is_space(#[trigger] s[i]),
        forall|i: int| r.1 <= i < s.len() ==> is_space(#[trigger] s[i]),
        trim(s).len() > 0 ==> !is_space(trim(s)[0]) && !is_space(trim(s).last()),
{
    lemma_trim(s)
}

/// White space are the blank, the line breaks and the like; letters, digits and
/// signs are not.
pub proof fn law_white_space(c: char)
    ensures
        is_space(' ') && is_space('\t') && is_space('\n') && is_space('\r'),
        '!' <= c <= '~' ==> !is_space(c),
        is_ascii_space(c) ==> is_space(c),
        is_ascii_space(' ') && is_ascii_space('\t') && is_ascii_space('\n') && is_ascii_space('\r'),
        '!' <= c <= '~' ==> !is_ascii_space(c),
        is_space(c) && (c as u32) < 128 ==> is_ascii_space(c) || c == '\u{B}',
{
}

/// A letter has one form in capitals and one that is not, 32 apart; everything
/// else is its own form.
pub proof fn law_letters_have_two_forms(c: char)
    ensures
        'a' <= c <= 'z' ==> upper(c) as int == c as int - 32 && lower(c) == c && is_letter(c),
        'A' <= c <= 'Z' ==> lower(c) as int == c as int + 32 && upper(c) == c && is_letter(c),
        !('a' <= c <= 'z') && !('A' <= c <= 'Z') ==> upper(c) == c && lower(c) == c && !is_letter(
            c,
        ),
        '0' <= c <= '9' ==> is_alphanumeric(c) && !is_letter(c),
        is_alphanumeric(c) && !is_letter(c) ==> '0' <= c <= '9',
{
}

/// A word is found in any case.
pub proof fn law_case_does_not_matter(s: Seq<char>, at: int, word: Seq<char>)
    ensures
        word_at(upper_text(s), at, word) == word_at(s, at, word),
        word_at(s, at, upper_text(word)) == word_at(s, at, word),
{
    let u = upper_text(s);
    let v = upper_text(word);
    if 0 <= at && at + word.len() <= s.len() {
        assert forall|i: int| 0 <= i < word.len() implies lower(u[at + i]) == lower(s[at + i])
            && lower(v[i]) == lower(#[trigger] word[i]) by {
            assert(u[at + i] == upper(s[at + i]));
            assert(v[i] == upper(word[i]));
        }
        if word_at(s, at, word) {
            assert forall|i: int| 0 <= i < v.len() implies lower(s[at + i]) == lower(
                #[trigger] v[i],
            ) by {
                assert(lower(s[at + i]) == lower(word[i]));
            }
        }
        if word_at(s, at, v) {
            assert forall|i: int| 0 <= i < word.len() implies lower(s[at + i]) == lower(
                #[trigger] word[i],
            ) by {
                assert(lower(s[at + i]) == lower(v[i]));
            }
        }
        if word_at(u, at, word) {
            assert forall|i: int| 0 <= i < word.len() implies lower(s[at + i]) == lower(
                #[trigger] word[i],
            ) by {
                assert(lower(u[at + i]) == lower(word[i]));
            }
        }
    }
}

/// Texts are ordered by the first character in which they differ; where one is
/// the beginning of the other, it comes first.
pub proof fn law_texts_are_ordered(
    p: Seq<char>,
    x: char,
    a: Seq<char>,
    y: char,
    b: Seq<char>,
)
    requires
        x != y,
    ensures
        text_before(p + seq![x] + a, p + seq![y] + b) <==> x < y,
        text_before(p, p + seq![x] + a),
        !text_before(p + seq![x] + a, p),
        !text_before(p, p),
    decreases p.len(),
{
    let s = p + seq![x] + a;
    let t = p + seq![y] + b;
    if p.len() > 0 {
        law_texts_are_ordered(p.drop_first(), x, a, y, b);
        assert(s.drop_first() =~= p.drop_first() + seq![x] + a);
        assert(t.drop_first() =~= p.drop_first() + seq![y] + b);
        assert(s[0] == p[0] && t[0] == p[0]);
    } else {
        assert(s[0] == x && t[0] == y);
    }
}

/// A number is read back from its text, with a plus before it too, as long as it
/// fits; other texts are no numbers.
pub proof fn law_numbers_read_back(n: nat, max: nat, k: int)
    requires
        i64::MIN <= k <= i64::MAX,
    ensures
        n <= max ==> parse_unsigned(decimal(n), max) == Some(n),
        n <= max ==> parse_unsigned(seq!['+'] + decimal(n), max) == Some(n),
        n > max ==> parse_unsigned(decimal(n), max) is None,
        parse_unsigned(seq!['-'] + decimal(n), max) is None,
        parse_unsigned(Seq::empty(), max) is None,
        parse_signed(signed_decimal(k)) == Some(k),
        k >= 0 ==> parse_signed(seq!['+'] + signed_decimal(k)) == Some(k),
        n > i64::MAX ==> parse_signed(decimal(n)) is None,
        parse_signed(Seq::empty()) is None,
{
    lemma_decimal(n);
    lemma_decimal((-k) as nat);
    lemma_decimal(k as nat);
    let t = decimal(n);
    assert(is_digit(t[0]));
    assert((seq!['+'] + t).skip(1) =~= t);
    let m = seq!['-'] + t;
    assert(m[0] == '-');
    assert(!is_digit(m[0]));
    if k < 0 {
        let d = decimal((-k) as nat);
        assert((seq!['-'] + d).skip(1) =~= d);
    } else {
        let d = decimal(k as nat);
        assert(is_digit(d[0]));
        assert((seq!['+'] + d).skip(1) =~= d);
    }
}

proof fn lemma_digits(a: Seq<char>, s: Seq<char>, b: Seq<char>, k: int)
    requires
        all_digits(s),
        b.len() > 0 ==> !is_digit(b[0]),
        0 <= k <= s.len(),
    ensures
        digits_end(a + s + b, a.len() + k) == a.len() + s.len(),
    decreases s.len() - k,
{
    let t = a + s + b;
    if k < s.len() {
        assert(is_digit(s[k]));
        assert(t[a.len() + k] == s[k]);
        lemma_digits(a, s, b, k + 1);
    } else if b.len() > 0 {
        assert(t[a.len() + k] == b[0]);
    }
}

/// A number is a row of digits, with a point among or around them, and with an
/// exponent behind them; a point or an exponent alone is none.
pub proof fn law_numbers_are_digits(a: Seq<char>, b: Seq<char>, e: char, sign: char)
    requires
        a.len() > 0 && b.len() > 0,
        all_digits(a) && all_digits(b),
        e == 'e' || e == 'E',
        sign == '+' || sign == '-',
    ensures
        is_number_text(a),
        is_number_text(a + seq!['.']),
        is_number_text(seq!['.'] + b),
        is_number_text(a + seq!['.'] + b),
        is_number_text(a + seq![e] + b),
        is_number_text(a + seq![e, sign] + b),
        !is_number_text(Seq::empty()),
        !is_number_text(seq!['.']),
        !is_number_text(seq![e] + b),
        !is_number_text(a + seq![e]),
        !is_number_text(a + seq![' ']),
{
    let none = Seq::<char>::empty();
    assert(is_digit(a[0]) && is_digit(b[0]));
    lemma_digits(none, a, none, 0);
    assert(none + a + none =~= a);
    lemma_digits(none, a, seq!['.'], 0);
    assert(none + a + seq!['.'] =~= a + seq!['.']);
    let p = a + seq!['.'];
    assert(digits_end(p, p.len() as int) == p.len());
    let q = seq!['.'] + b;
    assert(digits_end(q, 0) == 0);
    lemma_digits(seq!['.'], b, none, 0);
    assert(seq!['.'] + b + none =~= q);
    let r = a + seq!['.'] + b;
    lemma_digits(none, a, seq!['.'] + b, 0);
    assert(none + a + (seq!['.'] + b) =~= r);
    lemma_digits(a + seq!['.'], b, none, 0);
    assert(a + seq!['.'] + b + none =~= r);
    let x = a + seq![e] + b;
    lemma_digits(none, a, seq![e] + b, 0);
    assert(none + a + (seq![e] + b) =~= x);
    lemma_digits(a + seq![e], b, none, 0);
    assert(a + seq![e] + b + none =~= x);
    assert(x[a.len() as int] == e && x[a.len() as int + 1] == b[0]);
    let y = a + seq![e, sign] + b;
    lemma_digits(none, a, seq![e, sign] + b, 0);
    assert(none + a + (seq![e, sign] + b) =~= y);
    lemma_digits(a + seq![e, sign], b, none, 0);
    assert(a + seq![e, sign] + b + none =~= y);
    assert(y[a.len() as int] == e && y[a.len() as int + 1] == sign);
    assert(digits_end(none, 0) == 0);
    let dot = seq!['.'];
    assert(digits_end(dot, 0) == 0 && digits_end(dot, 1) == 1);
    let z = seq![e] + b;
    assert(digits_end(z, 0) == 0);
    let w = a + seq![e];
    lemma_digits(none, a, seq![e], 0);
    assert(none + a + seq![e] =~= w);
    let v = a + seq![' '];
    lemma_digits(none, a, seq![' '], 0);
    assert(none + a + seq![' '] =~= v);
}

/// A float can have a sign, and can be an infinity or no number, in any case.
pub proof fn law_floats_can_be_special(t: Seq<char>, sign: char)
    requires
        sign == '+' || sign == '-',
    ensures
        upper_text(t) == seq!['I', 'N', 'F'] ==> is_float_text(t),
        upper_text(t) == seq!['N', 'A', 'N'] ==> is_float_text(t),
        upper_text(t) == seq!['I', 'N', 'F', 'I', 'N', 'I', 'T', 'Y'] ==> is_float_text(t),
        is_number_text(t) ==> is_float_text(t),
        t.len() > 0 && t[0] != '+' && t[0] != '-' ==> is_float_text(seq![sign] + t)
            == is_float_text(t),
        !is_float_text(Seq::empty()),
{
    reveal_strlit("inf");
    reveal_strlit("nan");
    reveal_strlit("infinity");
    assert(upper_text("inf"@) =~= seq!['I', 'N', 'F']);
    assert(upper_text("nan"@) =~= seq!['N', 'A', 'N']);
    assert(upper_text("infinity"@) =~= seq!['I', 'N', 'F', 'I', 'N', 'I', 'T', 'Y']);
    assert((seq![sign] + t).skip(1) =~= t);
    if upper_text(t) == seq!['I', 'N', 'F'] {
        lemma_same_upper(t, "inf"@);
        assert(upper_text(t)[0] == upper(t[0]));
        assert(eq_ci(t, "inf"@));
    }
    if upper_text(t) == seq!['N', 'A', 'N'] {
        lemma_same_upper(t, "nan"@);
        assert(upper_text(t)[0] == upper(t[0]));
        assert(eq_ci(t, "nan"@));
    }
    if upper_text(t) == seq!['I', 'N', 'F', 'I', 'N', 'I', 'T', 'Y'] {
        lemma_same_upper(t, "infinity"@);
        assert(upper_text(t)[0] == upper(t[0]));
        assert(eq_ci(t, "infinity"@));
    }
    if is_number_text(t) {
        assert(t.len() > 0);
        assert(!is_sign(t[0])) by {
            if is_sign(t[0]) {
                assert(digits_end(t, 0) == 0);
            }
        }
    }
    assert("inf"@.len() == 3 && "nan"@.len() == 3 && "infinity"@.len() == 8);
}

proof fn lemma_token(a: Seq<char>, s: Seq<char>, b: Seq<char>, k: int)
    requires
        forall|i: int| 0 <= i < s.len() ==> !is_space(#[trigger] s[i]),
        b.len() > 0 ==> is_space(b[0]),
        0 <= k <= s.len(),
    ensures
        token_end(a + s + b, a.len() + k) == a.len() + s.len(),
    decreases s.len() - k,
{
    let t = a + s + b;
    if k < s.len() {
        assert(!is_space(s[k]));
        assert(t[a.len() + k] == s[k]);
        lemma_token(a, s, b, k + 1);
    } else if b.len() > 0 {
        assert(t[a.len() + k] == b[0]);
    }
}

proof fn lemma_tokens_behind(a: Seq<char>, s: Seq<char>, i: int)
    requires
        0 <= i <= s.len(),
    ensures
        tokens_from(a + s, a.len() + i) == tokens_from(s, i),
    decreases s.len() - i,
{
    let t = a + s;
    let n = a.len() as int;
    lemma_spaces_behind(a, s, i);
    lemma_space_run_end(s, i);
    let from = space_run_end(s, i);
    if from < s.len() {
        lemma_token_end(s, from);
        lemma_tokens_end_behind(a, s, from);
        let end = token_end(s, from);
        lemma_tokens_behind(a, s, end);
        assert(t.subrange(n + from, n + end) =~= s.subrange(from, end));
    }
}

proof fn lemma_tokens_end_behind(a: Seq<char>, s: Seq<char>, i: int)
    requires
        0 <= i <= s.len(),
    ensures
        token_end(a + s, a.len() + i) == a.len() + token_end(s, i),
    decreases s.len() - i,
{
    if i < s.len() {
        assert((a + s)[a.len() + i] == s[i]);
        if !is_space(s[i]) {
            lemma_tokens_end_behind(a, s, i + 1);
        }
    }
}

proof fn lemma_spaces_behind(a: Seq<char>, s: Seq<char>, i: int)
    requires
        0 <= i <= s.len(),
    ensures
        space_run_end(a + s, a.len() + i) == a.len() + space_run_end(s, i),
    decreases s.len() - i,
{
    if i < s.len() {
        assert((a + s)[a.len() + i] == s[i]);
        if is_space(s[i]) {
            lemma_spaces_behind(a, s, i + 1);
        }
    }
}

/// The words of a text are the runs between its white space.
pub proof fn law_words_stand_between_spaces(word: Seq<char>, space: char, s: Seq<char>)
    requires
        word.len() > 0,
        forall|i: int| 0 <= i < word.len() ==> !is_space(#[trigger] word[i]),
        is_space(space),
    ensures
        tokens(word) == seq![word],
        tokens(seq![space] + s) == tokens(s),
        tokens(word + seq![space] + s) == seq![word] + tokens(s),
        tokens(Seq::empty()).len() == 0,
{
    let none = Seq::<char>::empty();
    let n = word.len() as int;
    assert(!is_space(word[0]));
    lemma_token(none, word, none, 0);
    assert(none + word + none =~= word);
    assert(space_run_end(word, 0) == 0);
    assert(word.subrange(0, n) =~= word);
    assert(space_run_end(word, n) == n);
    assert(tokens_from(word, n) =~= Seq::<Seq<char>>::empty());
    assert(seq![word] + Seq::<Seq<char>>::empty() =~= seq![word]);
    lemma_space_before(space, s);
    let rest = seq![space] + s;
    let t = word + rest;
    assert(t =~= word + seq![space] + s);
    lemma_token(none, word, rest, 0);
    assert(none + word + rest =~= t);
    assert(t[0] == word[0]);
    assert(space_run_end(t, 0) == 0);
    assert(t.subrange(0, n) =~= word);
    lemma_tokens_behind(word, rest, 0);
    assert(space_run_end(none, 0) == 0);
}

proof fn lemma_space_before(space: char, s: Seq<char>)
    requires
        is_space(space),
    ensures
        tokens(seq![space] + s) == tokens(s),
{
    let t = seq![space] + s;
    assert(space_run_end(t, 0) == space_run_end(t, 1));
    lemma_spaces_behind(seq![space], s, 0);
    lemma_tokens_behind(seq![space], s, 0);
    assert(tokens_from(t, 0) == tokens_from(t, 1));
}

} // verus!
