//! Binding of parameters to the placeholders of a query.

use vstd::prelude::*;
use vstd::string::*;
use crate::query::values::{ProximaValue, proxima_value_to_sql_literal, sql_literal, text_result};
use crate::sql::lexical::{has_pair_at, pair_at};
use crate::text::chars::chars_of;
use crate::text::number::{decimal, decimal_text};

verus! {

/// A query whose text behind position `i` is bound, with the parameters from
/// index `next` on; `quoted` inside a literal. The error of the first
/// placeholder without a usable parameter, and the number of placeholders.
pub open spec fn bound_from(
    query: Seq<char>,
    parameters: Seq<ProximaValue>,
    i: int,
    next: nat,
    quoted: bool,
) -> Result<(Seq<char>, nat), Seq<char>>
    decreases query.len() - i,
{
    if i < 0 || i >= query.len() {
        Ok((Seq::empty(), next))
    } else if quoted && pair_at(query, i, '\'', '\'') {
        before(query.subrange(i, i + 2), bound_from(query, parameters, i + 2, next, quoted))
    } else if query[i] == '\'' {
        before(seq![query[i]], bound_from(query, parameters, i + 1, next, !quoted))
    } else if query[i] == '?' && !quoted {
        if next >= parameters.len() {
            Err(missing_parameter(next + 1))
        } else {
            match sql_literal(parameters[next as int]) {
                Err(e) => Err(e),
                Ok(text) => before(
                    text,
                    bound_from(query, parameters, i + 1, next + 1, quoted),
                ),
            }
        }
    } else {
        before(seq![query[i]], bound_from(query, parameters, i + 1, next, quoted))
    }
}

/// A bound text with more in front of it.
pub open spec fn before(
    head: Seq<char>,
    rest: Result<(Seq<char>, nat), Seq<char>>,
) -> Result<(Seq<char>, nat), Seq<char>> {
    match rest {
        Ok((text, used)) => Ok((head + text, used)),
        Err(e) => Err(e),
    }
}

pub open spec fn missing_parameter(number: nat) -> Seq<char> {
    "federated query has more placeholders than provided parameters: missing parameter "@ + decimal(
        number,
    )
}

pub open spec fn unused_parameters(given: nat, used: nat) -> Seq<char> {
    "federated query received "@ + decimal(given) + " parameters but only used "@ + decimal(used)
        + " placeholders"@
}

/// The query with each `?` outside single quotes replaced by the literal of the
/// next parameter. All parameters have to be used. Without parameters the
/// query stays as it is.
pub open spec fn bound_query(query: Seq<char>, parameters: Seq<ProximaValue>) -> Result<
    Seq<char>,
    Seq<char>,
> {
    if parameters.len() == 0 {
        Ok(query)
    } else {
        match bound_from(query, parameters, 0, 0, false) {
            Err(e) => Err(e),
            Ok((text, used)) => if used == parameters.len() {
                Ok(text)
            } else {
                Err(unused_parameters(parameters.len(), used))
            },
        }
    }
}

proof fn lemma_after(done: Seq<char>, head: Seq<char>, rest: Result<(Seq<char>, nat), Seq<char>>)
    ensures
        before(done, before(head, rest)) == before(done + head, rest),
{
    match rest {
        Ok((text, _)) => {
            assert(done + (head + text) =~= (done + head) + text);
        },
        Err(_) => {},
    }
}

fn missing_message(number: u128) -> (r: String)
    ensures
        r@ == missing_parameter(number as nat),
{
    let mut r: String =
        "federated query has more placeholders than provided parameters: missing parameter ".to_owned();
    let digits: String = decimal_text(number);
    r.append(digits.as_str());
    r
}

fn unused_message(given: u128, used: u128) -> (r: String)
    ensures
        r@ == unused_parameters(given as nat, used as nat),
{
    let mut r: String = "federated query received ".to_owned();
    let digits: String = decimal_text(given);
    r.append(digits.as_str());
    r.append(" parameters but only used ");
    let digits: String = decimal_text(used);
    r.append(digits.as_str());
    r.append(" placeholders");
    r
}

/// Binds the parameters of a federated query.
pub fn bind_federated_sql_parameters(query: &str, parameters: &Vec<ProximaValue>) -> (r: Result<
    String,
    String,
>)
    ensures
        text_result(r) == bound_query(query@, parameters@),
{
    if parameters.len() == 0 {
        return Ok(query.to_owned());
    }
    let s: Vec<char> = chars_of(query);
    let mut bound: String = String::new();
    let mut quoted: bool = false;
    let mut next: usize = 0;
    let mut i: usize = 0;
    let ghost target = bound_from(query@, parameters@, 0, 0, false);
    proof {
        match target {
            Ok((text, _)) => {
                assert(Seq::<char>::empty() + text =~= text);
            },
            Err(_) => {},
        }
    }
    while i < s.len()
        invariant
            s@ == query@,
            i <= s@.len(),
            next <= parameters@.len(),
            parameters@.len() > 0,
            target == bound_from(query@, parameters@, 0, 0, false),
            before(
                bound@,
                bound_from(query@, parameters@, i as int, next as nat, quoted),
            ) == target,
        decreases s@.len() - i,
    {
        let c: char = s[i];
        let ghost done = bound@;
        if quoted && has_pair_at(s.as_slice(), i, '\'', '\'') {
            proof {
                lemma_after(
                    done,
                    query@.subrange(i as int, i + 2),
                    bound_from(query@, parameters@, i + 2, next as nat, quoted),
                );
            }
            bound.push(c);
            bound.push('\'');
            assert(bound@ =~= done + query@.subrange(i as int, i + 2));
            i += 2;
        } else if c == '\'' {
            proof {
                lemma_after(
                    done,
                    seq![c],
                    bound_from(query@, parameters@, i + 1, next as nat, !quoted),
                );
            }
            bound.push(c);
            assert(bound@ =~= done + seq![c]);
            quoted = !quoted;
            i += 1;
        } else if c == '?' && !quoted {
            if next >= parameters.len() {
                return Err(missing_message(next as u128 + 1));
            }
            match proxima_value_to_sql_literal(&parameters[next]) {
                Err(e) => {
                    return Err(e);
                },
                Ok(text) => {
                    proof {
                        lemma_after(
                            done,
                            text@,
                            bound_from(query@, parameters@, i + 1, (next + 1) as nat, quoted),
                        );
                    }
                    bound.append(text.as_str());
                },
            }
            next += 1;
            i += 1;
        } else {
            proof {
                lemma_after(
                    done,
                    seq![c],
                    bound_from(query@, parameters@, i + 1, next as nat, quoted),
                );
            }
            bound.push(c);
            assert(bound@ =~= done + seq![c]);
            i += 1;
        }
    }
    assert(bound@ + Seq::<char>::empty() =~= bound@);
    if next != parameters.len() {
        return Err(unused_message(parameters.len() as u128, next as u128));
    }
    Ok(bound)
}

/// The number of placeholders: each `?` outside single quotes.
pub open spec fn placeholders_from(query: Seq<char>, i: int, quoted: bool) -> nat
    decreases query.len() - i,
{
    if i < 0 || i >= query.len() {
        0
    } else if quoted && pair_at(query, i, '\'', '\'') {
        placeholders_from(query, i + 2, quoted)
    } else if query[i] == '\'' {
        placeholders_from(query, i + 1, !quoted)
    } else if query[i] == '?' && !quoted {
        1 + placeholders_from(query, i + 1, quoted)
    } else {
        placeholders_from(query, i + 1, quoted)
    }
}

proof fn lemma_bound_uses_all(
    query: Seq<char>,
    parameters: Seq<ProximaValue>,
    i: int,
    next: nat,
    quoted: bool,
)
    requires
        0 <= i,
    ensures
        bound_from(query, parameters, i, next, quoted) matches Ok((_, used)) ==> used == next
            + placeholders_from(query, i, quoted),
        next + placeholders_from(query, i, quoted) > parameters.len() && next <= parameters.len()
            ==> bound_from(query, parameters, i, next, quoted) is Err,
    decreases query.len() - i,
{
    if i < query.len() {
        if quoted && pair_at(query, i, '\'', '\'') {
            lemma_bound_uses_all(query, parameters, i + 2, next, quoted);
        } else if query[i] == '\'' {
            lemma_bound_uses_all(query, parameters, i + 1, next, !quoted);
        } else if query[i] == '?' && !quoted {
            lemma_bound_uses_all(query, parameters, i + 1, next + 1, quoted);
        } else {
            lemma_bound_uses_all(query, parameters, i + 1, next, quoted);
        }
    }
}

/// Binding succeeds only where there are as many parameters as placeholders,
/// or none at all.
pub proof fn law_binding_uses_every_parameter(query: Seq<char>, parameters: Seq<ProximaValue>)
    ensures
        bound_query(query, parameters) is Ok && parameters.len() > 0 ==> placeholders_from(
            query,
            0,
            false,
        ) == parameters.len(),
{
    lemma_bound_uses_all(query, parameters, 0, 0, false);
}

} // verus!
