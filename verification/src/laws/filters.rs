//! What search filters select.

use vstd::prelude::*;
use vstd::string::*;
use crate::mlflow::conditions::{
    comparison_named, metric_condition, param_condition, run_meets, tag_condition, text_at,
};
use crate::mlflow::double::{Comparison, Double, compares, is_infinite, is_nan, is_negative, rank};
use crate::mlflow::filter::PartsModel;
use crate::mlflow::pattern::is_like;
use crate::mlflow::records::RunRecord;
use crate::text::finite::is_double_text;
use crate::text::float::is_float_text;

verus! {

/// Numbers that are numbers are ordered as their bits say: without a sign the
/// greater bits are the greater number, with one the smaller, a number with a
/// sign is below one without, and both zeros are the same number.
pub proof fn law_numbers_are_ordered(a: Double, b: Double)
    requires
        !is_nan(a),
        !is_nan(b),
    ensures
        a.bits < 0x8000_0000_0000_0000 && b.bits < 0x8000_0000_0000_0000 ==> (compares(
            Comparison::Less,
            a,
            b,
        ) <==> a.bits < b.bits),
        a.bits >= 0x8000_0000_0000_0000 && b.bits >= 0x8000_0000_0000_0000 ==> (compares(
            Comparison::Less,
            a,
            b,
        ) <==> a.bits > b.bits),
        a.bits > 0x8000_0000_0000_0000 && b.bits < 0x8000_0000_0000_0000 ==> compares(
            Comparison::Less,
            a,
            b,
        ),
        a.bits == 0x8000_0000_0000_0000 && b.bits == 0 ==> compares(Comparison::Equal, a, b),
        compares(Comparison::Equal, a, a),
{
}

/// Of two numbers exactly one of `<`, `=` and `>` holds, and the other three
/// operators are what these leave; of what is not a number only `!=` holds.
pub proof fn law_comparisons_divide(a: Double, b: Double)
    ensures
        compares(Comparison::Less, a, b) <==> compares(Comparison::Greater, b, a),
        !(compares(Comparison::Less, a, b) && compares(Comparison::Equal, a, b)),
        !(compares(Comparison::Less, a, b) && compares(Comparison::Greater, a, b)),
        compares(Comparison::NotEqual, a, b) <==> !compares(Comparison::Equal, a, b),
        !is_nan(a) && !is_nan(b) ==> {
            &&& compares(Comparison::Less, a, b) || compares(Comparison::Equal, a, b) || compares(
                Comparison::Greater,
                a,
                b,
            )
            &&& compares(Comparison::LessOrEqual, a, b) <==> !compares(Comparison::Greater, a, b)
            &&& compares(Comparison::GreaterOrEqual, a, b) <==> !compares(Comparison::Less, a, b)
        },
        is_nan(a) || is_nan(b) ==> {
            &&& !compares(Comparison::Less, a, b)
            &&& !compares(Comparison::LessOrEqual, a, b)
            &&& !compares(Comparison::Greater, a, b)
            &&& !compares(Comparison::GreaterOrEqual, a, b)
            &&& !compares(Comparison::Equal, a, b)
        },
{
}

proof fn lemma_operators_differ()
    ensures
        "<"@ != "<="@,
        "<"@ != ">"@,
        "<"@ != ">="@,
        "<"@ != "="@,
        "<"@ != "!="@,
        "<="@ != ">"@,
        "<="@ != ">="@,
        "<="@ != "="@,
        "<="@ != "!="@,
        ">"@ != ">="@,
        ">"@ != "="@,
        ">"@ != "!="@,
        ">="@ != "="@,
        ">="@ != "!="@,
        "="@ != "!="@,
        "="@ != "LIKE"@,
        "!="@ != "LIKE"@,
{
    reveal_strlit("<");
    reveal_strlit("<=");
    reveal_strlit(">");
    reveal_strlit(">=");
    reveal_strlit("=");
    reveal_strlit("!=");
    reveal_strlit("LIKE");
    assert("<"@.len() == 1 && ">"@.len() == 1 && "="@.len() == 1);
    assert("<="@.len() == 2 && ">="@.len() == 2 && "!="@.len() == 2 && "LIKE"@.len() == 4);
    assert("<"@[0] != ">"@[0]);
    assert("<"@[0] != "="@[0]);
    assert(">"@[0] != "="@[0]);
    assert("<="@[0] != ">="@[0]);
    assert("<="@[0] != "!="@[0]);
    assert(">="@[0] != "!="@[0]);
}

/// The six operators of a metric clause have their usual meaning: where `k` has
/// a latest value `v`, and `n` denotes the number, the clause `k OP n` holds
/// exactly where `v OP n` does; a run without a value is never selected.
pub proof fn law_metric_operators_mean_what_they_say(
    op: Seq<char>,
    k: Seq<char>,
    n: Seq<char>,
    run: RunRecord,
    number: Double,
)
    requires
        op == "<"@ || op == "<="@ || op == ">"@ || op == ">="@ || op == "="@ || op == "!="@,
        is_float_text(n),
        is_double_text(n),
        !is_nan(number),
    ensures
        metric_condition(PartsModel { key: k, op, value: n }) is Ok,
        ({
            let condition = metric_condition(PartsModel { key: k, op, value: n })->Ok_0;
            let v = run.latest_metrics@[k].value;
            if !run.latest_metrics@.dom().contains(k) {
                !run_meets(condition, run, number)
            } else if is_nan(v) {
                run_meets(condition, run, number) <==> op == "!="@
            } else {
                &&& op == "<"@ ==> (run_meets(condition, run, number) <==> rank(v) < rank(number))
                &&& op == "<="@ ==> (run_meets(condition, run, number) <==> rank(v) <= rank(
                    number,
                ))
                &&& op == ">"@ ==> (run_meets(condition, run, number) <==> rank(v) > rank(number))
                &&& op == ">="@ ==> (run_meets(condition, run, number) <==> rank(v) >= rank(
                    number,
                ))
                &&& op == "="@ ==> (run_meets(condition, run, number) <==> rank(v) == rank(
                    number,
                ))
                &&& op == "!="@ ==> (run_meets(condition, run, number) <==> rank(v) != rank(
                    number,
                ))
            }
        }),
{
    lemma_operators_differ();
}

/// No two operators of a metric clause mean the same: each names a comparison
/// of its own, and what is none of the six is refused.
pub proof fn law_metric_operators_are_distinct(a: Seq<char>, b: Seq<char>)
    ensures
        comparison_named(a) is Some && comparison_named(a) == comparison_named(b) ==> a == b,
        comparison_named(a) is Some <==> a == "<"@ || a == "<="@ || a == ">"@ || a == ">="@ || a
            == "="@ || a == "!="@,
{
    lemma_operators_differ();
}

/// The value of a parameter decides a parameter clause: `=` selects the runs
/// whose parameter has the value, `!=` all others, those without the parameter
/// among them, and `LIKE` those whose value matches.
pub proof fn law_param_operators_mean_what_they_say(
    k: Seq<char>,
    v: Seq<char>,
    run: RunRecord,
    number: Double,
)
    ensures
        param_condition(PartsModel { key: k, op: "="@, value: v }) matches Ok(c) && (run_meets(
            c,
            run,
            number,
        ) <==> text_at(run.params, k) == Some(v)),
        param_condition(PartsModel { key: k, op: "!="@, value: v }) matches Ok(c) && (run_meets(
            c,
            run,
            number,
        ) <==> text_at(run.params, k) != Some(v)),
        param_condition(PartsModel { key: k, op: "LIKE"@, value: v }) matches Ok(c) && (run_meets(
            c,
            run,
            number,
        ) <==> (text_at(run.params, k) matches Some(t) && is_like(t, v))),
{
    lemma_operators_differ();
}

/// The same of tags.
pub proof fn law_tag_operators_mean_what_they_say(
    k: Seq<char>,
    v: Seq<char>,
    run: RunRecord,
    number: Double,
)
    ensures
        tag_condition(PartsModel { key: k, op: "="@, value: v }) matches Ok(c) && (run_meets(
            c,
            run,
            number,
        ) <==> text_at(run.tags, k) == Some(v)),
        tag_condition(PartsModel { key: k, op: "!="@, value: v }) matches Ok(c) && (run_meets(
            c,
            run,
            number,
        ) <==> text_at(run.tags, k) != Some(v)),
        tag_condition(PartsModel { key: k, op: "LIKE"@, value: v }) matches Ok(c) && (run_meets(
            c,
            run,
            number,
        ) <==> (text_at(run.tags, k) matches Some(t) && is_like(t, v))),
{
    lemma_operators_differ();
}

/// String clauses know `=`, `!=` and `LIKE` and refuse every other operator.
pub proof fn law_string_operators_are_three(parts: PartsModel)
    ensures
        param_condition(parts) is Ok <==> parts.op == "="@ || parts.op == "!="@ || parts.op
            == "LIKE"@,
        tag_condition(parts) is Ok <==> parts.op == "="@ || parts.op == "!="@ || parts.op
            == "LIKE"@,
{
}

/// The bits tell the kinds of numbers apart: an infinity of either sign, what is
/// no number, and the finite ones. What is no number differs from everything.
pub proof fn law_bits_tell_the_kind(x: Double, y: Double)
    ensures
        is_infinite(x) <==> x.bits == 0x7FF0_0000_0000_0000 || x.bits == 0xFFF0_0000_0000_0000,
        is_nan(x) <==> (0x7FF0_0000_0000_0000 < x.bits && x.bits < 0x8000_0000_0000_0000) || x.bits
            > 0xFFF0_0000_0000_0000,
        is_negative(x) <==> x.bits >= 0x8000_0000_0000_0000,
        is_nan(x) ==> compares(Comparison::NotEqual, x, y) && compares(Comparison::NotEqual, y, x)
            && !compares(Comparison::Equal, x, y) && !compares(Comparison::Less, x, y) && !compares(
            Comparison::LessOrEqual,
            x,
            y,
        ) && !compares(Comparison::Greater, x, y) && !compares(
            Comparison::GreaterOrEqual,
            x,
            y,
        ),
{
}

} // verus!
