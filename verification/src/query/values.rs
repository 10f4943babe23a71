//! Query parameters and their SQL literals.

use vstd::prelude::*;
use vstd::string::*;
use crate::query::json::Json;
use crate::query::literal::{quoted, sql_quote};
use crate::text::chars::{copied, texts};
use crate::text::number::{decimal, decimal_text, signed_decimal, signed_decimal_text};
use crate::text::split::{join_texts, joined};

verus! {

/// A floating-point number: its shortest decimal text, and whether it is
/// finite.
#[derive(Debug)]
pub struct Real {
    pub text: String,
    pub finite: bool,
}

/// The JSON form in which a value is compared with stored values.
#[derive(Debug)]
pub enum FilterLiteral {
    Null,
    Bool(bool),
    /// A number that an `i64` holds.
    Integer(i64),
    Number(Real),
    Text(String),
    /// The JSON text of an array or an object.
    Structured(String),
}

/// A parameter value. Every number carries its single-precision form beside
/// it, since query vectors hold single-precision components.
#[derive(Debug)]
pub enum ProximaValue {
    String(String),
    Symbol(String),
    Int { value: i64, narrow: Real },
    UInt { unsigned: u64, narrow: Real },
    /// Half and single precision, with its double-precision form.
    Float32 { wide: Real, narrow: Real },
    Float64 { wide: Real, narrow: Real },
    Boolean(bool),
    DenseVector(Vec<Real>),
    Array { items: Vec<ProximaValue>, literal: FilterLiteral },
    /// A JSON document, with its comparison form.
    Json(FilterLiteral),
    Null,
    /// Any other value, with its comparison form.
    Other(FilterLiteral),
}

/// A value bound to a prepared statement.
#[derive(Debug)]
pub enum ParameterValue {
    String(String),
    Int(i64),
    Float(Real),
    Bool(bool),
    Vector(Vec<Real>),
    Null,
}

/// The texts of numbers.
pub open spec fn real_texts(values: Seq<Real>) -> Seq<Seq<char>> {
    Seq::new(values.len(), |i: int| values[i].text@)
}

pub open spec fn all_finite(values: Seq<Real>) -> bool {
    forall|i: int| 0 <= i < values.len() ==> (#[trigger] values[i]).finite
}

/// The text of a vector: its components between brackets.
pub open spec fn vector_text(values: Seq<Real>) -> Seq<char> {
    "["@ + joined(real_texts(values), ","@) + "]"@
}

/// Two lists hold the same numbers.
pub open spec fn same_reals(a: Seq<Real>, b: Seq<Real>) -> bool {
    &&& a.len() == b.len()
    &&& forall|i: int|
        0 <= i < a.len() ==> (#[trigger] a[i]).text@ == b[i].text@ && a[i].finite == b[i].finite
}

fn copy_real(r: &Real) -> (c: Real)
    ensures
        c.text@ == r.text@,
        c.finite == r.finite,
{
    Real { text: copied(&r.text), finite: r.finite }
}

fn copy_reals(v: &Vec<Real>) -> (c: Vec<Real>)
    ensures
        same_reals(c@, v@),
{
    let mut c: Vec<Real> = Vec::new();
    let mut i: usize = 0;
    while i < v.len()
        invariant
            i <= v@.len(),
            c@.len() == i,
            forall|j: int|
                0 <= j < i ==> (#[trigger] c@[j]).text@ == v@[j].text@ && c@[j].finite
                    == v@[j].finite,
        decreases v@.len() - i,
    {
        c.push(copy_real(&v[i]));
        i += 1;
    }
    c
}

/// The text of a vector.
pub fn vector_literal_text(values: &Vec<Real>) -> (r: String)
    ensures
        r@ == vector_text(values@),
{
    let mut parts: Vec<String> = Vec::new();
    let mut i: usize = 0;
    while i < values.len()
        invariant
            i <= values@.len(),
            parts@.len() == i,
            forall|j: int| 0 <= j < i ==> (#[trigger] parts@[j])@ == values@[j].text@,
        decreases values@.len() - i,
    {
        parts.push(copied(&values[i].text));
        i += 1;
    }
    assert(texts(parts@) =~= real_texts(values@));
    let inner: String = join_texts(parts.as_slice(), ",");
    let mut r: String = String::new();
    r.append("[");
    r.append(inner.as_str());
    r.append("]");
    assert(r@ =~= vector_text(values@));
    r
}

/// The SQL literal of a vector. Only finite components are accepted.
pub open spec fn vector_literal(values: Seq<Real>) -> Result<Seq<char>, Seq<char>> {
    if all_finite(values) {
        Ok(quoted(vector_text(values)))
    } else {
        Err("query vector components must be finite"@)
    }
}

/// The model of a result whose value and error are texts.
pub open spec fn text_result(r: Result<String, String>) -> Result<Seq<char>, Seq<char>> {
    match r {
        Ok(t) => Ok(t@),
        Err(e) => Err(e@),
    }
}

/// The SQL literal of a vector.
pub fn vector_to_sql_literal(values: &Vec<Real>) -> (r: Result<String, String>)
    ensures
        text_result(r) == vector_literal(values@),
{
    let mut i: usize = 0;
    while i < values.len()
        invariant
            i <= values@.len(),
            forall|j: int| 0 <= j < i ==> (#[trigger] values@[j]).finite,
        decreases values@.len() - i,
    {
        if !values[i].finite {
            return Err("query vector components must be finite".to_owned());
        }
        i += 1;
    }
    let text: String = vector_literal_text(values);
    Ok(sql_quote(text.as_str()))
}

/// The single-precision form of a number.
pub open spec fn narrow_form(value: ProximaValue) -> Option<Real> {
    match value {
        ProximaValue::Int { narrow, .. } => Some(narrow),
        ProximaValue::UInt { narrow, .. } => Some(narrow),
        ProximaValue::Float32 { narrow, .. } => Some(narrow),
        ProximaValue::Float64 { narrow, .. } => Some(narrow),
        _ => None,
    }
}

/// The value can be read as a vector.
pub open spec fn is_vector(value: ProximaValue) -> bool {
    match value {
        ProximaValue::DenseVector(_) => true,
        ProximaValue::Array { items, .. } => forall|i: int|
            0 <= i < items@.len() ==> narrow_form(#[trigger] items@[i]) is Some,
        _ => false,
    }
}

/// The components of a value that can be read as a vector.
pub open spec fn vector_components(value: ProximaValue) -> Seq<Real> {
    match value {
        ProximaValue::DenseVector(values) => values@,
        ProximaValue::Array { items, .. } => Seq::new(
            items@.len(),
            |i: int| narrow_form(items@[i])->0,
        ),
        _ => Seq::empty(),
    }
}

/// Reads a value as a vector.
pub fn proxima_value_to_f32_vector(value: &ProximaValue) -> (r: Option<Vec<Real>>)
    ensures
        r is Some <==> is_vector(*value),
        r is Some ==> same_reals(r->0@, vector_components(*value)),
{
    match value {
        ProximaValue::DenseVector(values) => Some(copy_reals(values)),
        ProximaValue::Array { items, .. } => {
            let mut r: Vec<Real> = Vec::new();
            let mut i: usize = 0;
            while i < items.len()
                invariant
                    i <= items@.len(),
                    value matches ProximaValue::Array { items: all, .. } && all == items,
                    r@.len() == i,
                    forall|j: int| 0 <= j < i ==> narrow_form(#[trigger] items@[j]) is Some,
                    forall|j: int|
                        0 <= j < i ==> (#[trigger] r@[j]).text@ == narrow_form(
                            items@[j],
                        )->0.text@ && r@[j].finite == narrow_form(items@[j])->0.finite,
                decreases items@.len() - i,
            {
                let number: &Real = match &items[i] {
                    ProximaValue::Int { narrow, .. } => narrow,
                    ProximaValue::UInt { narrow, .. } => narrow,
                    ProximaValue::Float32 { narrow, .. } => narrow,
                    ProximaValue::Float64 { narrow, .. } => narrow,
                    _ => {
                        assert(narrow_form(items@[i as int]) is None);
                        return None;
                    },
                };
                r.push(copy_real(number));
                i += 1;
            }
            Some(r)
        },
        _ => None,
    }
}

/// Lists of the same numbers have the same literal.
pub proof fn lemma_vector_literal_of_same(a: Seq<Real>, b: Seq<Real>)
    requires
        same_reals(a, b),
    ensures
        vector_literal(a) == vector_literal(b),
{
    assert(real_texts(a) =~= real_texts(b));
    assert(all_finite(a) == all_finite(b)) by {
        if all_finite(a) {
            assert forall|i: int| 0 <= i < b.len() implies (#[trigger] b[i]).finite by {
                assert(a[i].finite);
            }
        }
        if all_finite(b) {
            assert forall|i: int| 0 <= i < a.len() implies (#[trigger] a[i]).finite by {
                assert(b[i].finite);
            }
        }
    }
}

/// The SQL literal of a value in comparison form: null is `NULL`, scalars stand
/// bare, texts and structured values are quoted.
pub open spec fn filter_sql(literal: FilterLiteral) -> Seq<char> {
    match literal {
        FilterLiteral::Null => "NULL"@,
        FilterLiteral::Bool(b) => if b {
            "true"@
        } else {
            "false"@
        },
        FilterLiteral::Integer(n) => signed_decimal(n as int),
        FilterLiteral::Number(x) => x.text@,
        FilterLiteral::Text(t) => quoted(t@),
        FilterLiteral::Structured(t) => quoted(t@),
    }
}

/// The SQL literal of a number: a non-finite one is `NULL`.
pub open spec fn real_sql(x: Real) -> Seq<char> {
    if x.finite {
        x.text@
    } else {
        "NULL"@
    }
}

/// The SQL literal of a value.
pub open spec fn sql_literal(value: ProximaValue) -> Result<Seq<char>, Seq<char>> {
    match value {
        ProximaValue::String(t) => Ok(quoted(t@)),
        ProximaValue::Symbol(t) => Ok(quoted(t@)),
        ProximaValue::Int { value: n, .. } => Ok(signed_decimal(n as int)),
        ProximaValue::UInt { unsigned: n, .. } => Ok(decimal(n as nat)),
        ProximaValue::Float32 { narrow: x, .. } => Ok(real_sql(x)),
        ProximaValue::Float64 { wide: x, .. } => Ok(real_sql(x)),
        ProximaValue::Boolean(b) => Ok(
            if b {
                "TRUE"@
            } else {
                "FALSE"@
            },
        ),
        ProximaValue::DenseVector(values) => vector_literal(values@),
        ProximaValue::Array { literal, .. } => if is_vector(value) {
            vector_literal(vector_components(value))
        } else {
            Ok(filter_sql(literal))
        },
        ProximaValue::Json(literal) => Ok(filter_sql(literal)),
        ProximaValue::Null => Ok("NULL"@),
        ProximaValue::Other(literal) => Ok(filter_sql(literal)),
    }
}

fn exotic_literal(literal: &FilterLiteral) -> (r: String)
    ensures
        r@ == filter_sql(*literal),
{
    match literal {
        FilterLiteral::Null => "NULL".to_owned(),
        FilterLiteral::Bool(b) => if *b {
            "true".to_owned()
        } else {
            "false".to_owned()
        },
        FilterLiteral::Integer(n) => signed_decimal_text(*n),
        FilterLiteral::Number(x) => copied(&x.text),
        FilterLiteral::Text(t) => sql_quote(t.as_str()),
        FilterLiteral::Structured(t) => sql_quote(t.as_str()),
    }
}

fn float_sql_literal(x: &Real) -> (r: String)
    ensures
        r@ == real_sql(*x),
{
    if x.finite {
        copied(&x.text)
    } else {
        "NULL".to_owned()
    }
}

/// The SQL literal of a value.
pub fn proxima_value_to_sql_literal(value: &ProximaValue) -> (r: Result<String, String>)
    ensures
        text_result(r) == sql_literal(*value),
{
    match value {
        ProximaValue::String(t) => Ok(sql_quote(t.as_str())),
        ProximaValue::Symbol(t) => Ok(sql_quote(t.as_str())),
        ProximaValue::Int { value: n, .. } => Ok(signed_decimal_text(*n)),
        ProximaValue::UInt { unsigned: n, .. } => Ok(decimal_text(*n as u128)),
        ProximaValue::Float32 { narrow: x, .. } => Ok(float_sql_literal(x)),
        ProximaValue::Float64 { wide: x, .. } => Ok(float_sql_literal(x)),
        ProximaValue::Boolean(b) => Ok(
            if *b {
                "TRUE".to_owned()
            } else {
                "FALSE".to_owned()
            },
        ),
        ProximaValue::DenseVector(values) => vector_to_sql_literal(values),
        ProximaValue::Array { literal, .. } => match proxima_value_to_f32_vector(value) {
            Some(vector) => {
                proof {
                    lemma_vector_literal_of_same(vector@, vector_components(*value));
                }
                vector_to_sql_literal(&vector)
            },
            None => Ok(exotic_literal(literal)),
        },
        ProximaValue::Json(literal) => Ok(exotic_literal(literal)),
        ProximaValue::Null => Ok("NULL".to_owned()),
        ProximaValue::Other(literal) => Ok(exotic_literal(literal)),
    }
}

/// The parameter holds the value in comparison form: texts and structured
/// values as their text, scalars as themselves.
pub open spec fn is_literal_param(p: ParameterValue, literal: FilterLiteral) -> bool {
    match literal {
        FilterLiteral::Null => p matches ParameterValue::String(t) && t@ == "null"@,
        FilterLiteral::Bool(b) => p == ParameterValue::Bool(b),
        FilterLiteral::Integer(n) => p == ParameterValue::Int(n),
        FilterLiteral::Number(x) => p matches ParameterValue::Float(y) && y.text@ == x.text@
            && y.finite == x.finite,
        FilterLiteral::Text(t) => p matches ParameterValue::String(u) && u@ == t@,
        FilterLiteral::Structured(t) => p matches ParameterValue::String(u) && u@ == t@,
    }
}

/// The parameter holds the value. An unsigned number beyond `i64` is held as
/// its decimal text, a single-precision number in double precision, a null JSON
/// document as null.
pub open spec fn is_param(p: ParameterValue, value: ProximaValue) -> bool {
    match value {
        ProximaValue::String(t) => p matches ParameterValue::String(u) && u@ == t@,
        ProximaValue::Symbol(t) => p matches ParameterValue::String(u) && u@ == t@,
        ProximaValue::Int { value: n, .. } => p == ParameterValue::Int(n),
        ProximaValue::UInt { unsigned: n, .. } => if n <= i64::MAX {
            p == ParameterValue::Int(n as i64)
        } else {
            p matches ParameterValue::String(u) && u@ == decimal(n as nat)
        },
        ProximaValue::Float32 { wide: x, .. } => p matches ParameterValue::Float(y) && y.text@
            == x.text@ && y.finite == x.finite,
        ProximaValue::Float64 { wide: x, .. } => p matches ParameterValue::Float(y) && y.text@
            == x.text@ && y.finite == x.finite,
        ProximaValue::Boolean(b) => p == ParameterValue::Bool(b),
        ProximaValue::DenseVector(values) => p matches ParameterValue::Vector(w) && same_reals(
            w@,
            values@,
        ),
        ProximaValue::Json(FilterLiteral::Null) => p is Null,
        ProximaValue::Null => p is Null,
        ProximaValue::Array { literal, .. } => is_literal_param(p, literal),
        ProximaValue::Json(literal) => is_literal_param(p, literal),
        ProximaValue::Other(literal) => is_literal_param(p, literal),
    }
}

fn literal_to_param(literal: &FilterLiteral) -> (r: ParameterValue)
    ensures
        is_literal_param(r, *literal),
{
    match literal {
        FilterLiteral::Null => ParameterValue::String("null".to_owned()),
        FilterLiteral::Bool(b) => ParameterValue::Bool(*b),
        FilterLiteral::Integer(n) => ParameterValue::Int(*n),
        FilterLiteral::Number(x) => ParameterValue::Float(copy_real(x)),
        FilterLiteral::Text(t) => ParameterValue::String(copied(t)),
        FilterLiteral::Structured(t) => ParameterValue::String(copied(t)),
    }
}

/// The parameter that holds a value.
pub fn proxima_value_to_param(value: &ProximaValue) -> (r: ParameterValue)
    ensures
        is_param(r, *value),
{
    match value {
        ProximaValue::String(t) => ParameterValue::String(copied(t)),
        ProximaValue::Symbol(t) => ParameterValue::String(copied(t)),
        ProximaValue::Int { value: n, .. } => ParameterValue::Int(*n),
        ProximaValue::UInt { unsigned: n, .. } => if *n <= 0x7FFF_FFFF_FFFF_FFFF {
            ParameterValue::Int(*n as i64)
        } else {
            ParameterValue::String(decimal_text(*n as u128))
        },
        ProximaValue::Float32 { wide: x, .. } => ParameterValue::Float(copy_real(x)),
        ProximaValue::Float64 { wide: x, .. } => ParameterValue::Float(copy_real(x)),
        ProximaValue::Boolean(b) => ParameterValue::Bool(*b),
        ProximaValue::DenseVector(values) => ParameterValue::Vector(copy_reals(values)),
        ProximaValue::Json(FilterLiteral::Null) => ParameterValue::Null,
        ProximaValue::Null => ParameterValue::Null,
        ProximaValue::Array { literal, .. } => literal_to_param(literal),
        ProximaValue::Json(literal) => literal_to_param(literal),
        ProximaValue::Other(literal) => literal_to_param(literal),
    }
}

/// The parameters that hold the given values; none where there are none.
pub fn proxima_values_to_params(values: Option<Vec<ProximaValue>>) -> (r: Vec<ParameterValue>)
    ensures
        r@.len() == (match values {
            Some(v) => v@.len(),
            None => 0,
        }),
        values matches Some(v) ==> forall|i: int|
            0 <= i < v@.len() ==> is_param(#[trigger] r@[i], v@[i]),
{
    let mut r: Vec<ParameterValue> = Vec::new();
    if let Some(v) = values {
        let mut i: usize = 0;
        while i < v.len()
            invariant
                i <= v@.len(),
                r@.len() == i,
                forall|j: int| 0 <= j < i ==> is_param(#[trigger] r@[j], v@[j]),
            decreases v@.len() - i,
        {
            r.push(proxima_value_to_param(&v[i]));
            i += 1;
        }
    }
    r
}

} // verus!
