//! The selector language's outward contract: parse an expression into a
//! path, parse a path with a trailing comparison trying the literal
//! types in a fixed order, and evaluate a path against a value.  The
//! laws of the evaluator stand here as proved statements.

use vstd::prelude::*;

use crate::error::NdJsonSpatialError;
use crate::filter::{sel_spec, select_from_json_object, strip_quotes_spec};
use crate::json::{JsonV, JsonValue};
use crate::json_selector_parser::{
    parse_selector_bool, parse_selector_f64, parse_selector_i64, parse_selector_null,
    parse_selector_string, parse_selector_u64, sels_view, spec_json_selector,
    spec_selector_bool, spec_selector_f64, spec_selector_i64, spec_selector_null,
    spec_selector_string, spec_selector_u64, Compare, Null, ParseError, SelV, Selector,
};
use crate::number::Dec;
use crate::text::to_chars;

verus! {

/// A comparison whose literal took the first type that parsed: unsigned
/// integer, signed integer, decimal, boolean, null, then string.
#[derive(Debug, PartialEq)]
pub enum TypedCompare {
    Unsigned(Compare<u64>),
    Signed(Compare<i64>),
    Decimal(Compare<Dec>),
    Bool(Compare<bool>),
    Null(Compare<Null>),
    Text(Compare<String>),
}

/// A whole expression parsed as a bare path: the selector grammar must
/// consume every character.
pub open spec fn spec_parse_path(s: Seq<char>) -> Option<Seq<SelV>> {
    match spec_json_selector(s, 0) {
        Some((sels, j)) => if j == s.len() {
            Some(sels)
        } else {
            None
        },
        None => None,
    }
}

/// Parses a whole expression as a bare path, mirroring
/// `spec_parse_path`: an expression with unconsumed input is rejected.
pub fn parse_path(expression: &str) -> (r: Result<Vec<Selector>, ParseError>)
    ensures
        (match r {
            Ok(sels) => spec_parse_path(expression@) == Some(sels_view(sels@)),
            Err(_) => (spec_parse_path(expression@) is None),
        }),
{
    let cs = to_chars(expression);
    match crate::json_selector_parser::parse_json_selector_at(&cs, 0) {
        Some((sels, j)) => {
            if j == cs.len() {
                Ok(sels)
            } else {
                Err(
                    ParseError {
                        remainder: crate::json_selector_parser::parse_string(expression),
                        message: "unconsumed input after the path".to_owned(),
                    },
                )
            }
        },
        None => Err(
            ParseError {
                remainder: crate::json_selector_parser::parse_string(expression),
                message: "could not parse the selector path".to_owned(),
            },
        ),
    }
}

/// Which typed reading an expression with a comparison takes: the
/// alternatives are tried in a fixed order and the first that parses
/// wins, the string form last.
pub open spec fn spec_comparison_kind(s: Seq<char>) -> int {
    if spec_selector_u64(s) is Some {
        0
    } else if spec_selector_i64(s) is Some {
        1
    } else if spec_selector_f64(s) is Some {
        2
    } else if spec_selector_bool(s) is Some {
        3
    } else if spec_selector_null(s) is Some {
        4
    } else if spec_selector_string(s) is Some {
        5
    } else {
        6
    }
}

/// Parses a path with a trailing comparison, trying the literal types
/// in order: unsigned integer, signed integer, decimal, boolean, null,
/// then string.  The result takes the first reading that parses, and
/// an expression with none is rejected.
pub fn parse_path_with_comparison(expression: &str) -> (r: Result<
    (Vec<Selector>, TypedCompare),
    ParseError,
>)
    ensures
        (match r {
            Ok((sels, tc)) => ({
                let k = spec_comparison_kind(expression@);
                &&& k < 6
                &&& (k == 0 ==> (tc is Unsigned && (spec_selector_u64(
                    expression@,
                ) matches Some((sv, c, v)) && sels_view(sels@) == sv && tc->Unsigned_0.comparator
                    == c && tc->Unsigned_0.value == v)))
                &&& (k == 1 ==> (tc is Signed && (spec_selector_i64(
                    expression@,
                ) matches Some((sv, c, v)) && sels_view(sels@) == sv && tc->Signed_0.comparator
                    == c && tc->Signed_0.value == v)))
                &&& (k == 2 ==> (tc is Decimal && (spec_selector_f64(
                    expression@,
                ) matches Some((sv, c, v)) && sels_view(sels@) == sv && tc->Decimal_0.comparator
                    == c && tc->Decimal_0.value == v)))
                &&& (k == 3 ==> (tc is Bool && (spec_selector_bool(
                    expression@,
                ) matches Some((sv, c, v)) && sels_view(sels@) == sv && tc->Bool_0.comparator == c
                    && tc->Bool_0.value == v)))
                &&& (k == 4 ==> (tc is Null && (spec_selector_null(
                    expression@,
                ) matches Some((sv, c)) && sels_view(sels@) == sv && tc->Null_0.comparator == c
                    && tc->Null_0.value is None)))
                &&& (k == 5 ==> (tc is Text && (spec_selector_string(
                    expression@,
                ) matches Some((sv, c, v)) && sels_view(sels@) == sv && tc->Text_0.comparator == c
                    && tc->Text_0.value@ == v)))
            }),
            Err(_) => spec_comparison_kind(expression@) == 6,
        }),
{
    match parse_selector_u64(expression) {
        Ok((_, (c, sels))) => Ok((sels, TypedCompare::Unsigned(c))),
        Err(_) => match parse_selector_i64(expression) {
            Ok((_, (c, sels))) => Ok((sels, TypedCompare::Signed(c))),
            Err(_) => match parse_selector_f64(expression) {
                Ok((_, (c, sels))) => Ok((sels, TypedCompare::Decimal(c))),
                Err(_) => match parse_selector_bool(expression) {
                    Ok((_, (c, sels))) => Ok((sels, TypedCompare::Bool(c))),
                    Err(_) => match parse_selector_null(expression) {
                        Ok((_, (c, sels))) => Ok((sels, TypedCompare::Null(c))),
                        Err(_) => match parse_selector_string(expression) {
                            Ok((_, (c, sels))) => Ok((sels, TypedCompare::Text(c))),
                            Err(_) => Err(
                                ParseError {
                                    remainder: crate::json_selector_parser::parse_string(
                                        expression,
                                    ),
                                    message: "could not parse the comparison".to_owned(),
                                },
                            ),
                        },
                    },
                },
            },
        },
    }
}

/// Evaluates a path against a value: a copy of the selected sub-value,
/// or the error of the first failing step.
pub fn evaluate(value: &JsonValue, path: &Vec<Selector>) -> (r: Result<
    JsonValue,
    NdJsonSpatialError,
>)
    ensures
        (match r {
            Ok(out) => sel_spec(value@, sels_view(path@)) matches Ok(w) && w == out@,
            Err(_) => (sel_spec(value@, sels_view(path@)) is Err),
        }),
{
    select_from_json_object(value, path)
}

/// Evaluation is a function of the value's model and the path alone:
/// two evaluations of equal values under one path agree, and since
/// `evaluate` takes its value by shared reference and its result is
/// pinned to `sel_spec`, evaluating twice in a row yields identical
/// results and leaves the value as it was.
pub proof fn lemma_evaluate_deterministic(v1: JsonV, v2: JsonV, p: Seq<SelV>)
    requires
        v1 == v2,
    ensures
        sel_spec(v1, p) == sel_spec(v2, p),
{
}

/// An identifier written wrapped in double quotes selects exactly what
/// the bare identifier selects, for any identifier that is not itself
/// already wrapped in quotes.
pub proof fn lemma_quoted_identifier_equivalent(v: JsonV, name: Seq<char>, rest: Seq<SelV>)
    requires
        !(name.len() >= 2 && name[0] == '"' && name.last() == '"'),
    ensures
        sel_spec(v, seq![SelV::Identifier(seq!['"'] + name + seq!['"'])] + rest) == sel_spec(
            v,
            seq![SelV::Identifier(name)] + rest,
        ),
{
    let wrapped = seq!['"'] + name + seq!['"'];
    assert(strip_quotes_spec(wrapped) =~= name);
    assert(strip_quotes_spec(name) == name);
    let p1 = seq![SelV::Identifier(wrapped)] + rest;
    let p2 = seq![SelV::Identifier(name)] + rest;
    assert(p1[0] == SelV::Identifier(wrapped));
    assert(p2[0] == SelV::Identifier(name));
    assert(p1.drop_first() =~= rest);
    assert(p2.drop_first() =~= rest);
}

} // verus!
