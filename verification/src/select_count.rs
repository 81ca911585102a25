//! The select-count tool: for each GeoJSON feature line, count the
//! elements of the array selected from its properties that satisfy a
//! comparison, and write the feature back with that count stored in its
//! properties under the given field name.  Lines that are not features
//! pass through unchanged, in canonical form.

use vstd::prelude::*;

use crate::error::NdJsonSpatialError;
use crate::filter::{obj_lookup, sel_spec, select_from_json_object};
use crate::json::{
    obj_insert, obj_insert_entry, obj_view, parse_json_chars, ser_value, spec_json_line,
    value_view, JsonV, JsonValue,
};
use crate::json_selector_parser::{
    compare_dec_spec, compare_u64_spec, parse_json_selector, parse_selector_f64,
    parse_selector_u64, sels_view, Compare, SelV, Selector,
};
use crate::number::{Dec, JsonNumber};
use crate::text::{chars_to_string, cmp_chars, to_chars, Rel};

verus! {

/// The key under which a feature names its kind.
pub open spec fn type_key() -> Seq<char> {
    seq!['t', 'y', 'p', 'e']
}

/// The key under which a feature carries its properties.
pub open spec fn properties_key() -> Seq<char> {
    seq!['p', 'r', 'o', 'p', 'e', 'r', 't', 'i', 'e', 's']
}

/// The kind tag of a feature.
pub open spec fn feature_tag() -> Seq<char> {
    seq!['F', 'e', 'a', 't', 'u', 'r', 'e']
}

/// How many elements of `es` from `i` on have a selected value that
/// satisfies the unsigned comparison.
pub open spec fn spec_count_u64(
    es: Seq<JsonV>,
    i: int,
    ids: Seq<SelV>,
    c: crate::selector::Comparator,
    val: u64,
) -> int
    decreases es.len() - i,
{
    if i < 0 || i >= es.len() {
        0
    } else {
        let hit: int = match sel_spec(es[i], ids) {
            Ok(w) => if compare_u64_spec(c, val, w) {
                1
            } else {
                0
            },
            Err(_) => 0,
        };
        hit + spec_count_u64(es, i + 1, ids, c, val)
    }
}

/// How many elements of `es` from `i` on have a selected value that
/// satisfies the decimal comparison.
pub open spec fn spec_count_dec(
    es: Seq<JsonV>,
    i: int,
    ids: Seq<SelV>,
    c: crate::selector::Comparator,
    val: Dec,
) -> int
    decreases es.len() - i,
{
    if i < 0 || i >= es.len() {
        0
    } else {
        let hit: int = match sel_spec(es[i], ids) {
            Ok(w) => if compare_dec_spec(c, val, w) {
                1
            } else {
                0
            },
            Err(_) => 0,
        };
        hit + spec_count_dec(es, i + 1, ids, c, val)
    }
}

/// Whether `v` is a feature with an object under its properties key:
/// an object whose kind tag reads `Feature`.
pub open spec fn is_feature_with_props(v: JsonV) -> bool {
    &&& v is Obj
    &&& obj_lookup(v->Obj_0, type_key()) == Some(JsonV::Str(feature_tag()))
    &&& (obj_lookup(v->Obj_0, properties_key()) matches Some(p) && p is Obj)
}

/// The properties object of a feature.
pub open spec fn props_of(v: JsonV) -> Seq<(Seq<char>, JsonV)> {
    obj_lookup(v->Obj_0, properties_key())->0->Obj_0
}

/// The feature with `count` stored in its properties under `fname`;
/// a value that is not a feature with object properties is unchanged.
pub open spec fn insert_count(v: JsonV, fname: Seq<char>, count: u64) -> JsonV {
    if is_feature_with_props(v) {
        JsonV::Obj(
            obj_insert(
                v->Obj_0,
                properties_key(),
                JsonV::Obj(obj_insert(props_of(v), fname, JsonV::Num(JsonNumber::Unsigned(count)))),
            ),
        )
    } else {
        v
    }
}

/// The count an unsigned comparison yields for a feature: the matching
/// elements of the array the expression selects from its properties,
/// and zero when the selection fails or is not an array.
pub open spec fn feature_count_u64(
    v: JsonV,
    exp: Seq<SelV>,
    ids: Seq<SelV>,
    c: crate::selector::Comparator,
    val: u64,
) -> u64 {
    match sel_spec(JsonV::Obj(props_of(v)), exp) {
        Ok(JsonV::Arr(es)) => spec_count_u64(es, 0, ids, c, val) as u64,
        _ => 0,
    }
}

/// The count a decimal comparison yields for a feature.
pub open spec fn feature_count_dec(
    v: JsonV,
    exp: Seq<SelV>,
    ids: Seq<SelV>,
    c: crate::selector::Comparator,
    val: Dec,
) -> u64 {
    match sel_spec(JsonV::Obj(props_of(v)), exp) {
        Ok(JsonV::Arr(es)) => spec_count_dec(es, 0, ids, c, val) as u64,
        _ => 0,
    }
}

/// The output for the lines from `i` on under an unsigned comparison:
/// each feature with its count inserted, other values unchanged, one
/// canonical line each; a line that does not parse is skipped.
pub open spec fn run_count_u64(
    lines: Seq<Seq<char>>,
    i: int,
    exp: Seq<SelV>,
    ids: Seq<SelV>,
    c: crate::selector::Comparator,
    val: u64,
    fname: Seq<char>,
    acc: Seq<char>,
) -> Seq<char>
    decreases lines.len() - i,
{
    if i < 0 || i >= lines.len() {
        acc
    } else {
        match spec_json_line(lines[i]) {
            None => run_count_u64(lines, i + 1, exp, ids, c, val, fname, acc),
            Some(v) => {
                let out = insert_count(v, fname, feature_count_u64(v, exp, ids, c, val));
                run_count_u64(
                    lines,
                    i + 1,
                    exp,
                    ids,
                    c,
                    val,
                    fname,
                    acc + ser_value(out) + seq!['\n'],
                )
            },
        }
    }
}

/// The output for the lines from `i` on under a decimal comparison.
pub open spec fn run_count_dec(
    lines: Seq<Seq<char>>,
    i: int,
    exp: Seq<SelV>,
    ids: Seq<SelV>,
    c: crate::selector::Comparator,
    val: Dec,
    fname: Seq<char>,
    acc: Seq<char>,
) -> Seq<char>
    decreases lines.len() - i,
{
    if i < 0 || i >= lines.len() {
        acc
    } else {
        match spec_json_line(lines[i]) {
            None => run_count_dec(lines, i + 1, exp, ids, c, val, fname, acc),
            Some(v) => {
                let out = insert_count(v, fname, feature_count_dec(v, exp, ids, c, val));
                run_count_dec(
                    lines,
                    i + 1,
                    exp,
                    ids,
                    c,
                    val,
                    fname,
                    acc + ser_value(out) + seq!['\n'],
                )
            },
        }
    }
}

/// What the tool yields: the expression must parse as a path and the
/// comparison with an unsigned or a decimal literal; either failing is
/// a configuration error, `None` here.  Then every parsed line is
/// counted and written back with the count under `fname`.
pub open spec fn select_count_spec(
    expr: Seq<char>,
    sel: Seq<char>,
    fname: Seq<char>,
    input: Seq<char>,
) -> Option<Seq<char>> {
    match crate::json_selector_parser::spec_json_selector(expr, 0) {
        None => None,
        Some((exp, _)) => {
            let lines = crate::ndjson::split_lines(input);
            match crate::json_selector_parser::spec_selector_u64(sel) {
                Some((ids, c, v)) => Some(
                    run_count_u64(lines, 0, exp, ids, c, v, fname, Seq::<char>::empty()),
                ),
                None => match crate::json_selector_parser::spec_selector_f64(sel) {
                    Some((ids, c, v)) => Some(
                        run_count_dec(lines, 0, exp, ids, c, v, fname, Seq::<char>::empty()),
                    ),
                    None => None,
                },
            }
        },
    }
}


/// The characters of the kind key.
fn type_key_chars() -> (r: Vec<char>)
    ensures
        r@ == type_key(),
{
    proof {
        reveal_strlit("type");
        assert("type"@ =~= type_key());
    }
    to_chars("type")
}

/// The characters of the properties key.
fn properties_key_chars() -> (r: Vec<char>)
    ensures
        r@ == properties_key(),
{
    proof {
        reveal_strlit("properties");
        assert("properties"@ =~= properties_key());
    }
    to_chars("properties")
}

/// The characters of the feature tag.
fn feature_tag_chars() -> (r: Vec<char>)
    ensures
        r@ == feature_tag(),
{
    proof {
        reveal_strlit("Feature");
        assert("Feature"@ =~= feature_tag());
    }
    to_chars("Feature")
}

/// Recognises a feature with object properties, handing out its member
/// list and its properties value.
#[verifier::rlimit(90)]
fn feature_parts<'a>(v: &'a JsonValue) -> (r: Option<
    (&'a Vec<(String, JsonValue)>, &'a JsonValue),
>)
    ensures
        (match r {
            Some((es, pv)) => is_feature_with_props(v@) && v@->Obj_0 == obj_view(es@)
                && value_view(*pv) == JsonV::Obj(props_of(v@)),
            None => !is_feature_with_props(v@),
        }),
{
    match v {
        JsonValue::Obj(entries) => {
            let tk = type_key_chars();
            match crate::filter::obj_find(entries, &tk) {
                Some(tval) => {
                    match tval {
                        JsonValue::Str(t) => {
                            let tc = to_chars(t.as_str());
                            let fc = feature_tag_chars();
                            if cmp_chars(&tc, &fc) == Rel::Equal {
                                let pk = properties_key_chars();
                                match crate::filter::obj_find(entries, &pk) {
                                    Some(pval) => {
                                        match pval {
                                            JsonValue::Obj(_) => Some((entries, pval)),
                                            _ => None,
                                        }
                                    },
                                    None => None,
                                }
                            } else {
                                None
                            }
                        },
                        _ => None,
                    }
                },
                None => None,
            }
        },
        _ => None,
    }
}

/// Counts the elements of the array under `exp` in `v` whose selected
/// value satisfies the unsigned comparison; anything else counts zero.
pub fn count_matching_u64(
    v: &JsonValue,
    exp: &Vec<Selector>,
    ids: &Vec<Selector>,
    cmp: &Compare<u64>,
) -> (r: usize)
    ensures
        r as int == (match sel_spec(v@, sels_view(exp@)) {
            Ok(JsonV::Arr(es)) => spec_count_u64(es, 0, sels_view(ids@), cmp.comparator, cmp.value),
            _ => 0,
        }),
{
    match select_from_json_object(v, exp) {
        Err(_) => 0,
        Ok(w) => {
            match &w {
                JsonValue::Arr(a) => {
                    let ghost es = crate::json::arr_view(a@);
                    proof {
                        crate::json::lemma_arr_view(a@);
                    }
                    let mut count: usize = 0;
                    let mut i: usize = 0;
                    while i < a.len()
                        invariant
                            i <= a@.len(),
                            es == crate::json::arr_view(a@),
                            es.len() == a@.len(),
                            forall|t: int|
                                0 <= t < a@.len() ==> #[trigger] es[t] == value_view(a@[t]),
                            count <= i,
                            count + spec_count_u64(
                                es,
                                i as int,
                                sels_view(ids@),
                                cmp.comparator,
                                cmp.value,
                            ) == spec_count_u64(es, 0, sels_view(ids@), cmp.comparator, cmp.value),
                        decreases a@.len() - i,
                    {
                        match select_from_json_object(&a[i], ids) {
                            Ok(item) => {
                                if cmp.compare(&item) {
                                    count += 1;
                                }
                            },
                            Err(_) => {},
                        }
                        i += 1;
                    }
                    count
                },
                _ => 0,
            }
        },
    }
}

/// Counts the elements of the array under `exp` in `v` whose selected
/// value satisfies the decimal comparison; anything else counts zero.
pub fn count_matching_dec(
    v: &JsonValue,
    exp: &Vec<Selector>,
    ids: &Vec<Selector>,
    cmp: &Compare<Dec>,
) -> (r: usize)
    ensures
        r as int == (match sel_spec(v@, sels_view(exp@)) {
            Ok(JsonV::Arr(es)) => spec_count_dec(es, 0, sels_view(ids@), cmp.comparator, cmp.value),
            _ => 0,
        }),
{
    match select_from_json_object(v, exp) {
        Err(_) => 0,
        Ok(w) => {
            match &w {
                JsonValue::Arr(a) => {
                    let ghost es = crate::json::arr_view(a@);
                    proof {
                        crate::json::lemma_arr_view(a@);
                    }
                    let mut count: usize = 0;
                    let mut i: usize = 0;
                    while i < a.len()
                        invariant
                            i <= a@.len(),
                            es == crate::json::arr_view(a@),
                            es.len() == a@.len(),
                            forall|t: int|
                                0 <= t < a@.len() ==> #[trigger] es[t] == value_view(a@[t]),
                            count <= i,
                            count + spec_count_dec(
                                es,
                                i as int,
                                sels_view(ids@),
                                cmp.comparator,
                                cmp.value,
                            ) == spec_count_dec(es, 0, sels_view(ids@), cmp.comparator, cmp.value),
                        decreases a@.len() - i,
                    {
                        match select_from_json_object(&a[i], ids) {
                            Ok(item) => {
                                if cmp.compare(&item) {
                                    count += 1;
                                }
                            },
                            Err(_) => {},
                        }
                        i += 1;
                    }
                    count
                },
                _ => 0,
            }
        },
    }
}

/// Builds the feature with `count` stored under `fname`, mirroring
/// `insert_count`.
#[verifier::rlimit(90)]
fn with_count(v: &JsonValue, count: u64, fname: &str) -> (r: JsonValue)
    ensures
        value_view(r) == insert_count(v@, fname@, count),
{
    match feature_parts(v) {
        None => v.deep_clone(),
        Some((_, pval)) => {
            let props_clone = pval.deep_clone();
            match props_clone {
                JsonValue::Obj(mut pm) => {
                    obj_insert_entry(
                        &mut pm,
                        fname.to_owned(),
                        JsonValue::Num(JsonNumber::Unsigned(count)),
                    );
                    let cloned = v.deep_clone();
                    match cloned {
                        JsonValue::Obj(mut entries) => {
                            let pk = properties_key_chars();
                            obj_insert_entry(
                                &mut entries,
                                chars_to_string(&pk),
                                JsonValue::Obj(pm),
                            );
                            JsonValue::Obj(entries)
                        },
                        _ => {
                            proof {
                                assert(false);
                            }
                            JsonValue::Null
                        },
                    }
                },
                _ => {
                    proof {
                        assert(false);
                    }
                    JsonValue::Null
                },
            }
        },
    }
}


/// Processes every line under an unsigned comparison, mirroring
/// `run_count_u64`.
#[verifier::rlimit(90)]
fn count_lines_u64(
    lines: &Vec<Vec<char>>,
    exp: &Vec<Selector>,
    ids: &Vec<Selector>,
    cmp: &Compare<u64>,
    fname: &str,
) -> (r: Vec<char>)
    ensures
        r@ == run_count_u64(
            crate::ndjson::lines_view(lines@),
            0,
            sels_view(exp@),
            sels_view(ids@),
            cmp.comparator,
            cmp.value,
            fname@,
            Seq::<char>::empty(),
        ),
{
    let ghost lv = crate::ndjson::lines_view(lines@);
    let ghost expv = sels_view(exp@);
    let ghost idsv = sels_view(ids@);
    proof {
        crate::ndjson::lemma_lines_view(lines@);
    }
    let mut out: Vec<char> = Vec::new();
    let mut i: usize = 0;
    while i < lines.len()
        invariant
            i <= lines@.len(),
            lv == crate::ndjson::lines_view(lines@),
            expv == sels_view(exp@),
            idsv == sels_view(ids@),
            lv.len() == lines@.len(),
            forall|j: int| 0 <= j < lines@.len() ==> #[trigger] lv[j] == lines@[j]@,
            run_count_u64(lv, 0, expv, idsv, cmp.comparator, cmp.value, fname@, Seq::<
                char,
            >::empty()) == run_count_u64(
                lv,
                i as int,
                expv,
                idsv,
                cmp.comparator,
                cmp.value,
                fname@,
                out@,
            ),
        decreases lines@.len() - i,
    {
        let ghost out0 = out@;
        match parse_json_chars(&lines[i]) {
            None => {},
            Some(v) => {
                let count: u64 = match feature_parts(&v) {
                    Some((_, pval)) => count_matching_u64(pval, exp, ids, cmp) as u64,
                    None => 0,
                };
                let processed = with_count(&v, count, fname);
                processed.write_chars(&mut out);
                out.push('\n');
                proof {
                    assert(out@ =~= out0 + ser_value(value_view(processed)) + seq!['\n']);
                }
            },
        }
        i += 1;
    }
    out
}

/// Processes every line under a decimal comparison, mirroring
/// `run_count_dec`.
#[verifier::rlimit(90)]
fn count_lines_dec(
    lines: &Vec<Vec<char>>,
    exp: &Vec<Selector>,
    ids: &Vec<Selector>,
    cmp: &Compare<Dec>,
    fname: &str,
) -> (r: Vec<char>)
    ensures
        r@ == run_count_dec(
            crate::ndjson::lines_view(lines@),
            0,
            sels_view(exp@),
            sels_view(ids@),
            cmp.comparator,
            cmp.value,
            fname@,
            Seq::<char>::empty(),
        ),
{
    let ghost lv = crate::ndjson::lines_view(lines@);
    let ghost expv = sels_view(exp@);
    let ghost idsv = sels_view(ids@);
    proof {
        crate::ndjson::lemma_lines_view(lines@);
    }
    let mut out: Vec<char> = Vec::new();
    let mut i: usize = 0;
    while i < lines.len()
        invariant
            i <= lines@.len(),
            lv == crate::ndjson::lines_view(lines@),
            expv == sels_view(exp@),
            idsv == sels_view(ids@),
            lv.len() == lines@.len(),
            forall|j: int| 0 <= j < lines@.len() ==> #[trigger] lv[j] == lines@[j]@,
            run_count_dec(lv, 0, expv, idsv, cmp.comparator, cmp.value, fname@, Seq::<
                char,
            >::empty()) == run_count_dec(
                lv,
                i as int,
                expv,
                idsv,
                cmp.comparator,
                cmp.value,
                fname@,
                out@,
            ),
        decreases lines@.len() - i,
    {
        let ghost out0 = out@;
        match parse_json_chars(&lines[i]) {
            None => {},
            Some(v) => {
                let count: u64 = match feature_parts(&v) {
                    Some((_, pval)) => count_matching_dec(pval, exp, ids, cmp) as u64,
                    None => 0,
                };
                let processed = with_count(&v, count, fname);
                processed.write_chars(&mut out);
                out.push('\n');
                proof {
                    assert(out@ =~= out0 + ser_value(value_view(processed)) + seq!['\n']);
                }
            },
        }
        i += 1;
    }
    out
}

/// Counts matches per feature and writes each line back with the count
/// stored under `field_name`, mirroring `select_count_spec`: an
/// expression or comparison that does not parse is a fatal
/// configuration error.
pub fn select_count(expression: &str, selector: &str, field_name: &str, input: &str) -> (r: Result<
    String,
    NdJsonSpatialError,
>)
    ensures
        (match r {
            Ok(out) => select_count_spec(expression@, selector@, field_name@, input@) == Some(
                out@,
            ),
            Err(_) => (select_count_spec(expression@, selector@, field_name@, input@) is None),
        }),
{
    match parse_json_selector(expression) {
        Err(_) => Err(
            NdJsonSpatialError::Error("could not parse the selector expression".to_owned()),
        ),
        Ok((_, exp_identifiers)) => {
            let cs = to_chars(input);
            let lines = crate::ndjson::cut_lines(&cs);
            match parse_selector_u64(selector) {
                Ok((_, (cmp, identifiers))) => {
                    let out = count_lines_u64(
                        &lines,
                        &exp_identifiers,
                        &identifiers,
                        &cmp,
                        field_name,
                    );
                    Ok(chars_to_string(&out))
                },
                Err(_) => {
                    match parse_selector_f64(selector) {
                        Ok((_, (cmp, identifiers))) => {
                            let out = count_lines_dec(
                                &lines,
                                &exp_identifiers,
                                &identifiers,
                                &cmp,
                                field_name,
                            );
                            Ok(chars_to_string(&out))
                        },
                        Err(_) => Err(
                            NdJsonSpatialError::Error(
                                "could not parse the comparison selector".to_owned(),
                            ),
                        ),
                    }
                },
            }
        },
    }
}

} // verus!
