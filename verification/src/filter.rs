//! The JSON path evaluator and the filter tool: walk a parsed selector
//! path into a value, and keep the input lines whose selected value
//! satisfies a typed comparison.

use vstd::prelude::*;

use crate::error::NdJsonSpatialError;
use crate::json::{
    obj_view, parse_json_chars, ser_value, spec_json_line, value_view, JsonV, JsonValue,
};
use crate::json_selector_parser::{SelV, Selector};
use crate::text::{chars_to_string, to_chars};

verus! {

/// Why a path step failed.
#[derive(Debug, PartialEq, Eq, Structural, Clone, Copy)]
pub enum SelErr {
    NotAnObject,
    NoSuchField,
    NotAnArray,
    IndexOutOfBounds,
}

/// An identifier written wrapped in double quotes loses them before it
/// is used as an object key.
pub open spec fn strip_quotes_spec(s: Seq<char>) -> Seq<char> {
    if s.len() >= 2 && s[0] == '"' && s.last() == '"' {
        s.subrange(1, s.len() - 1)
    } else {
        s
    }
}

/// The value under the first member with key `k`.
pub open spec fn obj_lookup(ms: Seq<(Seq<char>, JsonV)>, k: Seq<char>) -> Option<JsonV>
    decreases ms.len(),
{
    if ms.len() == 0 {
        None
    } else if ms[0].0 == k {
        Some(ms[0].1)
    } else {
        obj_lookup(ms.drop_first(), k)
    }
}

/// Walks a selector path into a value: a field step needs an object and
/// a present key, an index step needs an array and an index in bounds.
pub open spec fn sel_spec(v: JsonV, path: Seq<SelV>) -> Result<JsonV, SelErr>
    decreases path.len(),
{
    if path.len() == 0 {
        Ok(v)
    } else {
        match path[0] {
            SelV::Identifier(name) => match v {
                JsonV::Obj(ms) => match obj_lookup(ms, strip_quotes_spec(name)) {
                    Some(w) => sel_spec(w, path.drop_first()),
                    None => Err(SelErr::NoSuchField),
                },
                _ => Err(SelErr::NotAnObject),
            },
            SelV::Index(n) => match v {
                JsonV::Arr(es) => if n < es.len() {
                    sel_spec(es[n as int], path.drop_first())
                } else {
                    Err(SelErr::IndexOutOfBounds)
                },
                _ => Err(SelErr::NotAnArray),
            },
        }
    }
}

/// Skipping members whose key is not `k` leaves the lookup unchanged.
proof fn lemma_obj_lookup_skip(ms: Seq<(Seq<char>, JsonV)>, k: Seq<char>, idx: int)
    requires
        0 <= idx <= ms.len(),
        forall|j: int| 0 <= j < idx ==> (#[trigger] ms[j]).0 != k,
    ensures
        obj_lookup(ms, k) == obj_lookup(ms.subrange(idx, ms.len() as int), k),
    decreases idx,
{
    if idx == 0 {
        assert(ms.subrange(0, ms.len() as int) =~= ms);
    } else {
        lemma_obj_lookup_skip(ms.drop_first(), k, idx - 1);
        assert(ms.drop_first().subrange(idx - 1, ms.drop_first().len() as int) =~= ms.subrange(
            idx,
            ms.len() as int,
        ));
    }
}

/// The key characters an identifier looks up: the identifier with one
/// layer of wrapping quotes removed.
fn strip_quotes_chars(ident: &String) -> (r: Vec<char>)
    ensures
        r@ == strip_quotes_spec(ident@),
{
    let c = to_chars(ident.as_str());
    if c.len() >= 2 && c[0] == '"' && c[c.len() - 1] == '"' {
        let mut out: Vec<char> = Vec::new();
        crate::number::push_range(&c, 1, c.len() - 1, &mut out);
        out
    } else {
        c
    }
}

/// The identifier with one layer of wrapping quotes removed.
pub fn strip_quotes_string(ident: &String) -> (r: String)
    ensures
        r@ == strip_quotes_spec(ident@),
{
    let c = strip_quotes_chars(ident);
    chars_to_string(&c)
}

/// Finds the value under key `k` in an object's members.
pub(crate) fn obj_find<'a>(entries: &'a Vec<(String, JsonValue)>, k: &Vec<char>) -> (r: Option<
    &'a JsonValue,
>)
    ensures
        (match r {
            Some(w) => obj_lookup(obj_view(entries@), k@) == Some(w@),
            None => (obj_lookup(obj_view(entries@), k@) is None),
        }),
{
    let ghost ms = obj_view(entries@);
    proof {
        crate::json::lemma_obj_view(entries@);
    }
    let mut i: usize = 0;
    while i < entries.len()
        invariant
            i <= entries@.len(),
            obj_view(entries@).len() == entries@.len(),
            forall|j: int| 0 <= j < entries@.len() ==> #[trigger] obj_view(entries@)[j] == (
                entries@[j].0@,
                value_view(entries@[j].1),
            ),
            forall|j: int| 0 <= j < i ==> (#[trigger] obj_view(entries@)[j]).0 != k@,
        decreases entries@.len() - i,
    {
        let ec = to_chars(entries[i].0.as_str());
        if crate::text::cmp_chars(&ec, k) == crate::text::Rel::Equal {
            proof {
                lemma_obj_lookup_skip(obj_view(entries@), k@, i as int);
                assert(obj_view(entries@).subrange(i as int, obj_view(entries@).len() as int)[0]
                    == obj_view(entries@)[i as int]);
            }
            return Some(&entries[i].1);
        }
        i += 1;
    }
    proof {
        lemma_obj_lookup_skip(obj_view(entries@), k@, entries@.len() as int);
        assert(obj_view(entries@).subrange(
            entries@.len() as int,
            obj_view(entries@).len() as int,
        ) =~= Seq::<(Seq<char>, JsonV)>::empty());
    }
    None
}

/// A selection error wrapping a message built around an identifier.
fn sel_error(prefix: &str, ident: &Vec<char>, suffix: &str) -> (r: NdJsonSpatialError) {
    let mut m: String = prefix.to_owned();
    let id = chars_to_string(ident);
    m.append(id.as_str());
    m.append(suffix);
    NdJsonSpatialError::Error(m)
}

/// Evaluates a selector path against a value, returning a copy of the
/// selected sub-value, or the error of the first failing step.
#[verifier::rlimit(60)]
pub fn select_from_json_object(value: &JsonValue, identifiers: &Vec<Selector>) -> (r: Result<
    JsonValue,
    NdJsonSpatialError,
>)
    ensures
        (match r {
            Ok(out) => sel_spec(
                value@,
                crate::json_selector_parser::sels_view(identifiers@),
            ) matches Ok(w) && w == out@,
            Err(_) => (sel_spec(value@, crate::json_selector_parser::sels_view(identifiers@))
                is Err),
        }),
{
    let ghost path = crate::json_selector_parser::sels_view(identifiers@);
    proof {
        crate::json_selector_parser::lemma_sels_view(identifiers@);
        assert(path.subrange(0, identifiers@.len() as int) =~= path);
    }
    let mut cur: &JsonValue = value;
    let mut i: usize = 0;
    while i < identifiers.len()
        invariant
            i <= identifiers@.len(),
            crate::json_selector_parser::sels_view(identifiers@).len() == identifiers@.len(),
            forall|j: int|
                0 <= j < identifiers@.len() ==> #[trigger] crate::json_selector_parser::sels_view(
                    identifiers@,
                )[j] == identifiers@[j]@,
            sel_spec(value@, crate::json_selector_parser::sels_view(identifiers@)) == sel_spec(
                cur@,
                crate::json_selector_parser::sels_view(identifiers@).subrange(
                    i as int,
                    identifiers@.len() as int,
                ),
            ),
        decreases identifiers@.len() - i,
    {
        let ghost rest = crate::json_selector_parser::sels_view(identifiers@).subrange(
            i as int,
            identifiers@.len() as int,
        );
        proof {
            assert(rest[0] == identifiers@[i as int]@);
            assert(rest.drop_first() =~= crate::json_selector_parser::sels_view(
                identifiers@,
            ).subrange(i + 1, identifiers@.len() as int));
        }
        match &identifiers[i] {
            Selector::Identifier(ident) => {
                let key = strip_quotes_chars(ident);
                match cur {
                    JsonValue::Arr(_) => {
                        return Err(sel_error("Unable to get attribute ", &key, " on array"));
                    },
                    JsonValue::Obj(entries) => {
                        match obj_find(entries, &key) {
                            Some(w) => {
                                cur = w;
                            },
                            None => {
                                return Err(
                                    sel_error("Object has no attribute ", &key, ""),
                                );
                            },
                        }
                    },
                    _ => {
                        return Err(
                            sel_error("Unable to get attribute ", &key, " on non-object"),
                        );
                    },
                }
            },
            Selector::Index(n) => {
                match cur {
                    JsonValue::Arr(es) => {
                        proof {
                            crate::json::lemma_arr_view(es@);
                        }
                        if *n < es.len() {
                            cur = &es[*n];
                        } else {
                            return Err(
                                NdJsonSpatialError::Error("Index out of bounds".to_owned()),
                            );
                        }
                    },
                    _ => {
                        return Err(
                            NdJsonSpatialError::Error("Unable to index non-array".to_owned()),
                        );
                    },
                }
            },
        }
        i += 1;
    }
    proof {
        assert(crate::json_selector_parser::sels_view(identifiers@).subrange(
            identifiers@.len() as int,
            identifiers@.len() as int,
        ) =~= Seq::<SelV>::empty());
    }
    Ok(cur.deep_clone())
}


/// Runs a signed-integer filter over the lines from `i` on, appending the
/// serialized form of each line whose selected value matches; a line
/// that does not parse is skipped.
pub open spec fn run_filter_i64(
    lines: Seq<Seq<char>>,
    i: int,
    path: Seq<SelV>,
    cmp: crate::selector::Comparator,
    val: i64,
    acc: Seq<char>,
) -> Seq<char>
    decreases lines.len() - i,
{
    if i < 0 || i >= lines.len() {
        acc
    } else {
        match spec_json_line(lines[i]) {
            None => run_filter_i64(lines, i + 1, path, cmp, val, acc),
            Some(jv) => {
                let hit = sel_spec(jv, path) matches Ok(w)
                    && crate::json_selector_parser::compare_i64_spec(cmp, val, w);
                let line_out: Seq<char> = if hit {
                    ser_value(jv) + seq!['\n']
                } else {
                    Seq::<char>::empty()
                };
                run_filter_i64(lines, i + 1, path, cmp, val, acc + line_out)
            },
        }
    }
}

/// Filters the given lines with an signed-integer comparison, mirroring
/// `run_filter_i64`.
#[verifier::rlimit(60)]
fn filter_lines_i64(
    lines: &Vec<Vec<char>>,
    sels: &Vec<Selector>,
    cmp: &crate::json_selector_parser::Compare<i64>,
) -> (r: Vec<char>)
    ensures
        r@ == run_filter_i64(
            crate::ndjson::lines_view(lines@),
            0,
            crate::json_selector_parser::sels_view(sels@),
            cmp.comparator,
            cmp.value,
            Seq::<char>::empty(),
        ),
{
    let ghost lv = crate::ndjson::lines_view(lines@);
    let ghost path = crate::json_selector_parser::sels_view(sels@);
    proof {
        crate::ndjson::lemma_lines_view(lines@);
    }
    let mut out: Vec<char> = Vec::new();
    let mut i: usize = 0;
    while i < lines.len()
        invariant
            i <= lines@.len(),
            lv == crate::ndjson::lines_view(lines@),
            path == crate::json_selector_parser::sels_view(sels@),
            lv.len() == lines@.len(),
            forall|j: int| 0 <= j < lines@.len() ==> #[trigger] lv[j] == lines@[j]@,
            run_filter_i64(lv, 0, path, cmp.comparator, cmp.value, Seq::<char>::empty())
                == run_filter_i64(lv, i as int, path, cmp.comparator, cmp.value, out@),
        decreases lines@.len() - i,
    {
        let ghost out0 = out@;
        match parse_json_chars(&lines[i]) {
            None => {},
            Some(v) => {
                let keep = match select_from_json_object(&v, sels) {
                    Ok(w) => cmp.compare(&w),
                    Err(_) => false,
                };
                if keep {
                    v.write_chars(&mut out);
                    out.push('\n');
                }
                proof {
                    let jv = value_view(v);
                    assert(keep == (sel_spec(jv, path) matches Ok(w)
                        && crate::json_selector_parser::compare_i64_spec(
                        cmp.comparator,
                        cmp.value,
                        w,
                    )));
                    if keep {
                        assert(out@ =~= out0 + (ser_value(jv) + seq!['\n']));
                    } else {
                        assert(out@ =~= out0 + Seq::<char>::empty());
                    }
                }
            },
        }
        i += 1;
    }
    out
}

/// Runs a decimal filter over the lines from `i` on, appending the
/// serialized form of each line whose selected value matches; a line
/// that does not parse is skipped.
pub open spec fn run_filter_dec(
    lines: Seq<Seq<char>>,
    i: int,
    path: Seq<SelV>,
    cmp: crate::selector::Comparator,
    val: crate::number::Dec,
    acc: Seq<char>,
) -> Seq<char>
    decreases lines.len() - i,
{
    if i < 0 || i >= lines.len() {
        acc
    } else {
        match spec_json_line(lines[i]) {
            None => run_filter_dec(lines, i + 1, path, cmp, val, acc),
            Some(jv) => {
                let hit = sel_spec(jv, path) matches Ok(w)
                    && crate::json_selector_parser::compare_dec_spec(cmp, val, w);
                let line_out: Seq<char> = if hit {
                    ser_value(jv) + seq!['\n']
                } else {
                    Seq::<char>::empty()
                };
                run_filter_dec(lines, i + 1, path, cmp, val, acc + line_out)
            },
        }
    }
}

/// Filters the given lines with an decimal comparison, mirroring
/// `run_filter_dec`.
#[verifier::rlimit(60)]
fn filter_lines_dec(
    lines: &Vec<Vec<char>>,
    sels: &Vec<Selector>,
    cmp: &crate::json_selector_parser::Compare<crate::number::Dec>,
) -> (r: Vec<char>)
    ensures
        r@ == run_filter_dec(
            crate::ndjson::lines_view(lines@),
            0,
            crate::json_selector_parser::sels_view(sels@),
            cmp.comparator,
            cmp.value,
            Seq::<char>::empty(),
        ),
{
    let ghost lv = crate::ndjson::lines_view(lines@);
    let ghost path = crate::json_selector_parser::sels_view(sels@);
    proof {
        crate::ndjson::lemma_lines_view(lines@);
    }
    let mut out: Vec<char> = Vec::new();
    let mut i: usize = 0;
    while i < lines.len()
        invariant
            i <= lines@.len(),
            lv == crate::ndjson::lines_view(lines@),
            path == crate::json_selector_parser::sels_view(sels@),
            lv.len() == lines@.len(),
            forall|j: int| 0 <= j < lines@.len() ==> #[trigger] lv[j] == lines@[j]@,
            run_filter_dec(lv, 0, path, cmp.comparator, cmp.value, Seq::<char>::empty())
                == run_filter_dec(lv, i as int, path, cmp.comparator, cmp.value, out@),
        decreases lines@.len() - i,
    {
        let ghost out0 = out@;
        match parse_json_chars(&lines[i]) {
            None => {},
            Some(v) => {
                let keep = match select_from_json_object(&v, sels) {
                    Ok(w) => cmp.compare(&w),
                    Err(_) => false,
                };
                if keep {
                    v.write_chars(&mut out);
                    out.push('\n');
                }
                proof {
                    let jv = value_view(v);
                    assert(keep == (sel_spec(jv, path) matches Ok(w)
                        && crate::json_selector_parser::compare_dec_spec(
                        cmp.comparator,
                        cmp.value,
                        w,
                    )));
                    if keep {
                        assert(out@ =~= out0 + (ser_value(jv) + seq!['\n']));
                    } else {
                        assert(out@ =~= out0 + Seq::<char>::empty());
                    }
                }
            },
        }
        i += 1;
    }
    out
}

/// Runs a boolean filter over the lines from `i` on, appending the
/// serialized form of each line whose selected value matches; a line
/// that does not parse is skipped.
pub open spec fn run_filter_bool(
    lines: Seq<Seq<char>>,
    i: int,
    path: Seq<SelV>,
    cmp: crate::selector::Comparator,
    val: bool,
    acc: Seq<char>,
) -> Seq<char>
    decreases lines.len() - i,
{
    if i < 0 || i >= lines.len() {
        acc
    } else {
        match spec_json_line(lines[i]) {
            None => run_filter_bool(lines, i + 1, path, cmp, val, acc),
            Some(jv) => {
                let hit = sel_spec(jv, path) matches Ok(w)
                    && crate::json_selector_parser::compare_bool_spec(cmp, val, w);
                let line_out: Seq<char> = if hit {
                    ser_value(jv) + seq!['\n']
                } else {
                    Seq::<char>::empty()
                };
                run_filter_bool(lines, i + 1, path, cmp, val, acc + line_out)
            },
        }
    }
}

/// Filters the given lines with an boolean comparison, mirroring
/// `run_filter_bool`.
#[verifier::rlimit(60)]
fn filter_lines_bool(
    lines: &Vec<Vec<char>>,
    sels: &Vec<Selector>,
    cmp: &crate::json_selector_parser::Compare<bool>,
) -> (r: Vec<char>)
    ensures
        r@ == run_filter_bool(
            crate::ndjson::lines_view(lines@),
            0,
            crate::json_selector_parser::sels_view(sels@),
            cmp.comparator,
            cmp.value,
            Seq::<char>::empty(),
        ),
{
    let ghost lv = crate::ndjson::lines_view(lines@);
    let ghost path = crate::json_selector_parser::sels_view(sels@);
    proof {
        crate::ndjson::lemma_lines_view(lines@);
    }
    let mut out: Vec<char> = Vec::new();
    let mut i: usize = 0;
    while i < lines.len()
        invariant
            i <= lines@.len(),
            lv == crate::ndjson::lines_view(lines@),
            path == crate::json_selector_parser::sels_view(sels@),
            lv.len() == lines@.len(),
            forall|j: int| 0 <= j < lines@.len() ==> #[trigger] lv[j] == lines@[j]@,
            run_filter_bool(lv, 0, path, cmp.comparator, cmp.value, Seq::<char>::empty())
                == run_filter_bool(lv, i as int, path, cmp.comparator, cmp.value, out@),
        decreases lines@.len() - i,
    {
        let ghost out0 = out@;
        match parse_json_chars(&lines[i]) {
            None => {},
            Some(v) => {
                let keep = match select_from_json_object(&v, sels) {
                    Ok(w) => cmp.compare(&w),
                    Err(_) => false,
                };
                if keep {
                    v.write_chars(&mut out);
                    out.push('\n');
                }
                proof {
                    let jv = value_view(v);
                    assert(keep == (sel_spec(jv, path) matches Ok(w)
                        && crate::json_selector_parser::compare_bool_spec(
                        cmp.comparator,
                        cmp.value,
                        w,
                    )));
                    if keep {
                        assert(out@ =~= out0 + (ser_value(jv) + seq!['\n']));
                    } else {
                        assert(out@ =~= out0 + Seq::<char>::empty());
                    }
                }
            },
        }
        i += 1;
    }
    out
}

/// Runs a nullable filter over the lines from `i` on, appending the
/// serialized form of each line whose selected value matches; a line
/// that does not parse is skipped.
pub open spec fn run_filter_null(
    lines: Seq<Seq<char>>,
    i: int,
    path: Seq<SelV>,
    cmp: crate::selector::Comparator,
    val: Option<crate::json_selector_parser::NonNullV>,
    acc: Seq<char>,
) -> Seq<char>
    decreases lines.len() - i,
{
    if i < 0 || i >= lines.len() {
        acc
    } else {
        match spec_json_line(lines[i]) {
            None => run_filter_null(lines, i + 1, path, cmp, val, acc),
            Some(jv) => {
                let hit = sel_spec(jv, path) matches Ok(w)
                    && crate::json_selector_parser::compare_null_spec(cmp, val, w);
                let line_out: Seq<char> = if hit {
                    ser_value(jv) + seq!['\n']
                } else {
                    Seq::<char>::empty()
                };
                run_filter_null(lines, i + 1, path, cmp, val, acc + line_out)
            },
        }
    }
}

/// Filters the given lines with an nullable comparison, mirroring
/// `run_filter_null`.
#[verifier::rlimit(60)]
fn filter_lines_null(
    lines: &Vec<Vec<char>>,
    sels: &Vec<Selector>,
    cmp: &crate::json_selector_parser::Compare<crate::json_selector_parser::Null>,
) -> (r: Vec<char>)
    ensures
        r@ == run_filter_null(
            crate::ndjson::lines_view(lines@),
            0,
            crate::json_selector_parser::sels_view(sels@),
            cmp.comparator,
            crate::json_selector_parser::null_view(cmp.value),
            Seq::<char>::empty(),
        ),
{
    let ghost lv = crate::ndjson::lines_view(lines@);
    let ghost path = crate::json_selector_parser::sels_view(sels@);
    proof {
        crate::ndjson::lemma_lines_view(lines@);
    }
    let mut out: Vec<char> = Vec::new();
    let mut i: usize = 0;
    while i < lines.len()
        invariant
            i <= lines@.len(),
            lv == crate::ndjson::lines_view(lines@),
            path == crate::json_selector_parser::sels_view(sels@),
            lv.len() == lines@.len(),
            forall|j: int| 0 <= j < lines@.len() ==> #[trigger] lv[j] == lines@[j]@,
            run_filter_null(lv, 0, path, cmp.comparator, crate::json_selector_parser::null_view(cmp.value), Seq::<char>::empty())
                == run_filter_null(lv, i as int, path, cmp.comparator, crate::json_selector_parser::null_view(cmp.value), out@),
        decreases lines@.len() - i,
    {
        let ghost out0 = out@;
        match parse_json_chars(&lines[i]) {
            None => {},
            Some(v) => {
                let keep = match select_from_json_object(&v, sels) {
                    Ok(w) => cmp.compare(&w),
                    Err(_) => false,
                };
                if keep {
                    v.write_chars(&mut out);
                    out.push('\n');
                }
                proof {
                    let jv = value_view(v);
                    assert(keep == (sel_spec(jv, path) matches Ok(w)
                        && crate::json_selector_parser::compare_null_spec(
                        cmp.comparator,
                        crate::json_selector_parser::null_view(cmp.value),
                        w,
                    )));
                    if keep {
                        assert(out@ =~= out0 + (ser_value(jv) + seq!['\n']));
                    } else {
                        assert(out@ =~= out0 + Seq::<char>::empty());
                    }
                }
            },
        }
        i += 1;
    }
    out
}

/// Runs a string filter over the lines from `i` on, appending the
/// serialized form of each line whose selected value matches; a line
/// that does not parse is skipped.
pub open spec fn run_filter_string(
    lines: Seq<Seq<char>>,
    i: int,
    path: Seq<SelV>,
    cmp: crate::selector::Comparator,
    val: Seq<char>,
    acc: Seq<char>,
) -> Seq<char>
    decreases lines.len() - i,
{
    if i < 0 || i >= lines.len() {
        acc
    } else {
        match spec_json_line(lines[i]) {
            None => run_filter_string(lines, i + 1, path, cmp, val, acc),
            Some(jv) => {
                let hit = sel_spec(jv, path) matches Ok(w)
                    && crate::json_selector_parser::compare_string_spec(cmp, val, w);
                let line_out: Seq<char> = if hit {
                    ser_value(jv) + seq!['\n']
                } else {
                    Seq::<char>::empty()
                };
                run_filter_string(lines, i + 1, path, cmp, val, acc + line_out)
            },
        }
    }
}

/// Filters the given lines with an string comparison, mirroring
/// `run_filter_string`.
#[verifier::rlimit(60)]
fn filter_lines_string(
    lines: &Vec<Vec<char>>,
    sels: &Vec<Selector>,
    cmp: &crate::json_selector_parser::Compare<String>,
) -> (r: Vec<char>)
    ensures
        r@ == run_filter_string(
            crate::ndjson::lines_view(lines@),
            0,
            crate::json_selector_parser::sels_view(sels@),
            cmp.comparator,
            cmp.value@,
            Seq::<char>::empty(),
        ),
{
    let ghost lv = crate::ndjson::lines_view(lines@);
    let ghost path = crate::json_selector_parser::sels_view(sels@);
    proof {
        crate::ndjson::lemma_lines_view(lines@);
    }
    let mut out: Vec<char> = Vec::new();
    let mut i: usize = 0;
    while i < lines.len()
        invariant
            i <= lines@.len(),
            lv == crate::ndjson::lines_view(lines@),
            path == crate::json_selector_parser::sels_view(sels@),
            lv.len() == lines@.len(),
            forall|j: int| 0 <= j < lines@.len() ==> #[trigger] lv[j] == lines@[j]@,
            run_filter_string(lv, 0, path, cmp.comparator, cmp.value@, Seq::<char>::empty())
                == run_filter_string(lv, i as int, path, cmp.comparator, cmp.value@, out@),
        decreases lines@.len() - i,
    {
        let ghost out0 = out@;
        match parse_json_chars(&lines[i]) {
            None => {},
            Some(v) => {
                let keep = match select_from_json_object(&v, sels) {
                    Ok(w) => cmp.compare(&w),
                    Err(_) => false,
                };
                if keep {
                    v.write_chars(&mut out);
                    out.push('\n');
                }
                proof {
                    let jv = value_view(v);
                    assert(keep == (sel_spec(jv, path) matches Ok(w)
                        && crate::json_selector_parser::compare_string_spec(
                        cmp.comparator,
                        cmp.value@,
                        w,
                    )));
                    if keep {
                        assert(out@ =~= out0 + (ser_value(jv) + seq!['\n']));
                    } else {
                        assert(out@ =~= out0 + Seq::<char>::empty());
                    }
                }
            },
        }
        i += 1;
    }
    out
}


/// What filtering an NDJSON text with a selector expression yields: the
/// expression is read with each literal type in turn (signed integer,
/// decimal, boolean, null, then string), and the lines whose selected
/// value satisfies the comparison are written back in canonical form;
/// lines that do not parse are skipped.  An expression with no reading
/// is a configuration error, `None` here.
pub open spec fn ndjson_filter_spec(expr: Seq<char>, input: Seq<char>) -> Option<Seq<char>> {
    let lines = crate::ndjson::split_lines(input);
    match crate::json_selector_parser::spec_selector_i64(expr) {
        Some((p, c, v)) => Some(run_filter_i64(lines, 0, p, c, v, Seq::<char>::empty())),
        None => match crate::json_selector_parser::spec_selector_f64(expr) {
            Some((p, c, v)) => Some(run_filter_dec(lines, 0, p, c, v, Seq::<char>::empty())),
            None => match crate::json_selector_parser::spec_selector_bool(expr) {
                Some((p, c, v)) => Some(run_filter_bool(lines, 0, p, c, v, Seq::<char>::empty())),
                None => match crate::json_selector_parser::spec_selector_null(expr) {
                    Some((p, c)) => Some(
                        run_filter_null(lines, 0, p, c, None, Seq::<char>::empty()),
                    ),
                    None => match crate::json_selector_parser::spec_selector_string(expr) {
                        Some((p, c, v)) => Some(
                            run_filter_string(lines, 0, p, c, v, Seq::<char>::empty()),
                        ),
                        None => None,
                    },
                },
            },
        },
    }
}

/// Filters NDJSON `input` by a selector `expression`, mirroring
/// `ndjson_filter_spec`: an expression with no typed reading is a fatal
/// configuration error, reported before any record is looked at.
pub fn ndjson_filter(expression: String, input: &str) -> (r: Result<String, NdJsonSpatialError>)
    ensures
        (match r {
            Ok(out) => ndjson_filter_spec(expression@, input@) == Some(out@),
            Err(_) => (ndjson_filter_spec(expression@, input@) is None),
        }),
{
    let cs = to_chars(input);
    let lines = crate::ndjson::cut_lines(&cs);
    match crate::json_selector_parser::parse_selector_i64(expression.as_str()) {
        Ok((_, (cmp, sels))) => Ok(chars_to_string(&filter_lines_i64(&lines, &sels, &cmp))),
        Err(_) => match crate::json_selector_parser::parse_selector_f64(expression.as_str()) {
            Ok((_, (cmp, sels))) => Ok(chars_to_string(&filter_lines_dec(&lines, &sels, &cmp))),
            Err(_) => match crate::json_selector_parser::parse_selector_bool(
                expression.as_str(),
            ) {
                Ok((_, (cmp, sels))) => Ok(
                    chars_to_string(&filter_lines_bool(&lines, &sels, &cmp)),
                ),
                Err(_) => match crate::json_selector_parser::parse_selector_null(
                    expression.as_str(),
                ) {
                    Ok((_, (cmp, sels))) => Ok(
                        chars_to_string(&filter_lines_null(&lines, &sels, &cmp)),
                    ),
                    Err(_) => match crate::json_selector_parser::parse_selector_string(
                        expression.as_str(),
                    ) {
                        Ok((_, (cmp, sels))) => Ok(
                            chars_to_string(&filter_lines_string(&lines, &sels, &cmp)),
                        ),
                        Err(_) => Err(
                            NdJsonSpatialError::Error(
                                "could not parse the filter expression".to_owned(),
                            ),
                        ),
                    },
                },
            },
        },
    }
}

} // verus!
