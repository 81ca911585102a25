//! Turning one CSV cell into a JSON value by inferring its type: an
//! integer written canonically stays an integer, anything numeric
//! becomes a decimal, the empty cell becomes null, `true` and `false`
//! become booleans, and everything else stays text.

use vstd::prelude::*;

use crate::json::{obj_insert, obj_insert_entry, obj_view, value_view, JsonV, JsonValue};
use crate::number::{Dec, JsonNumber};
use crate::selector::{parse_lit_bool, parse_lit_dec, parse_lit_i64, parse_lit_u64};
use crate::text::{chars_to_string, cmp_chars, dec_digits, to_chars, Rel};

verus! {

/// The canonical text of a signed integer.
pub open spec fn i64_chars(v: i64) -> Seq<char> {
    if v < 0 {
        seq!['-'] + dec_digits((-(v as int)) as nat)
    } else {
        dec_digits(v as nat)
    }
}

/// The value a cell infers to.
pub open spec fn infer_spec(s: Seq<char>) -> JsonV {
    if crate::selector::spec_lit_u64(s) matches Some(v) && dec_digits(v as nat) == s {
        JsonV::Num(JsonNumber::Unsigned(spec_u64_of(s)))
    } else if crate::selector::spec_lit_i64(s) matches Some(v) && i64_chars(v) == s {
        JsonV::Num(JsonNumber::Signed(spec_i64_of(s)))
    } else if crate::selector::spec_lit_dec(s) matches Some(d) {
        JsonV::Num(JsonNumber::Decimal(spec_dec_of(s)))
    } else if s.len() == 0 {
        JsonV::Null
    } else if crate::selector::spec_lit_bool(s) matches Some(b) {
        JsonV::Bool(spec_bool_of(s))
    } else {
        JsonV::Str(s)
    }
}

/// The unsigned value of a cell that parses as one.
pub open spec fn spec_u64_of(s: Seq<char>) -> u64 {
    crate::selector::spec_lit_u64(s)->0
}

/// The signed value of a cell that parses as one.
pub open spec fn spec_i64_of(s: Seq<char>) -> i64 {
    crate::selector::spec_lit_i64(s)->0
}

/// The decimal value of a cell that parses as one.
pub open spec fn spec_dec_of(s: Seq<char>) -> Dec {
    crate::selector::spec_lit_dec(s)->0
}

/// The boolean value of a cell that parses as one.
pub open spec fn spec_bool_of(s: Seq<char>) -> bool {
    crate::selector::spec_lit_bool(s)->0
}

/// Infers the JSON value of one cell, mirroring `infer_spec`.
pub fn infer_json(item: &str) -> (r: JsonValue)
    ensures
        value_view(r) == infer_spec(item@),
{
    let cs = to_chars(item);
    match parse_lit_u64(&cs) {
        Some(v) => {
            let mut canon: Vec<char> = Vec::new();
            crate::text::push_u64_digits(v, &mut canon);
            if cmp_chars(&canon, &cs) == Rel::Equal {
                return JsonValue::Num(JsonNumber::Unsigned(v));
            }
        },
        None => {},
    }
    match parse_lit_i64(&cs) {
        Some(v) => {
            let mut canon: Vec<char> = Vec::new();
            if v < 0 {
                canon.push('-');
                crate::text::push_u64_digits((-(v as i128)) as u64, &mut canon);
            } else {
                crate::text::push_u64_digits(v as u64, &mut canon);
            }
            if cmp_chars(&canon, &cs) == Rel::Equal {
                return JsonValue::Num(JsonNumber::Signed(v));
            }
        },
        None => {},
    }
    match parse_lit_dec(&cs) {
        Some(d) => {
            return JsonValue::Num(JsonNumber::Decimal(d));
        },
        None => {},
    }
    if cs.len() == 0 {
        return JsonValue::Null;
    }
    match parse_lit_bool(&cs) {
        Some(b) => {
            return JsonValue::Bool(b);
        },
        None => {},
    }
    JsonValue::Str(chars_to_string(&cs))
}

/// The record one CSV row becomes: each cell inferred and stored under
/// its header, cells beyond the headers dropped, keys in order with a
/// later duplicate replacing an earlier one.
pub open spec fn row_spec(headers: Seq<Seq<char>>, row: Seq<Seq<char>>, i: int, acc: Seq<
    (Seq<char>, JsonV),
>) -> Seq<(Seq<char>, JsonV)>
    decreases row.len() - i,
{
    if i < 0 || i >= row.len() {
        acc
    } else {
        let acc2 = if i < headers.len() {
            obj_insert(acc, headers[i], infer_spec(row[i]))
        } else {
            acc
        };
        row_spec(headers, row, i + 1, acc2)
    }
}

/// Builds the record of one CSV row, mirroring `row_spec`.
pub fn csv_row_to_json(headers: &Vec<String>, row: &Vec<String>) -> (r: JsonValue)
    ensures
        value_view(r) == JsonV::Obj(
            row_spec(
                strings_view(headers@),
                strings_view(row@),
                0,
                Seq::<(Seq<char>, JsonV)>::empty(),
            ),
        ),
{
    let ghost hv = strings_view(headers@);
    let ghost rv = strings_view(row@);
    proof {
        lemma_strings_view(headers@);
        lemma_strings_view(row@);
    }
    let mut entries: Vec<(String, JsonValue)> = Vec::new();
    proof {
        assert(obj_view(entries@) =~= Seq::<(Seq<char>, JsonV)>::empty());
    }
    let mut i: usize = 0;
    while i < row.len()
        invariant
            i <= row@.len(),
            hv == strings_view(headers@),
            rv == strings_view(row@),
            hv.len() == headers@.len(),
            rv.len() == row@.len(),
            forall|j: int| 0 <= j < headers@.len() ==> #[trigger] hv[j] == headers@[j]@,
            forall|j: int| 0 <= j < row@.len() ==> #[trigger] rv[j] == row@[j]@,
            row_spec(hv, rv, 0, Seq::<(Seq<char>, JsonV)>::empty()) == row_spec(
                hv,
                rv,
                i as int,
                obj_view(entries@),
            ),
        decreases row@.len() - i,
    {
        if i < headers.len() {
            let key = crate::json::clone_string(&headers[i]);
            let val = infer_json(row[i].as_str());
            obj_insert_entry(&mut entries, key, val);
        }
        i += 1;
    }
    JsonValue::Obj(entries)
}

/// The character sequences of a vector of strings.
pub open spec fn strings_view(s: Seq<String>) -> Seq<Seq<char>>
    decreases s.len(),
{
    if s.len() == 0 {
        Seq::<Seq<char>>::empty()
    } else {
        strings_view(s.drop_last()).push(s.last()@)
    }
}

/// The string list model maps each string to its characters.
pub proof fn lemma_strings_view(s: Seq<String>)
    ensures
        strings_view(s).len() == s.len(),
        forall|i: int| 0 <= i < s.len() ==> #[trigger] strings_view(s)[i] == s[i]@,
    decreases s.len(),
{
    if s.len() > 0 {
        lemma_strings_view(s.drop_last());
    }
}

} // verus!
