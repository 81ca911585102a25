//! The JSON value model and its text form: a recursive tagged union, a
//! character-level parser for one NDJSON line, and the canonical compact
//! serializer.  Object members are kept sorted by key, a later duplicate
//! key replacing an earlier one.

use vstd::prelude::*;

use crate::number::{num_chars, pow10, Dec, JsonNumber};
use crate::text::{
    char_is_digit, chars_lt, chars_to_string, cmp_chars, digit_run_end, digits_val, scan_digits,
    to_chars, Rel,
};

verus! {

broadcast use vstd::std_specs::vec::group_vec_axioms;

/// A JSON value.
#[derive(Debug, PartialEq)]
pub enum JsonValue {
    Null,
    Bool(bool),
    Num(JsonNumber),
    Str(String),
    Arr(Vec<JsonValue>),
    Obj(Vec<(String, JsonValue)>),
}

/// The mathematical model of a JSON value.
pub enum JsonV {
    Null,
    Bool(bool),
    Num(JsonNumber),
    Str(Seq<char>),
    Arr(Seq<JsonV>),
    Obj(Seq<(Seq<char>, JsonV)>),
}

/// The model of an executable JSON value.
pub open spec fn value_view(v: JsonValue) -> JsonV
    decreases v,
    via value_view_decreases
{
    match v {
        JsonValue::Null => JsonV::Null,
        JsonValue::Bool(b) => JsonV::Bool(b),
        JsonValue::Num(n) => JsonV::Num(n),
        JsonValue::Str(s) => JsonV::Str(s@),
        JsonValue::Arr(a) => JsonV::Arr(arr_view(a@)),
        JsonValue::Obj(o) => JsonV::Obj(obj_view(o@)),
    }
}

/// The models of the elements of an array.
pub open spec fn arr_view(s: Seq<JsonValue>) -> Seq<JsonV>
    decreases s,
{
    if s.len() == 0 {
        Seq::<JsonV>::empty()
    } else {
        seq![value_view(s[0])] + arr_view(s.drop_first())
    }
}

/// The models of the members of an object.
pub open spec fn obj_view(s: Seq<(String, JsonValue)>) -> Seq<(Seq<char>, JsonV)>
    decreases s,
{
    if s.len() == 0 {
        Seq::<(Seq<char>, JsonV)>::empty()
    } else {
        seq![(s[0].0@, value_view(s[0].1))] + obj_view(s.drop_first())
    }
}

/// The array model maps each element to its model.
pub proof fn lemma_arr_view(s: Seq<JsonValue>)
    ensures
        arr_view(s).len() == s.len(),
        forall|i: int| 0 <= i < s.len() ==> #[trigger] arr_view(s)[i] == value_view(s[i]),
    decreases s.len(),
{
    if s.len() > 0 {
        lemma_arr_view(s.drop_first());
        assert forall|i: int| 0 <= i < s.len() implies #[trigger] arr_view(s)[i] == value_view(
            s[i],
        ) by {
            if i > 0 {
                assert(arr_view(s)[i] == arr_view(s.drop_first())[i - 1]);
                assert(s.drop_first()[i - 1] == s[i]);
            }
        }
    }
}

/// The object model maps each member to its key characters and its model.
pub proof fn lemma_obj_view(s: Seq<(String, JsonValue)>)
    ensures
        obj_view(s).len() == s.len(),
        forall|i: int| 0 <= i < s.len() ==> #[trigger] obj_view(s)[i] == (s[i].0@, value_view(
            s[i].1,
        )),
    decreases s.len(),
{
    if s.len() > 0 {
        lemma_obj_view(s.drop_first());
        assert forall|i: int| 0 <= i < s.len() implies #[trigger] obj_view(s)[i] == (s[i].0@,
        value_view(s[i].1)) by {
            if i > 0 {
                assert(obj_view(s)[i] == obj_view(s.drop_first())[i - 1]);
                assert(s.drop_first()[i - 1] == s[i]);
            }
        }
    }
}

#[via_fn]
proof fn value_view_decreases(v: JsonValue) {
    match v {
        JsonValue::Arr(a) => {
            assert(decreases_to!(v => a));
            assert(decreases_to!(a => a@));
        },
        JsonValue::Obj(o) => {
            assert(decreases_to!(v => o));
            assert(decreases_to!(o => o@));
        },
        _ => {},
    }
}

impl View for JsonValue {
    type V = JsonV;

    open spec fn view(&self) -> JsonV {
        value_view(*self)
    }
}

impl JsonValue {
    /// A structurally equal, independently owned copy of this value.
    #[verifier::loop_isolation(false)]
    pub fn deep_clone(&self) -> (r: JsonValue)
        ensures
            r@ == self@,
        decreases self@,
    {
        match self {
            JsonValue::Null => JsonValue::Null,
            JsonValue::Bool(b) => JsonValue::Bool(*b),
            JsonValue::Num(n) => JsonValue::Num(*n),
            JsonValue::Str(s) => JsonValue::Str(clone_string(s)),
            JsonValue::Arr(a) => {
                let mut out: Vec<JsonValue> = Vec::new();
                let mut i: usize = 0;
                while i < a.len()
                    invariant
                        i <= a@.len(),
                        out@.len() == i,
                        forall|k: int| 0 <= k < i ==> value_view(out@[k]) == value_view(
                            #[trigger] a@[k],
                        ),
                    decreases a@.len() - i,
                {
                    proof {
                        let g = self@;
                        lemma_arr_view(a@);
                        assert(g is Arr && g->Arr_0 == arr_view(a@));
                        assert(decreases_to!(g => g->Arr_0));
                        assert(decreases_to!(g->Arr_0 => g->Arr_0[i as int]));
                        assert(g->Arr_0[i as int] == a@[i as int]@);
                    }
                    out.push(a[i].deep_clone());
                    i += 1;
                }
                proof {
                    lemma_arr_view(out@);
                    lemma_arr_view(a@);
                    assert(arr_view(out@) =~= arr_view(a@));
                }
                JsonValue::Arr(out)
            },
            JsonValue::Obj(o) => {
                let mut out: Vec<(String, JsonValue)> = Vec::new();
                let mut i: usize = 0;
                while i < o.len()
                    invariant
                        i <= o@.len(),
                        out@.len() == i,
                        forall|k: int| 0 <= k < i ==> (#[trigger] out@[k]).0@ == o@[k].0@
                            && value_view(out@[k].1) == value_view(o@[k].1),
                    decreases o@.len() - i,
                {
                    proof {
                        let g = self@;
                        lemma_obj_view(o@);
                        assert(g is Obj && g->Obj_0 == obj_view(o@));
                        assert(decreases_to!(g => g->Obj_0));
                        assert(decreases_to!(g->Obj_0 => g->Obj_0[i as int]));
                        assert(decreases_to!(g->Obj_0[i as int] => g->Obj_0[i as int].1));
                        assert(g->Obj_0[i as int].1 == o@[i as int].1@);
                    }
                    let key = clone_string(&o[i].0);
                    let val = o[i].1.deep_clone();
                    out.push((key, val));
                    i += 1;
                }
                proof {
                    lemma_obj_view(out@);
                    lemma_obj_view(o@);
                    assert(obj_view(out@) =~= obj_view(o@));
                }
                JsonValue::Obj(out)
            },
        }
    }
}

/// A copy of a string with the same characters.
pub fn clone_string(s: &String) -> (r: String)
    ensures
        r@ == s@,
{
    let c = to_chars(s.as_str());
    chars_to_string(&c)
}

/// Whether `c` is JSON whitespace.
pub open spec fn is_ws(c: char) -> bool {
    c == ' ' || c == '\t' || c == '\n' || c == '\r'
}

/// The first position at or after `i` that does not hold whitespace.
pub open spec fn ws_end(s: Seq<char>, i: int) -> int
    recommends
        0 <= i <= s.len(),
    decreases s.len() - i,
{
    if i < s.len() && is_ws(s[i]) {
        ws_end(s, i + 1)
    } else {
        i
    }
}

/// The whitespace run starts at `i` and is bounded by the sequence.
pub proof fn lemma_ws_end(s: Seq<char>, i: int)
    ensures
        i <= ws_end(s, i),
        i <= s.len() ==> ws_end(s, i) <= s.len(),
    decreases (if i < s.len() {
        s.len() - i
    } else {
        0int
    }),
{
    if i < s.len() && is_ws(s[i]) {
        lemma_ws_end(s, i + 1);
    }
}

/// Advances past whitespace.
pub fn skip_ws(s: &Vec<char>, i: usize) -> (r: usize)
    requires
        i <= s@.len(),
    ensures
        r as int == ws_end(s@, i as int),
        i <= r <= s@.len(),
{
    let mut k: usize = i;
    loop
        invariant_except_break
            i <= k <= s@.len(),
            ws_end(s@, i as int) == ws_end(s@, k as int),
        ensures
            i <= k <= s@.len(),
            ws_end(s@, i as int) == k as int,
        decreases s@.len() - k,
    {
        if k >= s.len() {
            break;
        }
        let c = s[k];
        if !(c == ' ' || c == '\t' || c == '\n' || c == '\r') {
            break;
        }
        k += 1;
    }
    k
}

/// Whether `c` is a hexadecimal digit.
pub open spec fn is_hex(c: char) -> bool {
    char_is_digit(c) || ('a' <= c && c <= 'f') || ('A' <= c && c <= 'F')
}

/// The numeric value of a hexadecimal digit character.
pub open spec fn hex_of(c: char) -> nat
    recommends
        is_hex(c),
{
    if char_is_digit(c) {
        (c as u32 - '0' as u32) as nat
    } else if 'a' <= c && c <= 'f' {
        (c as u32 - 'a' as u32 + 10) as nat
    } else {
        (c as u32 - 'A' as u32 + 10) as nat
    }
}

/// Relies on `char::from_u32`: it returns the character with code `u`
/// exactly when `u` is a unicode scalar value, and `None` otherwise.
#[verifier::external_body]
fn char_from_u32(u: u32) -> (r: Option<char>)
    ensures
        r is Some <==> (u < 0xD800 || (0xE000 <= u && u <= 0x10FFFF)),
        r is Some ==> r->0 as u32 == u,
{
    char::from_u32(u)
}

/// Whether `u` is a unicode scalar value.
pub open spec fn is_scalar(u: u32) -> bool {
    u < 0xD800 || (0xE000 <= u && u <= 0x10FFFF)
}

/// Parses the body of a JSON string starting after the opening quote:
/// the decoded characters and the position after the closing quote.
pub open spec fn spec_string_body(s: Seq<char>, i: int) -> Option<(Seq<char>, int)>
    recommends
        0 <= i <= s.len(),
    decreases s.len() - i,
{
    if i >= s.len() {
        None
    } else if s[i] == '"' {
        Some((Seq::<char>::empty(), i + 1))
    } else if s[i] == '\\' {
        if i + 1 >= s.len() {
            None
        } else {
            let e = s[i + 1];
            if e == 'u' {
                if i + 5 < s.len() && is_hex(s[i + 2]) && is_hex(s[i + 3]) && is_hex(s[i + 4])
                    && is_hex(s[i + 5]) {
                    let code = ((hex_of(s[i + 2]) * 4096 + hex_of(s[i + 3]) * 256 + hex_of(
                        s[i + 4],
                    ) * 16 + hex_of(s[i + 5])) as u32);
                    if code < 0xD800 || code >= 0xE000 {
                        match spec_string_body(s, i + 6) {
                            Some((t, j)) => Some((seq![code as char] + t, j)),
                            None => None,
                        }
                    } else if code < 0xDC00 {
                        if i + 11 < s.len() && s[i + 6] == '\\' && s[i + 7] == 'u' && is_hex(
                            s[i + 8],
                        ) && is_hex(s[i + 9]) && is_hex(s[i + 10]) && is_hex(s[i + 11]) {
                            let low = ((hex_of(s[i + 8]) * 4096 + hex_of(s[i + 9]) * 256 + hex_of(
                                s[i + 10],
                            ) * 16 + hex_of(s[i + 11])) as u32);
                            if 0xDC00 <= low < 0xE000 {
                                let comb = ((0x10000 + (code - 0xD800) * 0x400 + (low
                                    - 0xDC00)) as u32);
                                match spec_string_body(s, i + 12) {
                                    Some((t, j)) => Some((seq![comb as char] + t, j)),
                                    None => None,
                                }
                            } else {
                                None
                            }
                        } else {
                            None
                        }
                    } else {
                        None
                    }
                } else {
                    None
                }
            } else {
                let c = if e == '"' {
                    Some('"')
                } else if e == '\\' {
                    Some('\\')
                } else if e == '/' {
                    Some('/')
                } else if e == 'b' {
                    Some('\u{0008}')
                } else if e == 'f' {
                    Some('\u{000C}')
                } else if e == 'n' {
                    Some('\n')
                } else if e == 'r' {
                    Some('\r')
                } else if e == 't' {
                    Some('\t')
                } else {
                    None
                };
                match c {
                    Some(c) => match spec_string_body(s, i + 2) {
                        Some((t, j)) => Some((seq![c] + t, j)),
                        None => None,
                    },
                    None => None,
                }
            }
        }
    } else if (s[i] as u32) < 0x20 {
        None
    } else {
        match spec_string_body(s, i + 1) {
            Some((t, j)) => Some((seq![s[i]] + t, j)),
            None => None,
        }
    }
}

/// The position after a parsed string body lies within bounds.
pub proof fn lemma_string_body_bounds(s: Seq<char>, i: int)
    requires
        0 <= i <= s.len(),
    ensures
        match spec_string_body(s, i) {
            Some((_, j)) => i < j <= s.len(),
            None => true,
        },
    decreases s.len() - i,
{
    if i < s.len() {
        lemma_string_body_bounds(s, i + 1);
        if i + 2 <= s.len() {
            lemma_string_body_bounds(s, i + 2);
        }
        if i + 6 <= s.len() {
            lemma_string_body_bounds(s, i + 6);
        }
        if i + 12 <= s.len() {
            lemma_string_body_bounds(s, i + 12);
        }
    }
}

/// Parses the body of a JSON string, mirroring `spec_string_body`.
pub fn parse_string_body(s: &Vec<char>, i: usize) -> (r: Option<(Vec<char>, usize)>)
    requires
        i <= s@.len(),
    ensures
        match r {
            Some((t, j)) => spec_string_body(s@, i as int) == Some((t@, j as int)) && i < j
                <= s@.len(),
            None => spec_string_body(s@, i as int) is None,
        },
    decreases s@.len() - i, 1int,
{
    if i >= s.len() {
        return None;
    }
    let c = s[i];
    if c == '"' {
        let empty: Vec<char> = Vec::new();
        return Some((empty, i + 1));
    }
    if c == '\\' {
        if i + 1 >= s.len() {
            return None;
        }
        let e = s[i + 1];
        if e == 'u' {
            if s.len() - i > 5 && hex_val(s[i + 2]).is_some() && hex_val(s[i + 3]).is_some()
                && hex_val(s[i + 4]).is_some() && hex_val(s[i + 5]).is_some() {
                let h1 = hex_val(s[i + 2]).unwrap();
                let h2 = hex_val(s[i + 3]).unwrap();
                let h3 = hex_val(s[i + 4]).unwrap();
                let h4 = hex_val(s[i + 5]).unwrap();
                let code: u32 = (h1 as u32) * 4096 + (h2 as u32) * 256 + (h3 as u32) * 16 + (
                h4 as u32);
                if code < 0xD800 || code >= 0xE000 {
                    match char_from_u32(code) {
                        Some(ch) => {
                            proof {
                                vstd::utf8::char_u32_cast(ch, code);
                            }
                            match parse_string_body(s, i + 6) {
                                Some((t, j)) => {
                                    let mut out: Vec<char> = Vec::new();
                                    out.push(ch);
                                    let mut rest = t;
                                    out.append(&mut rest);
                                    Some((out, j))
                                },
                                None => None,
                            }
                        },
                        None => None,
                    }
                } else if code < 0xDC00 {
                    parse_surrogate_pair(s, i, code)
                } else {
                    None
                }
            } else {
                None
            }
        } else {
            let dec: Option<char> = if e == '"' {
                Some('"')
            } else if e == '\\' {
                Some('\\')
            } else if e == '/' {
                Some('/')
            } else if e == 'b' {
                Some('\u{0008}')
            } else if e == 'f' {
                Some('\u{000C}')
            } else if e == 'n' {
                Some('\n')
            } else if e == 'r' {
                Some('\r')
            } else if e == 't' {
                Some('\t')
            } else {
                None
            };
            match dec {
                Some(d) => match parse_string_body(s, i + 2) {
                    Some((t, j)) => {
                        let mut out: Vec<char> = Vec::new();
                        out.push(d);
                        let mut rest = t;
                        out.append(&mut rest);
                        Some((out, j))
                    },
                    None => None,
                },
                None => None,
            }
        }
    } else if (c as u32) < 0x20 {
        None
    } else {
        match parse_string_body(s, i + 1) {
            Some((t, j)) => {
                let mut out: Vec<char> = Vec::new();
                out.push(c);
                let mut rest = t;
                out.append(&mut rest);
                Some((out, j))
            },
            None => None,
        }
    }
}

/// Parses the low half of a surrogate pair whose high half `code`
/// stands at `i`, then the rest of the string body.
#[verifier::rlimit(90)]
fn parse_surrogate_pair(s: &Vec<char>, i: usize, code: u32) -> (r: Option<(Vec<char>, usize)>)
    requires
        i + 5 < s@.len(),
        s@[i as int] == '\\',
        s@[i + 1] == 'u',
        0xD800 <= code < 0xDC00,
        is_hex(s@[i + 2]) && is_hex(s@[i + 3]) && is_hex(s@[i + 4]) && is_hex(s@[i + 5]),
        code == ((hex_of(s@[i + 2]) * 4096 + hex_of(s@[i + 3]) * 256 + hex_of(s@[i + 4]) * 16
            + hex_of(s@[i + 5])) as u32),
    ensures
        (match r {
            Some((t, j)) => spec_string_body(s@, i as int) == Some((t@, j as int)) && i < j
                <= s@.len(),
            None => (spec_string_body(s@, i as int) is None),
        }),
    decreases s@.len() - i, 0int,
{
    if s.len() - i > 11 && s[i + 6] == '\\' && s[i + 7] == 'u' && hex_val(s[i + 8]).is_some()
        && hex_val(s[i + 9]).is_some() && hex_val(s[i + 10]).is_some() && hex_val(
        s[i + 11],
    ).is_some() {
        let h1 = hex_val(s[i + 8]).unwrap();
        let h2 = hex_val(s[i + 9]).unwrap();
        let h3 = hex_val(s[i + 10]).unwrap();
        let h4 = hex_val(s[i + 11]).unwrap();
        let low: u32 = (h1 as u32) * 4096 + (h2 as u32) * 256 + (h3 as u32) * 16 + (h4 as u32);
        if 0xDC00 <= low && low < 0xE000 {
            let comb: u32 = 0x10000 + (code - 0xD800) * 0x400 + (low - 0xDC00);
            match char_from_u32(comb) {
                Some(ch) => {
                    proof {
                        vstd::utf8::char_u32_cast(ch, comb);
                    }
                    match parse_string_body(s, i + 12) {
                        Some((t, j)) => {
                            let mut out: Vec<char> = Vec::new();
                            out.push(ch);
                            let mut rest = t;
                            out.append(&mut rest);
                            Some((out, j))
                        },
                        None => None,
                    }
                },
                None => None,
            }
        } else {
            None
        }
    } else {
        None
    }
}

/// The value of a hexadecimal digit character, when it is one.
fn hex_val(c: char) -> (r: Option<u8>)
    ensures
        r is Some <==> is_hex(c),
        r is Some ==> r->0 as nat == hex_of(c),
{
    if '0' <= c && c <= '9' {
        Some(((c as u32) - ('0' as u32)) as u8)
    } else if 'a' <= c && c <= 'f' {
        Some(((c as u32) - ('a' as u32) + 10) as u8)
    } else if 'A' <= c && c <= 'F' {
        Some(((c as u32) - ('A' as u32) + 10) as u8)
    } else {
        None
    }
}


/// Parses a JSON number at `i`: an optional minus, an integer part with
/// no leading zero, an optional fraction, an optional exponent.  Integers
/// that fit become `Unsigned` or `Signed`; anything with a fraction or
/// exponent becomes an exact `Decimal`.  A mantissa beyond `u64` or an
/// exponent beyond the bounds is rejected.
pub open spec fn spec_number(s: Seq<char>, i: int) -> Option<(JsonNumber, int)>
    recommends
        0 <= i <= s.len(),
{
    let len = s.len() as int;
    let neg = i < len && s[i] == '-';
    let i0 = if neg {
        i + 1
    } else {
        i
    };
    if i0 >= len || !char_is_digit(s[i0]) {
        None
    } else {
        let ie = digit_run_end(s, i0);
        if s[i0] == '0' && ie > i0 + 1 {
            None
        } else {
            let has_frac = ie < len && s[ie] == '.';
            let fs = ie + 1;
            let fe = if has_frac {
                digit_run_end(s, fs)
            } else {
                ie
            };
            if has_frac && fe == fs {
                None
            } else {
                let af = if has_frac {
                    fe
                } else {
                    ie
                };
                let has_exp = af < len && (s[af] == 'e' || s[af] == 'E');
                let es0 = af + 1;
                let esign = has_exp && es0 < len && (s[es0] == '-' || s[es0] == '+');
                let eneg = has_exp && es0 < len && s[es0] == '-';
                let es = if esign {
                    es0 + 1
                } else {
                    es0
                };
                let ee = if has_exp {
                    digit_run_end(s, es)
                } else {
                    af
                };
                if has_exp && ee == es {
                    None
                } else {
                    let end = if has_exp {
                        ee
                    } else {
                        af
                    };
                    if !has_frac && !has_exp {
                        let v = digits_val(s, i0, ie);
                        if !neg {
                            if v <= u64::MAX as nat {
                                Some((JsonNumber::Unsigned(v as u64), end))
                            } else {
                                None
                            }
                        } else {
                            if v <= 0x8000000000000000 {
                                Some((JsonNumber::Signed((-(v as int)) as i64, ), end))
                            } else {
                                None
                            }
                        }
                    } else {
                        let fraclen: nat = if has_frac {
                            (fe - fs) as nat
                        } else {
                            0
                        };
                        let mant = digits_val(s, i0, ie) * pow10(fraclen) + (if has_frac {
                            digits_val(s, fs, fe)
                        } else {
                            0
                        });
                        let ev = if has_exp {
                            digits_val(s, es, ee)
                        } else {
                            0
                        };
                        if mant > u64::MAX as nat || ev > 1000000000 {
                            None
                        } else {
                            let e10: int = (if eneg {
                                -(ev as int)
                            } else {
                                ev as int
                            }) - fraclen;
                            if e10 < i32::MIN as int || e10 > i32::MAX as int {
                                None
                            } else {
                                Some(
                                    (
                                        JsonNumber::Decimal(
                                            Dec { neg, mant: mant as u64, exp: e10 as i32 },
                                        ),
                                        end,
                                    ),
                                )
                            }
                        }
                    }
                }
            }
        }
    }
}

/// Whether the outcome `r` agrees with `spec_number` at `i`.
pub open spec fn number_result_ok(r: Option<(JsonNumber, usize)>, s: Seq<char>, i: int) -> bool {
    match r {
        Some((n, j)) => spec_number(s, i) == Some((n, j as int)) && i < j <= s.len(),
        None => spec_number(s, i) is None,
    }
}

/// Combines integer and fraction digit values into one mantissa,
/// reporting overflow past `u64`.
pub(crate) fn combine_mant(
    iv: Option<u64>,
    fv: Option<u64>,
    fraclen: usize,
    Ghost(ivs): Ghost<nat>,
    Ghost(fvs): Ghost<nat>,
) -> (r: Option<u64>)
    requires
        match iv {
            Some(v) => v as nat == ivs,
            None => ivs > u64::MAX,
        },
        match fv {
            Some(v) => v as nat == fvs,
            None => fvs > u64::MAX,
        },
    ensures
        match r {
            Some(m) => m as nat == ivs * pow10(fraclen as nat) + fvs,
            None => ivs * pow10(fraclen as nat) + fvs > u64::MAX,
        },
{
    proof {
        crate::number::lemma_pow10_pos(fraclen as nat);
        crate::number::lemma_pow10_consts();
    }
    if iv.is_none() || fv.is_none() {
        proof {
            assert(ivs * pow10(fraclen as nat) >= ivs) by (nonlinear_arith)
                requires
                    ivs >= 0,
                    pow10(fraclen as nat) >= 1,
            ;
        }
        return None;
    }
    let ivv = iv.unwrap();
    let fvv = fv.unwrap();
    if fraclen > 19 {
        if ivv > 0 {
            proof {
                crate::number::lemma_pow10_mono(20, fraclen as nat);
                assert(ivs * pow10(fraclen as nat) >= pow10(fraclen as nat)) by (nonlinear_arith)
                    requires
                        ivs >= 1,
                        pow10(fraclen as nat) >= 1,
                ;
            }
            None
        } else {
            proof {
                assert(0 * pow10(fraclen as nat) == 0) by (nonlinear_arith);
            }
            Some(fvv)
        }
    } else {
        let p = crate::number::pow10_u128(fraclen as u64);
        proof {
            crate::number::lemma_pow10_mono(fraclen as nat, 19);
            assert(ivv as u128 as int * (p as int) <= u64::MAX as int * pow10(19))
                by (nonlinear_arith)
                requires
                    ivv as u128 as int <= u64::MAX as int,
                    0 <= p as int <= pow10(19),
            ;
            assert(u64::MAX as int * pow10(19) + u64::MAX < u128::MAX as int);
        }
        let wide: u128 = (ivv as u128) * p + (fvv as u128);
        proof {
            assert(wide as int == ivs * pow10(fraclen as nat) + fvs) by (nonlinear_arith)
                requires
                    wide as int == ivv as u128 as int * (p as int) + fvv as u128 as int,
                    ivv as u128 as int == ivs,
                    fvv as u128 as int == fvs,
                    p as int == pow10(fraclen as nat),
            ;
        }
        if wide > u64::MAX as u128 {
            None
        } else {
            Some(wide as u64)
        }
    }
}

/// Parses a JSON number, mirroring `spec_number`.
#[verifier::rlimit(90)]
pub fn parse_number(s: &Vec<char>, i: usize) -> (r: Option<(JsonNumber, usize)>)
    requires
        i <= s@.len(),
    ensures
        number_result_ok(r, s@, i as int),
{
    let len = s.len();
    let neg = i < len && s[i] == '-';
    let i0 = if neg {
        i + 1
    } else {
        i
    };
    if i0 >= len || !('0' <= s[i0] && s[i0] <= '9') {
        return None;
    }
    let (ie, int_v) = scan_digits(s, i0);
    proof {
        crate::text::lemma_digit_run_end(s@, i0 as int);
        assert(ie > i0);
    }
    if s[i0] == '0' && ie > i0 + 1 {
        return None;
    }
    let has_frac = ie < len && s[ie] == '.';
    let fs = if has_frac {
        ie + 1
    } else {
        ie
    };
    let (fe, frac_v) = if has_frac {
        let (a, b) = scan_digits(s, fs);
        (a, b)
    } else {
        (ie, Some(0u64))
    };
    if has_frac && fe == fs {
        return None;
    }
    let af = if has_frac {
        fe
    } else {
        ie
    };
    let has_exp = af < len && (s[af] == 'e' || s[af] == 'E');
    let es0 = if has_exp {
        af + 1
    } else {
        af
    };
    let esign = has_exp && es0 < len && (s[es0] == '-' || s[es0] == '+');
    let eneg = has_exp && es0 < len && s[es0] == '-';
    let es = if esign {
        es0 + 1
    } else {
        es0
    };
    let (ee, exp_v) = if has_exp {
        let (a, b) = scan_digits(s, es);
        (a, b)
    } else {
        (af, Some(0u64))
    };
    if has_exp && ee == es {
        return None;
    }
    let end = if has_exp {
        ee
    } else {
        af
    };
    if !has_frac && !has_exp {
        match int_v {
            None => None,
            Some(v) => {
                if !neg {
                    Some((JsonNumber::Unsigned(v), end))
                } else {
                    if v <= 0x8000000000000000 {
                        let sv: i64 = (-(v as i128)) as i64;
                        Some((JsonNumber::Signed(sv), end))
                    } else {
                        None
                    }
                }
            },
        }
    } else {
        let fraclen: usize = if has_frac {
            fe - fs
        } else {
            0
        };
        let ghost ivs: nat = digits_val(s@, i0 as int, ie as int);
        let ghost fvs: nat = if has_frac {
            digits_val(s@, fs as int, fe as int)
        } else {
            0
        };
        let mant_opt = combine_mant(int_v, frac_v, fraclen, Ghost(ivs), Ghost(fvs));
        if mant_opt.is_none() || exp_v.is_none() {
            return None;
        }
        let mant = mant_opt.unwrap();
        let ev = exp_v.unwrap();
        if ev > 1000000000 {
            return None;
        }
        let esigned: i128 = if eneg {
            -(ev as i128)
        } else {
            ev as i128
        };
        let e10: i128 = esigned - (fraclen as i128);
        if e10 < i32::MIN as i128 || e10 > i32::MAX as i128 {
            return None;
        }
        let exp: i32 = e10 as i32;
        Some((JsonNumber::Decimal(Dec { neg, mant, exp }), end))
    }
}


/// Inserts `(k, v)` into a member list ordered by key, replacing an
/// entry whose key is `k`.
pub open spec fn obj_insert(es: Seq<(Seq<char>, JsonV)>, k: Seq<char>, v: JsonV) -> Seq<
    (Seq<char>, JsonV),
>
    decreases es.len(),
{
    if es.len() == 0 {
        seq![(k, v)]
    } else if k == es[0].0 {
        seq![(k, v)] + es.drop_first()
    } else if chars_lt(k, es[0].0) {
        seq![(k, v)] + es
    } else {
        seq![es[0]] + obj_insert(es.drop_first(), k, v)
    }
}

/// One JSON value, preceded by optional whitespace.
pub open spec fn spec_value(s: Seq<char>, i: int) -> Option<(JsonV, int)>
    decreases s.len() - i, 0int,
    via spec_value_decreases
{
    let j = ws_end(s, i);
    let len = s.len() as int;
    if j >= len {
        None
    } else if s[j] == 'n' {
        if j + 4 <= len && s[j + 1] == 'u' && s[j + 2] == 'l' && s[j + 3] == 'l' {
            Some((JsonV::Null, j + 4))
        } else {
            None
        }
    } else if s[j] == 't' {
        if j + 4 <= len && s[j + 1] == 'r' && s[j + 2] == 'u' && s[j + 3] == 'e' {
            Some((JsonV::Bool(true), j + 4))
        } else {
            None
        }
    } else if s[j] == 'f' {
        if j + 5 <= len && s[j + 1] == 'a' && s[j + 2] == 'l' && s[j + 3] == 's' && s[j + 4]
            == 'e' {
            Some((JsonV::Bool(false), j + 5))
        } else {
            None
        }
    } else if s[j] == '"' {
        match spec_string_body(s, j + 1) {
            Some((t, k)) => Some((JsonV::Str(t), k)),
            None => None,
        }
    } else if s[j] == '[' {
        let k = ws_end(s, j + 1);
        if k < len && s[k] == ']' {
            Some((JsonV::Arr(Seq::<JsonV>::empty()), k + 1))
        } else {
            match spec_elems(s, j + 1, Seq::<JsonV>::empty()) {
                Some((es, m)) => Some((JsonV::Arr(es), m)),
                None => None,
            }
        }
    } else if s[j] == '{' {
        let k = ws_end(s, j + 1);
        if k < len && s[k] == '}' {
            Some((JsonV::Obj(Seq::<(Seq<char>, JsonV)>::empty()), k + 1))
        } else {
            match spec_members(s, j + 1, Seq::<(Seq<char>, JsonV)>::empty()) {
                Some((ms, m)) => Some((JsonV::Obj(ms), m)),
                None => None,
            }
        }
    } else if s[j] == '-' || char_is_digit(s[j]) {
        match spec_number(s, j) {
            Some((n, k)) => Some((JsonV::Num(n), k)),
            None => None,
        }
    } else {
        None
    }
}

/// One or more array elements separated by commas, ending at `]`,
/// appended to the elements already in `acc`.
pub open spec fn spec_elems(s: Seq<char>, i: int, acc: Seq<JsonV>) -> Option<(Seq<JsonV>, int)>
    decreases s.len() - i, 1int,
{
    let len = s.len() as int;
    match spec_value(s, i) {
        None => None,
        Some((v, j2)) => {
            let k = ws_end(s, j2);
            if k < len && s[k] == ',' {
                if k + 1 > i {
                    spec_elems(s, k + 1, acc.push(v))
                } else {
                    None
                }
            } else if k < len && s[k] == ']' {
                Some((acc.push(v), k + 1))
            } else {
                None
            }
        },
    }
}

/// One or more object members separated by commas, ending at `}`,
/// each inserted in key order into the object accumulated in `acc`.
pub open spec fn spec_members(s: Seq<char>, i: int, acc: Seq<(Seq<char>, JsonV)>) -> Option<
    (Seq<(Seq<char>, JsonV)>, int),
>
    decreases s.len() - i, 1int,
{
    let len = s.len() as int;
    let k = ws_end(s, i);
    if k >= len || s[k] != '"' {
        None
    } else {
        match spec_string_body(s, k + 1) {
            None => None,
            Some((key, j2)) => {
                let c = ws_end(s, j2);
                if c >= len || s[c] != ':' {
                    None
                } else if c + 1 > i {
                    match spec_value(s, c + 1) {
                        None => None,
                        Some((v, j3)) => {
                            let e = ws_end(s, j3);
                            if e < len && s[e] == ',' {
                                if e + 1 > i {
                                    spec_members(s, e + 1, obj_insert(acc, key, v))
                                } else {
                                    None
                                }
                            } else if e < len && s[e] == '}' {
                                Some((obj_insert(acc, key, v), e + 1))
                            } else {
                                None
                            }
                        },
                    }
                } else {
                    None
                }
            },
        }
    }
}

#[via_fn]
proof fn spec_value_decreases(s: Seq<char>, i: int) {
    lemma_ws_end(s, i);
}


/// Appending an element appends its model.
pub proof fn lemma_arr_view_push(s: Seq<JsonValue>, x: JsonValue)
    ensures
        arr_view(s.push(x)) == arr_view(s).push(value_view(x)),
{
    lemma_arr_view(s.push(x));
    lemma_arr_view(s);
    assert(arr_view(s.push(x)) =~= arr_view(s).push(value_view(x)));
}

/// Entries below `idx` with keys before `k` pass through an insert.
proof fn lemma_obj_insert_split(es: Seq<(Seq<char>, JsonV)>, k: Seq<char>, v: JsonV, idx: int)
    requires
        0 <= idx <= es.len(),
        forall|j: int| 0 <= j < idx ==> chars_lt((#[trigger] es[j]).0, k),
    ensures
        obj_insert(es, k, v) == es.subrange(0, idx) + obj_insert(
            es.subrange(idx, es.len() as int),
            k,
            v,
        ),
    decreases idx,
{
    if idx == 0 {
        assert(es.subrange(0, es.len() as int) =~= es);
        assert(es.subrange(0, 0) + obj_insert(es, k, v) =~= obj_insert(es, k, v));
    } else {
        crate::text::lemma_chars_lt_asym(es[0].0, k);
        lemma_obj_insert_split(es.drop_first(), k, v, idx - 1);
        assert(obj_insert(es, k, v) == seq![es[0]] + obj_insert(es.drop_first(), k, v));
        assert(es.drop_first().subrange(0, idx - 1) =~= es.subrange(1, idx));
        assert(es.drop_first().subrange(idx - 1, es.drop_first().len() as int) =~= es.subrange(
            idx,
            es.len() as int,
        ));
        assert(seq![es[0]] + (es.subrange(1, idx) + obj_insert(
            es.subrange(idx, es.len() as int),
            k,
            v,
        )) =~= es.subrange(0, idx) + obj_insert(es.subrange(idx, es.len() as int), k, v));
    }
}

/// Inserts `(key, val)` into an object kept sorted by key, replacing the
/// member whose key equals `key` if there is one.
#[verifier::rlimit(60)]
pub fn obj_insert_entry(entries: &mut Vec<(String, JsonValue)>, key: String, val: JsonValue)
    ensures
        obj_view(final(entries)@) == obj_insert(obj_view(old(entries)@), key@, value_view(val)),
{
    let kc = to_chars(key.as_str());
    let ghost es0 = obj_view(old(entries)@);
    proof {
        lemma_obj_view(old(entries)@);
    }
    let mut idx: usize = 0;
    loop
        invariant_except_break
            idx <= entries@.len(),
            entries@ == old(entries)@,
            kc@ == key@,
            forall|j: int|
                0 <= j < idx ==> chars_lt((#[trigger] obj_view(old(entries)@)[j]).0, key@),
        ensures
            idx <= entries@.len(),
            entries@ == old(entries)@,
            forall|j: int|
                0 <= j < idx ==> chars_lt((#[trigger] obj_view(old(entries)@)[j]).0, key@),
            idx < entries@.len() ==> !chars_lt(obj_view(old(entries)@)[idx as int].0, key@),
        decreases entries@.len() - idx,
    {
        if idx >= entries.len() {
            break;
        }
        proof {
            lemma_obj_view(entries@);
        }
        let ec = to_chars(entries[idx].0.as_str());
        let r = cmp_chars(&ec, &kc);
        if !(matches!(r, Rel::Less)) {
            proof {
                if chars_lt(obj_view(old(entries)@)[idx as int].0, key@) {
                    crate::text::lemma_chars_lt_asym(obj_view(old(entries)@)[idx as int].0, key@);
                }
            }
            break;
        }
        idx += 1;
    }
    proof {
        lemma_obj_insert_split(es0, key@, value_view(val), idx as int);
    }
    let ghost rest = es0.subrange(idx as int, es0.len() as int);
    if idx < entries.len() {
        let ec = to_chars(entries[idx].0.as_str());
        let r = cmp_chars(&ec, &kc);
        if matches!(r, Rel::Equal) {
            entries.remove(idx);
            entries.insert(idx, (key, val));
            proof {
                assert(rest[0].0 == key@);
                assert(obj_insert(rest, key@, value_view(val)) == seq![(key@, value_view(val))]
                    + rest.drop_first());
                lemma_obj_view(entries@);
                assert(obj_view(entries@) =~= obj_insert(es0, key@, value_view(val)));
            }
            return ;
        }
        proof {
            assert(es0[idx as int].0 != key@);
            crate::text::lemma_chars_lt_total(es0[idx as int].0, key@);
            assert(chars_lt(key@, rest[0].0));
            crate::text::lemma_chars_lt_asym(key@, rest[0].0);
            assert(obj_insert(rest, key@, value_view(val)) == seq![(key@, value_view(val))]
                + rest);
        }
    } else {
        proof {
            assert(rest.len() == 0);
            assert(obj_insert(rest, key@, value_view(val)) == seq![(key@, value_view(val))]);
        }
    }
    entries.insert(idx, (key, val));
    proof {
        lemma_obj_view(entries@);
        assert(obj_view(entries@) =~= obj_insert(es0, key@, value_view(val)));
    }
}

/// Whether the outcome `r` agrees with `spec_value` at `i`.
pub open spec fn value_result_ok(r: Option<(JsonValue, usize)>, s: Seq<char>, i: int) -> bool {
    match r {
        Some((v, j)) => spec_value(s, i) == Some((value_view(v), j as int)) && i < j <= s.len(),
        None => spec_value(s, i) is None,
    }
}

/// Whether the outcome `r` agrees with `spec_elems` at `i` from `acc0`.
pub open spec fn elems_result_ok(
    r: Option<(Vec<JsonValue>, usize)>,
    s: Seq<char>,
    i: int,
    acc0: Seq<JsonV>,
) -> bool {
    match r {
        Some((out, j)) => spec_elems(s, i, acc0) == Some((arr_view(out@), j as int)) && i < j
            <= s.len(),
        None => spec_elems(s, i, acc0) is None,
    }
}

/// Whether the outcome `r` agrees with `spec_members` at `i` from `acc0`.
pub open spec fn members_result_ok(
    r: Option<(Vec<(String, JsonValue)>, usize)>,
    s: Seq<char>,
    i: int,
    acc0: Seq<(Seq<char>, JsonV)>,
) -> bool {
    match r {
        Some((out, j)) => spec_members(s, i, acc0) == Some((obj_view(out@), j as int)) && i < j
            <= s.len(),
        None => spec_members(s, i, acc0) is None,
    }
}

/// Parses one JSON value, mirroring `spec_value`.
#[verifier::rlimit(90)]
pub fn parse_value(s: &Vec<char>, i: usize) -> (r: Option<(JsonValue, usize)>)
    requires
        i <= s@.len(),
    ensures
        value_result_ok(r, s@, i as int),
    decreases s@.len() - i, 0int,
{
    let j = skip_ws(s, i);
    let len = s.len();
    if j >= len {
        return None;
    }
    let c = s[j];
    if c == 'n' {
        if len - j >= 4 && s[j + 1] == 'u' && s[j + 2] == 'l' && s[j + 3] == 'l' {
            Some((JsonValue::Null, j + 4))
        } else {
            None
        }
    } else if c == 't' {
        if len - j >= 4 && s[j + 1] == 'r' && s[j + 2] == 'u' && s[j + 3] == 'e' {
            Some((JsonValue::Bool(true), j + 4))
        } else {
            None
        }
    } else if c == 'f' {
        if len - j >= 5 && s[j + 1] == 'a' && s[j + 2] == 'l' && s[j + 3] == 's' && s[j + 4]
            == 'e' {
            Some((JsonValue::Bool(false), j + 5))
        } else {
            None
        }
    } else if c == '"' {
        match parse_string_body(s, j + 1) {
            Some((t, k)) => Some((JsonValue::Str(chars_to_string(&t)), k)),
            None => None,
        }
    } else if c == '[' {
        let k = skip_ws(s, j + 1);
        if k < len && s[k] == ']' {
            let empty: Vec<JsonValue> = Vec::new();
            Some((JsonValue::Arr(empty), k + 1))
        } else {
            let acc: Vec<JsonValue> = Vec::new();
            match parse_elems(s, j + 1, acc) {
                Some((es, m)) => Some((JsonValue::Arr(es), m)),
                None => None,
            }
        }
    } else if c == '{' {
        let k = skip_ws(s, j + 1);
        if k < len && s[k] == '}' {
            let empty: Vec<(String, JsonValue)> = Vec::new();
            Some((JsonValue::Obj(empty), k + 1))
        } else {
            let acc: Vec<(String, JsonValue)> = Vec::new();
            match parse_members(s, j + 1, acc) {
                Some((ms, m)) => Some((JsonValue::Obj(ms), m)),
                None => None,
            }
        }
    } else if c == '-' || ('0' <= c && c <= '9') {
        match parse_number(s, j) {
            Some((n, k)) => Some((JsonValue::Num(n), k)),
            None => None,
        }
    } else {
        None
    }
}

/// Parses array elements, mirroring `spec_elems`.
#[verifier::rlimit(90)]
pub fn parse_elems(s: &Vec<char>, i: usize, acc: Vec<JsonValue>) -> (r: Option<
    (Vec<JsonValue>, usize),
>)
    requires
        i <= s@.len(),
    ensures
        elems_result_ok(r, s@, i as int, arr_view(acc@)),
    decreases s@.len() - i, 1int,
{
    let ghost acc0 = arr_view(acc@);
    match parse_value(s, i) {
        None => None,
        Some((v, j2)) => {
            let k = skip_ws(s, j2);
            let mut acc2 = acc;
            proof {
                lemma_arr_view_push(acc2@, v);
            }
            acc2.push(v);
            if k < s.len() && s[k] == ',' {
                parse_elems(s, k + 1, acc2)
            } else if k < s.len() && s[k] == ']' {
                Some((acc2, k + 1))
            } else {
                None
            }
        },
    }
}

/// Parses object members, mirroring `spec_members`.
#[verifier::rlimit(90)]
pub fn parse_members(s: &Vec<char>, i: usize, acc: Vec<(String, JsonValue)>) -> (r: Option<
    (Vec<(String, JsonValue)>, usize),
>)
    requires
        i <= s@.len(),
    ensures
        members_result_ok(r, s@, i as int, obj_view(acc@)),
    decreases s@.len() - i, 1int,
{
    let ghost acc0 = obj_view(acc@);
    let k = skip_ws(s, i);
    if k >= s.len() || s[k] != '"' {
        return None;
    }
    match parse_string_body(s, k + 1) {
        None => None,
        Some((keychars, j2)) => {
            let key = chars_to_string(&keychars);
            let c = skip_ws(s, j2);
            if c >= s.len() || s[c] != ':' {
                return None;
            }
            match parse_value(s, c + 1) {
                None => None,
                Some((v, j3)) => {
                    let e = skip_ws(s, j3);
                    let mut acc2 = acc;
                    let ghost vv = value_view(v);
                    obj_insert_entry(&mut acc2, key, v);
                    if e < s.len() && s[e] == ',' {
                        parse_members(s, e + 1, acc2)
                    } else if e < s.len() && s[e] == '}' {
                        Some((acc2, e + 1))
                    } else {
                        None
                    }
                },
            }
        },
    }
}

/// One full line of JSON text: a value with nothing but whitespace after.
pub open spec fn spec_json_line(s: Seq<char>) -> Option<JsonV> {
    match spec_value(s, 0) {
        Some((v, j)) => if ws_end(s, j) == s.len() {
            Some(v)
        } else {
            None
        },
        None => None,
    }
}

/// Parses one line of JSON text, mirroring `spec_json_line`.
pub fn parse_json_chars(s: &Vec<char>) -> (r: Option<JsonValue>)
    ensures
        match r {
            Some(v) => spec_json_line(s@) == Some(value_view(v)),
            None => (spec_json_line(s@) is None),
        },
{
    match parse_value(s, 0) {
        Some((v, j)) => {
            let k = skip_ws(s, j);
            if k == s.len() {
                Some(v)
            } else {
                None
            }
        },
        None => None,
    }
}

/// Parses one line of JSON text given as a string slice.
pub fn parse_json_line(line: &str) -> (r: Option<JsonValue>)
    ensures
        match r {
            Some(v) => spec_json_line(line@) == Some(value_view(v)),
            None => (spec_json_line(line@) is None),
        },
{
    let cs = to_chars(line);
    parse_json_chars(&cs)
}


/// The hexadecimal digit character for a value below sixteen.
pub open spec fn hex_digit(d: nat) -> char
    recommends
        d < 16,
{
    seq![
        '0',
        '1',
        '2',
        '3',
        '4',
        '5',
        '6',
        '7',
        '8',
        '9',
        'a',
        'b',
        'c',
        'd',
        'e',
        'f',
    ][d as int]
}

/// The escape of one character in JSON string output: quote, backslash
/// and the short control escapes get a backslash form, other control
/// characters a `\u00..` form, and everything else stands as itself.
pub open spec fn esc_char(c: char) -> Seq<char> {
    if c == '"' {
        seq!['\\', '"']
    } else if c == '\\' {
        seq!['\\', '\\']
    } else if c == '\u{0008}' {
        seq!['\\', 'b']
    } else if c == '\t' {
        seq!['\\', 't']
    } else if c == '\n' {
        seq!['\\', 'n']
    } else if c == '\u{000C}' {
        seq!['\\', 'f']
    } else if c == '\r' {
        seq!['\\', 'r']
    } else if (c as u32) < 0x20 {
        seq!['\\', 'u', '0', '0', hex_digit((c as u32 / 16) as nat), hex_digit(
            (c as u32 % 16) as nat,
        )]
    } else {
        seq![c]
    }
}

/// The escaped characters of a string body.
pub open spec fn esc_str(s: Seq<char>) -> Seq<char>
    decreases s.len(),
{
    if s.len() == 0 {
        Seq::<char>::empty()
    } else {
        esc_str(s.drop_last()) + esc_char(s.last())
    }
}

/// A quoted, escaped JSON string.
pub open spec fn quoted(s: Seq<char>) -> Seq<char> {
    seq!['"'] + esc_str(s) + seq!['"']
}

/// The canonical compact text of a JSON value: no spaces, object members
/// in stored (key-sorted) order.
pub open spec fn ser_value(v: JsonV) -> Seq<char>
    decreases v,
    via ser_value_decreases
{
    match v {
        JsonV::Null => seq!['n', 'u', 'l', 'l'],
        JsonV::Bool(b) => if b {
            seq!['t', 'r', 'u', 'e']
        } else {
            seq!['f', 'a', 'l', 's', 'e']
        },
        JsonV::Num(n) => num_chars(n),
        JsonV::Str(t) => quoted(t),
        JsonV::Arr(es) => seq!['['] + ser_elems(es) + seq![']'],
        JsonV::Obj(ms) => seq!['{'] + ser_members(ms) + seq!['}'],
    }
}

/// The comma-separated texts of array elements.
pub open spec fn ser_elems(es: Seq<JsonV>) -> Seq<char>
    decreases es,
{
    if es.len() == 0 {
        Seq::<char>::empty()
    } else if es.len() == 1 {
        ser_value(es[0])
    } else {
        ser_elems(es.drop_last()) + seq![','] + ser_value(es.last())
    }
}

/// The comma-separated texts of object members.
pub open spec fn ser_members(ms: Seq<(Seq<char>, JsonV)>) -> Seq<char>
    decreases ms,
{
    if ms.len() == 0 {
        Seq::<char>::empty()
    } else if ms.len() == 1 {
        quoted(ms[0].0) + seq![':'] + ser_value(ms[0].1)
    } else {
        ser_members(ms.drop_last()) + seq![','] + quoted(ms.last().0) + seq![':'] + ser_value(
            ms.last().1,
        )
    }
}

#[via_fn]
proof fn ser_value_decreases(v: JsonV) {
    match v {
        JsonV::Arr(es) => {
            assert(decreases_to!(v => es));
        },
        JsonV::Obj(ms) => {
            assert(decreases_to!(v => ms));
        },
        _ => {},
    }
}

/// Appends the escape of one character.
fn push_escaped(c: char, out: &mut Vec<char>)
    ensures
        final(out)@ == old(out)@ + esc_char(c),
{
    if c == '"' {
        out.push('\\');
        out.push('"');
    } else if c == '\\' {
        out.push('\\');
        out.push('\\');
    } else if c == '\u{0008}' {
        out.push('\\');
        out.push('b');
    } else if c == '\t' {
        out.push('\\');
        out.push('t');
    } else if c == '\n' {
        out.push('\\');
        out.push('n');
    } else if c == '\u{000C}' {
        out.push('\\');
        out.push('f');
    } else if c == '\r' {
        out.push('\\');
        out.push('r');
    } else if (c as u32) < 0x20 {
        out.push('\\');
        out.push('u');
        out.push('0');
        out.push('0');
        let hi: u32 = (c as u32) / 16;
        let lo: u32 = (c as u32) % 16;
        let hc: char = if hi == 0 {
            '0'
        } else {
            '1'
        };
        let lc: char = match lo {
            0 => '0',
            1 => '1',
            2 => '2',
            3 => '3',
            4 => '4',
            5 => '5',
            6 => '6',
            7 => '7',
            8 => '8',
            9 => '9',
            10 => 'a',
            11 => 'b',
            12 => 'c',
            13 => 'd',
            14 => 'e',
            _ => 'f',
        };
        proof {
            assert(hc == hex_digit((c as u32 / 16) as nat));
            assert(lc == hex_digit((c as u32 % 16) as nat));
        }
        out.push(hc);
        out.push(lc);
        proof {
            assert(out@ =~= old(out)@ + esc_char(c));
        }
    } else {
        out.push(c);
    }
    proof {
        assert(out@ =~= old(out)@ + esc_char(c));
    }
}

/// Appends a quoted, escaped string.
fn push_quoted(t: &str, out: &mut Vec<char>)
    ensures
        final(out)@ == old(out)@ + quoted(t@),
{
    out.push('"');
    let cs = to_chars(t);
    let mut i: usize = 0;
    while i < cs.len()
        invariant
            i <= cs@.len(),
            cs@ == t@,
            out@ == old(out)@ + seq!['"'] + esc_str(t@.subrange(0, i as int)),
        decreases cs@.len() - i,
    {
        push_escaped(cs[i], out);
        i += 1;
        proof {
            assert(t@.subrange(0, i as int).drop_last() =~= t@.subrange(0, i - 1));
            assert(t@.subrange(0, i as int).last() == t@[i - 1]);
        }
    }
    out.push('"');
    proof {
        assert(t@.subrange(0, t@.len() as int) =~= t@);
        assert(out@ =~= old(out)@ + quoted(t@));
    }
}

impl JsonValue {
    /// Appends the canonical text of this value to `out`.
    #[verifier::loop_isolation(false)]
    #[verifier::rlimit(90)]
    pub fn write_chars(&self, out: &mut Vec<char>)
        ensures
            final(out)@ == old(out)@ + ser_value(self@),
        decreases self@,
    {
        match self {
            JsonValue::Null => {
                out.push('n');
                out.push('u');
                out.push('l');
                out.push('l');
                proof {
                    assert(out@ =~= old(out)@ + ser_value(self@));
                }
            },
            JsonValue::Bool(b) => {
                if *b {
                    out.push('t');
                    out.push('r');
                    out.push('u');
                    out.push('e');
                } else {
                    out.push('f');
                    out.push('a');
                    out.push('l');
                    out.push('s');
                    out.push('e');
                }
                proof {
                    assert(out@ =~= old(out)@ + ser_value(self@));
                }
            },
            JsonValue::Num(n) => {
                n.push_chars(out);
            },
            JsonValue::Str(t) => {
                push_quoted(t.as_str(), out);
            },
            JsonValue::Arr(a) => {
                out.push('[');
                let mut i: usize = 0;
                while i < a.len()
                    invariant
                        i <= a@.len(),
                        out@ == old(out)@ + seq!['['] + ser_elems(arr_view(a@.subrange(
                            0,
                            i as int,
                        ))),
                    decreases a@.len() - i,
                {
                    if i > 0 {
                        out.push(',');
                    }
                    proof {
                        let g = self@;
                        lemma_arr_view(a@);
                        assert(g is Arr && g->Arr_0 == arr_view(a@));
                        assert(decreases_to!(g => g->Arr_0));
                        assert(decreases_to!(g->Arr_0 => g->Arr_0[i as int]));
                        assert(g->Arr_0[i as int] == a@[i as int]@);
                    }
                    a[i].write_chars(out);
                    i += 1;
                    proof {
                        lemma_arr_view(a@.subrange(0, i as int));
                        lemma_arr_view(a@.subrange(0, i - 1));
                        assert(arr_view(a@.subrange(0, i as int)).drop_last() =~= arr_view(
                            a@.subrange(0, i - 1),
                        ));
                        assert(arr_view(a@.subrange(0, i as int)).last() == a@[i - 1]@);
                        assert(out@ =~= old(out)@ + seq!['['] + ser_elems(arr_view(a@.subrange(
                            0,
                            i as int,
                        ))));
                    }
                }
                out.push(']');
                proof {
                    assert(a@.subrange(0, a@.len() as int) =~= a@);
                    assert(out@ =~= old(out)@ + ser_value(self@));
                }
            },
            JsonValue::Obj(o) => {
                out.push('{');
                let mut i: usize = 0;
                while i < o.len()
                    invariant
                        i <= o@.len(),
                        out@ == old(out)@ + seq!['{'] + ser_members(obj_view(o@.subrange(
                            0,
                            i as int,
                        ))),
                    decreases o@.len() - i,
                {
                    if i > 0 {
                        out.push(',');
                    }
                    push_quoted(o[i].0.as_str(), out);
                    out.push(':');
                    proof {
                        let g = self@;
                        lemma_obj_view(o@);
                        assert(g is Obj && g->Obj_0 == obj_view(o@));
                        assert(decreases_to!(g => g->Obj_0));
                        assert(decreases_to!(g->Obj_0 => g->Obj_0[i as int]));
                        assert(decreases_to!(g->Obj_0[i as int] => g->Obj_0[i as int].1));
                        assert(g->Obj_0[i as int].1 == o@[i as int].1@);
                    }
                    o[i].1.write_chars(out);
                    i += 1;
                    proof {
                        lemma_obj_view(o@.subrange(0, i as int));
                        lemma_obj_view(o@.subrange(0, i - 1));
                        assert(obj_view(o@.subrange(0, i as int)).drop_last() =~= obj_view(
                            o@.subrange(0, i - 1),
                        ));
                        assert(obj_view(o@.subrange(0, i as int)).last() == (o@[i - 1].0@, o@[i
                            - 1].1@));
                        assert(out@ =~= old(out)@ + seq!['{'] + ser_members(obj_view(o@.subrange(
                            0,
                            i as int,
                        ))));
                    }
                }
                out.push('}');
                proof {
                    assert(o@.subrange(0, o@.len() as int) =~= o@);
                    assert(out@ =~= old(out)@ + ser_value(self@));
                }
            },
        }
    }

    /// The canonical compact text of this value.
    pub fn to_json_string(&self) -> (r: String)
        ensures
            r@ == ser_value(self@),
    {
        let mut out: Vec<char> = Vec::new();
        self.write_chars(&mut out);
        chars_to_string(&out)
    }
}

} // verus!
