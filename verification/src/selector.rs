//! The pieces of the selector grammar that both selector parsers share:
//! the comparison operator, identifier and index scanning, and the typed
//! literal parsers that follow a comparison operator.

use vstd::prelude::*;

use crate::json::{combine_mant, ws_end};
use crate::number::Dec;
use crate::text::{char_is_digit, digit_run_end, digits_val, scan_digits};

verus! {

/// One of the six relational operators of a comparison.
#[derive(Debug, PartialEq, Eq, Structural, Clone, Copy)]
pub enum Comparator {
    LT,
    LE,
    GT,
    GE,
    EQ,
    NE,
}

/// Whether `c` can start a comparison operator.
pub open spec fn is_comparator_char(c: char) -> bool {
    c == '<' || c == '=' || c == '!' || c == '>'
}

/// Whether `c` may appear in a bare identifier: anything but a dot, an
/// opening bracket, a comparator character or a space.
pub open spec fn is_ident_char(c: char) -> bool {
    c != '.' && c != '[' && !is_comparator_char(c) && c != ' '
}

/// The first position at or after `i` that ends an identifier.
pub open spec fn ident_run_end(s: Seq<char>, i: int) -> int
    recommends
        0 <= i <= s.len(),
    decreases s.len() - i,
{
    if i < s.len() && is_ident_char(s[i]) {
        ident_run_end(s, i + 1)
    } else {
        i
    }
}

/// The identifier run is bounded by the sequence.
pub proof fn lemma_ident_run_end(s: Seq<char>, i: int)
    requires
        0 <= i <= s.len(),
    ensures
        i <= ident_run_end(s, i) <= s.len(),
    decreases s.len() - i,
{
    if i < s.len() && is_ident_char(s[i]) {
        lemma_ident_run_end(s, i + 1);
    }
}

/// Scans an identifier run.
pub fn scan_ident(s: &Vec<char>, i: usize) -> (r: usize)
    requires
        i <= s@.len(),
    ensures
        r as int == ident_run_end(s@, i as int),
        i <= r <= s@.len(),
{
    let mut k: usize = i;
    loop
        invariant_except_break
            i <= k <= s@.len(),
            ident_run_end(s@, i as int) == ident_run_end(s@, k as int),
        ensures
            i <= k <= s@.len(),
            ident_run_end(s@, i as int) == k as int,
        decreases s@.len() - k,
    {
        if k >= s.len() {
            break;
        }
        let c = s[k];
        if c == '.' || c == '[' || c == '<' || c == '=' || c == '!' || c == '>' || c == ' ' {
            break;
        }
        k += 1;
    }
    k
}

/// A bracketed index `[digits]` whose value fits in a `u64`.
pub open spec fn spec_index(s: Seq<char>, i: int) -> Option<(u64, int)>
    recommends
        0 <= i <= s.len(),
{
    let len = s.len() as int;
    if i >= len || s[i] != '[' {
        None
    } else {
        let e = digit_run_end(s, i + 1);
        if e == i + 1 {
            None
        } else if digits_val(s, i + 1, e) > u64::MAX as nat {
            None
        } else if e >= len || s[e] != ']' {
            None
        } else {
            Some((digits_val(s, i + 1, e) as u64, e + 1))
        }
    }
}

/// Parses a bracketed index, mirroring `spec_index`.
pub fn parse_index_at(s: &Vec<char>, i: usize) -> (r: Option<(u64, usize)>)
    requires
        i <= s@.len(),
    ensures
        match r {
            Some((n, j)) => spec_index(s@, i as int) == Some((n, j as int)) && i < j <= s@.len(),
            None => (spec_index(s@, i as int) is None),
        },
{
    if i >= s.len() || s[i] != '[' {
        return None;
    }
    let (e, v) = scan_digits(s, i + 1);
    if e == i + 1 {
        return None;
    }
    match v {
        None => None,
        Some(n) => {
            if e >= s.len() || s[e] != ']' {
                None
            } else {
                Some((n, e + 1))
            }
        },
    }
}

/// The comparison operator named by the taken characters.
pub open spec fn comparator_of(t: Seq<char>) -> Option<Comparator> {
    if t == seq!['<'] {
        Some(Comparator::LT)
    } else if t == seq!['<', '='] {
        Some(Comparator::LE)
    } else if t == seq!['=', '='] {
        Some(Comparator::EQ)
    } else if t == seq!['!', '='] {
        Some(Comparator::NE)
    } else if t == seq!['>'] {
        Some(Comparator::GT)
    } else if t == seq!['>', '='] {
        Some(Comparator::GE)
    } else {
        None
    }
}

/// Whether `c` is a digit or a space.
pub open spec fn is_digit_or_space(c: char) -> bool {
    char_is_digit(c) || c == ' '
}

/// The first position at or after `i` holding a digit or a space.
pub open spec fn till_digit_or_space(s: Seq<char>, i: int) -> int
    recommends
        0 <= i <= s.len(),
    decreases s.len() - i,
{
    if i < s.len() && !is_digit_or_space(s[i]) {
        till_digit_or_space(s, i + 1)
    } else {
        i
    }
}

/// The scan is bounded by the sequence.
pub proof fn lemma_till_digit_or_space(s: Seq<char>, i: int)
    requires
        0 <= i <= s.len(),
    ensures
        i <= till_digit_or_space(s, i) <= s.len(),
    decreases s.len() - i,
{
    if i < s.len() && !is_digit_or_space(s[i]) {
        lemma_till_digit_or_space(s, i + 1);
    }
}

/// A comparison operator: at least one character up to the next digit or
/// space, which must spell one of the six operators.
pub open spec fn spec_comparator(s: Seq<char>, i: int) -> Option<(Comparator, int)>
    recommends
        0 <= i <= s.len(),
{
    let e = till_digit_or_space(s, i);
    if e == i {
        None
    } else {
        match comparator_of(s.subrange(i, e)) {
            Some(c) => Some((c, e)),
            None => None,
        }
    }
}

/// Parses a comparison operator, mirroring `spec_comparator`.
pub fn parse_comparator_at(s: &Vec<char>, i: usize) -> (r: Option<(Comparator, usize)>)
    requires
        i <= s@.len(),
    ensures
        match r {
            Some((c, j)) => spec_comparator(s@, i as int) == Some((c, j as int)) && i < j
                <= s@.len(),
            None => (spec_comparator(s@, i as int) is None),
        },
{
    proof {
        lemma_till_digit_or_space(s@, i as int);
    }
    let mut k: usize = i;
    loop
        invariant_except_break
            i <= k <= s@.len(),
            till_digit_or_space(s@, i as int) == till_digit_or_space(s@, k as int),
        ensures
            i <= k <= s@.len(),
            till_digit_or_space(s@, i as int) == k as int,
        decreases s@.len() - k,
    {
        if k >= s.len() {
            break;
        }
        let c = s[k];
        if ('0' <= c && c <= '9') || c == ' ' {
            break;
        }
        k += 1;
    }
    if k == i {
        return None;
    }
    let ghost t = s@.subrange(i as int, k as int);
    let n = k - i;
    let r: Option<Comparator> = if n == 1 && s[i] == '<' {
        Some(Comparator::LT)
    } else if n == 2 && s[i] == '<' && s[i + 1] == '=' {
        Some(Comparator::LE)
    } else if n == 2 && s[i] == '=' && s[i + 1] == '=' {
        Some(Comparator::EQ)
    } else if n == 2 && s[i] == '!' && s[i + 1] == '=' {
        Some(Comparator::NE)
    } else if n == 1 && s[i] == '>' {
        Some(Comparator::GT)
    } else if n == 2 && s[i] == '>' && s[i + 1] == '=' {
        Some(Comparator::GE)
    } else {
        None
    };
    proof {
        lemma_comparator_cases(t);
        assert(t.len() == n);
        assert(t[0] == s@[i as int]);
        if n >= 2 {
            assert(t[1] == s@[i + 1]);
        }
    }
    match r {
        Some(c) => Some((c, k)),
        None => None,
    }
}

/// The operator spelled by `t` is decided by its length and characters.
pub(crate) proof fn lemma_comparator_cases(t: Seq<char>)
    ensures
        comparator_of(t) == (if t.len() == 1 && t[0] == '<' {
            Some(Comparator::LT)
        } else if t.len() == 2 && t[0] == '<' && t[1] == '=' {
            Some(Comparator::LE)
        } else if t.len() == 2 && t[0] == '=' && t[1] == '=' {
            Some(Comparator::EQ)
        } else if t.len() == 2 && t[0] == '!' && t[1] == '=' {
            Some(Comparator::NE)
        } else if t.len() == 1 && t[0] == '>' {
            Some(Comparator::GT)
        } else if t.len() == 2 && t[0] == '>' && t[1] == '=' {
            Some(Comparator::GE)
        } else {
            None
        }),
{
    if t.len() == 1 {
        if t[0] == '<' {
            assert(t =~= seq!['<']);
        } else if t[0] == '>' {
            assert(t =~= seq!['>']);
        } else {
            assert(t != seq!['<'] && t != seq!['>']);
            assert(t.len() != 2);
        }
    } else if t.len() == 2 {
        if t[0] == '<' && t[1] == '=' {
            assert(t =~= seq!['<', '=']);
        } else if t[0] == '=' && t[1] == '=' {
            assert(t =~= seq!['=', '=']);
        } else if t[0] == '!' && t[1] == '=' {
            assert(t =~= seq!['!', '=']);
        } else if t[0] == '>' && t[1] == '=' {
            assert(t =~= seq!['>', '=']);
        }
    }
}


/// An unsigned integer literal: an optional plus sign and digits only,
/// with a value that fits in a `u64`.
pub open spec fn spec_lit_u64(s: Seq<char>) -> Option<u64> {
    let len = s.len() as int;
    let st: int = if len > 0 && s[0] == '+' {
        1
    } else {
        0
    };
    if len > st && digit_run_end(s, st) == len && digits_val(s, st, len) <= u64::MAX as nat {
        Some(digits_val(s, st, len) as u64)
    } else {
        None
    }
}

/// Parses an unsigned integer literal, mirroring `spec_lit_u64`.
pub fn parse_lit_u64(s: &Vec<char>) -> (r: Option<u64>)
    ensures
        r == spec_lit_u64(s@),
{
    let len = s.len();
    let st: usize = if len > 0 && s[0] == '+' {
        1
    } else {
        0
    };
    if len <= st {
        return None;
    }
    let (e, v) = scan_digits(s, st);
    if e != len {
        return None;
    }
    v
}

/// A signed integer literal: an optional sign and digits only, with a
/// value that fits in an `i64`.
pub open spec fn spec_lit_i64(s: Seq<char>) -> Option<i64> {
    let len = s.len() as int;
    let neg = len > 0 && s[0] == '-';
    let st: int = if len > 0 && (s[0] == '+' || s[0] == '-') {
        1
    } else {
        0
    };
    if len > st && digit_run_end(s, st) == len {
        let v = digits_val(s, st, len);
        if neg {
            if v <= 0x8000000000000000 {
                Some((-(v as int)) as i64)
            } else {
                None
            }
        } else {
            if v <= i64::MAX as nat {
                Some(v as i64)
            } else {
                None
            }
        }
    } else {
        None
    }
}

/// Parses a signed integer literal, mirroring `spec_lit_i64`.
pub fn parse_lit_i64(s: &Vec<char>) -> (r: Option<i64>)
    ensures
        r == spec_lit_i64(s@),
{
    let len = s.len();
    let neg = len > 0 && s[0] == '-';
    let st: usize = if len > 0 && (s[0] == '+' || s[0] == '-') {
        1
    } else {
        0
    };
    if len <= st {
        return None;
    }
    let (e, v) = scan_digits(s, st);
    if e != len {
        return None;
    }
    match v {
        None => None,
        Some(m) => {
            if neg {
                if m <= 0x8000000000000000 {
                    Some((-(m as i128)) as i64)
                } else {
                    None
                }
            } else {
                if m <= i64::MAX as u64 {
                    Some(m as i64)
                } else {
                    None
                }
            }
        },
    }
}

/// A boolean literal: exactly `true` or `false`.
pub open spec fn spec_lit_bool(s: Seq<char>) -> Option<bool> {
    if s == seq!['t', 'r', 'u', 'e'] {
        Some(true)
    } else if s == seq!['f', 'a', 'l', 's', 'e'] {
        Some(false)
    } else {
        None
    }
}

/// Parses a boolean literal, mirroring `spec_lit_bool`.
pub fn parse_lit_bool(s: &Vec<char>) -> (r: Option<bool>)
    ensures
        r == spec_lit_bool(s@),
{
    if s.len() == 4 && s[0] == 't' && s[1] == 'r' && s[2] == 'u' && s[3] == 'e' {
        proof {
            assert(s@ =~= seq!['t', 'r', 'u', 'e']);
        }
        Some(true)
    } else if s.len() == 5 && s[0] == 'f' && s[1] == 'a' && s[2] == 'l' && s[3] == 's' && s[4]
        == 'e' {
        proof {
            assert(s@ =~= seq!['f', 'a', 'l', 's', 'e']);
        }
        Some(false)
    } else {
        proof {
            if s@ == seq!['t', 'r', 'u', 'e'] || s@ == seq!['f', 'a', 'l', 's', 'e'] {
                assert(false);
            }
        }
        None
    }
}

/// A null literal: the word `null` with optional surrounding whitespace.
pub open spec fn spec_lit_null(s: Seq<char>) -> bool {
    let len = s.len() as int;
    let a = ws_end(s, 0);
    a + 4 <= len && s[a] == 'n' && s[a + 1] == 'u' && s[a + 2] == 'l' && s[a + 3] == 'l' && ws_end(
        s,
        a + 4,
    ) == len
}

/// Recognises a null literal, mirroring `spec_lit_null`.
pub fn parse_lit_null(s: &Vec<char>) -> (r: bool)
    ensures
        r == spec_lit_null(s@),
{
    let a = crate::json::skip_ws(s, 0);
    if s.len() - a >= 4 && s[a] == 'n' && s[a + 1] == 'u' && s[a + 2] == 'l' && s[a + 3] == 'l' {
        let b = crate::json::skip_ws(s, a + 4);
        b == s.len()
    } else {
        false
    }
}

/// A decimal literal: an optional sign, digits with an optional point
/// (at least one digit on one side), and an optional exponent, covering
/// the whole input.  The mantissa must fit in a `u64` and the exponent
/// within the decimal bounds.
pub open spec fn spec_lit_dec(s: Seq<char>) -> Option<Dec> {
    let len = s.len() as int;
    let neg = len > 0 && s[0] == '-';
    let st: int = if len > 0 && (s[0] == '+' || s[0] == '-') {
        1
    } else {
        0
    };
    let ie = digit_run_end(s, st);
    let has_frac = ie < len && s[ie] == '.';
    let fs = ie + 1;
    let fe = if has_frac {
        digit_run_end(s, fs)
    } else {
        ie
    };
    if ie == st && (!has_frac || fe == fs) {
        None
    } else {
        let af = if has_frac {
            fe
        } else {
            ie
        };
        let has_exp = af < len && (s[af] == 'e' || s[af] == 'E');
        let es0 = af + 1;
        let esign = has_exp && es0 < len && (s[es0] == '-' || s[es0] == '+');
        let eneg = has_exp && es0 < len && s[es0] == '-';
        let es = if esign {
            es0 + 1
        } else {
            es0
        };
        let ee = if has_exp {
            digit_run_end(s, es)
        } else {
            af
        };
        if has_exp && ee == es {
            None
        } else {
            let end = if has_exp {
                ee
            } else {
                af
            };
            if end != len {
                None
            } else {
                let fraclen: nat = if has_frac {
                    (fe - fs) as nat
                } else {
                    0
                };
                let mant = digits_val(s, st, ie) * crate::number::pow10(fraclen) + (if has_frac {
                    digits_val(s, fs, fe)
                } else {
                    0
                });
                let ev = if has_exp {
                    digits_val(s, es, ee)
                } else {
                    0
                };
                if mant > u64::MAX as nat || ev > 1000000000 {
                    None
                } else {
                    let e10: int = (if eneg {
                        -(ev as int)
                    } else {
                        ev as int
                    }) - fraclen;
                    if e10 < i32::MIN as int || e10 > i32::MAX as int {
                        None
                    } else {
                        Some(Dec { neg, mant: mant as u64, exp: e10 as i32 })
                    }
                }
            }
        }
    }
}

/// Parses a decimal literal, mirroring `spec_lit_dec`.
#[verifier::rlimit(90)]
pub fn parse_lit_dec(s: &Vec<char>) -> (r: Option<Dec>)
    ensures
        r == spec_lit_dec(s@),
{
    let len = s.len();
    let neg = len > 0 && s[0] == '-';
    let st: usize = if len > 0 && (s[0] == '+' || s[0] == '-') {
        1
    } else {
        0
    };
    let (ie, int_v) = scan_digits(s, st);
    let has_frac = ie < len && s[ie] == '.';
    let fs = if has_frac {
        ie + 1
    } else {
        ie
    };
    let (fe, frac_v) = if has_frac {
        let (a, b) = scan_digits(s, fs);
        (a, b)
    } else {
        (ie, Some(0u64))
    };
    if ie == st && (!has_frac || fe == fs) {
        return None;
    }
    let af = if has_frac {
        fe
    } else {
        ie
    };
    let has_exp = af < len && (s[af] == 'e' || s[af] == 'E');
    let es0 = if has_exp {
        af + 1
    } else {
        af
    };
    let esign = has_exp && es0 < len && (s[es0] == '-' || s[es0] == '+');
    let eneg = has_exp && es0 < len && s[es0] == '-';
    let es = if esign {
        es0 + 1
    } else {
        es0
    };
    let (ee, exp_v) = if has_exp {
        let (a, b) = scan_digits(s, es);
        (a, b)
    } else {
        (af, Some(0u64))
    };
    if has_exp && ee == es {
        return None;
    }
    let end = if has_exp {
        ee
    } else {
        af
    };
    if end != len {
        return None;
    }
    let fraclen: usize = if has_frac {
        fe - fs
    } else {
        0
    };
    let ghost ivs: nat = digits_val(s@, st as int, ie as int);
    let ghost fvs: nat = if has_frac {
        digits_val(s@, fs as int, fe as int)
    } else {
        0
    };
    let mant_opt = combine_mant(int_v, frac_v, fraclen, Ghost(ivs), Ghost(fvs));
    if mant_opt.is_none() || exp_v.is_none() {
        return None;
    }
    let mant = mant_opt.unwrap();
    let ev = exp_v.unwrap();
    if ev > 1000000000 {
        return None;
    }
    let esigned: i128 = if eneg {
        -(ev as i128)
    } else {
        ev as i128
    };
    let e10: i128 = esigned - (fraclen as i128);
    if e10 < i32::MIN as i128 || e10 > i32::MAX as i128 {
        return None;
    }
    let exp: i32 = e10 as i32;
    Some(Dec { neg, mant, exp })
}


/// Whether a comparison outcome satisfies an operator: an incomparable
/// pair satisfies only `NE`.
pub open spec fn rel_matches(cmp: Comparator, r: Option<crate::text::Rel>) -> bool {
    match cmp {
        Comparator::LT => r == Some(crate::text::Rel::Less),
        Comparator::LE => r == Some(crate::text::Rel::Less) || r == Some(crate::text::Rel::Equal),
        Comparator::GT => r == Some(crate::text::Rel::Greater),
        Comparator::GE => r == Some(crate::text::Rel::Greater) || r == Some(
            crate::text::Rel::Equal,
        ),
        Comparator::EQ => r == Some(crate::text::Rel::Equal),
        Comparator::NE => r != Some(crate::text::Rel::Equal),
    }
}

/// Decides `rel_matches`.
pub fn rel_match(cmp: Comparator, r: Option<crate::text::Rel>) -> (b: bool)
    ensures
        b == rel_matches(cmp, r),
{
    match cmp {
        Comparator::LT => matches!(r, Some(crate::text::Rel::Less)),
        Comparator::LE => matches!(r, Some(crate::text::Rel::Less) | Some(crate::text::Rel::Equal)),
        Comparator::GT => matches!(r, Some(crate::text::Rel::Greater)),
        Comparator::GE => matches!(
            r,
            Some(crate::text::Rel::Greater) | Some(crate::text::Rel::Equal),
        ),
        Comparator::EQ => matches!(r, Some(crate::text::Rel::Equal)),
        Comparator::NE => !matches!(r, Some(crate::text::Rel::Equal)),
    }
}


/// The operator a whole token spells, if any.
pub fn comparator_token(s: &str) -> (r: Option<Comparator>)
    ensures
        r == comparator_of(s@),
{
    let cs = crate::text::to_chars(s);
    let ghost t = cs@;
    let n = cs.len();
    let r: Option<Comparator> = if n == 1 && cs[0] == '<' {
        Some(Comparator::LT)
    } else if n == 2 && cs[0] == '<' && cs[1] == '=' {
        Some(Comparator::LE)
    } else if n == 2 && cs[0] == '=' && cs[1] == '=' {
        Some(Comparator::EQ)
    } else if n == 2 && cs[0] == '!' && cs[1] == '=' {
        Some(Comparator::NE)
    } else if n == 1 && cs[0] == '>' {
        Some(Comparator::GT)
    } else if n == 2 && cs[0] == '>' && cs[1] == '=' {
        Some(Comparator::GE)
    } else {
        None
    };
    proof {
        lemma_comparator_cases(t);
    }
    r
}

} // verus!
