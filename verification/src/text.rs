//! Character-level text utilities: conversion between `&str` and
//! `Vec<char>`, string building, decimal digit rendering and parsing,
//! and the lexicographic order on character sequences.

use vstd::prelude::*;

verus! {

/// The characters of `s`, as a vector.
pub fn to_chars(s: &str) -> (r: Vec<char>)
    ensures
        r@ == s@,
{
    let n = s.unicode_len();
    let mut r: Vec<char> = Vec::new();
    let mut i: usize = 0;
    while i < n
        invariant
            n == s@.len(),
            i <= n,
            r@ == s@.subrange(0, i as int),
        decreases n - i,
    {
        r.push(s.get_char(i));
        i += 1;
        proof {
            assert(r@ =~= s@.subrange(0, i as int));
        }
    }
    proof {
        assert(r@ =~= s@);
    }
    r
}

/// Relies on `String::push`: appends one character to the string.
#[verifier::external_body]
fn push_char(s: &mut String, c: char)
    ensures
        final(s)@ == old(s)@.push(c),
{
    s.push(c)
}

/// A `String` holding exactly the characters of `v`.
pub fn chars_to_string(v: &Vec<char>) -> (r: String)
    ensures
        r@ == v@,
{
    let mut r = String::new();
    let mut i: usize = 0;
    while i < v.len()
        invariant
            i <= v@.len(),
            r@ == v@.subrange(0, i as int),
        decreases v@.len() - i,
    {
        push_char(&mut r, v[i]);
        i += 1;
        proof {
            assert(r@ =~= v@.subrange(0, i as int));
        }
    }
    proof {
        assert(r@ =~= v@);
    }
    r
}

/// The decimal digit character for a value below ten.
pub open spec fn digit_char(d: nat) -> char
    recommends
        d < 10,
{
    seq!['0', '1', '2', '3', '4', '5', '6', '7', '8', '9'][d as int]
}

/// The decimal digit characters of `n`, most significant first.
pub open spec fn dec_digits(n: nat) -> Seq<char>
    decreases n,
{
    if n < 10 {
        seq![digit_char(n)]
    } else {
        dec_digits(n / 10).push(digit_char(n % 10))
    }
}

/// Pushes the decimal digits of `n` onto `out`.
pub fn push_u64_digits(n: u64, out: &mut Vec<char>)
    ensures
        final(out)@ == old(out)@ + dec_digits(n as nat),
    decreases n,
{
    if n < 10 {
        let d: char = match n {
            0 => '0',
            1 => '1',
            2 => '2',
            3 => '3',
            4 => '4',
            5 => '5',
            6 => '6',
            7 => '7',
            8 => '8',
            _ => '9',
        };
        assert(d == digit_char(n as nat));
        out.push(d);
    } else {
        push_u64_digits(n / 10, out);
        let r = n % 10;
        let d: char = match r {
            0 => '0',
            1 => '1',
            2 => '2',
            3 => '3',
            4 => '4',
            5 => '5',
            6 => '6',
            7 => '7',
            8 => '8',
            _ => '9',
        };
        assert(d == digit_char((n % 10) as nat));
        out.push(d);
    }
}

/// The lexicographic order on character sequences, by code point.
pub open spec fn chars_lt(a: Seq<char>, b: Seq<char>) -> bool
    decreases a.len(),
{
    if b.len() == 0 {
        false
    } else if a.len() == 0 {
        true
    } else if a[0] != b[0] {
        (a[0] as u32) < (b[0] as u32)
    } else {
        chars_lt(a.drop_first(), b.drop_first())
    }
}

/// Three-way comparison result.
#[derive(Debug, PartialEq, Eq, Clone, Copy, Structural)]
pub enum Rel {
    Less,
    Equal,
    Greater,
}

/// The three-way lexicographic comparison of character sequences.
pub open spec fn chars_cmp(a: Seq<char>, b: Seq<char>) -> Rel {
    if a == b {
        Rel::Equal
    } else if chars_lt(a, b) {
        Rel::Less
    } else {
        Rel::Greater
    }
}

/// Compares two character vectors lexicographically.
pub fn cmp_chars(a: &Vec<char>, b: &Vec<char>) -> (r: Rel)
    ensures
        r == chars_cmp(a@, b@),
{
    let mut i: usize = 0;
    loop
        invariant
            i <= a@.len(),
            i <= b@.len(),
            a@.subrange(0, i as int) == b@.subrange(0, i as int),
        decreases a@.len() - i,
    {
        if i >= a.len() {
            if i >= b.len() {
                proof {
                    assert(a@ == a@.subrange(0, i as int)) by {
                        assert(a@ =~= a@.subrange(0, i as int));
                    }
                    assert(b@ == b@.subrange(0, i as int)) by {
                        assert(b@ =~= b@.subrange(0, i as int));
                    }
                }
                return Rel::Equal;
            }
            proof {
                lemma_chars_prefix_lt(a@, b@, i as int);
            }
            return Rel::Less;
        }
        if i >= b.len() {
            proof {
                lemma_chars_prefix_lt(b@, a@, i as int);
                lemma_chars_lt_asym(b@, a@);
                assert(a@ != b@) by {
                    assert(b@.subrange(0, i as int) =~= b@);
                }
            }
            return Rel::Greater;
        }
        let ca = a[i];
        let cb = b[i];
        if ca != cb {
            proof {
                lemma_chars_diff_at(a@, b@, i as int);
            }
            if (ca as u32) < (cb as u32) {
                return Rel::Less;
            } else {
                return Rel::Greater;
            }
        }
        i += 1;
        proof {
            assert(a@.subrange(0, i as int) =~= b@.subrange(0, i as int));
        }
    }
}

/// A strict prefix is lexicographically smaller.
proof fn lemma_chars_prefix_lt(a: Seq<char>, b: Seq<char>, i: int)
    requires
        0 <= i,
        a.len() == i,
        i < b.len(),
        a.subrange(0, i) == b.subrange(0, i),
    ensures
        chars_lt(a, b),
    decreases i,
{
    if i == 0 {
    } else {
        assert(a[0] == b[0]) by {
            assert(a.subrange(0, i)[0] == a[0]);
        }
        assert(a.drop_first().subrange(0, i - 1) =~= b.drop_first().subrange(0, i - 1)) by {
            assert forall|j: int| 0 <= j < i - 1 implies #[trigger] a.drop_first().subrange(
                0,
                i - 1,
            )[j] == b.drop_first().subrange(0, i - 1)[j] by {
                assert(a.subrange(0, i)[j + 1] == b.subrange(0, i)[j + 1]);
                assert(a.subrange(0, i)[j + 1] == a[j + 1]);
                assert(b.subrange(0, i)[j + 1] == b[j + 1]);
                assert(a.drop_first().subrange(0, i - 1)[j] == a.drop_first()[j]);
                assert(a.drop_first()[j] == a[j + 1]);
                assert(b.drop_first().subrange(0, i - 1)[j] == b.drop_first()[j]);
                assert(b.drop_first()[j] == b[j + 1]);
            }
        }
        lemma_chars_prefix_lt(a.drop_first(), b.drop_first(), i - 1);
    }
}

/// Sequences equal up to a position where they differ compare by that position.
proof fn lemma_chars_diff_at(a: Seq<char>, b: Seq<char>, i: int)
    requires
        0 <= i < a.len(),
        i < b.len(),
        a.subrange(0, i) == b.subrange(0, i),
        a[i] != b[i],
    ensures
        chars_lt(a, b) == ((a[i] as u32) < (b[i] as u32)),
        a != b,
    decreases i,
{
    if i == 0 {
    } else {
        assert(a[0] == b[0]) by {
            assert(a.subrange(0, i)[0] == a[0]);
        }
        assert(a.drop_first().subrange(0, i - 1) =~= b.drop_first().subrange(0, i - 1)) by {
            assert forall|j: int| 0 <= j < i - 1 implies #[trigger] a.drop_first().subrange(
                0,
                i - 1,
            )[j] == b.drop_first().subrange(0, i - 1)[j] by {
                assert(a.subrange(0, i)[j + 1] == b.subrange(0, i)[j + 1]);
                assert(a.subrange(0, i)[j + 1] == a[j + 1]);
                assert(b.subrange(0, i)[j + 1] == b[j + 1]);
                assert(a.drop_first().subrange(0, i - 1)[j] == a.drop_first()[j]);
                assert(a.drop_first()[j] == a[j + 1]);
                assert(b.drop_first().subrange(0, i - 1)[j] == b.drop_first()[j]);
                assert(b.drop_first()[j] == b[j + 1]);
            }
        }
        lemma_chars_diff_at(a.drop_first(), b.drop_first(), i - 1);
        assert(a.drop_first()[i - 1] == a[i]);
        assert(b.drop_first()[i - 1] == b[i]);
    }
}

/// The lexicographic order is asymmetric.
pub proof fn lemma_chars_lt_asym(a: Seq<char>, b: Seq<char>)
    requires
        chars_lt(a, b),
    ensures
        !chars_lt(b, a),
        a != b,
    decreases a.len(),
{
    if b.len() == 0 {
    } else if a.len() == 0 {
    } else if a[0] != b[0] {
    } else {
        lemma_chars_lt_asym(a.drop_first(), b.drop_first());
        assert(a != b) by {
            if a == b {
                assert(a.drop_first() =~= b.drop_first());
            }
        }
    }
}


/// Whether `c` is a decimal digit.
pub open spec fn char_is_digit(c: char) -> bool {
    '0' <= c && c <= '9'
}

/// The numeric value of a digit character.
pub open spec fn digit_of(c: char) -> nat
    recommends
        char_is_digit(c),
{
    (c as u32 - '0' as u32) as nat
}

/// The first position at or after `i` that does not hold a digit.
pub open spec fn digit_run_end(s: Seq<char>, i: int) -> int
    recommends
        0 <= i <= s.len(),
    decreases s.len() - i,
{
    if i < s.len() && char_is_digit(s[i]) {
        digit_run_end(s, i + 1)
    } else {
        i
    }
}

/// The run of digits is bounded by the sequence and holds digits only.
pub proof fn lemma_digit_run_end(s: Seq<char>, i: int)
    requires
        0 <= i <= s.len(),
    ensures
        i <= digit_run_end(s, i) <= s.len(),
        forall|k: int| i <= k < digit_run_end(s, i) ==> char_is_digit(#[trigger] s[k]),
        digit_run_end(s, i) < s.len() ==> !char_is_digit(s[digit_run_end(s, i)]),
    decreases s.len() - i,
{
    if i < s.len() && char_is_digit(s[i]) {
        lemma_digit_run_end(s, i + 1);
    }
}

/// The value of the decimal digits `s[i..j]`.
pub open spec fn digits_val(s: Seq<char>, i: int, j: int) -> nat
    recommends
        0 <= i <= j <= s.len(),
    decreases j - i,
{
    if j <= i {
        0
    } else {
        digits_val(s, i, j - 1) * 10 + digit_of(s[j - 1])
    }
}

/// Extending a digit run to the right does not decrease its value.
pub proof fn lemma_digits_val_mono(s: Seq<char>, i: int, j: int, k: int)
    requires
        0 <= i <= j <= k <= s.len(),
    ensures
        digits_val(s, i, j) <= digits_val(s, i, k),
    decreases k - j,
{
    if j < k {
        lemma_digits_val_mono(s, i, j, k - 1);
        assert(digits_val(s, i, k - 1) * 10 >= digits_val(s, i, k - 1)) by (nonlinear_arith);
    }
}

/// Scans the digit run starting at `i`, returning its end and its value
/// when that value fits in a `u64`.
pub fn scan_digits(s: &Vec<char>, i: usize) -> (r: (usize, Option<u64>))
    requires
        i <= s@.len(),
    ensures
        r.0 as int == digit_run_end(s@, i as int),
        i <= r.0 <= s@.len(),
        match r.1 {
            Some(v) => v as nat == digits_val(s@, i as int, r.0 as int),
            None => digits_val(s@, i as int, r.0 as int) > u64::MAX,
        },
{
    proof {
        lemma_digit_run_end(s@, i as int);
    }
    let mut k: usize = i;
    let mut acc: u64 = 0;
    let mut ovf: bool = false;
    loop
        invariant_except_break
            i <= k <= s@.len(),
            digit_run_end(s@, i as int) == digit_run_end(s@, k as int),
            !ovf ==> acc as nat == digits_val(s@, i as int, k as int),
            ovf ==> digits_val(s@, i as int, k as int) > u64::MAX,
        ensures
            i <= k <= s@.len(),
            digit_run_end(s@, i as int) == k as int,
            !ovf ==> acc as nat == digits_val(s@, i as int, k as int),
            ovf ==> digits_val(s@, i as int, k as int) > u64::MAX,
        decreases s@.len() - k,
    {
        if k >= s.len() {
            break;
        }
        let c = s[k];
        if !('0' <= c && c <= '9') {
            break;
        }
        let d: u64 = (c as u32 - '0' as u32) as u64;
        proof {
            assert(d as nat == digit_of(s@[k as int]));
        }
        if !ovf {
            let wide: u128 = (acc as u128) * 10 + (d as u128);
            if wide > u64::MAX as u128 {
                ovf = true;
                proof {
                    assert(digits_val(s@, i as int, k + 1) == digits_val(s@, i as int, k as int)
                        * 10 + digit_of(s@[k as int]));
                }
            } else {
                acc = wide as u64;
                proof {
                    assert(digits_val(s@, i as int, k + 1) == digits_val(s@, i as int, k as int)
                        * 10 + digit_of(s@[k as int]));
                }
            }
        } else {
            proof {
                lemma_digits_val_mono(s@, i as int, k as int, k + 1);
            }
        }
        k += 1;
    }
    (k, if ovf {
        None
    } else {
        Some(acc)
    })
}


/// Distinct sequences are ordered one way or the other.
pub proof fn lemma_chars_lt_total(a: Seq<char>, b: Seq<char>)
    requires
        a != b,
    ensures
        chars_lt(a, b) || chars_lt(b, a),
    decreases a.len(),
{
    if b.len() == 0 {
        if a.len() == 0 {
            assert(a =~= b);
        }
    } else if a.len() == 0 {
    } else if a[0] != b[0] {
        assert((a[0] as u32) != (b[0] as u32)) by {
            if (a[0] as u32) == (b[0] as u32) {
                vstd::utf8::char_u32_cast(a[0], a[0] as u32);
                vstd::utf8::char_u32_cast(b[0], b[0] as u32);
            }
        }
    } else {
        assert(a.drop_first() != b.drop_first()) by {
            if a.drop_first() == b.drop_first() {
                assert(a.drop_first().len() == b.drop_first().len());
                assert(a.len() == b.len());
                assert forall|k: int| 0 <= k < a.len() implies a[k] == #[trigger] b[k] by {
                    if k > 0 {
                        assert(a.drop_first()[k - 1] == b.drop_first()[k - 1]);
                        assert(a.drop_first()[k - 1] == a[k]);
                        assert(b.drop_first()[k - 1] == b[k]);
                    }
                }
                assert(a =~= b);
            }
        }
        lemma_chars_lt_total(a.drop_first(), b.drop_first());
    }
}

} // verus!
