//! The JSON number model: unsigned and signed integers kept exactly, and
//! a decimal form `(-1)^neg * mant * 10^exp` for fractional or exponent
//! notation.  Comparison is exact over the rational value, specified with
//! integer arithmetic only.

use vstd::prelude::*;

use crate::text::{dec_digits, Rel};

verus! {

/// A decimal number `(-1)^neg * mant * 10^exp`.
#[derive(Debug, PartialEq, Eq, Clone, Copy, Structural)]
pub struct Dec {
    pub neg: bool,
    pub mant: u64,
    pub exp: i32,
}

/// A JSON number: a nonnegative integer, a negative integer, or a decimal.
#[derive(Debug, PartialEq, Eq, Clone, Copy, Structural)]
pub enum JsonNumber {
    Unsigned(u64),
    Signed(i64),
    Decimal(Dec),
}

/// Ten to the power `e`.
pub open spec fn pow10(e: nat) -> nat
    decreases e,
{
    if e == 0 {
        1
    } else {
        10 * pow10((e - 1) as nat)
    }
}

/// The signed mantissa of a number.
pub open spec fn num_mant(n: JsonNumber) -> int {
    match n {
        JsonNumber::Unsigned(u) => u as int,
        JsonNumber::Signed(i) => i as int,
        JsonNumber::Decimal(d) => dec_mant(d),
    }
}

/// The signed mantissa of a decimal.
pub open spec fn dec_mant(d: Dec) -> int {
    if d.neg {
        -(d.mant as int)
    } else {
        d.mant as int
    }
}

/// The decimal exponent of a number.
pub open spec fn num_exp(n: JsonNumber) -> int {
    match n {
        JsonNumber::Decimal(d) => d.exp as int,
        _ => 0,
    }
}

/// The smaller of two integers.
pub open spec fn min_i(a: int, b: int) -> int {
    if a <= b {
        a
    } else {
        b
    }
}

/// Compares the rationals `m1 * 10^e1` and `m2 * 10^e2` exactly, by
/// scaling both onto the smaller exponent.
pub open spec fn val_cmp(m1: int, e1: int, m2: int, e2: int) -> Rel {
    let s1 = m1 * pow10((e1 - min_i(e1, e2)) as nat);
    let s2 = m2 * pow10((e2 - min_i(e1, e2)) as nat);
    if s1 == s2 {
        Rel::Equal
    } else if s1 < s2 {
        Rel::Less
    } else {
        Rel::Greater
    }
}

/// Exact comparison of two JSON numbers as rationals.
pub open spec fn num_cmp_spec(a: JsonNumber, b: JsonNumber) -> Rel {
    val_cmp(num_mant(a), num_exp(a), num_mant(b), num_exp(b))
}

/// Exact comparison of two decimals as rationals.
pub open spec fn dec_cmp_spec(a: Dec, b: Dec) -> Rel {
    val_cmp(dec_mant(a), a.exp as int, dec_mant(b), b.exp as int)
}

pub proof fn lemma_pow10_pos(e: nat)
    ensures
        pow10(e) >= 1,
    decreases e,
{
    if e > 0 {
        lemma_pow10_pos((e - 1) as nat);
    }
}

pub proof fn lemma_pow10_mono(e1: nat, e2: nat)
    requires
        e1 <= e2,
    ensures
        pow10(e1) <= pow10(e2),
    decreases e2,
{
    if e1 < e2 {
        lemma_pow10_mono(e1, (e2 - 1) as nat);
        lemma_pow10_pos((e2 - 1) as nat);
    }
}

/// The concrete values of the powers of ten this module needs.
pub proof fn lemma_pow10_consts()
    ensures
        pow10(19) == 10000000000000000000,
        pow10(20) == 100000000000000000000,
        pow10(38) == 100000000000000000000000000000000000000,
{
    reveal_with_fuel(pow10, 40);
}

/// Ten to the twentieth power exceeds every `u64`.
proof fn lemma_pow10_20_large()
    ensures
        pow10(20) > u64::MAX as nat,
{
    lemma_pow10_consts();
}

/// Computes ten to the power `d`.
pub fn pow10_u128(d: u64) -> (r: u128)
    requires
        d <= 38,
    ensures
        r as nat == pow10(d as nat),
{
    proof {
        lemma_pow10_consts();
    }
    let mut r: u128 = 1;
    let mut i: u64 = 0;
    while i < d
        invariant
            i <= d <= 38,
            r as nat == pow10(i as nat),
            pow10(38) == 100000000000000000000000000000000000000,
        decreases d - i,
    {
        proof {
            lemma_pow10_mono((i + 1) as nat, 38);
        }
        r = r * 10;
        i += 1;
    }
    r
}

/// Compares the magnitudes `m1 * 10^e1` and `m2 * 10^e2` for nonzero
/// mantissas, returning the exact rational comparison.
fn cmp_mag(m1: u64, e1: i64, m2: u64, e2: i64) -> (r: Rel)
    requires
        m1 >= 1,
        m2 >= 1,
        i32::MIN <= e1 <= i32::MAX,
        i32::MIN <= e2 <= i32::MAX,
    ensures
        r == val_cmp(m1 as int, e1 as int, m2 as int, e2 as int),
    decreases (if e1 < e2 {
        1int
    } else {
        0int
    }),
{
    if e1 == e2 {
        proof {
            assert(pow10(0) == 1);
            assert(m1 as int * pow10(0) == m1 as int) by (nonlinear_arith)
                requires
                    pow10(0) == 1,
            ;
            assert(m2 as int * pow10(0) == m2 as int) by (nonlinear_arith)
                requires
                    pow10(0) == 1,
            ;
        }
        if m1 == m2 {
            Rel::Equal
        } else if m1 < m2 {
            Rel::Less
        } else {
            Rel::Greater
        }
    } else if e1 > e2 {
        let d = e1 - e2;
        proof {
            assert((e1 - min_i(e1 as int, e2 as int)) as nat == d as nat);
            assert((e2 - min_i(e1 as int, e2 as int)) as nat == 0nat);
            assert(pow10(0) == 1);
            assert(m2 as int * pow10(0) == m2 as int) by (nonlinear_arith)
                requires
                    pow10(0) == 1,
            ;
        }
        if d >= 20 {
            proof {
                lemma_pow10_20_large();
                lemma_pow10_mono(20, d as nat);
                assert(m1 as int * pow10(d as nat) >= pow10(d as nat)) by (nonlinear_arith)
                    requires
                        m1 >= 1,
                        pow10(d as nat) >= 0,
                ;
            }
            Rel::Greater
        } else {
            let p = pow10_u128(d as u64);
            proof {
                lemma_pow10_consts();
                lemma_pow10_mono(d as nat, 19);
                assert(m1 as u128 as int * (p as int) <= u64::MAX as int * pow10(19))
                    by (nonlinear_arith)
                    requires
                        m1 as u128 as int <= u64::MAX as int,
                        0 <= p as int <= pow10(19),
                ;
                assert(u64::MAX as int * pow10(19) < u128::MAX as int);
            }
            let s1 = (m1 as u128) * p;
            proof {
                assert(s1 as int == m1 as int * pow10(d as nat)) by (nonlinear_arith)
                    requires
                        s1 as int == m1 as u128 as int * p as int,
                        m1 as u128 as int == m1 as int,
                        p as int == pow10(d as nat),
                ;
            }
            if s1 == m2 as u128 {
                Rel::Equal
            } else if s1 < m2 as u128 {
                Rel::Less
            } else {
                Rel::Greater
            }
        }
    } else {
        let r = cmp_mag(m2, e2, m1, e1);
        proof {
            lemma_val_cmp_flip(m1 as int, e1 as int, m2 as int, e2 as int);
        }
        match r {
            Rel::Less => Rel::Greater,
            Rel::Equal => Rel::Equal,
            Rel::Greater => Rel::Less,
        }
    }
}

/// Swapping the arguments reverses the comparison.
proof fn lemma_val_cmp_flip(m1: int, e1: int, m2: int, e2: int)
    ensures
        val_cmp(m1, e1, m2, e2) == (match val_cmp(m2, e2, m1, e1) {
            Rel::Less => Rel::Greater,
            Rel::Equal => Rel::Equal,
            Rel::Greater => Rel::Less,
        }),
{
}

/// The sign of a scaled mantissa is the sign of the mantissa.
proof fn lemma_scale_sign(m: int, e: nat)
    ensures
        m > 0 ==> m * pow10(e) > 0,
        m < 0 ==> m * pow10(e) < 0,
        m == 0 ==> m * pow10(e) == 0,
        m >= 1 ==> m * pow10(e) >= m,
{
    lemma_pow10_pos(e);
    assert(m > 0 && pow10(e) >= 1 ==> m * pow10(e) > 0) by (nonlinear_arith);
    assert(m < 0 && pow10(e) >= 1 ==> m * pow10(e) < 0) by (nonlinear_arith);
    assert(m == 0 ==> m * pow10(e) == 0) by (nonlinear_arith);
    assert(m >= 1 && pow10(e) >= 1 ==> m * pow10(e) >= m) by (nonlinear_arith);
}

/// Negating both mantissas reverses the comparison.
proof fn lemma_val_cmp_neg(m1: int, e1: int, m2: int, e2: int)
    ensures
        val_cmp(-m1, e1, -m2, e2) == (match val_cmp(m1, e1, m2, e2) {
            Rel::Less => Rel::Greater,
            Rel::Equal => Rel::Equal,
            Rel::Greater => Rel::Less,
        }),
{
    let p1 = pow10((e1 - min_i(e1, e2)) as nat);
    let p2 = pow10((e2 - min_i(e1, e2)) as nat);
    assert((-m1) * p1 == -(m1 * p1)) by (nonlinear_arith);
    assert((-m2) * p2 == -(m2 * p2)) by (nonlinear_arith);
}

/// Compares two signed scaled values given as sign, magnitude, exponent.
fn cmp_parts(n1: bool, m1: u64, e1: i64, n2: bool, m2: u64, e2: i64) -> (r: Rel)
    requires
        i32::MIN <= e1 <= i32::MAX,
        i32::MIN <= e2 <= i32::MAX,
    ensures
        r == val_cmp(
            if n1 {
                -(m1 as int)
            } else {
                m1 as int
            },
            e1 as int,
            if n2 {
                -(m2 as int)
            } else {
                m2 as int
            },
            e2 as int,
        ),
{
    let ghost v1: int = if n1 {
        -(m1 as int)
    } else {
        m1 as int
    };
    let ghost v2: int = if n2 {
        -(m2 as int)
    } else {
        m2 as int
    };
    proof {
        lemma_scale_sign(v1, (e1 - min_i(e1 as int, e2 as int)) as nat);
        lemma_scale_sign(v2, (e2 - min_i(e1 as int, e2 as int)) as nat);
    }
    if m1 == 0 {
        if m2 == 0 {
            Rel::Equal
        } else if n2 {
            Rel::Greater
        } else {
            Rel::Less
        }
    } else if m2 == 0 {
        if n1 {
            Rel::Less
        } else {
            Rel::Greater
        }
    } else if n1 != n2 {
        if n1 {
            Rel::Less
        } else {
            Rel::Greater
        }
    } else if n1 {
        let r = cmp_mag(m1, e1, m2, e2);
        proof {
            lemma_val_cmp_neg(m1 as int, e1 as int, m2 as int, e2 as int);
        }
        match r {
            Rel::Less => Rel::Greater,
            Rel::Equal => Rel::Equal,
            Rel::Greater => Rel::Less,
        }
    } else {
        cmp_mag(m1, e1, m2, e2)
    }
}

impl Dec {
    /// The sign, magnitude and exponent of this decimal.
    fn parts(&self) -> (r: (bool, u64, i64))
        ensures
            (if r.0 {
                -(r.1 as int)
            } else {
                r.1 as int
            }) == dec_mant(*self),
            r.2 as int == self.exp as int,
            i32::MIN <= r.2 <= i32::MAX,
    {
        (self.neg, self.mant, self.exp as i64)
    }

    /// Exact three-way comparison with another decimal.
    pub fn cmp_dec(&self, other: &Dec) -> (r: Rel)
        ensures
            r == dec_cmp_spec(*self, *other),
    {
        let (n1, m1, e1) = self.parts();
        let (n2, m2, e2) = other.parts();
        cmp_parts(n1, m1, e1, n2, m2, e2)
    }
}

impl JsonNumber {
    /// The sign, magnitude and exponent of this number.
    fn parts(&self) -> (r: (bool, u64, i64))
        ensures
            (if r.0 {
                -(r.1 as int)
            } else {
                r.1 as int
            }) == num_mant(*self),
            r.2 as int == num_exp(*self),
            i32::MIN <= r.2 <= i32::MAX,
    {
        match self {
            JsonNumber::Unsigned(u) => (false, *u, 0i64),
            JsonNumber::Signed(i) => {
                if *i >= 0 {
                    (false, *i as u64, 0i64)
                } else {
                    (true, (-(*i as i128)) as u64, 0i64)
                }
            },
            JsonNumber::Decimal(d) => d.parts(),
        }
    }

    /// Exact three-way comparison with another number.
    pub fn cmp_num(&self, other: &JsonNumber) -> (r: Rel)
        ensures
            r == num_cmp_spec(*self, *other),
    {
        let (n1, m1, e1) = self.parts();
        let (n2, m2, e2) = other.parts();
        cmp_parts(n1, m1, e1, n2, m2, e2)
    }

    /// This number as a `u64`, when it is an integer in range.
    pub fn as_u64(&self) -> (r: Option<u64>)
        ensures
            r == num_as_u64_spec(*self),
    {
        match self {
            JsonNumber::Unsigned(u) => Some(*u),
            JsonNumber::Signed(i) => {
                if *i >= 0 {
                    Some(*i as u64)
                } else {
                    None
                }
            },
            JsonNumber::Decimal(_) => None,
        }
    }

    /// This number as an `i64`, when it is an integer in range.
    pub fn as_i64(&self) -> (r: Option<i64>)
        ensures
            r == num_as_i64_spec(*self),
    {
        match self {
            JsonNumber::Unsigned(u) => {
                if *u <= i64::MAX as u64 {
                    Some(*u as i64)
                } else {
                    None
                }
            },
            JsonNumber::Signed(i) => Some(*i),
            JsonNumber::Decimal(_) => None,
        }
    }

    /// This number as an exact decimal.
    pub fn to_dec(&self) -> (r: Dec)
        ensures
            r == num_to_dec_spec(*self),
    {
        match self {
            JsonNumber::Unsigned(u) => Dec { neg: false, mant: *u, exp: 0 },
            JsonNumber::Signed(i) => {
                if *i >= 0 {
                    Dec { neg: false, mant: *i as u64, exp: 0 }
                } else {
                    Dec { neg: true, mant: (-(*i as i128)) as u64, exp: 0 }
                }
            },
            JsonNumber::Decimal(d) => *d,
        }
    }
}

/// The integer conversion used when an unsigned comparison target is asked
/// of a number.
pub open spec fn num_as_u64_spec(n: JsonNumber) -> Option<u64> {
    match n {
        JsonNumber::Unsigned(u) => Some(u),
        JsonNumber::Signed(i) => if i >= 0 {
            Some(i as u64)
        } else {
            None
        },
        JsonNumber::Decimal(_) => None,
    }
}

/// The integer conversion used when a signed comparison target is asked
/// of a number.
pub open spec fn num_as_i64_spec(n: JsonNumber) -> Option<i64> {
    match n {
        JsonNumber::Unsigned(u) => if u <= i64::MAX as u64 {
            Some(u as i64)
        } else {
            None
        },
        JsonNumber::Signed(i) => Some(i),
        JsonNumber::Decimal(_) => None,
    }
}

/// The exact decimal form of a number.
pub open spec fn num_to_dec_spec(n: JsonNumber) -> Dec {
    match n {
        JsonNumber::Unsigned(u) => Dec { neg: false, mant: u, exp: 0 },
        JsonNumber::Signed(i) => if i >= 0 {
            Dec { neg: false, mant: i as u64, exp: 0 }
        } else {
            Dec { neg: true, mant: (-(i as int)) as u64, exp: 0 }
        },
        JsonNumber::Decimal(d) => d,
    }
}

/// Converting a number to its exact decimal form keeps its value.
pub proof fn lemma_to_dec_exact(n: JsonNumber)
    ensures
        dec_mant(num_to_dec_spec(n)) == num_mant(n),
        num_to_dec_spec(n).exp as int == num_exp(n),
{
}


/// A sequence of `n` zero characters.
pub open spec fn zeros(n: nat) -> Seq<char> {
    Seq::new(n, |i: int| '0')
}

/// The canonical text of a decimal: the mantissa digits with the decimal
/// point placed by the exponent, and an integer-valued decimal written
/// with a trailing `.0`.
pub open spec fn dec_chars(d: Dec) -> Seq<char> {
    let digits = dec_digits(d.mant as nat);
    let sign: Seq<char> = if d.neg && d.mant != 0 {
        seq!['-']
    } else {
        Seq::<char>::empty()
    };
    if d.exp >= 0 {
        sign + digits + zeros(d.exp as nat) + seq!['.', '0']
    } else {
        let f = (-(d.exp as int)) as nat;
        if f < digits.len() {
            sign + digits.subrange(0, digits.len() - f) + seq!['.'] + digits.subrange(
                digits.len() - f,
                digits.len() as int,
            )
        } else {
            sign + seq!['0', '.'] + zeros((f - digits.len()) as nat) + digits
        }
    }
}

/// The canonical text of a number.
pub open spec fn num_chars(n: JsonNumber) -> Seq<char> {
    match n {
        JsonNumber::Unsigned(u) => dec_digits(u as nat),
        JsonNumber::Signed(i) => if i < 0 {
            seq!['-'] + dec_digits((-(i as int)) as nat)
        } else {
            dec_digits(i as nat)
        },
        JsonNumber::Decimal(d) => dec_chars(d),
    }
}

/// Pushes `n` zero characters onto `out`.
fn push_zeros(n: usize, out: &mut Vec<char>)
    ensures
        final(out)@ == old(out)@ + zeros(n as nat),
{
    let mut i: usize = 0;
    while i < n
        invariant
            i <= n,
            out@ == old(out)@ + zeros(i as nat),
        decreases n - i,
    {
        out.push('0');
        i += 1;
        proof {
            assert(old(out)@ + zeros((i - 1) as nat) + seq!['0'] =~= old(out)@ + zeros(i as nat));
        }
    }
}

/// Pushes the range `[from, to)` of `src` onto `out`.
pub(crate) fn push_range(src: &Vec<char>, from: usize, to: usize, out: &mut Vec<char>)
    requires
        from <= to <= src@.len(),
    ensures
        final(out)@ == old(out)@ + src@.subrange(from as int, to as int),
{
    let mut i: usize = from;
    while i < to
        invariant
            from <= i <= to <= src@.len(),
            out@ == old(out)@ + src@.subrange(from as int, i as int),
        decreases to - i,
    {
        out.push(src[i]);
        i += 1;
        proof {
            assert(old(out)@ + src@.subrange(from as int, i - 1) + seq![src@[i - 1]] =~= old(out)@
                + src@.subrange(from as int, i as int));
        }
    }
    proof {
        assert(out@ =~= old(out)@ + src@.subrange(from as int, to as int));
    }
}

impl JsonNumber {
    /// Appends the canonical text of this number to `out`.
    #[verifier::rlimit(60)]
    pub fn push_chars(&self, out: &mut Vec<char>)
        ensures
            final(out)@ == old(out)@ + num_chars(*self),
    {
        match self {
            JsonNumber::Unsigned(u) => {
                crate::text::push_u64_digits(*u, out);
            },
            JsonNumber::Signed(i) => {
                if *i < 0 {
                    out.push('-');
                    crate::text::push_u64_digits((-(*i as i128)) as u64, out);
                    proof {
                        assert(out@ =~= old(out)@ + num_chars(*self));
                    }
                } else {
                    crate::text::push_u64_digits(*i as u64, out);
                }
            },
            JsonNumber::Decimal(d) => {
                let mut digits: Vec<char> = Vec::new();
                crate::text::push_u64_digits(d.mant, &mut digits);
                proof {
                    assert(digits@ =~= dec_digits(d.mant as nat));
                }
                if d.neg && d.mant != 0 {
                    out.push('-');
                }
                if d.exp >= 0 {
                    push_range(&digits, 0, digits.len(), out);
                    push_zeros(d.exp as usize, out);
                    out.push('.');
                    out.push('0');
                    proof {
                        assert(digits@.subrange(0, digits@.len() as int) =~= digits@);
                        assert(out@ =~= old(out)@ + num_chars(*self));
                    }
                } else {
                    let f: usize = (-(d.exp as i64)) as usize;
                    if f < digits.len() {
                        let cut = digits.len() - f;
                        push_range(&digits, 0, cut, out);
                        out.push('.');
                        push_range(&digits, cut, digits.len(), out);
                        proof {
                            assert(out@ =~= old(out)@ + num_chars(*self));
                        }
                    } else {
                        out.push('0');
                        out.push('.');
                        push_zeros(f - digits.len(), out);
                        push_range(&digits, 0, digits.len(), out);
                        proof {
                            assert(digits@.subrange(0, digits@.len() as int) =~= digits@);
                            assert(out@ =~= old(out)@ + num_chars(*self));
                        }
                    }
                }
            },
        }
    }
}

} // verus!
