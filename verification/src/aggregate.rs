//! The aggregate tool: group records by a selector key and fold one
//! aggregation (count, sum, min, max) over each group.  Sums are kept as
//! decimals with an eighteen-digit mantissa, low digits dropped when a
//! sum outgrows it.

use vstd::prelude::*;

use crate::error::NdJsonSpatialError;
use crate::filter::{sel_spec, select_from_json_object, strip_quotes_spec};
use crate::json::{obj_insert, obj_insert_entry, ser_value, value_view, JsonV, JsonValue};
use crate::json_selector_parser::{sels_view, SelV, Selector};
use crate::number::{num_mant, num_exp, Dec, JsonNumber};
use crate::sort::key_cmp;
use crate::text::{chars_to_string, dec_digits, to_chars, Rel};

verus! {

/// The aggregation to fold over each group, with the selector whose
/// joined name labels the output field.
pub enum Aggregation {
    Count(Vec<Selector>),
    Sum(Vec<Selector>),
    Min(Vec<Selector>),
    Max(Vec<Selector>),
}

/// An identifier with one layer of wrapping quotes removed.
pub fn strip_quotes(ident: &str) -> (r: String)
    ensures
        r@ == strip_quotes_spec(ident@),
{
    let c = to_chars(ident);
    if c.len() >= 2 && c[0] == '"' && c[c.len() - 1] == '"' {
        let mut out: Vec<char> = Vec::new();
        crate::number::push_range(&c, 1, c.len() - 1, &mut out);
        chars_to_string(&out)
    } else {
        chars_to_string(&c)
    }
}

/// The name one path step contributes to an output field name.
pub open spec fn sel_name(s: SelV) -> Seq<char> {
    match s {
        SelV::Identifier(name) => strip_quotes_spec(name),
        SelV::Index(n) => dec_digits(n as nat),
    }
}

/// The path steps' names joined with underscores.
pub open spec fn join_name(sels: Seq<SelV>) -> Seq<char>
    decreases sels.len(),
{
    if sels.len() == 0 {
        Seq::<char>::empty()
    } else if sels.len() == 1 {
        sel_name(sels[0])
    } else {
        join_name(sels.drop_last()) + seq!['_'] + sel_name(sels.last())
    }
}

/// Builds the joined field name of a path, mirroring `join_name`.
pub fn build_name(sels: &Vec<Selector>) -> (r: Vec<char>)
    ensures
        r@ == join_name(sels_view(sels@)),
{
    let ghost sv = sels_view(sels@);
    proof {
        crate::json_selector_parser::lemma_sels_view(sels@);
        assert(sv.subrange(0, 0) =~= Seq::<SelV>::empty());
    }
    let mut out: Vec<char> = Vec::new();
    let mut i: usize = 0;
    while i < sels.len()
        invariant
            i <= sels@.len(),
            sv == sels_view(sels@),
            sv.len() == sels@.len(),
            forall|j: int| 0 <= j < sels@.len() ==> #[trigger] sv[j] == sels@[j]@,
            out@ == join_name(sv.subrange(0, i as int)),
        decreases sels@.len() - i,
    {
        let ghost out0 = out@;
        if i > 0 {
            out.push('_');
        }
        match &sels[i] {
            Selector::Identifier(name) => {
                let stripped = crate::filter::strip_quotes_string(name);
                let sc = to_chars(stripped.as_str());
                let mut scv = sc;
                out.append(&mut scv);
            },
            Selector::Index(n) => {
                crate::text::push_u64_digits(*n as u64, &mut out);
            },
        }
        i += 1;
        proof {
            let sub = sv.subrange(0, i as int);
            assert(sub.drop_last() =~= sv.subrange(0, i - 1));
            assert(sub.last() == sv[i - 1]);
            if i == 1 {
                assert(out@ =~= join_name(sub));
            } else {
                assert(out@ =~= join_name(sub.drop_last()) + seq!['_'] + sel_name(sub.last()));
            }
        }
    }
    proof {
        assert(sv.subrange(0, sv.len() as int) =~= sv);
    }
    out
}

/// The mantissa cap of a running sum.
pub open spec fn sum_cap() -> int {
    1000000000000000000
}

/// Drops low digits until the magnitude fits the cap.
pub open spec fn spec_norm(m: int, e: int) -> (int, int)
    decreases (if m < 0 {
        -m
    } else {
        m
    }),
{
    if m > sum_cap() || m < -sum_cap() {
        if m >= 0 {
            spec_norm(m / 10, e + 1)
        } else {
            spec_norm(-((-m) / 10), e + 1)
        }
    } else {
        (m, e)
    }
}

/// Adds the decimal `bm * 10^be` to the running sum `am * 10^ae`: the
/// addend is normalized, the values are aligned on the smaller exponent,
/// and a term more than twenty decimal places below the other is
/// dropped.
pub open spec fn spec_sum_add(am: int, ae: int, bm: int, be: int) -> (int, int) {
    let (bm2, be2) = spec_norm(bm, be);
    if am == 0 {
        (bm2, be2)
    } else if bm2 == 0 {
        (am, ae)
    } else if ae >= be2 {
        if ae - be2 > 20 {
            (am, ae)
        } else {
            spec_norm(am * crate::number::pow10((ae - be2) as nat) + bm2, be2)
        }
    } else {
        if be2 - ae > 20 {
            (bm2, be2)
        } else {
            spec_norm(bm2 * crate::number::pow10((be2 - ae) as nat) + am, ae)
        }
    }
}

/// Normalizes a running sum, mirroring `spec_norm`.
#[verifier::rlimit(90)]
fn norm(m: i128, e: i64) -> (r: (i128, i64))
    requires
        -170000000000000000000000000000000000000 <= m
            <= 170000000000000000000000000000000000000,
        -0x1000000000000 <= e <= 0x1000000000000,
    ensures
        (r.0 as int, r.1 as int) == spec_norm(m as int, e as int),
        -1000000000000000000 <= r.0 <= 1000000000000000000,
        e as int <= r.1 as int <= e + 21,
{
    let ghost m0: int = if m >= 0 {
        m as int
    } else {
        -(m as int)
    };
    let mut mm: i128 = m;
    let mut ee: i64 = e;
    let mut steps: u32 = 0;
    proof {
        assert(crate::number::pow10(0) == 1);
        assert(m0 * crate::number::pow10(0) == m0) by (nonlinear_arith)
            requires
                crate::number::pow10(0) == 1,
        ;
    }
    while mm > 1000000000000000000 || mm < -1000000000000000000
        invariant
            spec_norm(m as int, e as int) == spec_norm(mm as int, ee as int),
            -170000000000000000000000000000000000000 <= mm
                <= 170000000000000000000000000000000000000,
            -0x1000000000000 <= e <= 0x1000000000000,
            m0 <= 170000000000000000000000000000000000000,
            ee as int == e + steps,
            steps <= 21,
            (if mm >= 0 {
                mm as int
            } else {
                -(mm as int)
            }) * crate::number::pow10(steps as nat) <= m0,
        decreases (if mm >= 0 {
            mm as int
        } else {
            -(mm as int)
        }),
    {
        let ghost mag: int = if mm >= 0 {
            mm as int
        } else {
            -(mm as int)
        };
        proof {
            crate::number::lemma_pow10_consts();
            crate::number::lemma_pow10_pos(steps as nat);
            assert(steps < 21) by {
                if steps >= 21 {
                    crate::number::lemma_pow10_mono(21, steps as nat);
                    assert(pow10_21() <= crate::number::pow10(steps as nat));
                    assert(mag * crate::number::pow10(steps as nat) >= mag * pow10_21())
                        by (nonlinear_arith)
                        requires
                            mag >= 0,
                            crate::number::pow10(steps as nat) >= pow10_21(),
                    ;
                    assert(mag * pow10_21() > 1000000000000000000 * pow10_21())
                        by (nonlinear_arith)
                        requires
                            mag > 1000000000000000000,
                            pow10_21() > 0,
                    ;
                }
            }
        }
        if mm >= 0 {
            mm = mm / 10;
        } else {
            mm = -((-mm) / 10);
        }
        ee = ee + 1;
        steps = steps + 1;
        proof {
            let mag2: int = if mm >= 0 {
                mm as int
            } else {
                -(mm as int)
            };
            assert(mag2 * 10 <= mag);
            assert(crate::number::pow10(steps as nat) == 10 * crate::number::pow10(
                (steps - 1) as nat,
            ));
            assert(mag2 * crate::number::pow10(steps as nat) <= m0) by (nonlinear_arith)
                requires
                    mag2 * 10 <= mag,
                    mag * crate::number::pow10((steps - 1) as nat) <= m0,
                    crate::number::pow10(steps as nat) == 10 * crate::number::pow10(
                        (steps - 1) as nat,
                    ),
                    crate::number::pow10((steps - 1) as nat) >= 1,
                    mag2 >= 0,
            ;
        }
    }
    (mm, ee)
}

/// Ten to the twenty-first power.
pub open spec fn pow10_21() -> int {
    crate::number::pow10(21) as int
}


/// Adds a decimal to the running sum, mirroring `spec_sum_add`.
#[verifier::rlimit(90)]
fn sum_add(am: i128, ae: i64, bm: i128, be: i64) -> (r: (i128, i64))
    requires
        -1000000000000000000 <= am <= 1000000000000000000,
        -0x80000000 <= ae <= 0x8000002A,
        -20000000000000000000 <= bm <= 20000000000000000000,
        -0x80000000 <= be <= 0x80000000,
    ensures
        (r.0 as int, r.1 as int) == spec_sum_add(am as int, ae as int, bm as int, be as int),
        -1000000000000000000 <= r.0 <= 1000000000000000000,
        -0x80000000 <= r.1 <= 0x8000002A,
{
    let (bm2, be2) = norm(bm, be);
    if am == 0 {
        (bm2, be2)
    } else if bm2 == 0 {
        (am, ae)
    } else if ae >= be2 {
        let d = ae - be2;
        if d > 20 {
            (am, ae)
        } else {
            let p = crate::number::pow10_u128(d as u64);
            proof {
                crate::number::lemma_pow10_consts();
                crate::number::lemma_pow10_mono(d as nat, 20);
                crate::number::lemma_pow10_pos(d as nat);
                assert(crate::number::pow10(20) == 100000000000000000000);
                assert(am as int * p as int <= 1000000000000000000int * p as int)
                    by (nonlinear_arith)
                    requires
                        am as int <= 1000000000000000000,
                        p as int >= 1,
                ;
                assert(am as int * p as int >= -1000000000000000000int * p as int)
                    by (nonlinear_arith)
                    requires
                        am as int >= -1000000000000000000,
                        p as int >= 1,
                ;
                assert(1000000000000000000int * p as int <= 1000000000000000000int
                    * 100000000000000000000) by (nonlinear_arith)
                    requires
                        1 <= p as int <= 100000000000000000000,
                ;
                assert(-1000000000000000000int * p as int >= -1000000000000000000int
                    * 100000000000000000000) by (nonlinear_arith)
                    requires
                        1 <= p as int <= 100000000000000000000,
                ;
            }
            let wide: i128 = am * (p as i128) + bm2;
            norm(wide, be2)
        }
    } else {
        let d = be2 - ae;
        if d > 20 {
            (bm2, be2)
        } else {
            let p = crate::number::pow10_u128(d as u64);
            proof {
                crate::number::lemma_pow10_consts();
                crate::number::lemma_pow10_mono(d as nat, 20);
                crate::number::lemma_pow10_pos(d as nat);
                assert(crate::number::pow10(20) == 100000000000000000000);
                assert(bm2 as int * p as int <= 1000000000000000000int * p as int)
                    by (nonlinear_arith)
                    requires
                        bm2 as int <= 1000000000000000000,
                        p as int >= 1,
                ;
                assert(bm2 as int * p as int >= -1000000000000000000int * p as int)
                    by (nonlinear_arith)
                    requires
                        bm2 as int >= -1000000000000000000,
                        p as int >= 1,
                ;
                assert(1000000000000000000int * p as int <= 1000000000000000000int
                    * 100000000000000000000) by (nonlinear_arith)
                    requires
                        1 <= p as int <= 100000000000000000000,
                ;
                assert(-1000000000000000000int * p as int >= -1000000000000000000int
                    * 100000000000000000000) by (nonlinear_arith)
                    requires
                        1 <= p as int <= 100000000000000000000,
                ;
            }
            let wide: i128 = bm2 * (p as i128) + am;
            norm(wide, ae)
        }
    }
}

/// The signed mantissa and exponent of a number, as sum inputs.
fn num_parts_for_sum(n: &JsonNumber) -> (r: (i128, i64))
    ensures
        r.0 as int == num_mant(*n),
        r.1 as int == num_exp(*n),
        -20000000000000000000 <= r.0 <= 20000000000000000000,
        -0x80000000 <= r.1 <= 0x80000000,
{
    let d = n.to_dec();
    proof {
        crate::number::lemma_to_dec_exact(*n);
    }
    if d.neg {
        (-(d.mant as i128), d.exp as i64)
    } else {
        (d.mant as i128, d.exp as i64)
    }
}

/// The end of the group that starts at `i`: the first later record
/// whose key compares unequal.
pub open spec fn group_end(vs: Seq<JsonV>, i: int, j: int, path: Seq<SelV>) -> int
    decreases vs.len() - j,
{
    if j < 0 || j >= vs.len() {
        vs.len() as int
    } else if key_cmp(vs[i], vs[j], path, true) == Rel::Equal {
        group_end(vs, i, j + 1, path)
    } else {
        j
    }
}

/// The group end lies between its start and the end of the records.
pub proof fn lemma_group_end(vs: Seq<JsonV>, i: int, j: int, path: Seq<SelV>)
    requires
        0 <= j <= vs.len(),
    ensures
        j <= group_end(vs, i, j, path) <= vs.len(),
    decreases vs.len() - j,
{
    if j < vs.len() && key_cmp(vs[i], vs[j], path, true) == Rel::Equal {
        lemma_group_end(vs, i, j + 1, path);
    }
}

/// The running sum over the group `[j, e)`: selection failures stop
/// everything, values that are not numbers are skipped.
pub open spec fn spec_sum_group(
    vs: Seq<JsonV>,
    j: int,
    e: int,
    sel: Seq<SelV>,
    am: int,
    ae: int,
) -> Option<(int, int)>
    decreases e - j,
{
    if j < 0 || j >= e {
        Some((am, ae))
    } else {
        match sel_spec(vs[j], sel) {
            Err(_) => None,
            Ok(JsonV::Num(n)) => {
                let (m2, e2) = spec_sum_add(am, ae, num_mant(n), num_exp(n));
                spec_sum_group(vs, j + 1, e, sel, m2, e2)
            },
            Ok(_) => spec_sum_group(vs, j + 1, e, sel, am, ae),
        }
    }
}

/// The least or greatest number selected over the group `[j, e)`:
/// selection failures stop everything, non-numbers are skipped, the
/// first of equals is kept.
pub open spec fn spec_minmax_group(
    vs: Seq<JsonV>,
    j: int,
    e: int,
    sel: Seq<SelV>,
    cur: Option<JsonNumber>,
    ismin: bool,
) -> Option<Option<JsonNumber>>
    decreases e - j,
{
    if j < 0 || j >= e {
        Some(cur)
    } else {
        match sel_spec(vs[j], sel) {
            Err(_) => None,
            Ok(JsonV::Num(n)) => {
                let cur2 = match cur {
                    None => Some(n),
                    Some(m) => if ismin && crate::number::num_cmp_spec(m, n) == Rel::Greater {
                        Some(n)
                    } else if !ismin && crate::number::num_cmp_spec(m, n) == Rel::Less {
                        Some(n)
                    } else {
                        Some(m)
                    },
                };
                spec_minmax_group(vs, j + 1, e, sel, cur2, ismin)
            },
            Ok(_) => spec_minmax_group(vs, j + 1, e, sel, cur, ismin),
        }
    }
}

/// Sums the selected numbers of a group, mirroring `spec_sum_group`.
#[verifier::rlimit(90)]
fn sum_group(sorted: &Vec<JsonValue>, i: usize, e: usize, sel: &Vec<Selector>) -> (r: Result<
    (i128, i64),
    NdJsonSpatialError,
>)
    requires
        i <= e <= sorted@.len(),
    ensures
        (match r {
            Ok((m, ex)) => spec_sum_group(
                crate::json::arr_view(sorted@),
                i as int,
                e as int,
                sels_view(sel@),
                0,
                0,
            ) == Some((m as int, ex as int)) && -1000000000000000000 <= m <= 1000000000000000000
                && -0x80000000 <= ex <= 0x8000002A,
            Err(_) => (spec_sum_group(
                crate::json::arr_view(sorted@),
                i as int,
                e as int,
                sels_view(sel@),
                0,
                0,
            ) is None),
        }),
{
    let ghost av = crate::json::arr_view(sorted@);
    let ghost sv = sels_view(sel@);
    proof {
        crate::json::lemma_arr_view(sorted@);
    }
    let mut am: i128 = 0;
    let mut ae: i64 = 0;
    let mut j: usize = i;
    while j < e
        invariant
            i <= j <= e <= sorted@.len(),
            av == crate::json::arr_view(sorted@),
            sv == sels_view(sel@),
            av.len() == sorted@.len(),
            forall|t: int| 0 <= t < sorted@.len() ==> #[trigger] av[t] == value_view(sorted@[t]),
            -1000000000000000000 <= am <= 1000000000000000000,
            -0x80000000 <= ae <= 0x8000002A,
            spec_sum_group(av, i as int, e as int, sv, 0, 0) == spec_sum_group(
                av,
                j as int,
                e as int,
                sv,
                am as int,
                ae as int,
            ),
        decreases e - j,
    {
        match select_from_json_object(&sorted[j], sel) {
            Err(er) => {
                return Err(er);
            },
            Ok(w) => {
                match &w {
                    JsonValue::Num(n) => {
                        let (bm, be) = num_parts_for_sum(n);
                        let (m2, e2) = sum_add(am, ae, bm, be);
                        am = m2;
                        ae = e2;
                    },
                    _ => {},
                }
            },
        }
        j += 1;
    }
    Ok((am, ae))
}

/// Finds the least or greatest selected number of a group, mirroring
/// `spec_minmax_group`.
#[verifier::rlimit(90)]
fn minmax_group(
    sorted: &Vec<JsonValue>,
    i: usize,
    e: usize,
    sel: &Vec<Selector>,
    ismin: bool,
) -> (r: Result<Option<JsonNumber>, NdJsonSpatialError>)
    requires
        i <= e <= sorted@.len(),
    ensures
        (match r {
            Ok(cur) => spec_minmax_group(
                crate::json::arr_view(sorted@),
                i as int,
                e as int,
                sels_view(sel@),
                None,
                ismin,
            ) == Some(cur),
            Err(_) => (spec_minmax_group(
                crate::json::arr_view(sorted@),
                i as int,
                e as int,
                sels_view(sel@),
                None,
                ismin,
            ) is None),
        }),
{
    let ghost av = crate::json::arr_view(sorted@);
    let ghost sv = sels_view(sel@);
    proof {
        crate::json::lemma_arr_view(sorted@);
    }
    let mut cur: Option<JsonNumber> = None;
    let mut j: usize = i;
    while j < e
        invariant
            i <= j <= e <= sorted@.len(),
            av == crate::json::arr_view(sorted@),
            sv == sels_view(sel@),
            av.len() == sorted@.len(),
            forall|t: int| 0 <= t < sorted@.len() ==> #[trigger] av[t] == value_view(sorted@[t]),
            spec_minmax_group(av, i as int, e as int, sv, None, ismin) == spec_minmax_group(
                av,
                j as int,
                e as int,
                sv,
                cur,
                ismin,
            ),
        decreases e - j,
    {
        match select_from_json_object(&sorted[j], sel) {
            Err(er) => {
                return Err(er);
            },
            Ok(w) => {
                match &w {
                    JsonValue::Num(n) => {
                        cur = match cur {
                            None => Some(*n),
                            Some(m) => {
                                let c = m.cmp_num(n);
                                if ismin && c == Rel::Greater {
                                    Some(*n)
                                } else if !ismin && c == Rel::Less {
                                    Some(*n)
                                } else {
                                    Some(m)
                                }
                            },
                        };
                    },
                    _ => {},
                }
            },
        }
        j += 1;
    }
    Ok(cur)
}


/// The decimal a finished sum becomes.
pub open spec fn sum_to_dec(m: int, e: int) -> Dec {
    Dec {
        neg: m < 0,
        mant: (if m < 0 {
            -m
        } else {
            m
        }) as u64,
        exp: (if e > i32::MAX as int {
            i32::MAX as int
        } else if e < i32::MIN as int {
            i32::MIN as int
        } else {
            e
        }) as i32,
    }
}

/// The field-name suffix of an aggregation.
pub open spec fn kind_suffix(kind: int) -> Seq<char> {
    if kind == 0 {
        seq!['_', 'c', 'o', 'u', 'n', 't']
    } else if kind == 1 {
        seq!['_', 's', 'u', 'm']
    } else if kind == 2 {
        seq!['_', 'm', 'i', 'n']
    } else {
        seq!['_', 'm', 'a', 'x']
    }
}

/// The aggregated value of the group `[i, e)`.
pub open spec fn spec_agg_value(vs: Seq<JsonV>, i: int, e: int, kind: int, asel: Seq<
    SelV,
>) -> Option<JsonV> {
    if kind == 0 {
        Some(JsonV::Num(JsonNumber::Unsigned((e - i) as u64)))
    } else if kind == 1 {
        match spec_sum_group(vs, i, e, asel, 0, 0) {
            None => None,
            Some((m, ex)) => Some(JsonV::Num(JsonNumber::Decimal(sum_to_dec(m, ex)))),
        }
    } else {
        match spec_minmax_group(vs, i, e, asel, None, kind == 2) {
            None => None,
            Some(None) => Some(JsonV::Null),
            Some(Some(n)) => Some(JsonV::Num(n)),
        }
    }
}

/// One output line per group, from the group starting at `i` on: the
/// group key under the joined group name, the aggregated value under
/// the labelled name, keys in order.
pub open spec fn run_agg(
    vs: Seq<JsonV>,
    i: int,
    path: Seq<SelV>,
    kind: int,
    asel: Seq<SelV>,
    gname: Seq<char>,
    aname: Seq<char>,
    acc: Seq<char>,
) -> Option<Seq<char>>
    decreases vs.len() - i,
{
    if i < 0 || i >= vs.len() {
        Some(acc)
    } else {
        match sel_spec(vs[i], path) {
            Err(_) => None,
            Ok(kv) => {
                let e = group_end(vs, i, i + 1, path);
                let avalo: Option<JsonV> = spec_agg_value(vs, i, e, kind, asel);
                match avalo {
                    None => None,
                    Some(av) => {
                        let obj = JsonV::Obj(
                            obj_insert(
                                obj_insert(Seq::<(Seq<char>, JsonV)>::empty(), gname, kv),
                                aname,
                                av,
                            ),
                        );
                        if i < e <= vs.len() {
                            run_agg(
                                vs,
                                e,
                                path,
                                kind,
                                asel,
                                gname,
                                aname,
                                acc + ser_value(obj) + seq!['\n'],
                            )
                        } else {
                            None
                        }
                    },
                }
            },
        }
    }
}

/// The aggregation kind as a number: count, sum, min, max in turn.
pub open spec fn agg_kind(a: Aggregation) -> int {
    match a {
        Aggregation::Count(_) => 0,
        Aggregation::Sum(_) => 1,
        Aggregation::Min(_) => 2,
        Aggregation::Max(_) => 3,
    }
}

/// The selector of an aggregation.
pub open spec fn agg_sel(a: Aggregation) -> Seq<SelV> {
    match a {
        Aggregation::Count(s) => sels_view(s@),
        Aggregation::Sum(s) => sels_view(s@),
        Aggregation::Min(s) => sels_view(s@),
        Aggregation::Max(s) => sels_view(s@),
    }
}

/// What aggregating an NDJSON text yields: the lines that parse become
/// the records (others are skipped), the records are stably sorted by
/// the group key, and each group becomes one output line.
pub open spec fn aggregate_spec(input: Seq<char>, path: Seq<SelV>, kind: int, asel: Seq<
    SelV,
>) -> Option<Seq<char>> {
    let rs = crate::ndjson::parsed_records(
        crate::ndjson::split_lines(input),
        0,
        Seq::<JsonV>::empty(),
    );
    run_agg(
        crate::sort::sort_records(rs, seq![(path, true)]),
        0,
        path,
        kind,
        asel,
        join_name(path),
        join_name(asel) + kind_suffix(kind),
        Seq::<char>::empty(),
    )
}

/// A deep copy of a selector path.
fn clone_selectors(sels: &Vec<Selector>) -> (r: Vec<Selector>)
    ensures
        sels_view(r@) == sels_view(sels@),
{
    let ghost sv = sels_view(sels@);
    proof {
        crate::json_selector_parser::lemma_sels_view(sels@);
    }
    let mut out: Vec<Selector> = Vec::new();
    proof {
        assert(sels_view(out@) =~= sv.subrange(0, 0).map_values(|x: SelV| x));
        assert(sels_view(out@) =~= Seq::<SelV>::empty());
    }
    let mut i: usize = 0;
    while i < sels.len()
        invariant
            i <= sels@.len(),
            sv == sels_view(sels@),
            sv.len() == sels@.len(),
            forall|j: int| 0 <= j < sels@.len() ==> #[trigger] sv[j] == sels@[j]@,
            sels_view(out@).len() == i,
            forall|j: int| 0 <= j < i ==> #[trigger] sels_view(out@)[j] == sv[j],
        decreases sels@.len() - i,
    {
        let c: Selector = match &sels[i] {
            Selector::Identifier(t) => Selector::Identifier(
                crate::json::clone_string(t),
            ),
            Selector::Index(n) => Selector::Index(*n),
        };
        let ghost out0 = out@;
        out.push(c);
        proof {
            crate::json_selector_parser::lemma_sels_view(out@);
            assert(out@.drop_last() =~= out0);
        }
        i += 1;
    }
    proof {
        crate::json_selector_parser::lemma_sels_view(out@);
        assert(sels_view(out@) =~= sv);
    }
    out
}


/// Computes the aggregated value of the group `[i, e)`, mirroring
/// `spec_agg_value`.
fn agg_value(aggregator: &Aggregation, sorted: &Vec<JsonValue>, i: usize, e: usize) -> (r: Result<
    JsonValue,
    NdJsonSpatialError,
>)
    requires
        i < e <= sorted@.len(),
    ensures
        (match r {
            Ok(av) => spec_agg_value(
                crate::json::arr_view(sorted@),
                i as int,
                e as int,
                agg_kind(*aggregator),
                agg_sel(*aggregator),
            ) == Some(value_view(av)),
            Err(_) => (spec_agg_value(
                crate::json::arr_view(sorted@),
                i as int,
                e as int,
                agg_kind(*aggregator),
                agg_sel(*aggregator),
            ) is None),
        }),
{
    match aggregator {
        Aggregation::Count(_) => {
            let n: usize = e - i;
            Ok(JsonValue::Num(JsonNumber::Unsigned(n as u64)))
        },
        Aggregation::Sum(sel) => {
            match sum_group(sorted, i, e, sel) {
                Err(er) => Err(er),
                Ok((m, ex)) => {
                    let neg = m < 0;
                    let mag: u64 = if m < 0 {
                        (-m) as u64
                    } else {
                        m as u64
                    };
                    let exp: i32 = if ex > i32::MAX as i64 {
                        i32::MAX
                    } else if ex < i32::MIN as i64 {
                        i32::MIN
                    } else {
                        ex as i32
                    };
                    Ok(JsonValue::Num(JsonNumber::Decimal(Dec { neg, mant: mag, exp })))
                },
            }
        },
        Aggregation::Min(sel) => {
            match minmax_group(sorted, i, e, sel, true) {
                Err(er) => Err(er),
                Ok(None) => Ok(JsonValue::Null),
                Ok(Some(n)) => Ok(JsonValue::Num(n)),
            }
        },
        Aggregation::Max(sel) => {
            match minmax_group(sorted, i, e, sel, false) {
                Err(er) => Err(er),
                Ok(None) => Ok(JsonValue::Null),
                Ok(Some(n)) => Ok(JsonValue::Num(n)),
            }
        },
    }
}

/// Groups records by the selector key and folds the aggregation over
/// each group, mirroring `aggregate_spec`.
#[verifier::rlimit(90)]
pub fn aggregate(aggregator: Aggregation, group_by: Vec<Selector>, input: &str) -> (r: Result<
    String,
    NdJsonSpatialError,
>)
    ensures
        (match r {
            Ok(out) => aggregate_spec(
                input@,
                sels_view(group_by@),
                agg_kind(aggregator),
                agg_sel(aggregator),
            ) == Some(out@),
            Err(_) => (aggregate_spec(
                input@,
                sels_view(group_by@),
                agg_kind(aggregator),
                agg_sel(aggregator),
            ) is None),
        }),
{
    let ghost path = sels_view(group_by@);
    let cs = to_chars(input);
    let lines = crate::ndjson::cut_lines(&cs);
    let records = crate::ndjson::parse_records(&lines);
    let ghost rv = crate::json::arr_view(records@);
    proof {
        crate::json::lemma_arr_view(records@);
    }
    let mut keys: Vec<(Vec<Selector>, bool)> = Vec::new();
    keys.push((clone_selectors(&group_by), true));
    let ghost kv1 = crate::sort::keys_view(keys@);
    proof {
        crate::sort::lemma_keys_view(keys@);
        assert(kv1 =~= seq![(path, true)]);
    }
    let mut sorted: Vec<JsonValue> = Vec::new();
    proof {
        assert(crate::json::arr_view(sorted@) =~= Seq::<JsonV>::empty());
        assert(rv.subrange(0, 0) =~= Seq::<JsonV>::empty());
    }
    let mut i: usize = 0;
    while i < records.len()
        invariant
            i <= records@.len(),
            rv == crate::json::arr_view(records@),
            kv1 == crate::sort::keys_view(keys@),
            rv.len() == records@.len(),
            forall|j: int| 0 <= j < records@.len() ==> #[trigger] rv[j] == value_view(
                records@[j],
            ),
            crate::json::arr_view(sorted@) == crate::sort::sort_records(
                rv.subrange(0, i as int),
                kv1,
            ),
        decreases records@.len() - i,
    {
        let v = records[i].deep_clone();
        crate::sort::insert_record(&mut sorted, v, &keys);
        i += 1;
        proof {
            let sub = rv.subrange(0, i as int);
            assert(sub.drop_last() =~= rv.subrange(0, i - 1));
            assert(sub.last() == rv[i - 1]);
        }
    }
    proof {
        assert(rv.subrange(0, rv.len() as int) =~= rv);
    }
    let gname_chars = build_name(&group_by);
    let asel: &Vec<Selector> = match &aggregator {
        Aggregation::Count(s) => s,
        Aggregation::Sum(s) => s,
        Aggregation::Min(s) => s,
        Aggregation::Max(s) => s,
    };
    let mut aname_chars = build_name(asel);
    match &aggregator {
        Aggregation::Count(_) => {
            aname_chars.push('_');
            aname_chars.push('c');
            aname_chars.push('o');
            aname_chars.push('u');
            aname_chars.push('n');
            aname_chars.push('t');
        },
        Aggregation::Sum(_) => {
            aname_chars.push('_');
            aname_chars.push('s');
            aname_chars.push('u');
            aname_chars.push('m');
        },
        Aggregation::Min(_) => {
            aname_chars.push('_');
            aname_chars.push('m');
            aname_chars.push('i');
            aname_chars.push('n');
        },
        Aggregation::Max(_) => {
            aname_chars.push('_');
            aname_chars.push('m');
            aname_chars.push('a');
            aname_chars.push('x');
        },
    }
    proof {
        assert(aname_chars@ =~= join_name(agg_sel(aggregator)) + kind_suffix(
            agg_kind(aggregator),
        ));
    }
    run_groups(aggregator, group_by, sorted, keys, gname_chars, aname_chars, Ghost(path))
}


/// Walks the sorted records group by group, mirroring `run_agg`.
#[verifier::rlimit(90)]
fn run_groups(
    aggregator: Aggregation,
    group_by: Vec<Selector>,
    sorted: Vec<JsonValue>,
    keys: Vec<(Vec<Selector>, bool)>,
    gname_chars: Vec<char>,
    aname_chars: Vec<char>,
    Ghost(path): Ghost<Seq<SelV>>,
) -> (r: Result<String, NdJsonSpatialError>)
    requires
        path == sels_view(group_by@),
        crate::sort::keys_view(keys@) == seq![(path, true)],
    ensures
        (match r {
            Ok(out) => run_agg(
                crate::json::arr_view(sorted@),
                0,
                path,
                agg_kind(aggregator),
                agg_sel(aggregator),
                gname_chars@,
                aname_chars@,
                Seq::<char>::empty(),
            ) == Some(out@),
            Err(_) => (run_agg(
                crate::json::arr_view(sorted@),
                0,
                path,
                agg_kind(aggregator),
                agg_sel(aggregator),
                gname_chars@,
                aname_chars@,
                Seq::<char>::empty(),
            ) is None),
        }),
{
    let ghost sv = crate::json::arr_view(sorted@);
    let ghost kindg = agg_kind(aggregator);
    let ghost aselg = agg_sel(aggregator);
    let ghost gn = gname_chars@;
    let ghost an = aname_chars@;
    proof {
        crate::json::lemma_arr_view(sorted@);
    }
    let mut out: Vec<char> = Vec::new();
    let mut i: usize = 0;
    while i < sorted.len()
        invariant
            i <= sorted@.len(),
            sv == crate::json::arr_view(sorted@),
            path == sels_view(group_by@),
            crate::sort::keys_view(keys@) == seq![(path, true)],
            kindg == agg_kind(aggregator),
            aselg == agg_sel(aggregator),
            gn == gname_chars@,
            an == aname_chars@,
            sv.len() == sorted@.len(),
            forall|j: int| 0 <= j < sorted@.len() ==> #[trigger] sv[j] == value_view(sorted@[j]),
            run_agg(sv, 0, path, kindg, aselg, gn, an, Seq::<char>::empty()) == run_agg(
                sv,
                i as int,
                path,
                kindg,
                aselg,
                gn,
                an,
                out@,
            ),
        decreases sorted@.len() - i,
    {
        let keyval = match select_from_json_object(&sorted[i], &group_by) {
            Ok(w) => w,
            Err(er) => {
                return Err(er);
            },
        };
        let mut e: usize = i + 1;
        loop
            invariant_except_break
                i + 1 <= e <= sorted@.len(),
                i < sorted@.len(),
                sv == crate::json::arr_view(sorted@),
                path == sels_view(group_by@),
                crate::sort::keys_view(keys@) == seq![(path, true)],
                sv.len() == sorted@.len(),
                forall|j: int|
                    0 <= j < sorted@.len() ==> #[trigger] sv[j] == value_view(sorted@[j]),
                group_end(sv, i as int, i + 1, path) == group_end(sv, i as int, e as int, path),
            ensures
                i < e <= sorted@.len(),
                e as int == group_end(sv, i as int, i + 1, path),
            decreases sorted@.len() - e,
        {
            if e >= sorted.len() {
                break;
            }
            let c = crate::sort::cmp_records(&sorted[i], &sorted[e], &keys);
            proof {
                let kv1 = crate::sort::keys_view(keys@);
                assert(kv1[0] == (path, true));
                assert(crate::sort::rec_cmp(sv[i as int], sv[e as int], kv1, 1) == Rel::Equal);
                assert(crate::sort::rec_cmp(sv[i as int], sv[e as int], kv1, 0) == key_cmp(
                    sv[i as int],
                    sv[e as int],
                    path,
                    true,
                ));
            }
            if !(c == Rel::Equal) {
                break;
            }
            e += 1;
        }
        let aval = match agg_value(&aggregator, &sorted, i, e) {
            Ok(v) => v,
            Err(er) => {
                return Err(er);
            },
        };
        let ghost kvv = value_view(keyval);
        let ghost avv = value_view(aval);
        let mut entries: Vec<(String, JsonValue)> = Vec::new();
        proof {
            assert(crate::json::obj_view(entries@) =~= Seq::<(Seq<char>, JsonV)>::empty());
        }
        obj_insert_entry(&mut entries, chars_to_string(&gname_chars), keyval);
        obj_insert_entry(&mut entries, chars_to_string(&aname_chars), aval);
        let obj = JsonValue::Obj(entries);
        let ghost out0 = out@;
        obj.write_chars(&mut out);
        out.push('\n');
        proof {
            assert(value_view(obj) == JsonV::Obj(
                obj_insert(
                    obj_insert(Seq::<(Seq<char>, JsonV)>::empty(), gn, kvv),
                    an,
                    avv,
                ),
            ));
            assert(out@ =~= out0 + ser_value(value_view(obj)) + seq!['\n']);
        }
        i = e;
    }
    Ok(chars_to_string(&out))
}

} // verus!
