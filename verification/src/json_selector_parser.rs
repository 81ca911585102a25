//! The selector expression parser used by the line-oriented tools: a
//! path such as `d[5].manager.pay`, optionally followed by a comparison
//! such as `>= 40000` with a typed literal.  Identifiers are stored
//! wrapped in double quotes.

use vstd::prelude::*;

use crate::json::{skip_ws, ws_end, JsonV, JsonValue};
use crate::number::{
    dec_cmp_spec, num_as_i64_spec, num_as_u64_spec, num_chars, num_to_dec_spec, Dec,
};
use crate::selector::{
    ident_run_end, parse_comparator_at, parse_index_at, parse_lit_bool, parse_lit_dec,
    parse_lit_null, parse_lit_u64, rel_match, rel_matches, scan_ident, spec_comparator,
    spec_index, spec_lit_bool, spec_lit_dec, spec_lit_null, spec_lit_u64,
};
use crate::text::{chars_cmp, chars_to_string, cmp_chars, to_chars, Rel};

pub use crate::selector::Comparator;

verus! {

/// One step of a selector path: a field name or an array index.
#[derive(Debug, PartialEq)]
pub enum Selector {
    Identifier(String),
    Index(usize),
}

/// The model of a path step.
pub enum SelV {
    Identifier(Seq<char>),
    Index(usize),
}

impl View for Selector {
    type V = SelV;

    open spec fn view(&self) -> SelV {
        match self {
            Selector::Identifier(s) => SelV::Identifier(s@),
            Selector::Index(n) => SelV::Index(*n),
        }
    }
}

/// The models of a list of path steps.
pub open spec fn sels_view(s: Seq<Selector>) -> Seq<SelV>
    decreases s.len(),
{
    if s.len() == 0 {
        Seq::<SelV>::empty()
    } else {
        sels_view(s.drop_last()).push(s.last()@)
    }
}

/// The list model maps each step to its model.
pub proof fn lemma_sels_view(s: Seq<Selector>)
    ensures
        sels_view(s).len() == s.len(),
        forall|i: int| 0 <= i < s.len() ==> #[trigger] sels_view(s)[i] == s[i]@,
    decreases s.len(),
{
    if s.len() > 0 {
        lemma_sels_view(s.drop_last());
    }
}

/// The error reported for a selector expression that does not parse:
/// the unconsumed input and a short message.
#[derive(Debug, PartialEq)]
pub struct ParseError {
    pub remainder: String,
    pub message: String,
}

/// The error reported when a literal is not `null`.
#[derive(Debug, PartialEq, Eq, Structural)]
pub struct ParseNullError;

/// A bracketed index whose value fits in a `usize`.
pub open spec fn spec_index_us(s: Seq<char>, i: int) -> Option<(usize, int)> {
    match spec_index(s, i) {
        Some((n, j)) => if n <= usize::MAX as u64 {
            Some((n as usize, j))
        } else {
            None
        },
        None => None,
    }
}

/// Parses a bracketed index into a `usize`.
fn parse_index_us(s: &Vec<char>, i: usize) -> (r: Option<(usize, usize)>)
    requires
        i <= s@.len(),
    ensures
        match r {
            Some((n, j)) => spec_index_us(s@, i as int) == Some((n, j as int)) && i < j
                <= s@.len(),
            None => (spec_index_us(s@, i as int) is None),
        },
{
    match parse_index_at(s, i) {
        Some((n, j)) => {
            if n <= usize::MAX as u64 {
                Some((n as usize, j))
            } else {
                None
            }
        },
        None => None,
    }
}

/// The self reference `d`, optionally followed by an index.
pub open spec fn spec_self_signifier(s: Seq<char>, i: int) -> Option<(Option<usize>, int)> {
    if i < s.len() && s[i] == 'd' {
        match spec_index_us(s, i + 1) {
            Some((n, j)) => Some((Some(n), j)),
            None => Some((None, i + 1)),
        }
    } else {
        None
    }
}

/// A dot, an identifier (possibly empty) stored wrapped in quotes, and
/// an optional index.
pub open spec fn spec_dot_identifier(s: Seq<char>, i: int) -> Option<
    ((Seq<char>, Option<usize>), int),
> {
    if i < s.len() && s[i] == '.' {
        let e = ident_run_end(s, i + 1);
        let ident = seq!['"'] + s.subrange(i + 1, e) + seq!['"'];
        match spec_index_us(s, e) {
            Some((n, j)) => Some(((ident, Some(n)), j)),
            None => Some(((ident, None), e)),
        }
    } else {
        None
    }
}

/// As many dot-identifier groups as the input offers, appended to `acc`.
pub open spec fn spec_many_identifiers(
    s: Seq<char>,
    i: int,
    acc: Seq<(Seq<char>, Option<usize>)>,
) -> (Seq<(Seq<char>, Option<usize>)>, int)
    decreases s.len() - i,
{
    match spec_dot_identifier(s, i) {
        Some(((id, opt), j)) => if i < j <= s.len() {
            spec_many_identifiers(s, j, acc.push((id, opt)))
        } else {
            (acc, i)
        },
        None => (acc, i),
    }
}

/// The flattened path: the optional leading index, then each identifier
/// followed by its optional index.
pub open spec fn spec_combine(
    first: Option<usize>,
    list: Seq<(Seq<char>, Option<usize>)>,
) -> Seq<SelV>
    decreases list.len(),
{
    let head: Seq<SelV> = match first {
        Some(n) => seq![SelV::Index(n)],
        None => Seq::<SelV>::empty(),
    };
    if list.len() == 0 {
        head
    } else {
        let rest = spec_combine(first, list.drop_last());
        let last = list.last();
        match last.1 {
            Some(n) => rest.push(SelV::Identifier(last.0)).push(SelV::Index(n)),
            None => rest.push(SelV::Identifier(last.0)),
        }
    }
}

/// A full selector path: the self reference, then the identifiers.
pub open spec fn spec_json_selector(s: Seq<char>, i: int) -> Option<(Seq<SelV>, int)> {
    match spec_self_signifier(s, i) {
        None => None,
        Some((first, j)) => {
            let (list, k) = spec_many_identifiers(s, j, Seq::<(Seq<char>, Option<usize>)>::empty());
            Some((spec_combine(first, list), k))
        },
    }
}

/// Parses the self reference at `i`.
fn parse_self_at(s: &Vec<char>, i: usize) -> (r: Option<(Option<usize>, usize)>)
    requires
        i <= s@.len(),
    ensures
        match r {
            Some((first, j)) => spec_self_signifier(s@, i as int) == Some((first, j as int)) && i
                < j <= s@.len(),
            None => (spec_self_signifier(s@, i as int) is None),
        },
{
    if i < s.len() && s[i] == 'd' {
        match parse_index_us(s, i + 1) {
            Some((n, j)) => Some((Some(n), j)),
            None => Some((None, i + 1)),
        }
    } else {
        None
    }
}

/// Parses one dot-identifier group at `i`.
fn parse_dot_at(s: &Vec<char>, i: usize) -> (r: Option<((String, Option<usize>), usize)>)
    requires
        i <= s@.len(),
    ensures
        match r {
            Some(((id, opt), j)) => spec_dot_identifier(s@, i as int) == Some(
                ((id@, opt), j as int),
            ) && i < j <= s@.len(),
            None => (spec_dot_identifier(s@, i as int) is None),
        },
{
    if i < s.len() && s[i] == '.' {
        let e = scan_ident(s, i + 1);
        let mut idc: Vec<char> = Vec::new();
        idc.push('"');
        crate::number::push_range(s, i + 1, e, &mut idc);
        idc.push('"');
        let id = chars_to_string(&idc);
        proof {
            assert(id@ =~= seq!['"'] + s@.subrange(i + 1, e as int) + seq!['"']);
        }
        match parse_index_us(s, e) {
            Some((n, j)) => Some(((id, Some(n)), j)),
            None => Some(((id, None), e)),
        }
    } else {
        None
    }
}

/// The models of a list of identifier groups.
pub open spec fn pairs_view(s: Seq<(Selector, Option<Selector>)>) -> Seq<
    (Seq<char>, Option<usize>),
>
    decreases s.len(),
{
    if s.len() == 0 {
        Seq::<(Seq<char>, Option<usize>)>::empty()
    } else {
        pairs_view(s.drop_last()).push(pair_view(s.last()))
    }
}

/// The model of one identifier group.
pub open spec fn pair_view(p: (Selector, Option<Selector>)) -> (Seq<char>, Option<usize>) {
    (
        match p.0 {
            Selector::Identifier(t) => t@,
            Selector::Index(_) => Seq::<char>::empty(),
        },
        match p.1 {
            Some(Selector::Index(n)) => Some(n),
            _ => None,
        },
    )
}

/// The group list model maps each group to its model.
pub proof fn lemma_pairs_view(s: Seq<(Selector, Option<Selector>)>)
    ensures
        pairs_view(s).len() == s.len(),
        forall|i: int| 0 <= i < s.len() ==> #[trigger] pairs_view(s)[i] == pair_view(s[i]),
    decreases s.len(),
{
    if s.len() > 0 {
        lemma_pairs_view(s.drop_last());
    }
}

/// Parses identifier groups from `i`, appending to `acc`.
fn parse_many_at(s: &Vec<char>, i: usize, acc: Vec<(Selector, Option<Selector>)>) -> (r: (
    Vec<(Selector, Option<Selector>)>,
    usize,
))
    requires
        i <= s@.len(),
        forall|j: int|
            0 <= j < acc@.len() ==> (#[trigger] acc@[j]).0 is Identifier && (acc@[j].1 matches Some(
                x,
            ) ==> x is Index),
    ensures
        ({
            let (list, k) = spec_many_identifiers(s@, i as int, pairs_view(acc@));
            pairs_view(r.0@) == list && r.1 as int == k && i <= r.1 <= s@.len()
        }),
        forall|j: int|
            0 <= j < r.0@.len() ==> (#[trigger] r.0@[j]).0 is Identifier && (r.0@[j].1 matches Some(
                x,
            ) ==> x is Index),
    decreases s@.len() - i,
{
    match parse_dot_at(s, i) {
        Some(((id, opt), j)) => {
            let mut acc2 = acc;
            let ghost p0 = pairs_view(acc2@);
            let optsel: Option<Selector> = match opt {
                Some(n) => Some(Selector::Index(n)),
                None => None,
            };
            acc2.push((Selector::Identifier(id), optsel));
            proof {
                assert(acc2@.drop_last() =~= acc@);
                assert(pairs_view(acc2@) == p0.push(pair_view(acc2@.last())));
            }
            parse_many_at(s, j, acc2)
        },
        None => (acc, i),
    }
}

/// Flattens the self-reference index and the identifier groups into one
/// path, an identifier before its index.
pub fn combine_identifiers(first: Option<Selector>, next: Vec<(Selector, Option<Selector>)>) -> (r:
    Vec<Selector>)
    requires
        (first matches Some(f) ==> f is Index),
        forall|j: int|
            0 <= j < next@.len() ==> (#[trigger] next@[j]).0 is Identifier && (
            next@[j].1 matches Some(x) ==> x is Index),
    ensures
        sels_view(r@) == spec_combine(
            match first {
                Some(Selector::Index(n)) => Some(n),
                _ => None,
            },
            pairs_view(next@),
        ),
{
    let ghost firstv: Option<usize> = match first {
        Some(Selector::Index(n)) => Some(n),
        _ => None,
    };
    let mut items: Vec<Selector> = Vec::new();
    if let Some(f) = first {
        items.push(f);
    }
    proof {
        assert(pairs_view(next@.subrange(0, 0)) =~= Seq::<(Seq<char>, Option<usize>)>::empty());
        assert(sels_view(Seq::<Selector>::empty()) == Seq::<SelV>::empty());
        if firstv is Some {
            assert(items@.len() == 1);
            assert(items@.drop_last() =~= Seq::<Selector>::empty());
        } else {
            assert(items@ =~= Seq::<Selector>::empty());
        }
        assert(sels_view(items@) =~= spec_combine(firstv, pairs_view(next@.subrange(0, 0))));
    }
    let mut i: usize = 0;
    while i < next.len()
        invariant
            i <= next@.len(),
            sels_view(items@) == spec_combine(firstv, pairs_view(next@.subrange(0, i as int))),
            forall|j: int|
                0 <= j < next@.len() ==> (#[trigger] next@[j]).0 is Identifier && (
                next@[j].1 matches Some(x) ==> x is Index),
        decreases next@.len() - i,
    {
        let (ident, optional_second) = {
            let p = &next[i];
            (
                match &p.0 {
                    Selector::Identifier(t) => Selector::Identifier(
                        chars_to_string(&to_chars(t.as_str())),
                    ),
                    Selector::Index(n) => Selector::Index(*n),
                },
                match &p.1 {
                    Some(Selector::Index(n)) => Some(Selector::Index(*n)),
                    _ => None,
                },
            )
        };
        let ghost identv = ident@;
        let ghost optv: Option<SelV> = match optional_second {
            Some(ref x) => Some(x@),
            None => None,
        };
        proof {
            assert(identv == SelV::Identifier(pair_view(next@[i as int]).0));
            assert(optv == (match pair_view(next@[i as int]).1 {
                Some(n) => Some(SelV::Index(n)),
                None => None::<SelV>,
            }));
        }
        let ghost items_before = items@;
        items.push(ident);
        proof {
            assert(items@.drop_last() =~= items_before);
            assert(sels_view(items@) == sels_view(items_before).push(identv));
        }
        let ghost items_mid = items@;
        if let Some(sec) = optional_second {
            items.push(sec);
            proof {
                assert(items@.drop_last() =~= items_mid);
                assert(sels_view(items@) == sels_view(items_mid).push(optv->0));
            }
        }
        i += 1;
        proof {
            let sub = next@.subrange(0, i as int);
            assert(sub.drop_last() =~= next@.subrange(0, i - 1));
            assert(pairs_view(sub) == pairs_view(sub.drop_last()).push(pair_view(sub.last())));
            assert(sub.last() == next@[i - 1]);
            let pv = pairs_view(sub);
            let pv_prev = pairs_view(next@.subrange(0, i - 1));
            assert(pv.len() > 0);
            assert(pv.drop_last() =~= pv_prev);
            assert(pv.last() == pair_view(next@[i - 1]));
            assert(spec_combine(firstv, pv) == (match pv.last().1 {
                Some(n) => spec_combine(firstv, pv_prev).push(SelV::Identifier(pv.last().0)).push(
                    SelV::Index(n),
                ),
                None => spec_combine(firstv, pv_prev).push(SelV::Identifier(pv.last().0)),
            }));
            assert(sels_view(items@) =~= spec_combine(firstv, pairs_view(sub)));
        }
    }
    proof {
        assert(next@.subrange(0, next@.len() as int) =~= next@);
    }
    items
}

/// Parses a selector path at `i` in a character vector.
pub fn parse_json_selector_at(s: &Vec<char>, i: usize) -> (r: Option<(Vec<Selector>, usize)>)
    requires
        i <= s@.len(),
    ensures
        match r {
            Some((sels, j)) => spec_json_selector(s@, i as int) == Some(
                (sels_view(sels@), j as int),
            ) && i < j <= s@.len(),
            None => (spec_json_selector(s@, i as int) is None),
        },
{
    match parse_self_at(s, i) {
        None => None,
        Some((first, j)) => {
            let acc: Vec<(Selector, Option<Selector>)> = Vec::new();
            proof {
                assert(pairs_view(acc@) =~= Seq::<(Seq<char>, Option<usize>)>::empty());
            }
            let (list, k) = parse_many_at(s, j, acc);
            let firstsel: Option<Selector> = match first {
                Some(n) => Some(Selector::Index(n)),
                None => None,
            };
            let sels = combine_identifiers(firstsel, list);
            Some((sels, k))
        },
    }
}


/// A value that is not JSON null, as seen by the null-typed comparison.
#[derive(Debug, PartialEq)]
pub enum NonNullJsonValue {
    Str(String),
    Bool(bool),
    I64(i64),
    Decimal(Dec),
}

/// The model of a non-null scalar.
pub enum NonNullV {
    Str(Seq<char>),
    Bool(bool),
    I64(i64),
    Decimal(Dec),
}

impl View for NonNullJsonValue {
    type V = NonNullV;

    open spec fn view(&self) -> NonNullV {
        match self {
            NonNullJsonValue::Str(t) => NonNullV::Str(t@),
            NonNullJsonValue::Bool(b) => NonNullV::Bool(*b),
            NonNullJsonValue::I64(n) => NonNullV::I64(*n),
            NonNullJsonValue::Decimal(d) => NonNullV::Decimal(*d),
        }
    }
}

/// A nullable scalar: `None` stands for JSON null.
pub type Null = Option<NonNullJsonValue>;

/// The model of a nullable scalar.
pub open spec fn null_view(n: Null) -> Option<NonNullV> {
    match n {
        Some(v) => Some(v@),
        None => None,
    }
}

/// The string a candidate converts to: null and containers fail, a
/// number gives its canonical text, a boolean its name.
pub open spec fn spec_to_string_value(v: JsonV) -> Option<Seq<char>> {
    match v {
        JsonV::Str(t) => Some(t),
        JsonV::Num(n) => Some(num_chars(n)),
        JsonV::Bool(b) => if b {
            Some(seq!['t', 'r', 'u', 'e'])
        } else {
            Some(seq!['f', 'a', 'l', 's', 'e'])
        },
        _ => None,
    }
}

/// The `u64` a candidate converts to: only a number that is an unsigned
/// integer; a string never converts.
pub open spec fn spec_to_u64_value(v: JsonV) -> Option<u64> {
    match v {
        JsonV::Num(n) => num_as_u64_spec(n),
        _ => None,
    }
}

/// The `i64` a candidate converts to: only an integer number.
pub open spec fn spec_to_i64_value(v: JsonV) -> Option<i64> {
    match v {
        JsonV::Num(n) => num_as_i64_spec(n),
        _ => None,
    }
}

/// The decimal a candidate converts to: only a number, kept exactly.
pub open spec fn spec_to_dec_value(v: JsonV) -> Option<Dec> {
    match v {
        JsonV::Num(n) => Some(num_to_dec_spec(n)),
        _ => None,
    }
}

/// The boolean a candidate converts to: only a boolean.
pub open spec fn spec_to_bool_value(v: JsonV) -> Option<bool> {
    match v {
        JsonV::Bool(b) => Some(b),
        _ => None,
    }
}

/// The nullable scalar a candidate converts to: null becomes `None`,
/// scalars are wrapped, containers fail.
pub open spec fn spec_to_null_value(v: JsonV) -> Option<Option<NonNullV>> {
    match v {
        JsonV::Null => Some(None),
        JsonV::Str(t) => Some(Some(NonNullV::Str(t))),
        JsonV::Bool(b) => Some(Some(NonNullV::Bool(b))),
        JsonV::Num(n) => match num_as_i64_spec(n) {
            Some(i) => Some(Some(NonNullV::I64(i))),
            None => Some(Some(NonNullV::Decimal(num_to_dec_spec(n)))),
        },
        _ => None,
    }
}

/// The partial order on nullable scalars: null sorts before every value,
/// values of different shapes are incomparable.
pub open spec fn null_pcmp_spec(a: Option<NonNullV>, b: Option<NonNullV>) -> Option<Rel> {
    match (a, b) {
        (None, None) => Some(Rel::Equal),
        (None, Some(_)) => Some(Rel::Less),
        (Some(_), None) => Some(Rel::Greater),
        (Some(x), Some(y)) => match (x, y) {
            (NonNullV::Str(s1), NonNullV::Str(s2)) => Some(chars_cmp(s1, s2)),
            (NonNullV::Bool(b1), NonNullV::Bool(b2)) => Some(bool_cmp(b1, b2)),
            (NonNullV::I64(i1), NonNullV::I64(i2)) => Some(int_cmp(i1 as int, i2 as int)),
            (NonNullV::Decimal(d1), NonNullV::Decimal(d2)) => Some(dec_cmp_spec(d1, d2)),
            _ => None,
        },
    }
}

/// The order on booleans: false before true.
pub open spec fn bool_cmp(a: bool, b: bool) -> Rel {
    if a == b {
        Rel::Equal
    } else if !a {
        Rel::Less
    } else {
        Rel::Greater
    }
}

/// The order on integers.
pub open spec fn int_cmp(a: int, b: int) -> Rel {
    if a == b {
        Rel::Equal
    } else if a < b {
        Rel::Less
    } else {
        Rel::Greater
    }
}

/// A comparison operator paired with a typed literal.
#[derive(Debug, PartialEq)]
pub struct Compare<T> {
    pub comparator: Comparator,
    pub value: T,
}

/// Whether a comparison against a `u64` literal holds of a candidate.
pub open spec fn compare_u64_spec(cmp: Comparator, value: u64, v: JsonV) -> bool {
    match spec_to_u64_value(v) {
        None => false,
        Some(o) => rel_matches(cmp, Some(int_cmp(o as int, value as int))),
    }
}

/// Whether a comparison against an `i64` literal holds of a candidate.
pub open spec fn compare_i64_spec(cmp: Comparator, value: i64, v: JsonV) -> bool {
    match spec_to_i64_value(v) {
        None => false,
        Some(o) => rel_matches(cmp, Some(int_cmp(o as int, value as int))),
    }
}

/// Whether a comparison against a decimal literal holds of a candidate.
pub open spec fn compare_dec_spec(cmp: Comparator, value: Dec, v: JsonV) -> bool {
    match spec_to_dec_value(v) {
        None => false,
        Some(o) => rel_matches(cmp, Some(dec_cmp_spec(o, value))),
    }
}

/// Whether a comparison against a boolean literal holds of a candidate.
pub open spec fn compare_bool_spec(cmp: Comparator, value: bool, v: JsonV) -> bool {
    match spec_to_bool_value(v) {
        None => false,
        Some(o) => rel_matches(cmp, Some(bool_cmp(o, value))),
    }
}

/// Whether a comparison against a string literal holds of a candidate.
pub open spec fn compare_string_spec(cmp: Comparator, value: Seq<char>, v: JsonV) -> bool {
    match spec_to_string_value(v) {
        None => false,
        Some(o) => rel_matches(cmp, Some(chars_cmp(o, value))),
    }
}

/// Whether a comparison against a nullable literal holds of a candidate.
pub open spec fn compare_null_spec(cmp: Comparator, value: Option<NonNullV>, v: JsonV) -> bool {
    match spec_to_null_value(v) {
        None => false,
        Some(o) => rel_matches(cmp, null_pcmp_spec(o, value)),
    }
}


/// Converts a candidate to a string, as the string-typed comparison does.
pub fn to_string_value(v: &JsonValue) -> (r: Option<String>)
    ensures
        (match r {
            Some(t) => spec_to_string_value(v@) == Some(t@),
            None => (spec_to_string_value(v@) is None),
        }),
{
    match v {
        JsonValue::Str(t) => Some(crate::json::clone_string(t)),
        JsonValue::Num(n) => {
            let mut out: Vec<char> = Vec::new();
            n.push_chars(&mut out);
            proof {
                assert(out@ =~= num_chars(*n));
            }
            Some(chars_to_string(&out))
        },
        JsonValue::Bool(b) => {
            let mut out: Vec<char> = Vec::new();
            if *b {
                out.push('t');
                out.push('r');
                out.push('u');
                out.push('e');
                proof {
                    assert(out@ =~= seq!['t', 'r', 'u', 'e']);
                }
            } else {
                out.push('f');
                out.push('a');
                out.push('l');
                out.push('s');
                out.push('e');
                proof {
                    assert(out@ =~= seq!['f', 'a', 'l', 's', 'e']);
                }
            }
            Some(chars_to_string(&out))
        },
        _ => None,
    }
}

/// Converts a candidate to a `u64`, as the unsigned comparison does.
pub fn to_u64_value(v: &JsonValue) -> (r: Option<u64>)
    ensures
        r == spec_to_u64_value(v@),
{
    match v {
        JsonValue::Num(n) => n.as_u64(),
        _ => None,
    }
}

/// Converts a candidate to an `i64`, as the signed comparison does.
pub fn to_i64_value(v: &JsonValue) -> (r: Option<i64>)
    ensures
        r == spec_to_i64_value(v@),
{
    match v {
        JsonValue::Num(n) => n.as_i64(),
        _ => None,
    }
}

/// Converts a candidate to a decimal, as the decimal comparison does.
pub fn to_dec_value(v: &JsonValue) -> (r: Option<Dec>)
    ensures
        r == spec_to_dec_value(v@),
{
    match v {
        JsonValue::Num(n) => Some(n.to_dec()),
        _ => None,
    }
}

/// Converts a candidate to a boolean, as the boolean comparison does.
pub fn to_bool_value(v: &JsonValue) -> (r: Option<bool>)
    ensures
        r == spec_to_bool_value(v@),
{
    match v {
        JsonValue::Bool(b) => Some(*b),
        _ => None,
    }
}

/// Converts a candidate to a nullable scalar, as the null comparison does.
pub fn to_null_value(v: &JsonValue) -> (r: Option<Null>)
    ensures
        (match r {
            Some(o) => spec_to_null_value(v@) == Some(null_view(o)),
            None => (spec_to_null_value(v@) is None),
        }),
{
    match v {
        JsonValue::Null => Some(None),
        JsonValue::Str(t) => Some(Some(NonNullJsonValue::Str(crate::json::clone_string(t)))),
        JsonValue::Bool(b) => Some(Some(NonNullJsonValue::Bool(*b))),
        JsonValue::Num(n) => match n.as_i64() {
            Some(i) => Some(Some(NonNullJsonValue::I64(i))),
            None => Some(Some(NonNullJsonValue::Decimal(n.to_dec()))),
        },
        _ => None,
    }
}

/// Compares two nullable scalars under the partial order.
pub fn null_pcmp(a: &Null, b: &Null) -> (r: Option<Rel>)
    ensures
        r == null_pcmp_spec(null_view(*a), null_view(*b)),
{
    match (a, b) {
        (None, None) => Some(Rel::Equal),
        (None, Some(_)) => Some(Rel::Less),
        (Some(_), None) => Some(Rel::Greater),
        (Some(x), Some(y)) => match (x, y) {
            (NonNullJsonValue::Str(s1), NonNullJsonValue::Str(s2)) => {
                let c1 = to_chars(s1.as_str());
                let c2 = to_chars(s2.as_str());
                Some(cmp_chars(&c1, &c2))
            },
            (NonNullJsonValue::Bool(b1), NonNullJsonValue::Bool(b2)) => {
                if *b1 == *b2 {
                    Some(Rel::Equal)
                } else if !*b1 {
                    Some(Rel::Less)
                } else {
                    Some(Rel::Greater)
                }
            },
            (NonNullJsonValue::I64(i1), NonNullJsonValue::I64(i2)) => {
                if *i1 == *i2 {
                    Some(Rel::Equal)
                } else if *i1 < *i2 {
                    Some(Rel::Less)
                } else {
                    Some(Rel::Greater)
                }
            },
            (NonNullJsonValue::Decimal(d1), NonNullJsonValue::Decimal(d2)) => {
                Some(d1.cmp_dec(d2))
            },
            _ => None,
        },
    }
}

impl Compare<u64> {
    /// Whether the candidate satisfies this unsigned comparison.
    pub fn compare(&self, other: &JsonValue) -> (r: bool)
        ensures
            r == compare_u64_spec(self.comparator, self.value, other@),
    {
        match to_u64_value(other) {
            None => false,
            Some(o) => {
                let rel = if o == self.value {
                    Rel::Equal
                } else if o < self.value {
                    Rel::Less
                } else {
                    Rel::Greater
                };
                rel_match(self.comparator, Some(rel))
            },
        }
    }
}

impl Compare<i64> {
    /// Whether the candidate satisfies this signed comparison.
    pub fn compare(&self, other: &JsonValue) -> (r: bool)
        ensures
            r == compare_i64_spec(self.comparator, self.value, other@),
    {
        match to_i64_value(other) {
            None => false,
            Some(o) => {
                let rel = if o == self.value {
                    Rel::Equal
                } else if o < self.value {
                    Rel::Less
                } else {
                    Rel::Greater
                };
                rel_match(self.comparator, Some(rel))
            },
        }
    }
}

impl Compare<Dec> {
    /// Whether the candidate satisfies this decimal comparison.
    pub fn compare(&self, other: &JsonValue) -> (r: bool)
        ensures
            r == compare_dec_spec(self.comparator, self.value, other@),
    {
        match to_dec_value(other) {
            None => false,
            Some(o) => rel_match(self.comparator, Some(o.cmp_dec(&self.value))),
        }
    }
}

impl Compare<bool> {
    /// Whether the candidate satisfies this boolean comparison.
    pub fn compare(&self, other: &JsonValue) -> (r: bool)
        ensures
            r == compare_bool_spec(self.comparator, self.value, other@),
    {
        match to_bool_value(other) {
            None => false,
            Some(o) => {
                let rel = if o == self.value {
                    Rel::Equal
                } else if !o {
                    Rel::Less
                } else {
                    Rel::Greater
                };
                rel_match(self.comparator, Some(rel))
            },
        }
    }
}

impl Compare<String> {
    /// Whether the candidate satisfies this string comparison.
    pub fn compare(&self, other: &JsonValue) -> (r: bool)
        ensures
            r == compare_string_spec(self.comparator, self.value@, other@),
    {
        match to_string_value(other) {
            None => false,
            Some(o) => {
                let c1 = to_chars(o.as_str());
                let c2 = to_chars(self.value.as_str());
                rel_match(self.comparator, Some(cmp_chars(&c1, &c2)))
            },
        }
    }
}

impl Compare<Null> {
    /// Whether the candidate satisfies this nullable comparison.
    pub fn compare(&self, other: &JsonValue) -> (r: bool)
        ensures
            r == compare_null_spec(self.comparator, null_view(self.value), other@),
    {
        match to_null_value(other) {
            None => false,
            Some(o) => rel_match(self.comparator, null_pcmp(&o, &self.value)),
        }
    }
}


/// Whether `c` is a dot.
pub fn is_dot(c: char) -> (r: bool)
    ensures
        r == (c == '.'),
{
    c == '.'
}

/// Whether `c` is an opening bracket.
pub fn is_array_bracket(c: char) -> (r: bool)
    ensures
        r == (c == '['),
{
    c == '['
}

/// Whether `c` can start a comparison operator.
pub fn is_comparator(c: char) -> (r: bool)
    ensures
        r == crate::selector::is_comparator_char(c),
{
    c == '<' || c == '=' || c == '!' || c == '>'
}

/// Whether `c` is a decimal digit.
pub fn is_digit(c: char) -> (r: bool)
    ensures
        r == crate::text::char_is_digit(c),
{
    '0' <= c && c <= '9'
}

/// Whether `c` is a decimal digit or a space.
pub fn is_digit_or_space(c: char) -> (r: bool)
    ensures
        r == crate::selector::is_digit_or_space(c),
{
    is_digit(c) || c == ' '
}

/// Whether `c` may appear in a bare identifier.
pub fn is_not_dot_or_array_bracket_or_comparator(c: char) -> (r: bool)
    ensures
        r == crate::selector::is_ident_char(c),
{
    !is_dot(c) && !is_array_bracket(c) && !is_comparator(c) && c != ' '
}

/// Parses an unsigned integer literal covering the whole input.
pub fn parse_u64(s: &str) -> (r: Option<u64>)
    ensures
        r == spec_lit_u64(s@),
{
    let cs = to_chars(s);
    parse_lit_u64(&cs)
}

/// The whole input, kept as a string.
pub fn parse_string(s: &str) -> (r: String)
    ensures
        r@ == s@,
{
    s.to_owned()
}

/// Recognises a null literal; every other input is an error.
pub fn parse_null(s: &str) -> (r: Result<Null, ParseNullError>)
    ensures
        (r is Ok) == spec_lit_null(s@),
        (r matches Ok(v) ==> v is None),
{
    let cs = to_chars(s);
    if parse_lit_null(&cs) {
        Ok(None)
    } else {
        Err(ParseNullError)
    }
}

/// The characters of `s` from `from` on, as a string.
fn rest_string(s: &Vec<char>, from: usize) -> (r: String)
    requires
        from <= s@.len(),
    ensures
        r@ == s@.subrange(from as int, s@.len() as int),
{
    let mut out: Vec<char> = Vec::new();
    crate::number::push_range(s, from, s.len(), &mut out);
    chars_to_string(&out)
}

/// An error carrying the unconsumed input and a message.
fn perr(s: &Vec<char>, from: usize, msg: &str) -> (r: ParseError)
    requires
        from <= s@.len(),
    ensures
        r.remainder@ == s@.subrange(from as int, s@.len() as int),
{
    ParseError { remainder: rest_string(s, from), message: msg.to_owned() }
}

/// Parses the self reference `d` with an optional index; the remainder
/// of the input is returned beside the result.
pub fn parse_self_signifier(s: &str) -> (r: Result<(String, Option<Selector>), ParseError>)
    ensures
        (match r {
            Ok((rest, first)) => ({
                &&& spec_self_signifier(s@, 0) matches Some((f, j))
                &&& (match first {
                    Some(Selector::Index(n)) => Some(n) == f,
                    None => f is None,
                    _ => false,
                })
                &&& rest@ == s@.subrange(j, s@.len() as int)
            }),
            Err(_) => (spec_self_signifier(s@, 0) is None),
        }),
{
    let cs = to_chars(s);
    match parse_self_at(&cs, 0) {
        Some((first, j)) => {
            let firstsel: Option<Selector> = match first {
                Some(n) => Some(Selector::Index(n)),
                None => None,
            };
            Ok((rest_string(&cs, j), firstsel))
        },
        None => Err(perr(&cs, 0, "expected the self reference")),
    }
}

/// Parses one dot-identifier group; the remainder is returned beside it.
pub fn parse_dot_plus_identifier(s: &str) -> (r: Result<
    (String, (Selector, Option<Selector>)),
    ParseError,
>)
    ensures
        (match r {
            Ok((rest, pair)) => ({
                &&& spec_dot_identifier(s@, 0) matches Some((p, j))
                &&& pair_view(pair) == p
                &&& pair.0 is Identifier
                &&& rest@ == s@.subrange(j, s@.len() as int)
            }),
            Err(_) => (spec_dot_identifier(s@, 0) is None),
        }),
{
    let cs = to_chars(s);
    match parse_dot_at(&cs, 0) {
        Some(((id, opt), j)) => {
            let optsel: Option<Selector> = match opt {
                Some(n) => Some(Selector::Index(n)),
                None => None,
            };
            Ok((rest_string(&cs, j), (Selector::Identifier(id), optsel)))
        },
        None => Err(perr(&cs, 0, "expected a dot and an identifier")),
    }
}

/// Parses as many dot-identifier groups as the input offers; never fails.
pub fn parse_many_identifiers(s: &str) -> (r: Result<
    (String, Vec<(Selector, Option<Selector>)>),
    ParseError,
>)
    ensures
        (match r {
            Ok((rest, list)) => ({
                let (lv, k) = spec_many_identifiers(
                    s@,
                    0,
                    Seq::<(Seq<char>, Option<usize>)>::empty(),
                );
                pairs_view(list@) == lv && rest@ == s@.subrange(k, s@.len() as int)
            }),
            Err(_) => false,
        }),
{
    let cs = to_chars(s);
    let acc: Vec<(Selector, Option<Selector>)> = Vec::new();
    proof {
        assert(pairs_view(acc@) =~= Seq::<(Seq<char>, Option<usize>)>::empty());
    }
    let (list, k) = parse_many_at(&cs, 0, acc);
    Ok((rest_string(&cs, k), list))
}

/// Parses a full selector path; the remainder is returned beside it.
pub fn parse_json_selector(s: &str) -> (r: Result<(String, Vec<Selector>), ParseError>)
    ensures
        (match r {
            Ok((rest, sels)) => ({
                &&& spec_json_selector(s@, 0) matches Some((sv, j))
                &&& sels_view(sels@) == sv
                &&& rest@ == s@.subrange(j, s@.len() as int)
            }),
            Err(_) => (spec_json_selector(s@, 0) is None),
        }),
{
    let cs = to_chars(s);
    match parse_json_selector_at(&cs, 0) {
        Some((sels, j)) => Ok((rest_string(&cs, j), sels)),
        None => Err(perr(&cs, 0, "could not parse the selector path")),
    }
}

/// Parses a comparison operator; the remainder is returned beside it.
pub fn parse_comparator(s: &str) -> (r: Result<(String, Comparator), ParseError>)
    ensures
        (match r {
            Ok((rest, c)) => ({
                &&& spec_comparator(s@, 0) matches Some((cc, j))
                &&& c == cc
                &&& rest@ == s@.subrange(j, s@.len() as int)
            }),
            Err(_) => (spec_comparator(s@, 0) is None),
        }),
{
    let cs = to_chars(s);
    match parse_comparator_at(&cs, 0) {
        Some((c, j)) => Ok((rest_string(&cs, j), c)),
        None => Err(perr(&cs, 0, "expected a comparison operator")),
    }
}

/// Parses an unsigned literal covering the whole input.
pub fn parse_value_u64(s: &str) -> (r: Result<(String, u64), ParseError>)
    ensures
        (match r {
            Ok((rest, v)) => spec_lit_u64(s@) == Some(v) && rest@.len() == 0,
            Err(_) => (spec_lit_u64(s@) is None),
        }),
{
    let cs = to_chars(s);
    match parse_lit_u64(&cs) {
        Some(v) => Ok((String::new(), v)),
        None => Err(perr(&cs, 0, "expected an unsigned integer")),
    }
}

/// Parses a decimal literal covering the whole input.
pub fn parse_value_f64(s: &str) -> (r: Result<(String, Dec), ParseError>)
    ensures
        (match r {
            Ok((rest, v)) => spec_lit_dec(s@) == Some(v) && rest@.len() == 0,
            Err(_) => (spec_lit_dec(s@) is None),
        }),
{
    let cs = to_chars(s);
    match parse_lit_dec(&cs) {
        Some(v) => Ok((String::new(), v)),
        None => Err(perr(&cs, 0, "expected a decimal number")),
    }
}

/// Takes the whole input as a string literal; never fails.
pub fn parse_value_string(s: &str) -> (r: Result<(String, String), ParseError>)
    ensures
        (match r {
            Ok((rest, v)) => v@ == s@ && rest@.len() == 0,
            Err(_) => false,
        }),
{
    Ok((String::new(), s.to_owned()))
}


/// A comparison operator, optional spaces, and an unsigned literal.
pub open spec fn spec_compare_u64(s: Seq<char>, i: int) -> Option<(Comparator, u64)> {
    match spec_comparator(s, i) {
        None => None,
        Some((c, j)) => {
            let k = ws_end(s, j);
            match spec_lit_u64(s.subrange(k, s.len() as int)) {
                Some(v) => Some((c, v)),
                None => None,
            }
        },
    }
}

/// A selector path, optional spaces, and a u64 comparison.
pub open spec fn spec_selector_u64(s: Seq<char>) -> Option<(Seq<SelV>, Comparator, u64)> {
    match spec_json_selector(s, 0) {
        None => None,
        Some((sels, j)) => {
            let k = ws_end(s, j);
            match spec_compare_u64(s, k) {
                Some((c, v)) => Some((sels, c, v)),
                None => None,
            }
        },
    }
}

/// Parses a u64 comparison at `i`.
fn compare_u64_at(cs: &Vec<char>, i: usize) -> (r: Option<Compare<u64>>)
    requires
        i <= cs@.len(),
    ensures
        (match r {
            Some(c) => spec_compare_u64(cs@, i as int) == Some((c.comparator, c.value)),
            None => (spec_compare_u64(cs@, i as int) is None),
        }),
{
    match parse_comparator_at(cs, i) {
        None => None,
        Some((c, j)) => {
            let k = skip_ws(cs, j);
            let mut lit: Vec<char> = Vec::new();
            crate::number::push_range(cs, k, cs.len(), &mut lit);
            match parse_lit_u64(&lit) {
                Some(v) => Some(Compare { comparator: c, value: v }),
                None => None,
            }
        },
    }
}

/// Parses a u64 comparison covering the whole input.
pub fn parse_compare_u64(s: &str) -> (r: Result<(String, Compare<u64>), ParseError>)
    ensures
        (match r {
            Ok((rest, c)) => spec_compare_u64(s@, 0) == Some((c.comparator, c.value))
                && rest@.len() == 0,
            Err(_) => (spec_compare_u64(s@, 0) is None),
        }),
{
    let cs = to_chars(s);
    match compare_u64_at(&cs, 0) {
        Some(c) => Ok((String::new(), c)),
        None => Err(perr(&cs, 0, "could not parse the comparison")),
    }
}

/// Parses a selector path followed by a u64 comparison.
pub fn parse_selector_u64(s: &str) -> (r: Result<
    (String, (Compare<u64>, Vec<Selector>)),
    ParseError,
>)
    ensures
        (match r {
            Ok((rest, (c, sels))) => ({
                &&& spec_selector_u64(s@) matches Some((sv, cc, vv))
                &&& sels_view(sels@) == sv
                &&& c.comparator == cc
                &&& c.value == vv
                &&& rest@.len() == 0
            }),
            Err(_) => (spec_selector_u64(s@) is None),
        }),
{
    let cs = to_chars(s);
    match parse_json_selector_at(&cs, 0) {
        None => Err(perr(&cs, 0, "could not parse the selector path")),
        Some((sels, j)) => {
            let k = skip_ws(&cs, j);
            match compare_u64_at(&cs, k) {
                Some(c) => Ok((String::new(), (c, sels))),
                None => Err(perr(&cs, j, "could not parse the comparison")),
            }
        },
    }
}

/// A comparison operator, optional spaces, and a signed literal.
pub open spec fn spec_compare_i64(s: Seq<char>, i: int) -> Option<(Comparator, i64)> {
    match spec_comparator(s, i) {
        None => None,
        Some((c, j)) => {
            let k = ws_end(s, j);
            match crate::selector::spec_lit_i64(s.subrange(k, s.len() as int)) {
                Some(v) => Some((c, v)),
                None => None,
            }
        },
    }
}

/// A selector path, optional spaces, and a i64 comparison.
pub open spec fn spec_selector_i64(s: Seq<char>) -> Option<(Seq<SelV>, Comparator, i64)> {
    match spec_json_selector(s, 0) {
        None => None,
        Some((sels, j)) => {
            let k = ws_end(s, j);
            match spec_compare_i64(s, k) {
                Some((c, v)) => Some((sels, c, v)),
                None => None,
            }
        },
    }
}

/// Parses a i64 comparison at `i`.
fn compare_i64_at(cs: &Vec<char>, i: usize) -> (r: Option<Compare<i64>>)
    requires
        i <= cs@.len(),
    ensures
        (match r {
            Some(c) => spec_compare_i64(cs@, i as int) == Some((c.comparator, c.value)),
            None => (spec_compare_i64(cs@, i as int) is None),
        }),
{
    match parse_comparator_at(cs, i) {
        None => None,
        Some((c, j)) => {
            let k = skip_ws(cs, j);
            let mut lit: Vec<char> = Vec::new();
            crate::number::push_range(cs, k, cs.len(), &mut lit);
            match crate::selector::parse_lit_i64(&lit) {
                Some(v) => Some(Compare { comparator: c, value: v }),
                None => None,
            }
        },
    }
}

/// Parses a i64 comparison covering the whole input.
pub fn parse_compare_i64(s: &str) -> (r: Result<(String, Compare<i64>), ParseError>)
    ensures
        (match r {
            Ok((rest, c)) => spec_compare_i64(s@, 0) == Some((c.comparator, c.value))
                && rest@.len() == 0,
            Err(_) => (spec_compare_i64(s@, 0) is None),
        }),
{
    let cs = to_chars(s);
    match compare_i64_at(&cs, 0) {
        Some(c) => Ok((String::new(), c)),
        None => Err(perr(&cs, 0, "could not parse the comparison")),
    }
}

/// Parses a selector path followed by a i64 comparison.
pub fn parse_selector_i64(s: &str) -> (r: Result<
    (String, (Compare<i64>, Vec<Selector>)),
    ParseError,
>)
    ensures
        (match r {
            Ok((rest, (c, sels))) => ({
                &&& spec_selector_i64(s@) matches Some((sv, cc, vv))
                &&& sels_view(sels@) == sv
                &&& c.comparator == cc
                &&& c.value == vv
                &&& rest@.len() == 0
            }),
            Err(_) => (spec_selector_i64(s@) is None),
        }),
{
    let cs = to_chars(s);
    match parse_json_selector_at(&cs, 0) {
        None => Err(perr(&cs, 0, "could not parse the selector path")),
        Some((sels, j)) => {
            let k = skip_ws(&cs, j);
            match compare_i64_at(&cs, k) {
                Some(c) => Ok((String::new(), (c, sels))),
                None => Err(perr(&cs, j, "could not parse the comparison")),
            }
        },
    }
}

/// A comparison operator, optional spaces, and a decimal literal.
pub open spec fn spec_compare_f64(s: Seq<char>, i: int) -> Option<(Comparator, Dec)> {
    match spec_comparator(s, i) {
        None => None,
        Some((c, j)) => {
            let k = ws_end(s, j);
            match spec_lit_dec(s.subrange(k, s.len() as int)) {
                Some(v) => Some((c, v)),
                None => None,
            }
        },
    }
}

/// A selector path, optional spaces, and a f64 comparison.
pub open spec fn spec_selector_f64(s: Seq<char>) -> Option<(Seq<SelV>, Comparator, Dec)> {
    match spec_json_selector(s, 0) {
        None => None,
        Some((sels, j)) => {
            let k = ws_end(s, j);
            match spec_compare_f64(s, k) {
                Some((c, v)) => Some((sels, c, v)),
                None => None,
            }
        },
    }
}

/// Parses a f64 comparison at `i`.
fn compare_f64_at(cs: &Vec<char>, i: usize) -> (r: Option<Compare<Dec>>)
    requires
        i <= cs@.len(),
    ensures
        (match r {
            Some(c) => spec_compare_f64(cs@, i as int) == Some((c.comparator, c.value)),
            None => (spec_compare_f64(cs@, i as int) is None),
        }),
{
    match parse_comparator_at(cs, i) {
        None => None,
        Some((c, j)) => {
            let k = skip_ws(cs, j);
            let mut lit: Vec<char> = Vec::new();
            crate::number::push_range(cs, k, cs.len(), &mut lit);
            match parse_lit_dec(&lit) {
                Some(v) => Some(Compare { comparator: c, value: v }),
                None => None,
            }
        },
    }
}

/// Parses a f64 comparison covering the whole input.
pub fn parse_compare_f64(s: &str) -> (r: Result<(String, Compare<Dec>), ParseError>)
    ensures
        (match r {
            Ok((rest, c)) => spec_compare_f64(s@, 0) == Some((c.comparator, c.value))
                && rest@.len() == 0,
            Err(_) => (spec_compare_f64(s@, 0) is None),
        }),
{
    let cs = to_chars(s);
    match compare_f64_at(&cs, 0) {
        Some(c) => Ok((String::new(), c)),
        None => Err(perr(&cs, 0, "could not parse the comparison")),
    }
}

/// Parses a selector path followed by a f64 comparison.
pub fn parse_selector_f64(s: &str) -> (r: Result<
    (String, (Compare<Dec>, Vec<Selector>)),
    ParseError,
>)
    ensures
        (match r {
            Ok((rest, (c, sels))) => ({
                &&& spec_selector_f64(s@) matches Some((sv, cc, vv))
                &&& sels_view(sels@) == sv
                &&& c.comparator == cc
                &&& c.value == vv
                &&& rest@.len() == 0
            }),
            Err(_) => (spec_selector_f64(s@) is None),
        }),
{
    let cs = to_chars(s);
    match parse_json_selector_at(&cs, 0) {
        None => Err(perr(&cs, 0, "could not parse the selector path")),
        Some((sels, j)) => {
            let k = skip_ws(&cs, j);
            match compare_f64_at(&cs, k) {
                Some(c) => Ok((String::new(), (c, sels))),
                None => Err(perr(&cs, j, "could not parse the comparison")),
            }
        },
    }
}

/// A comparison operator, optional spaces, and a boolean literal.
pub open spec fn spec_compare_bool(s: Seq<char>, i: int) -> Option<(Comparator, bool)> {
    match spec_comparator(s, i) {
        None => None,
        Some((c, j)) => {
            let k = ws_end(s, j);
            match spec_lit_bool(s.subrange(k, s.len() as int)) {
                Some(v) => Some((c, v)),
                None => None,
            }
        },
    }
}

/// A selector path, optional spaces, and a bool comparison.
pub open spec fn spec_selector_bool(s: Seq<char>) -> Option<(Seq<SelV>, Comparator, bool)> {
    match spec_json_selector(s, 0) {
        None => None,
        Some((sels, j)) => {
            let k = ws_end(s, j);
            match spec_compare_bool(s, k) {
                Some((c, v)) => Some((sels, c, v)),
                None => None,
            }
        },
    }
}

/// Parses a bool comparison at `i`.
fn compare_bool_at(cs: &Vec<char>, i: usize) -> (r: Option<Compare<bool>>)
    requires
        i <= cs@.len(),
    ensures
        (match r {
            Some(c) => spec_compare_bool(cs@, i as int) == Some((c.comparator, c.value)),
            None => (spec_compare_bool(cs@, i as int) is None),
        }),
{
    match parse_comparator_at(cs, i) {
        None => None,
        Some((c, j)) => {
            let k = skip_ws(cs, j);
            let mut lit: Vec<char> = Vec::new();
            crate::number::push_range(cs, k, cs.len(), &mut lit);
            match parse_lit_bool(&lit) {
                Some(v) => Some(Compare { comparator: c, value: v }),
                None => None,
            }
        },
    }
}

/// Parses a bool comparison covering the whole input.
pub fn parse_compare_bool(s: &str) -> (r: Result<(String, Compare<bool>), ParseError>)
    ensures
        (match r {
            Ok((rest, c)) => spec_compare_bool(s@, 0) == Some((c.comparator, c.value))
                && rest@.len() == 0,
            Err(_) => (spec_compare_bool(s@, 0) is None),
        }),
{
    let cs = to_chars(s);
    match compare_bool_at(&cs, 0) {
        Some(c) => Ok((String::new(), c)),
        None => Err(perr(&cs, 0, "could not parse the comparison")),
    }
}

/// Parses a selector path followed by a bool comparison.
pub fn parse_selector_bool(s: &str) -> (r: Result<
    (String, (Compare<bool>, Vec<Selector>)),
    ParseError,
>)
    ensures
        (match r {
            Ok((rest, (c, sels))) => ({
                &&& spec_selector_bool(s@) matches Some((sv, cc, vv))
                &&& sels_view(sels@) == sv
                &&& c.comparator == cc
                &&& c.value == vv
                &&& rest@.len() == 0
            }),
            Err(_) => (spec_selector_bool(s@) is None),
        }),
{
    let cs = to_chars(s);
    match parse_json_selector_at(&cs, 0) {
        None => Err(perr(&cs, 0, "could not parse the selector path")),
        Some((sels, j)) => {
            let k = skip_ws(&cs, j);
            match compare_bool_at(&cs, k) {
                Some(c) => Ok((String::new(), (c, sels))),
                None => Err(perr(&cs, j, "could not parse the comparison")),
            }
        },
    }
}

/// A comparison operator, optional spaces, and the rest as a string.
pub open spec fn spec_compare_string(s: Seq<char>, i: int) -> Option<(Comparator, Seq<char>)> {
    match spec_comparator(s, i) {
        None => None,
        Some((c, j)) => {
            let k = ws_end(s, j);
            Some((c, s.subrange(k, s.len() as int)))
        },
    }
}

/// A selector path, optional spaces, and a string comparison.
pub open spec fn spec_selector_string(s: Seq<char>) -> Option<(Seq<SelV>, Comparator, Seq<char>)> {
    match spec_json_selector(s, 0) {
        None => None,
        Some((sels, j)) => {
            let k = ws_end(s, j);
            match spec_compare_string(s, k) {
                Some((c, v)) => Some((sels, c, v)),
                None => None,
            }
        },
    }
}

/// Parses a string comparison at `i`.
fn compare_string_at(cs: &Vec<char>, i: usize) -> (r: Option<Compare<String>>)
    requires
        i <= cs@.len(),
    ensures
        (match r {
            Some(c) => spec_compare_string(cs@, i as int) == Some((c.comparator, c.value@)),
            None => (spec_compare_string(cs@, i as int) is None),
        }),
{
    match parse_comparator_at(cs, i) {
        None => None,
        Some((c, j)) => {
            let k = skip_ws(cs, j);
            Some(Compare { comparator: c, value: rest_string(cs, k) })
        },
    }
}

/// Parses a string comparison covering the whole input.
pub fn parse_compare_string(s: &str) -> (r: Result<(String, Compare<String>), ParseError>)
    ensures
        (match r {
            Ok((rest, c)) => spec_compare_string(s@, 0) == Some((c.comparator, c.value@))
                && rest@.len() == 0,
            Err(_) => (spec_compare_string(s@, 0) is None),
        }),
{
    let cs = to_chars(s);
    match compare_string_at(&cs, 0) {
        Some(c) => Ok((String::new(), c)),
        None => Err(perr(&cs, 0, "could not parse the comparison")),
    }
}

/// Parses a selector path followed by a string comparison.
pub fn parse_selector_string(s: &str) -> (r: Result<
    (String, (Compare<String>, Vec<Selector>)),
    ParseError,
>)
    ensures
        (match r {
            Ok((rest, (c, sels))) => ({
                &&& spec_selector_string(s@) matches Some((sv, cc, vv))
                &&& sels_view(sels@) == sv
                &&& c.comparator == cc
                &&& c.value@ == vv
                &&& rest@.len() == 0
            }),
            Err(_) => (spec_selector_string(s@) is None),
        }),
{
    let cs = to_chars(s);
    match parse_json_selector_at(&cs, 0) {
        None => Err(perr(&cs, 0, "could not parse the selector path")),
        Some((sels, j)) => {
            let k = skip_ws(&cs, j);
            match compare_string_at(&cs, k) {
                Some(c) => Ok((String::new(), (c, sels))),
                None => Err(perr(&cs, j, "could not parse the comparison")),
            }
        },
    }
}

/// A comparison operator, optional spaces, and a null literal.
pub open spec fn spec_compare_null(s: Seq<char>, i: int) -> Option<Comparator> {
    match spec_comparator(s, i) {
        None => None,
        Some((c, j)) => {
            let k = ws_end(s, j);
            if spec_lit_null(s.subrange(k, s.len() as int)) {
                Some(c)
            } else {
                None
            }
        },
    }
}

/// A selector path, optional spaces, and a null comparison.
pub open spec fn spec_selector_null(s: Seq<char>) -> Option<(Seq<SelV>, Comparator)> {
    match spec_json_selector(s, 0) {
        None => None,
        Some((sels, j)) => {
            let k = ws_end(s, j);
            match spec_compare_null(s, k) {
                Some(c) => Some((sels, c)),
                None => None,
            }
        },
    }
}

/// Parses a null comparison at `i`.
fn compare_null_at(cs: &Vec<char>, i: usize) -> (r: Option<Compare<Null>>)
    requires
        i <= cs@.len(),
    ensures
        (match r {
            Some(c) => spec_compare_null(cs@, i as int) == Some(c.comparator) && c.value is None,
            None => (spec_compare_null(cs@, i as int) is None),
        }),
{
    match parse_comparator_at(cs, i) {
        None => None,
        Some((c, j)) => {
            let k = skip_ws(cs, j);
            let mut lit: Vec<char> = Vec::new();
            crate::number::push_range(cs, k, cs.len(), &mut lit);
            if parse_lit_null(&lit) {
                Some(Compare { comparator: c, value: None })
            } else {
                None
            }
        },
    }
}

/// Parses a null comparison covering the whole input.
pub fn parse_compare_null(s: &str) -> (r: Result<(String, Compare<Null>), ParseError>)
    ensures
        (match r {
            Ok((rest, c)) => spec_compare_null(s@, 0) == Some(c.comparator) && c.value is None
                && rest@.len() == 0,
            Err(_) => (spec_compare_null(s@, 0) is None),
        }),
{
    let cs = to_chars(s);
    match compare_null_at(&cs, 0) {
        Some(c) => Ok((String::new(), c)),
        None => Err(perr(&cs, 0, "could not parse the comparison")),
    }
}

/// Parses a selector path followed by a null comparison.
pub fn parse_selector_null(s: &str) -> (r: Result<
    (String, (Compare<Null>, Vec<Selector>)),
    ParseError,
>)
    ensures
        (match r {
            Ok((rest, (c, sels))) => ({
                &&& spec_selector_null(s@) matches Some((sv, cc))
                &&& sels_view(sels@) == sv
                &&& c.comparator == cc
                &&& c.value is None
                &&& rest@.len() == 0
            }),
            Err(_) => (spec_selector_null(s@) is None),
        }),
{
    let cs = to_chars(s);
    match parse_json_selector_at(&cs, 0) {
        None => Err(perr(&cs, 0, "could not parse the selector path")),
        Some((sels, j)) => {
            let k = skip_ws(&cs, j);
            match compare_null_at(&cs, k) {
                Some(c) => Ok((String::new(), (c, sels))),
                None => Err(perr(&cs, j, "could not parse the comparison")),
            }
        },
    }
}


/// The operator a whole token spells, if any.
pub fn comparator(c: &str) -> (r: Option<Comparator>)
    ensures
        r == crate::selector::comparator_of(c@),
{
    crate::selector::comparator_token(c)
}

} // verus!
