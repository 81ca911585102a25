//! The earlier form of the selector expression parser: identifiers are
//! kept as written (no quote wrapping), a path needs at least one
//! dot-identifier, indexes are plain integers, and comparisons test a
//! candidate given as text.

use vstd::prelude::*;

use crate::json::{skip_ws, ws_end};
use crate::number::Dec;
use crate::selector::{
    ident_run_end, parse_comparator_at, parse_index_at, parse_lit_dec, parse_lit_u64, rel_match,
    rel_matches, scan_ident, spec_comparator, spec_index, spec_lit_dec, spec_lit_u64,
};
use crate::text::{chars_cmp, chars_to_string, cmp_chars, to_chars, Rel};

pub use crate::selector::Comparator;

verus! {

/// A selection of one array element by position.
#[derive(Debug, PartialEq, Clone)]
pub struct ArraySelection {
    pub index: u64,
}

impl ArraySelection {
    /// The selected position.
    pub fn index(&self) -> (r: usize)
        ensures
            self.index <= usize::MAX as u64 ==> r as int == self.index as int,
    {
        #[verifier::truncate]
        (self.index as usize)
    }
}

/// One step of a selector path.
#[derive(Debug, PartialEq, Clone)]
pub enum Identifier {
    Identifier(String),
    ArraySelection(ArraySelection),
}

/// The model of a path step.
pub enum IdentV {
    Identifier(Seq<char>),
    ArraySelection(u64),
}

impl View for Identifier {
    type V = IdentV;

    open spec fn view(&self) -> IdentV {
        match self {
            Identifier::Identifier(s) => IdentV::Identifier(s@),
            Identifier::ArraySelection(a) => IdentV::ArraySelection(a.index),
        }
    }
}

/// The models of a list of path steps.
pub open spec fn ids_view(s: Seq<Identifier>) -> Seq<IdentV>
    decreases s.len(),
{
    if s.len() == 0 {
        Seq::<IdentV>::empty()
    } else {
        ids_view(s.drop_last()).push(s.last()@)
    }
}

/// The list model maps each step to its model.
pub proof fn lemma_ids_view(s: Seq<Identifier>)
    ensures
        ids_view(s).len() == s.len(),
        forall|i: int| 0 <= i < s.len() ==> #[trigger] ids_view(s)[i] == s[i]@,
    decreases s.len(),
{
    if s.len() > 0 {
        lemma_ids_view(s.drop_last());
    }
}

/// The error reported for an expression that does not parse.
#[derive(Debug, PartialEq)]
pub struct PathError {
    pub remainder: String,
    pub message: String,
}

/// The self reference `d`, optionally followed by an index.
pub open spec fn spec_self_signifier(s: Seq<char>, i: int) -> Option<(Option<u64>, int)> {
    if i < s.len() && s[i] == 'd' {
        match spec_index(s, i + 1) {
            Some((n, j)) => Some((Some(n), j)),
            None => Some((None, i + 1)),
        }
    } else {
        None
    }
}

/// A dot, a nonempty identifier kept as written, and an optional index.
pub open spec fn spec_dot_identifier(s: Seq<char>, i: int) -> Option<
    ((Seq<char>, Option<u64>), int),
> {
    if i < s.len() && s[i] == '.' {
        let e = ident_run_end(s, i + 1);
        if e == i + 1 {
            None
        } else {
            let ident = s.subrange(i + 1, e);
            match spec_index(s, e) {
                Some((n, j)) => Some(((ident, Some(n)), j)),
                None => Some(((ident, None), e)),
            }
        }
    } else {
        None
    }
}

/// As many dot-identifier groups as the input offers, appended to `acc`.
pub open spec fn spec_many_identifiers(
    s: Seq<char>,
    i: int,
    acc: Seq<(Seq<char>, Option<u64>)>,
) -> (Seq<(Seq<char>, Option<u64>)>, int)
    decreases s.len() - i,
{
    match spec_dot_identifier(s, i) {
        Some(((id, opt), j)) => if i < j <= s.len() {
            spec_many_identifiers(s, j, acc.push((id, opt)))
        } else {
            (acc, i)
        },
        None => (acc, i),
    }
}

/// The flattened path: the optional leading index, then each identifier
/// followed by its optional index.
pub open spec fn spec_combine(first: Option<u64>, list: Seq<(Seq<char>, Option<u64>)>) -> Seq<
    IdentV,
>
    decreases list.len(),
{
    let head: Seq<IdentV> = match first {
        Some(n) => seq![IdentV::ArraySelection(n)],
        None => Seq::<IdentV>::empty(),
    };
    if list.len() == 0 {
        head
    } else {
        let rest = spec_combine(first, list.drop_last());
        let last = list.last();
        match last.1 {
            Some(n) => rest.push(IdentV::Identifier(last.0)).push(IdentV::ArraySelection(n)),
            None => rest.push(IdentV::Identifier(last.0)),
        }
    }
}

/// A full selector path: the self reference, then at least one
/// dot-identifier group.
pub open spec fn spec_json_selector(s: Seq<char>, i: int) -> Option<(Seq<IdentV>, int)> {
    match spec_self_signifier(s, i) {
        None => None,
        Some((first, j)) => match spec_dot_identifier(s, j) {
            None => None,
            Some(_) => {
                let (list, k) = spec_many_identifiers(
                    s,
                    j,
                    Seq::<(Seq<char>, Option<u64>)>::empty(),
                );
                Some((spec_combine(first, list), k))
            },
        },
    }
}

/// Parses the self reference at `i`.
fn parse_self_at(s: &Vec<char>, i: usize) -> (r: Option<(Option<u64>, usize)>)
    requires
        i <= s@.len(),
    ensures
        (match r {
            Some((first, j)) => spec_self_signifier(s@, i as int) == Some((first, j as int)) && i
                < j <= s@.len(),
            None => (spec_self_signifier(s@, i as int) is None),
        }),
{
    if i < s.len() && s[i] == 'd' {
        match parse_index_at(s, i + 1) {
            Some((n, j)) => Some((Some(n), j)),
            None => Some((None, i + 1)),
        }
    } else {
        None
    }
}

/// Parses one dot-identifier group at `i`.
fn parse_dot_at(s: &Vec<char>, i: usize) -> (r: Option<((String, Option<u64>), usize)>)
    requires
        i <= s@.len(),
    ensures
        (match r {
            Some(((id, opt), j)) => spec_dot_identifier(s@, i as int) == Some(
                ((id@, opt), j as int),
            ) && i < j <= s@.len(),
            None => (spec_dot_identifier(s@, i as int) is None),
        }),
{
    if i < s.len() && s[i] == '.' {
        let e = scan_ident(s, i + 1);
        if e == i + 1 {
            return None;
        }
        let mut idc: Vec<char> = Vec::new();
        crate::number::push_range(s, i + 1, e, &mut idc);
        let id = chars_to_string(&idc);
        match parse_index_at(s, e) {
            Some((n, j)) => Some(((id, Some(n)), j)),
            None => Some(((id, None), e)),
        }
    } else {
        None
    }
}

/// The models of a list of identifier groups.
pub open spec fn pairs_view(s: Seq<(Identifier, Option<ArraySelection>)>) -> Seq<
    (Seq<char>, Option<u64>),
>
    decreases s.len(),
{
    if s.len() == 0 {
        Seq::<(Seq<char>, Option<u64>)>::empty()
    } else {
        pairs_view(s.drop_last()).push(pair_view(s.last()))
    }
}

/// The model of one identifier group.
pub open spec fn pair_view(p: (Identifier, Option<ArraySelection>)) -> (Seq<char>, Option<u64>) {
    (
        match p.0 {
            Identifier::Identifier(t) => t@,
            Identifier::ArraySelection(_) => Seq::<char>::empty(),
        },
        match p.1 {
            Some(a) => Some(a.index),
            None => None,
        },
    )
}

/// The group list model maps each group to its model.
pub proof fn lemma_pairs_view(s: Seq<(Identifier, Option<ArraySelection>)>)
    ensures
        pairs_view(s).len() == s.len(),
        forall|i: int| 0 <= i < s.len() ==> #[trigger] pairs_view(s)[i] == pair_view(s[i]),
    decreases s.len(),
{
    if s.len() > 0 {
        lemma_pairs_view(s.drop_last());
    }
}

/// Parses identifier groups from `i`, appending to `acc`.
fn parse_many_at(s: &Vec<char>, i: usize, acc: Vec<(Identifier, Option<ArraySelection>)>) -> (r: (
    Vec<(Identifier, Option<ArraySelection>)>,
    usize,
))
    requires
        i <= s@.len(),
        forall|j: int| 0 <= j < acc@.len() ==> (#[trigger] acc@[j]).0 is Identifier,
    ensures
        ({
            let (list, k) = spec_many_identifiers(s@, i as int, pairs_view(acc@));
            pairs_view(r.0@) == list && r.1 as int == k && i <= r.1 <= s@.len()
        }),
        forall|j: int| 0 <= j < r.0@.len() ==> (#[trigger] r.0@[j]).0 is Identifier,
    decreases s@.len() - i,
{
    match parse_dot_at(s, i) {
        Some(((id, opt), j)) => {
            let mut acc2 = acc;
            let ghost p0 = pairs_view(acc2@);
            let optsel: Option<ArraySelection> = match opt {
                Some(n) => Some(ArraySelection { index: n }),
                None => None,
            };
            acc2.push((Identifier::Identifier(id), optsel));
            proof {
                assert(acc2@.drop_last() =~= acc@);
                assert(pairs_view(acc2@) == p0.push(pair_view(acc2@.last())));
            }
            parse_many_at(s, j, acc2)
        },
        None => (acc, i),
    }
}

/// Flattens the self-reference index and the identifier groups into one
/// path, an identifier before its index.
pub fn combine_identifiers(
    first: Option<ArraySelection>,
    next: Vec<(Identifier, Option<ArraySelection>)>,
) -> (r: Vec<Identifier>)
    requires
        forall|j: int| 0 <= j < next@.len() ==> (#[trigger] next@[j]).0 is Identifier,
    ensures
        ids_view(r@) == spec_combine(
            match first {
                Some(a) => Some(a.index),
                None => None,
            },
            pairs_view(next@),
        ),
{
    let ghost firstv: Option<u64> = match first {
        Some(ref a) => Some(a.index),
        None => None,
    };
    let mut items: Vec<Identifier> = Vec::new();
    if let Some(f) = first {
        items.push(Identifier::ArraySelection(f));
    }
    proof {
        assert(pairs_view(next@.subrange(0, 0)) =~= Seq::<(Seq<char>, Option<u64>)>::empty());
        assert(ids_view(Seq::<Identifier>::empty()) == Seq::<IdentV>::empty());
        if firstv is Some {
            assert(items@.len() == 1);
            assert(items@.drop_last() =~= Seq::<Identifier>::empty());
        } else {
            assert(items@ =~= Seq::<Identifier>::empty());
        }
        assert(ids_view(items@) =~= spec_combine(firstv, pairs_view(next@.subrange(0, 0))));
    }
    let mut i: usize = 0;
    while i < next.len()
        invariant
            i <= next@.len(),
            ids_view(items@) == spec_combine(firstv, pairs_view(next@.subrange(0, i as int))),
            forall|j: int| 0 <= j < next@.len() ==> (#[trigger] next@[j]).0 is Identifier,
        decreases next@.len() - i,
    {
        let (ident, optional_second) = {
            let p = &next[i];
            (
                match &p.0 {
                    Identifier::Identifier(t) => Identifier::Identifier(
                        chars_to_string(&to_chars(t.as_str())),
                    ),
                    Identifier::ArraySelection(a) => Identifier::ArraySelection(
                        ArraySelection { index: a.index },
                    ),
                },
                match &p.1 {
                    Some(a) => Some(ArraySelection { index: a.index }),
                    None => None,
                },
            )
        };
        let ghost identv = ident@;
        let ghost optv: Option<IdentV> = match optional_second {
            Some(ref a) => Some(IdentV::ArraySelection(a.index)),
            None => None,
        };
        proof {
            assert(identv == IdentV::Identifier(pair_view(next@[i as int]).0));
            assert(optv == (match pair_view(next@[i as int]).1 {
                Some(n) => Some(IdentV::ArraySelection(n)),
                None => None::<IdentV>,
            }));
        }
        let ghost items_before = items@;
        items.push(ident);
        proof {
            assert(items@.drop_last() =~= items_before);
            assert(ids_view(items@) == ids_view(items_before).push(identv));
        }
        let ghost items_mid = items@;
        if let Some(sec) = optional_second {
            items.push(Identifier::ArraySelection(sec));
            proof {
                assert(items@.drop_last() =~= items_mid);
                assert(ids_view(items@) == ids_view(items_mid).push(optv->0));
            }
        }
        i += 1;
        proof {
            let sub = next@.subrange(0, i as int);
            assert(sub.drop_last() =~= next@.subrange(0, i - 1));
            assert(pairs_view(sub) == pairs_view(sub.drop_last()).push(pair_view(sub.last())));
            assert(sub.last() == next@[i - 1]);
            let pv = pairs_view(sub);
            let pv_prev = pairs_view(next@.subrange(0, i - 1));
            assert(pv.len() > 0);
            assert(pv.drop_last() =~= pv_prev);
            assert(pv.last() == pair_view(next@[i - 1]));
            assert(spec_combine(firstv, pv) == (match pv.last().1 {
                Some(n) => spec_combine(firstv, pv_prev).push(
                    IdentV::Identifier(pv.last().0),
                ).push(IdentV::ArraySelection(n)),
                None => spec_combine(firstv, pv_prev).push(IdentV::Identifier(pv.last().0)),
            }));
            assert(ids_view(items@) =~= spec_combine(firstv, pairs_view(sub)));
        }
    }
    proof {
        assert(next@.subrange(0, next@.len() as int) =~= next@);
    }
    items
}

/// Parses a selector path at `i` in a character vector.
pub fn parse_json_selector_at(s: &Vec<char>, i: usize) -> (r: Option<(Vec<Identifier>, usize)>)
    requires
        i <= s@.len(),
    ensures
        (match r {
            Some((sels, j)) => spec_json_selector(s@, i as int) == Some(
                (ids_view(sels@), j as int),
            ) && i < j <= s@.len(),
            None => (spec_json_selector(s@, i as int) is None),
        }),
{
    match parse_self_at(s, i) {
        None => None,
        Some((first, j)) => {
            match parse_dot_at(s, j) {
                None => None,
                Some(_) => {
                    let acc: Vec<(Identifier, Option<ArraySelection>)> = Vec::new();
                    proof {
                        assert(pairs_view(acc@) =~= Seq::<(Seq<char>, Option<u64>)>::empty());
                    }
                    let (list, k) = parse_many_at(s, j, acc);
                    let firstsel: Option<ArraySelection> = match first {
                        Some(n) => Some(ArraySelection { index: n }),
                        None => None,
                    };
                    let sels = combine_identifiers(firstsel, list);
                    Some((sels, k))
                },
            }
        },
    }
}


/// A comparison operator paired with a typed literal, tested against
/// candidates given as text.
#[derive(Debug, PartialEq)]
pub struct Compare<T> {
    pub comparator: Comparator,
    pub value: T,
}

/// Whether an unsigned comparison holds of a candidate given as text.
pub open spec fn compare_text_u64_spec(cmp: Comparator, value: u64, s: Seq<char>) -> bool {
    match spec_lit_u64(s) {
        None => false,
        Some(o) => rel_matches(
            cmp,
            Some(crate::json_selector_parser::int_cmp(o as int, value as int)),
        ),
    }
}

/// Whether a decimal comparison holds of a candidate given as text.
pub open spec fn compare_text_dec_spec(cmp: Comparator, value: Dec, s: Seq<char>) -> bool {
    match spec_lit_dec(s) {
        None => false,
        Some(o) => rel_matches(cmp, Some(crate::number::dec_cmp_spec(o, value))),
    }
}

/// Whether a string comparison holds of a candidate given as text.
pub open spec fn compare_text_string_spec(cmp: Comparator, value: Seq<char>, s: Seq<char>) -> bool {
    rel_matches(cmp, Some(chars_cmp(s, value)))
}

impl Compare<u64> {
    /// Whether the candidate text satisfies this unsigned comparison.
    pub fn compare(&self, other: &str) -> (r: bool)
        ensures
            r == compare_text_u64_spec(self.comparator, self.value, other@),
    {
        let cs = to_chars(other);
        match parse_lit_u64(&cs) {
            None => false,
            Some(o) => {
                let rel = if o == self.value {
                    Rel::Equal
                } else if o < self.value {
                    Rel::Less
                } else {
                    Rel::Greater
                };
                rel_match(self.comparator, Some(rel))
            },
        }
    }
}

impl Compare<Dec> {
    /// Whether the candidate text satisfies this decimal comparison.
    pub fn compare(&self, other: &str) -> (r: bool)
        ensures
            r == compare_text_dec_spec(self.comparator, self.value, other@),
    {
        let cs = to_chars(other);
        match parse_lit_dec(&cs) {
            None => false,
            Some(o) => rel_match(self.comparator, Some(o.cmp_dec(&self.value))),
        }
    }
}

impl Compare<String> {
    /// Whether the candidate text satisfies this string comparison.
    pub fn compare(&self, other: &str) -> (r: bool)
        ensures
            r == compare_text_string_spec(self.comparator, self.value@, other@),
    {
        let c1 = to_chars(other);
        let c2 = to_chars(self.value.as_str());
        rel_match(self.comparator, Some(cmp_chars(&c1, &c2)))
    }
}

/// The characters of `s` from `from` on, as a string.
fn rest_string(s: &Vec<char>, from: usize) -> (r: String)
    requires
        from <= s@.len(),
    ensures
        r@ == s@.subrange(from as int, s@.len() as int),
{
    let mut out: Vec<char> = Vec::new();
    crate::number::push_range(s, from, s.len(), &mut out);
    chars_to_string(&out)
}

/// An error carrying the unconsumed input and a message.
fn perr(s: &Vec<char>, from: usize, msg: &str) -> (r: PathError)
    requires
        from <= s@.len(),
    ensures
        r.remainder@ == s@.subrange(from as int, s@.len() as int),
{
    PathError { remainder: rest_string(s, from), message: msg.to_owned() }
}

/// Parses the self reference `d` with an optional index.
pub fn parse_self_signifier(s: &str) -> (r: Result<(String, Option<ArraySelection>), PathError>)
    ensures
        (match r {
            Ok((rest, first)) => ({
                &&& spec_self_signifier(s@, 0) matches Some((f, j))
                &&& (match first {
                    Some(a) => Some(a.index) == f,
                    None => f is None,
                })
                &&& rest@ == s@.subrange(j, s@.len() as int)
            }),
            Err(_) => (spec_self_signifier(s@, 0) is None),
        }),
{
    let cs = to_chars(s);
    match parse_self_at(&cs, 0) {
        Some((first, j)) => {
            let firstsel: Option<ArraySelection> = match first {
                Some(n) => Some(ArraySelection { index: n }),
                None => None,
            };
            Ok((rest_string(&cs, j), firstsel))
        },
        None => Err(perr(&cs, 0, "expected the self reference")),
    }
}

/// Parses one dot-identifier group.
pub fn parse_dot_plus_identifier(s: &str) -> (r: Result<
    (String, (Identifier, Option<ArraySelection>)),
    PathError,
>)
    ensures
        (match r {
            Ok((rest, pair)) => ({
                &&& spec_dot_identifier(s@, 0) matches Some((p, j))
                &&& pair_view(pair) == p
                &&& pair.0 is Identifier
                &&& rest@ == s@.subrange(j, s@.len() as int)
            }),
            Err(_) => (spec_dot_identifier(s@, 0) is None),
        }),
{
    let cs = to_chars(s);
    match parse_dot_at(&cs, 0) {
        Some(((id, opt), j)) => {
            let optsel: Option<ArraySelection> = match opt {
                Some(n) => Some(ArraySelection { index: n }),
                None => None,
            };
            Ok((rest_string(&cs, j), (Identifier::Identifier(id), optsel)))
        },
        None => Err(perr(&cs, 0, "expected a dot and an identifier")),
    }
}

/// Parses as many dot-identifier groups as the input offers; at least
/// one is required.
pub fn parse_many_identifiers(s: &str) -> (r: Result<
    (String, Vec<(Identifier, Option<ArraySelection>)>),
    PathError,
>)
    ensures
        (match r {
            Ok((rest, list)) => ({
                let (lv, k) = spec_many_identifiers(s@, 0, Seq::<(Seq<char>, Option<u64>)>::empty());
                &&& (spec_dot_identifier(s@, 0) is Some)
                &&& pairs_view(list@) == lv
                &&& rest@ == s@.subrange(k, s@.len() as int)
            }),
            Err(_) => (spec_dot_identifier(s@, 0) is None),
        }),
{
    let cs = to_chars(s);
    match parse_dot_at(&cs, 0) {
        None => Err(perr(&cs, 0, "expected a dot and an identifier")),
        Some(_) => {
            let acc: Vec<(Identifier, Option<ArraySelection>)> = Vec::new();
            proof {
                assert(pairs_view(acc@) =~= Seq::<(Seq<char>, Option<u64>)>::empty());
            }
            let (list, k) = parse_many_at(&cs, 0, acc);
            Ok((rest_string(&cs, k), list))
        },
    }
}

/// Parses a full selector path.
pub fn parse_json_selector(s: &str) -> (r: Result<(String, Vec<Identifier>), PathError>)
    ensures
        (match r {
            Ok((rest, sels)) => ({
                &&& spec_json_selector(s@, 0) matches Some((sv, j))
                &&& ids_view(sels@) == sv
                &&& rest@ == s@.subrange(j, s@.len() as int)
            }),
            Err(_) => (spec_json_selector(s@, 0) is None),
        }),
{
    let cs = to_chars(s);
    match parse_json_selector_at(&cs, 0) {
        Some((sels, j)) => Ok((rest_string(&cs, j), sels)),
        None => Err(perr(&cs, 0, "could not parse the selector path")),
    }
}

/// Parses a comparison operator.
pub fn parse_comparator(s: &str) -> (r: Result<(String, Comparator), PathError>)
    ensures
        (match r {
            Ok((rest, c)) => ({
                &&& spec_comparator(s@, 0) matches Some((cc, j))
                &&& c == cc
                &&& rest@ == s@.subrange(j, s@.len() as int)
            }),
            Err(_) => (spec_comparator(s@, 0) is None),
        }),
{
    let cs = to_chars(s);
    match parse_comparator_at(&cs, 0) {
        Some((c, j)) => Ok((rest_string(&cs, j), c)),
        None => Err(perr(&cs, 0, "expected a comparison operator")),
    }
}

/// Parses an unsigned literal covering the whole input.
pub fn parse_value_u64(s: &str) -> (r: Result<(String, u64), PathError>)
    ensures
        (match r {
            Ok((rest, v)) => spec_lit_u64(s@) == Some(v) && rest@.len() == 0,
            Err(_) => (spec_lit_u64(s@) is None),
        }),
{
    let cs = to_chars(s);
    match parse_lit_u64(&cs) {
        Some(v) => Ok((String::new(), v)),
        None => Err(perr(&cs, 0, "expected an unsigned integer")),
    }
}

/// Parses a decimal literal covering the whole input.
pub fn parse_value_f64(s: &str) -> (r: Result<(String, Dec), PathError>)
    ensures
        (match r {
            Ok((rest, v)) => spec_lit_dec(s@) == Some(v) && rest@.len() == 0,
            Err(_) => (spec_lit_dec(s@) is None),
        }),
{
    let cs = to_chars(s);
    match parse_lit_dec(&cs) {
        Some(v) => Ok((String::new(), v)),
        None => Err(perr(&cs, 0, "expected a decimal number")),
    }
}

/// Takes the whole input as a string literal; never fails.
pub fn parse_value_string(s: &str) -> (r: Result<(String, String), PathError>)
    ensures
        (match r {
            Ok((rest, v)) => v@ == s@ && rest@.len() == 0,
            Err(_) => false,
        }),
{
    Ok((String::new(), s.to_owned()))
}


/// A comparison operator, optional spaces, and an unsigned literal.
pub open spec fn spec_compare_u64(s: Seq<char>, i: int) -> Option<(Comparator, u64)> {
    match spec_comparator(s, i) {
        None => None,
        Some((c, j)) => {
            let k = ws_end(s, j);
            match spec_lit_u64(s.subrange(k, s.len() as int)) {
                Some(v) => Some((c, v)),
                None => None,
            }
        },
    }
}

/// A selector path, optional spaces, and a u64 comparison.
pub open spec fn spec_selector_u64(s: Seq<char>) -> Option<(Seq<IdentV>, Comparator, u64)> {
    match spec_json_selector(s, 0) {
        None => None,
        Some((sels, j)) => {
            let k = ws_end(s, j);
            match spec_compare_u64(s, k) {
                Some((c, v)) => Some((sels, c, v)),
                None => None,
            }
        },
    }
}

/// Parses a u64 comparison at `i`.
fn compare_u64_at(cs: &Vec<char>, i: usize) -> (r: Option<Compare<u64>>)
    requires
        i <= cs@.len(),
    ensures
        (match r {
            Some(c) => spec_compare_u64(cs@, i as int) == Some((c.comparator, c.value)),
            None => (spec_compare_u64(cs@, i as int) is None),
        }),
{
    match parse_comparator_at(cs, i) {
        None => None,
        Some((c, j)) => {
            let k = skip_ws(cs, j);
            let mut lit: Vec<char> = Vec::new();
            crate::number::push_range(cs, k, cs.len(), &mut lit);
            match parse_lit_u64(&lit) {
                Some(v) => Some(Compare { comparator: c, value: v }),
                None => None,
            }
        },
    }
}

/// Parses a u64 comparison covering the whole input.
pub fn parse_compare_u64(s: &str) -> (r: Result<(String, Compare<u64>), PathError>)
    ensures
        (match r {
            Ok((rest, c)) => spec_compare_u64(s@, 0) == Some((c.comparator, c.value))
                && rest@.len() == 0,
            Err(_) => (spec_compare_u64(s@, 0) is None),
        }),
{
    let cs = to_chars(s);
    match compare_u64_at(&cs, 0) {
        Some(c) => Ok((String::new(), c)),
        None => Err(perr(&cs, 0, "could not parse the comparison")),
    }
}

/// Parses a selector path followed by a u64 comparison.
pub fn parse_selector_u64(s: &str) -> (r: Result<
    (String, (Compare<u64>, Vec<Identifier>)),
    PathError,
>)
    ensures
        (match r {
            Ok((rest, (c, sels))) => ({
                &&& spec_selector_u64(s@) matches Some((sv, cc, vv))
                &&& ids_view(sels@) == sv
                &&& c.comparator == cc
                &&& c.value == vv
                &&& rest@.len() == 0
            }),
            Err(_) => (spec_selector_u64(s@) is None),
        }),
{
    let cs = to_chars(s);
    match parse_json_selector_at(&cs, 0) {
        None => Err(perr(&cs, 0, "could not parse the selector path")),
        Some((sels, j)) => {
            let k = skip_ws(&cs, j);
            match compare_u64_at(&cs, k) {
                Some(c) => Ok((String::new(), (c, sels))),
                None => Err(perr(&cs, j, "could not parse the comparison")),
            }
        },
    }
}

/// A comparison operator, optional spaces, and a decimal literal.
pub open spec fn spec_compare_f64(s: Seq<char>, i: int) -> Option<(Comparator, Dec)> {
    match spec_comparator(s, i) {
        None => None,
        Some((c, j)) => {
            let k = ws_end(s, j);
            match spec_lit_dec(s.subrange(k, s.len() as int)) {
                Some(v) => Some((c, v)),
                None => None,
            }
        },
    }
}

/// A selector path, optional spaces, and a f64 comparison.
pub open spec fn spec_selector_f64(s: Seq<char>) -> Option<(Seq<IdentV>, Comparator, Dec)> {
    match spec_json_selector(s, 0) {
        None => None,
        Some((sels, j)) => {
            let k = ws_end(s, j);
            match spec_compare_f64(s, k) {
                Some((c, v)) => Some((sels, c, v)),
                None => None,
            }
        },
    }
}

/// Parses a f64 comparison at `i`.
fn compare_f64_at(cs: &Vec<char>, i: usize) -> (r: Option<Compare<Dec>>)
    requires
        i <= cs@.len(),
    ensures
        (match r {
            Some(c) => spec_compare_f64(cs@, i as int) == Some((c.comparator, c.value)),
            None => (spec_compare_f64(cs@, i as int) is None),
        }),
{
    match parse_comparator_at(cs, i) {
        None => None,
        Some((c, j)) => {
            let k = skip_ws(cs, j);
            let mut lit: Vec<char> = Vec::new();
            crate::number::push_range(cs, k, cs.len(), &mut lit);
            match parse_lit_dec(&lit) {
                Some(v) => Some(Compare { comparator: c, value: v }),
                None => None,
            }
        },
    }
}

/// Parses a f64 comparison covering the whole input.
pub fn parse_compare_f64(s: &str) -> (r: Result<(String, Compare<Dec>), PathError>)
    ensures
        (match r {
            Ok((rest, c)) => spec_compare_f64(s@, 0) == Some((c.comparator, c.value))
                && rest@.len() == 0,
            Err(_) => (spec_compare_f64(s@, 0) is None),
        }),
{
    let cs = to_chars(s);
    match compare_f64_at(&cs, 0) {
        Some(c) => Ok((String::new(), c)),
        None => Err(perr(&cs, 0, "could not parse the comparison")),
    }
}

/// Parses a selector path followed by a f64 comparison.
pub fn parse_selector_f64(s: &str) -> (r: Result<
    (String, (Compare<Dec>, Vec<Identifier>)),
    PathError,
>)
    ensures
        (match r {
            Ok((rest, (c, sels))) => ({
                &&& spec_selector_f64(s@) matches Some((sv, cc, vv))
                &&& ids_view(sels@) == sv
                &&& c.comparator == cc
                &&& c.value == vv
                &&& rest@.len() == 0
            }),
            Err(_) => (spec_selector_f64(s@) is None),
        }),
{
    let cs = to_chars(s);
    match parse_json_selector_at(&cs, 0) {
        None => Err(perr(&cs, 0, "could not parse the selector path")),
        Some((sels, j)) => {
            let k = skip_ws(&cs, j);
            match compare_f64_at(&cs, k) {
                Some(c) => Ok((String::new(), (c, sels))),
                None => Err(perr(&cs, j, "could not parse the comparison")),
            }
        },
    }
}

/// A comparison operator, optional spaces, and the rest as a string.
pub open spec fn spec_compare_string(s: Seq<char>, i: int) -> Option<(Comparator, Seq<char>)> {
    match spec_comparator(s, i) {
        None => None,
        Some((c, j)) => {
            let k = ws_end(s, j);
            Some((c, s.subrange(k, s.len() as int)))
        },
    }
}

/// A selector path, optional spaces, and a string comparison.
pub open spec fn spec_selector_string(s: Seq<char>) -> Option<(Seq<IdentV>, Comparator, Seq<char>)> {
    match spec_json_selector(s, 0) {
        None => None,
        Some((sels, j)) => {
            let k = ws_end(s, j);
            match spec_compare_string(s, k) {
                Some((c, v)) => Some((sels, c, v)),
                None => None,
            }
        },
    }
}

/// Parses a string comparison at `i`.
fn compare_string_at(cs: &Vec<char>, i: usize) -> (r: Option<Compare<String>>)
    requires
        i <= cs@.len(),
    ensures
        (match r {
            Some(c) => spec_compare_string(cs@, i as int) == Some((c.comparator, c.value@)),
            None => (spec_compare_string(cs@, i as int) is None),
        }),
{
    match parse_comparator_at(cs, i) {
        None => None,
        Some((c, j)) => {
            let k = skip_ws(cs, j);
            Some(Compare { comparator: c, value: rest_string(cs, k) })
        },
    }
}

/// Parses a string comparison covering the whole input.
pub fn parse_compare_string(s: &str) -> (r: Result<(String, Compare<String>), PathError>)
    ensures
        (match r {
            Ok((rest, c)) => spec_compare_string(s@, 0) == Some((c.comparator, c.value@))
                && rest@.len() == 0,
            Err(_) => (spec_compare_string(s@, 0) is None),
        }),
{
    let cs = to_chars(s);
    match compare_string_at(&cs, 0) {
        Some(c) => Ok((String::new(), c)),
        None => Err(perr(&cs, 0, "could not parse the comparison")),
    }
}

/// Parses a selector path followed by a string comparison.
pub fn parse_selector_string(s: &str) -> (r: Result<
    (String, (Compare<String>, Vec<Identifier>)),
    PathError,
>)
    ensures
        (match r {
            Ok((rest, (c, sels))) => ({
                &&& spec_selector_string(s@) matches Some((sv, cc, vv))
                &&& ids_view(sels@) == sv
                &&& c.comparator == cc
                &&& c.value@ == vv
                &&& rest@.len() == 0
            }),
            Err(_) => (spec_selector_string(s@) is None),
        }),
{
    let cs = to_chars(s);
    match parse_json_selector_at(&cs, 0) {
        None => Err(perr(&cs, 0, "could not parse the selector path")),
        Some((sels, j)) => {
            let k = skip_ws(&cs, j);
            match compare_string_at(&cs, k) {
                Some(c) => Ok((String::new(), (c, sels))),
                None => Err(perr(&cs, j, "could not parse the comparison")),
            }
        },
    }
}


/// The operator a whole token spells, if any.
pub fn comparator(c: &str) -> (r: Option<Comparator>)
    ensures
        r == crate::selector::comparator_of(c@),
{
    crate::selector::comparator_token(c)
}

/// Whether `c` is a dot.
pub fn is_dot(c: char) -> (r: bool)
    ensures
        r == (c == '.'),
{
    c == '.'
}

/// Whether `c` is an opening bracket.
pub fn is_array_bracket(c: char) -> (r: bool)
    ensures
        r == (c == '['),
{
    c == '['
}

/// Whether `c` can start a comparison operator.
pub fn is_comparator(c: char) -> (r: bool)
    ensures
        r == crate::selector::is_comparator_char(c),
{
    c == '<' || c == '=' || c == '!' || c == '>'
}

/// Whether `c` is a decimal digit.
pub fn is_digit(c: char) -> (r: bool)
    ensures
        r == crate::text::char_is_digit(c),
{
    '0' <= c && c <= '9'
}

/// Whether `c` is a decimal digit or a space.
pub fn is_digit_or_space(c: char) -> (r: bool)
    ensures
        r == crate::selector::is_digit_or_space(c),
{
    is_digit(c) || c == ' '
}

/// Whether `c` ends a bare identifier.
pub fn is_dot_or_array_bracket_or_comparator(c: char) -> (r: bool)
    ensures
        r == !crate::selector::is_ident_char(c),
{
    is_dot(c) || is_array_bracket(c) || is_comparator(c) || c == ' '
}

} // verus!
