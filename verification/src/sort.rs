//! Sorting NDJSON records: one total order over JSON values (null, then
//! booleans, numbers, strings, arrays, objects, each with its natural
//! inner order), record keys drawn by selector paths, and a stable
//! insertion sort.

use vstd::prelude::*;

use crate::error::NdJsonSpatialError;
use crate::filter::{sel_spec, select_from_json_object};
use crate::json::{
    arr_view, lemma_arr_view, lemma_obj_view, obj_view, value_view, JsonV, JsonValue,
};
use crate::json_selector_parser::{sels_view, SelV, Selector};
use crate::number::num_cmp_spec;
use crate::text::{chars_cmp, chars_to_string, cmp_chars, to_chars, Rel};

verus! {

/// The rank of a value's shape in the total order: null before boolean
/// before number before string before array before object.
pub open spec fn shape_rank(v: JsonV) -> int {
    match v {
        JsonV::Null => 0,
        JsonV::Bool(_) => 1,
        JsonV::Num(_) => 2,
        JsonV::Str(_) => 3,
        JsonV::Arr(_) => 4,
        JsonV::Obj(_) => 5,
    }
}

/// The three-way order on integers.
pub open spec fn icmp(a: int, b: int) -> Rel {
    if a == b {
        Rel::Equal
    } else if a < b {
        Rel::Less
    } else {
        Rel::Greater
    }
}

/// The total order on JSON values.
pub open spec fn value_cmp(a: JsonV, b: JsonV) -> Rel
    decreases a, 0int,
{
    if shape_rank(a) != shape_rank(b) {
        icmp(shape_rank(a), shape_rank(b))
    } else {
        match (a, b) {
            (JsonV::Bool(x), JsonV::Bool(y)) => crate::json_selector_parser::bool_cmp(x, y),
            (JsonV::Num(x), JsonV::Num(y)) => num_cmp_spec(x, y),
            (JsonV::Str(x), JsonV::Str(y)) => chars_cmp(x, y),
            (JsonV::Arr(x), JsonV::Arr(y)) => arr_cmp(x, y, 0),
            (JsonV::Obj(x), JsonV::Obj(y)) => obj_cmp(x, y, 0),
            _ => Rel::Equal,
        }
    }
}

/// The lexicographic order on arrays, element by element from `i`.
pub open spec fn arr_cmp(x: Seq<JsonV>, y: Seq<JsonV>, i: int) -> Rel
    decreases x, (x.len() - i + 1),
{
    if i < 0 || (i >= x.len() && i >= y.len()) {
        Rel::Equal
    } else if i >= x.len() {
        Rel::Less
    } else if i >= y.len() {
        Rel::Greater
    } else {
        let c = value_cmp(x[i], y[i]);
        if c == Rel::Equal {
            arr_cmp(x, y, i + 1)
        } else {
            c
        }
    }
}

/// The lexicographic order on objects, member by member from `i`: keys
/// compare before values.
pub open spec fn obj_cmp(x: Seq<(Seq<char>, JsonV)>, y: Seq<(Seq<char>, JsonV)>, i: int) -> Rel
    decreases x, (x.len() - i + 1),
{
    if i < 0 || (i >= x.len() && i >= y.len()) {
        Rel::Equal
    } else if i >= x.len() {
        Rel::Less
    } else if i >= y.len() {
        Rel::Greater
    } else {
        let ck = chars_cmp(x[i].0, y[i].0);
        if ck != Rel::Equal {
            ck
        } else {
            let cv = value_cmp(x[i].1, y[i].1);
            if cv == Rel::Equal {
                obj_cmp(x, y, i + 1)
            } else {
                cv
            }
        }
    }
}

/// Compares two JSON values under the total order.
#[verifier::rlimit(90)]
pub fn cmp_values(a: &JsonValue, b: &JsonValue) -> (r: Rel)
    ensures
        r == value_cmp(a@, b@),
    decreases a@, 1int,
{
    match (a, b) {
        (JsonValue::Null, JsonValue::Null) => Rel::Equal,
        (JsonValue::Bool(x), JsonValue::Bool(y)) => {
            if *x == *y {
                Rel::Equal
            } else if !*x {
                Rel::Less
            } else {
                Rel::Greater
            }
        },
        (JsonValue::Num(x), JsonValue::Num(y)) => x.cmp_num(y),
        (JsonValue::Str(x), JsonValue::Str(y)) => {
            let cx = to_chars(x.as_str());
            let cy = to_chars(y.as_str());
            cmp_chars(&cx, &cy)
        },
        (JsonValue::Arr(x), JsonValue::Arr(y)) => {
            proof {
                lemma_arr_view(x@);
                lemma_arr_view(y@);
            }
            let mut res: Rel = Rel::Equal;
            let mut i: usize = 0;
            loop
                invariant_except_break
                    i <= x@.len(),
                    i <= y@.len(),
                    a@ is Arr && a@->Arr_0 == arr_view(x@),
                    b@ is Arr && b@->Arr_0 == arr_view(y@),
                    arr_cmp(arr_view(x@), arr_view(y@), 0) == arr_cmp(
                        arr_view(x@),
                        arr_view(y@),
                        i as int,
                    ),
                ensures
                    value_cmp(a@, b@) == res,
                decreases x@.len() - i,
            {
                proof {
                    lemma_arr_view(x@);
                    lemma_arr_view(y@);
                }
                if i >= x.len() && i >= y.len() {
                    res = Rel::Equal;
                    break;
                }
                if i >= x.len() {
                    res = Rel::Less;
                    break;
                }
                if i >= y.len() {
                    res = Rel::Greater;
                    break;
                }
                proof {
                    let g = a@;
                    assert(decreases_to!(g => g->Arr_0));
                    assert(decreases_to!(g->Arr_0 => g->Arr_0[i as int]));
                    assert(g->Arr_0[i as int] == x@[i as int]@);
                }
                let c = cmp_values(&x[i], &y[i]);
                if !(c == Rel::Equal) {
                    res = c;
                    break;
                }
                i += 1;
            }
            res
        },
        (JsonValue::Obj(x), JsonValue::Obj(y)) => {
            proof {
                lemma_obj_view(x@);
                lemma_obj_view(y@);
            }
            let mut res: Rel = Rel::Equal;
            let mut i: usize = 0;
            loop
                invariant_except_break
                    i <= x@.len(),
                    i <= y@.len(),
                    a@ is Obj && a@->Obj_0 == obj_view(x@),
                    b@ is Obj && b@->Obj_0 == obj_view(y@),
                    obj_cmp(obj_view(x@), obj_view(y@), 0) == obj_cmp(
                        obj_view(x@),
                        obj_view(y@),
                        i as int,
                    ),
                ensures
                    value_cmp(a@, b@) == res,
                decreases x@.len() - i,
            {
                proof {
                    lemma_obj_view(x@);
                    lemma_obj_view(y@);
                }
                if i >= x.len() && i >= y.len() {
                    res = Rel::Equal;
                    break;
                }
                if i >= x.len() {
                    res = Rel::Less;
                    break;
                }
                if i >= y.len() {
                    res = Rel::Greater;
                    break;
                }
                let kx = to_chars(x[i].0.as_str());
                let ky = to_chars(y[i].0.as_str());
                let ck = cmp_chars(&kx, &ky);
                if !(ck == Rel::Equal) {
                    res = ck;
                    break;
                }
                proof {
                    let g = a@;
                    assert(decreases_to!(g => g->Obj_0));
                    assert(decreases_to!(g->Obj_0 => g->Obj_0[i as int]));
                    assert(decreases_to!(g->Obj_0[i as int] => g->Obj_0[i as int].1));
                    assert(g->Obj_0[i as int].1 == x@[i as int].1@);
                }
                let cv = cmp_values(&x[i].1, &y[i].1);
                if !(cv == Rel::Equal) {
                    res = cv;
                    break;
                }
                i += 1;
            }
            res
        },
        _ => {
            let ra = shape_rank_of(a);
            let rb = shape_rank_of(b);
            if ra < rb {
                Rel::Less
            } else {
                Rel::Greater
            }
        },
    }
}

/// The rank of a value's shape.
fn shape_rank_of(v: &JsonValue) -> (r: u8)
    ensures
        r as int == shape_rank(v@),
{
    match v {
        JsonValue::Null => 0,
        JsonValue::Bool(_) => 1,
        JsonValue::Num(_) => 2,
        JsonValue::Str(_) => 3,
        JsonValue::Arr(_) => 4,
        JsonValue::Obj(_) => 5,
    }
}


/// The opposite comparison outcome.
pub open spec fn flip_rel(r: Rel) -> Rel {
    match r {
        Rel::Less => Rel::Greater,
        Rel::Equal => Rel::Equal,
        Rel::Greater => Rel::Less,
    }
}

/// The models of a list of sort keys.
pub open spec fn keys_view(s: Seq<(Vec<Selector>, bool)>) -> Seq<(Seq<SelV>, bool)>
    decreases s.len(),
{
    if s.len() == 0 {
        Seq::<(Seq<SelV>, bool)>::empty()
    } else {
        keys_view(s.drop_last()).push((sels_view(s.last().0@), s.last().1))
    }
}

/// The key list model maps each key to its model.
pub proof fn lemma_keys_view(s: Seq<(Vec<Selector>, bool)>)
    ensures
        keys_view(s).len() == s.len(),
        forall|i: int| 0 <= i < s.len() ==> #[trigger] keys_view(s)[i] == (
            sels_view(s[i].0@),
            s[i].1,
        ),
    decreases s.len(),
{
    if s.len() > 0 {
        lemma_keys_view(s.drop_last());
    }
}

/// How two records compare under one sort key: selected values under the
/// total order, a record whose selection fails after one that succeeds,
/// two failures tied; a descending key reverses the outcome.
pub open spec fn key_cmp(a: JsonV, b: JsonV, key: Seq<SelV>, asc: bool) -> Rel {
    let base = match (sel_spec(a, key), sel_spec(b, key)) {
        (Ok(x), Ok(y)) => value_cmp(x, y),
        (Ok(_), Err(_)) => Rel::Less,
        (Err(_), Ok(_)) => Rel::Greater,
        (Err(_), Err(_)) => Rel::Equal,
    };
    if asc {
        base
    } else {
        flip_rel(base)
    }
}

/// How two records compare under a key list: the first key that does
/// not tie decides.
pub open spec fn rec_cmp(a: JsonV, b: JsonV, keys: Seq<(Seq<SelV>, bool)>, i: int) -> Rel
    decreases keys.len() - i,
{
    if i < 0 || i >= keys.len() {
        Rel::Equal
    } else {
        let c = key_cmp(a, b, keys[i].0, keys[i].1);
        if c == Rel::Equal {
            rec_cmp(a, b, keys, i + 1)
        } else {
            c
        }
    }
}

/// Compares two records under a key list, mirroring `rec_cmp`.
pub fn cmp_records(a: &JsonValue, b: &JsonValue, keys: &Vec<(Vec<Selector>, bool)>) -> (r: Rel)
    ensures
        r == rec_cmp(a@, b@, keys_view(keys@), 0),
{
    let ghost kv = keys_view(keys@);
    proof {
        lemma_keys_view(keys@);
    }
    let mut res: Rel = Rel::Equal;
    let mut i: usize = 0;
    loop
        invariant_except_break
            i <= keys@.len(),
            kv == keys_view(keys@),
            kv.len() == keys@.len(),
            forall|j: int| 0 <= j < keys@.len() ==> #[trigger] kv[j] == (
                sels_view(keys@[j].0@),
                keys@[j].1,
            ),
            rec_cmp(a@, b@, kv, 0) == rec_cmp(a@, b@, kv, i as int),
        ensures
            rec_cmp(a@, b@, kv, 0) == res,
        decreases keys@.len() - i,
    {
        if i >= keys.len() {
            res = Rel::Equal;
            break;
        }
        let ra = select_from_json_object(a, &keys[i].0);
        let rb = select_from_json_object(b, &keys[i].0);
        let base = match (&ra, &rb) {
            (Ok(x), Ok(y)) => cmp_values(x, y),
            (Ok(_), Err(_)) => Rel::Less,
            (Err(_), Ok(_)) => Rel::Greater,
            (Err(_), Err(_)) => Rel::Equal,
        };
        let c = if keys[i].1 {
            base
        } else {
            match base {
                Rel::Less => Rel::Greater,
                Rel::Equal => Rel::Equal,
                Rel::Greater => Rel::Less,
            }
        };
        if !(c == Rel::Equal) {
            res = c;
            break;
        }
        i += 1;
    }
    res
}

/// Inserts `v` behind every record that does not compare greater than
/// it: a stable insertion.
pub open spec fn sort_insert(xs: Seq<JsonV>, v: JsonV, keys: Seq<(Seq<SelV>, bool)>) -> Seq<JsonV>
    decreases xs.len(),
{
    if xs.len() > 0 && rec_cmp(xs.last(), v, keys, 0) == Rel::Greater {
        sort_insert(xs.drop_last(), v, keys).push(xs.last())
    } else {
        xs.push(v)
    }
}

/// The records in sorted order: each inserted stably in turn.
pub open spec fn sort_records(vs: Seq<JsonV>, keys: Seq<(Seq<SelV>, bool)>) -> Seq<JsonV>
    decreases vs.len(),
{
    if vs.len() == 0 {
        Seq::<JsonV>::empty()
    } else {
        sort_insert(sort_records(vs.drop_last(), keys), vs.last(), keys)
    }
}

/// A stable insertion lands just before the greater suffix.
proof fn lemma_sort_insert_at(xs: Seq<JsonV>, v: JsonV, keys: Seq<(Seq<SelV>, bool)>, pos: int)
    requires
        0 <= pos <= xs.len(),
        forall|j: int| pos <= j < xs.len() ==> rec_cmp(#[trigger] xs[j], v, keys, 0)
            == Rel::Greater,
        pos > 0 ==> rec_cmp(xs[pos - 1], v, keys, 0) != Rel::Greater,
    ensures
        sort_insert(xs, v, keys) == xs.subrange(0, pos) + seq![v] + xs.subrange(
            pos,
            xs.len() as int,
        ),
    decreases xs.len(),
{
    if pos == xs.len() {
        if xs.len() == 0 {
            assert(sort_insert(xs, v, keys) =~= xs.subrange(0, pos) + seq![v] + xs.subrange(
                pos,
                xs.len() as int,
            ));
        } else {
            assert(sort_insert(xs, v, keys) == xs.push(v));
            assert(xs.push(v) =~= xs.subrange(0, pos) + seq![v] + xs.subrange(
                pos,
                xs.len() as int,
            ));
        }
    } else {
        assert(rec_cmp(xs.last(), v, keys, 0) == Rel::Greater);
        lemma_sort_insert_at(xs.drop_last(), v, keys, pos);
        assert(sort_insert(xs, v, keys) == sort_insert(xs.drop_last(), v, keys).push(xs.last()));
        assert(xs.drop_last().subrange(0, pos) =~= xs.subrange(0, pos));
        assert(xs.drop_last().subrange(pos, xs.drop_last().len() as int) =~= xs.subrange(
            pos,
            xs.len() - 1,
        ));
        assert((xs.subrange(0, pos) + seq![v] + xs.subrange(pos, xs.len() - 1)).push(xs.last())
            =~= xs.subrange(0, pos) + seq![v] + xs.subrange(pos, xs.len() as int));
    }
}

/// Inserts a record into a sorted vector, mirroring `sort_insert`.
pub(crate) fn insert_record(out: &mut Vec<JsonValue>, v: JsonValue, keys: &Vec<(Vec<Selector>, bool)>)
    ensures
        arr_view(final(out)@) == sort_insert(arr_view(old(out)@), value_view(v), keys_view(keys@)),
{
    let ghost xs = arr_view(old(out)@);
    let ghost vv = value_view(v);
    proof {
        lemma_arr_view(old(out)@);
    }
    let mut pos: usize = out.len();
    loop
        invariant_except_break
            pos <= out@.len(),
            out@ == old(out)@,
            arr_view(out@).len() == out@.len(),
            forall|j: int| 0 <= j < out@.len() ==> #[trigger] arr_view(out@)[j] == value_view(
                out@[j],
            ),
            forall|j: int|
                pos <= j < out@.len() ==> rec_cmp(
                    #[trigger] arr_view(out@)[j],
                    value_view(v),
                    keys_view(keys@),
                    0,
                ) == Rel::Greater,
        ensures
            pos <= out@.len(),
            out@ == old(out)@,
            forall|j: int|
                pos <= j < out@.len() ==> rec_cmp(
                    #[trigger] arr_view(out@)[j],
                    value_view(v),
                    keys_view(keys@),
                    0,
                ) == Rel::Greater,
            pos > 0 ==> rec_cmp(arr_view(out@)[pos - 1], value_view(v), keys_view(keys@), 0)
                != Rel::Greater,
        decreases pos,
    {
        if pos == 0 {
            break;
        }
        proof {
            lemma_arr_view(out@);
        }
        let c = cmp_records(&out[pos - 1], &v, keys);
        if !(c == Rel::Greater) {
            break;
        }
        pos -= 1;
    }
    proof {
        lemma_sort_insert_at(xs, vv, keys_view(keys@), pos as int);
    }
    let ghost before = out@;
    out.insert(pos, v);
    proof {
        lemma_arr_view(out@);
        lemma_arr_view(before);
        assert(arr_view(out@) =~= xs.subrange(0, pos as int) + seq![vv] + xs.subrange(
            pos as int,
            xs.len() as int,
        ));
    }
}


/// What sorting an NDJSON text yields: the lines that parse, stably
/// sorted under the key list, serialized back one per line.
pub open spec fn sort_spec(input: Seq<char>, keys: Seq<(Seq<SelV>, bool)>) -> Seq<char> {
    let records = crate::ndjson::parsed_records(
        crate::ndjson::split_lines(input),
        0,
        Seq::<JsonV>::empty(),
    );
    crate::ndjson::render_records(sort_records(records, keys), 0, Seq::<char>::empty())
}

/// Sorts the records of an NDJSON text under a key list, mirroring
/// `sort_spec`.
pub fn sort(input: &str, selectors: Vec<(Vec<Selector>, bool)>) -> (r: Result<
    String,
    NdJsonSpatialError,
>)
    ensures
        (match r {
            Ok(out) => out@ == sort_spec(input@, keys_view(selectors@)),
            Err(_) => false,
        }),
{
    let cs = to_chars(input);
    let lines = crate::ndjson::cut_lines(&cs);
    let records = crate::ndjson::parse_records(&lines);
    let ghost rv = arr_view(records@);
    let ghost kv = keys_view(selectors@);
    proof {
        lemma_arr_view(records@);
    }
    let mut sorted: Vec<JsonValue> = Vec::new();
    proof {
        assert(arr_view(sorted@) =~= Seq::<JsonV>::empty());
        assert(rv.subrange(0, 0) =~= Seq::<JsonV>::empty());
        assert(sort_records(rv.subrange(0, 0), kv) == Seq::<JsonV>::empty());
    }
    let mut i: usize = 0;
    while i < records.len()
        invariant
            i <= records@.len(),
            rv == arr_view(records@),
            kv == keys_view(selectors@),
            rv.len() == records@.len(),
            forall|j: int| 0 <= j < records@.len() ==> #[trigger] rv[j] == value_view(
                records@[j],
            ),
            arr_view(sorted@) == sort_records(rv.subrange(0, i as int), kv),
        decreases records@.len() - i,
    {
        let v = records[i].deep_clone();
        insert_record(&mut sorted, v, &selectors);
        i += 1;
        proof {
            let sub = rv.subrange(0, i as int);
            assert(sub.drop_last() =~= rv.subrange(0, i - 1));
            assert(sub.last() == rv[i - 1]);
        }
    }
    proof {
        assert(rv.subrange(0, rv.len() as int) =~= rv);
    }
    let out = crate::ndjson::write_records(&sorted);
    Ok(chars_to_string(&out))
}

} // verus!
