//! The join tool: index the records of a reference input by a selector
//! key, then write each stream record merged with every reference record
//! whose key equals its own.  The reference input is read once, so only
//! the first reference field builds an index; later fields see an empty
//! one.

use vstd::prelude::*;

use crate::error::NdJsonSpatialError;
use crate::filter::{sel_spec, select_from_json_object};
use crate::json::{
    lemma_obj_view, obj_insert, obj_insert_entry, obj_view, ser_value, value_view, JsonV,
    JsonValue,
};
use crate::json_selector_parser::{sels_view, SelV, Selector};
use crate::sort::value_cmp;
use crate::text::{chars_to_string, to_chars, Rel};

verus! {

/// The members of `s` inserted into `o`, one by one, a member of `s`
/// replacing one of `o` under the same key.
pub open spec fn obj_merge(
    o: Seq<(Seq<char>, JsonV)>,
    s: Seq<(Seq<char>, JsonV)>,
) -> Seq<(Seq<char>, JsonV)>
    decreases s.len(),
{
    if s.len() == 0 {
        o
    } else {
        obj_insert(obj_merge(o, s.drop_last()), s.last().0, s.last().1)
    }
}

/// Merges the members of the object `src` into `entries`, mirroring
/// `obj_merge`.
fn merge_entries(entries: &mut Vec<(String, JsonValue)>, src: &Vec<(String, JsonValue)>)
    ensures
        obj_view(final(entries)@) == obj_merge(obj_view(old(entries)@), obj_view(src@)),
{
    let ghost o0 = obj_view(old(entries)@);
    let ghost sv = obj_view(src@);
    proof {
        lemma_obj_view(src@);
        assert(sv.subrange(0, 0) =~= Seq::<(Seq<char>, JsonV)>::empty());
    }
    let mut i: usize = 0;
    while i < src.len()
        invariant
            i <= src@.len(),
            sv == obj_view(src@),
            sv.len() == src@.len(),
            forall|j: int| 0 <= j < src@.len() ==> #[trigger] sv[j] == (
                src@[j].0@,
                value_view(src@[j].1),
            ),
            obj_view(entries@) == obj_merge(o0, sv.subrange(0, i as int)),
        decreases src@.len() - i,
    {
        let key = crate::json::clone_string(&src[i].0);
        let val = src[i].1.deep_clone();
        obj_insert_entry(entries, key, val);
        i += 1;
        proof {
            let sub = sv.subrange(0, i as int);
            assert(sub.drop_last() =~= sv.subrange(0, i - 1));
            assert(sub.last() == sv[i - 1]);
        }
    }
    proof {
        assert(sv.subrange(0, sv.len() as int) =~= sv);
    }
}

/// Adds one reference record under its key: appended to the records of
/// the first entry whose key compares equal, or opening a new entry.
pub open spec fn refs_add(
    m: Seq<(JsonV, Seq<JsonV>)>,
    k: JsonV,
    g: JsonV,
) -> Seq<(JsonV, Seq<JsonV>)>
    decreases m.len(),
{
    if m.len() == 0 {
        seq![(k, seq![g])]
    } else if value_cmp(m[0].0, k) == Rel::Equal {
        seq![(m[0].0, m[0].1.push(g))] + m.drop_first()
    } else {
        seq![m[0]] + refs_add(m.drop_first(), k, g)
    }
}

/// The reference index over the records from `i` on: an object record
/// whose key selection succeeds lands under its key; anything else is
/// skipped.
pub open spec fn build_refs(
    rs: Seq<JsonV>,
    i: int,
    field: Seq<SelV>,
    m: Seq<(JsonV, Seq<JsonV>)>,
) -> Seq<(JsonV, Seq<JsonV>)>
    decreases rs.len() - i,
{
    if i < 0 || i >= rs.len() {
        m
    } else {
        let m2 = if rs[i] is Obj {
            match sel_spec(rs[i], field) {
                Ok(k) => refs_add(m, k, rs[i]),
                Err(_) => m,
            }
        } else {
            m
        };
        build_refs(rs, i + 1, field, m2)
    }
}

/// The records indexed under the first key that compares equal to `k`.
pub open spec fn refs_get(m: Seq<(JsonV, Seq<JsonV>)>, k: JsonV) -> Seq<JsonV>
    decreases m.len(),
{
    if m.len() == 0 {
        Seq::<JsonV>::empty()
    } else if value_cmp(m[0].0, k) == Rel::Equal {
        m[0].1
    } else {
        refs_get(m.drop_first(), k)
    }
}

/// The output a stream record contributes for one field: nothing when
/// its key selection fails or yields a null or a container, else one
/// merged line per matching reference object.
pub open spec fn join_matches(
    v: JsonV,
    field: Seq<SelV>,
    m: Seq<(JsonV, Seq<JsonV>)>,
    acc: Seq<char>,
) -> Seq<char> {
    match sel_spec(v, field) {
        Err(_) => acc,
        Ok(k) => if k is Arr || k is Obj || k is Null {
            acc
        } else {
            emit_matches(refs_get(m, k), 0, v, acc)
        },
    }
}

/// One merged line per matching reference object, from `j` on.
pub open spec fn emit_matches(g: Seq<JsonV>, j: int, v: JsonV, acc: Seq<char>) -> Seq<char>
    decreases g.len() - j,
{
    if j < 0 || j >= g.len() {
        acc
    } else {
        let acc2 = if g[j] is Obj && v is Obj {
            let merged = JsonV::Obj(obj_merge(v->Obj_0, g[j]->Obj_0));
            acc + ser_value(merged) + seq!['\n']
        } else {
            acc
        };
        emit_matches(g, j + 1, v, acc2)
    }
}


/// The models of a reference index.
pub open spec fn refs_view(m: Seq<(JsonValue, Vec<JsonValue>)>) -> Seq<(JsonV, Seq<JsonV>)>
    decreases m.len(),
{
    if m.len() == 0 {
        Seq::<(JsonV, Seq<JsonV>)>::empty()
    } else {
        refs_view(m.drop_last()).push(
            (value_view(m.last().0), crate::json::arr_view(m.last().1@)),
        )
    }
}

/// The index model maps each entry to its model.
pub proof fn lemma_refs_view(m: Seq<(JsonValue, Vec<JsonValue>)>)
    ensures
        refs_view(m).len() == m.len(),
        forall|i: int| 0 <= i < m.len() ==> #[trigger] refs_view(m)[i] == (
            value_view(m[i].0),
            crate::json::arr_view(m[i].1@),
        ),
    decreases m.len(),
{
    if m.len() > 0 {
        lemma_refs_view(m.drop_last());
    }
}

/// An addition lands at the first entry whose key compares equal.
proof fn lemma_refs_add_at(m: Seq<(JsonV, Seq<JsonV>)>, k: JsonV, g: JsonV, idx: int)
    requires
        0 <= idx <= m.len(),
        forall|j: int| 0 <= j < idx ==> value_cmp((#[trigger] m[j]).0, k) != Rel::Equal,
        idx < m.len() ==> value_cmp(m[idx as int].0, k) == Rel::Equal,
    ensures
        refs_add(m, k, g) == (if idx < m.len() {
            m.update(idx, (m[idx].0, m[idx].1.push(g)))
        } else {
            m.push((k, seq![g]))
        }),
    decreases idx,
{
    if idx == 0 {
        if m.len() == 0 {
            assert(refs_add(m, k, g) =~= m.push((k, seq![g])));
        } else if value_cmp(m[0].0, k) == Rel::Equal {
            assert(refs_add(m, k, g) =~= m.update(0, (m[0].0, m[0].1.push(g))));
        } else {
            assert(idx < m.len() ==> value_cmp(m[idx as int].0, k) == Rel::Equal);
            assert(value_cmp(m[0].0, k) != Rel::Equal);
            assert(false);
        }
    } else {
        lemma_refs_add_at(m.drop_first(), k, g, idx - 1);
        assert(refs_add(m, k, g) == seq![m[0]] + refs_add(m.drop_first(), k, g));
        if idx < m.len() {
            assert(m.drop_first()[idx - 1] == m[idx as int]);
            assert(seq![m[0]] + m.drop_first().update(
                idx - 1,
                (m[idx as int].0, m[idx as int].1.push(g)),
            ) =~= m.update(idx, (m[idx as int].0, m[idx as int].1.push(g))));
        } else {
            assert(seq![m[0]] + m.drop_first().push((k, seq![g])) =~= m.push((k, seq![g])));
        }
    }
}

/// A lookup lands at the first entry whose key compares equal.
proof fn lemma_refs_get_at(m: Seq<(JsonV, Seq<JsonV>)>, k: JsonV, idx: int)
    requires
        0 <= idx <= m.len(),
        forall|j: int| 0 <= j < idx ==> value_cmp((#[trigger] m[j]).0, k) != Rel::Equal,
        idx < m.len() ==> value_cmp(m[idx as int].0, k) == Rel::Equal,
    ensures
        refs_get(m, k) == (if idx < m.len() {
            m[idx].1
        } else {
            Seq::<JsonV>::empty()
        }),
    decreases idx,
{
    if idx == 0 {
    } else {
        lemma_refs_get_at(m.drop_first(), k, idx - 1);
        if idx < m.len() {
            assert(m.drop_first()[idx - 1] == m[idx as int]);
        }
    }
}

/// Adds a reference record to the index, mirroring `refs_add`.
#[verifier::rlimit(90)]
fn add_ref(m: &mut Vec<(JsonValue, Vec<JsonValue>)>, k: JsonValue, g: JsonValue)
    ensures
        refs_view(final(m)@) == refs_add(refs_view(old(m)@), value_view(k), value_view(g)),
{
    let ghost mv = refs_view(old(m)@);
    let ghost kv = value_view(k);
    let ghost gv = value_view(g);
    proof {
        lemma_refs_view(old(m)@);
    }
    let mut idx: usize = 0;
    loop
        invariant_except_break
            idx <= m@.len(),
            m@ == old(m)@,
            kv == value_view(k),
            forall|j: int|
                0 <= j < idx ==> value_cmp(value_view((#[trigger] m@[j]).0), kv) != Rel::Equal,
        ensures
            idx <= m@.len(),
            m@ == old(m)@,
            forall|j: int|
                0 <= j < idx ==> value_cmp(value_view((#[trigger] m@[j]).0), kv) != Rel::Equal,
            idx < m@.len() ==> value_cmp(value_view(m@[idx as int].0), kv) == Rel::Equal,
        decreases m@.len() - idx,
    {
        if idx >= m.len() {
            break;
        }
        let c = crate::sort::cmp_values(&m[idx].0, &k);
        if c == Rel::Equal {
            break;
        }
        idx += 1;
    }
    proof {
        lemma_refs_view(m@);
        assert forall|j: int| 0 <= j < idx implies value_cmp(
            (#[trigger] mv[j]).0,
            kv,
        ) != Rel::Equal by {
            assert(mv[j].0 == value_view(m@[j].0));
        }
        if idx < m@.len() {
            assert(mv[idx as int].0 == value_view(m@[idx as int].0));
        }
        lemma_refs_add_at(mv, kv, gv, idx as int);
    }
    if idx < m.len() {
        let (k0, mut vlist) = m.remove(idx);
        let ghost vl0 = crate::json::arr_view(vlist@);
        proof {
            crate::json::lemma_arr_view_push(vlist@, g);
        }
        vlist.push(g);
        m.insert(idx, (k0, vlist));
        proof {
            lemma_refs_view(m@);
            assert(refs_view(m@) =~= mv.update(
                idx as int,
                (mv[idx as int].0, mv[idx as int].1.push(gv)),
            ));
        }
    } else {
        let mut vlist: Vec<JsonValue> = Vec::new();
        proof {
            crate::json::lemma_arr_view_push(vlist@, g);
            assert(crate::json::arr_view(vlist@) =~= Seq::<JsonV>::empty());
        }
        vlist.push(g);
        m.push((k, vlist));
        proof {
            lemma_refs_view(m@);
            assert(crate::json::arr_view(m@[m@.len() - 1].1@) =~= seq![gv]);
            assert(refs_view(m@) =~= mv.push((kv, seq![gv])));
        }
    }
}

/// Finds the records under a key, mirroring `refs_get`.
fn get_refs<'a>(m: &'a Vec<(JsonValue, Vec<JsonValue>)>, k: &JsonValue) -> (r: Option<
    &'a Vec<JsonValue>,
>)
    ensures
        (match r {
            Some(g) => refs_get(refs_view(m@), value_view(*k)) == crate::json::arr_view(g@),
            None => refs_get(refs_view(m@), value_view(*k)) == Seq::<JsonV>::empty(),
        }),
{
    let ghost mv = refs_view(m@);
    let ghost kv = value_view(*k);
    proof {
        lemma_refs_view(m@);
    }
    let mut idx: usize = 0;
    loop
        invariant_except_break
            idx <= m@.len(),
            kv == value_view(*k),
            forall|j: int|
                0 <= j < idx ==> value_cmp(value_view((#[trigger] m@[j]).0), kv) != Rel::Equal,
        ensures
            idx <= m@.len(),
            forall|j: int|
                0 <= j < idx ==> value_cmp(value_view((#[trigger] m@[j]).0), kv) != Rel::Equal,
            idx < m@.len() ==> value_cmp(value_view(m@[idx as int].0), kv) == Rel::Equal,
        decreases m@.len() - idx,
    {
        if idx >= m.len() {
            break;
        }
        let c = crate::sort::cmp_values(&m[idx].0, k);
        if c == Rel::Equal {
            break;
        }
        idx += 1;
    }
    proof {
        lemma_refs_view(m@);
        assert forall|j: int| 0 <= j < idx implies value_cmp(
            (#[trigger] mv[j]).0,
            kv,
        ) != Rel::Equal by {
            assert(mv[j].0 == value_view(m@[j].0));
        }
        if idx < m@.len() {
            assert(mv[idx as int].0 == value_view(m@[idx as int].0));
        }
        lemma_refs_get_at(mv, kv, idx as int);
    }
    if idx < m.len() {
        Some(&m[idx].1)
    } else {
        None
    }
}


/// The models of a list of selector paths.
pub open spec fn fields_view(s: Seq<Vec<Selector>>) -> Seq<Seq<SelV>>
    decreases s.len(),
{
    if s.len() == 0 {
        Seq::<Seq<SelV>>::empty()
    } else {
        fields_view(s.drop_last()).push(sels_view(s.last()@))
    }
}

/// The path list model maps each path to its model.
pub proof fn lemma_fields_view(s: Seq<Vec<Selector>>)
    ensures
        fields_view(s).len() == s.len(),
        forall|i: int| 0 <= i < s.len() ==> #[trigger] fields_view(s)[i] == sels_view(s[i]@),
    decreases s.len(),
{
    if s.len() > 0 {
        lemma_fields_view(s.drop_last());
    }
}

/// The output one stream record contributes over every stream field:
/// only the first field sees the reference index.
pub open spec fn fields_fold(
    v: JsonV,
    sfields: Seq<Seq<SelV>>,
    kk: int,
    m0: Seq<(JsonV, Seq<JsonV>)>,
    acc: Seq<char>,
) -> Seq<char>
    decreases sfields.len() - kk,
{
    if kk < 0 || kk >= sfields.len() {
        acc
    } else {
        fields_fold(
            v,
            sfields,
            kk + 1,
            m0,
            join_matches(
                v,
                sfields[kk],
                if kk == 0 {
                    m0
                } else {
                    Seq::<(JsonV, Seq<JsonV>)>::empty()
                },
                acc,
            ),
        )
    }
}

/// The output of the whole stream, record by record from `i`.
pub open spec fn run_join(
    vs: Seq<JsonV>,
    i: int,
    sfields: Seq<Seq<SelV>>,
    m0: Seq<(JsonV, Seq<JsonV>)>,
    acc: Seq<char>,
) -> Seq<char>
    decreases vs.len() - i,
{
    if i < 0 || i >= vs.len() {
        acc
    } else {
        run_join(vs, i + 1, sfields, m0, fields_fold(vs[i], sfields, 0, m0, acc))
    }
}

/// What joining yields: the reference records indexed under the first
/// reference field, then each stream record merged with its matches.
pub open spec fn join_spec(
    ref_input: Seq<char>,
    rfields: Seq<Seq<SelV>>,
    sfields: Seq<Seq<SelV>>,
    stream_input: Seq<char>,
) -> Seq<char> {
    let refs = crate::ndjson::parsed_records(
        crate::ndjson::split_lines(ref_input),
        0,
        Seq::<JsonV>::empty(),
    );
    let m0: Seq<(JsonV, Seq<JsonV>)> = if rfields.len() > 0 {
        build_refs(refs, 0, rfields[0], Seq::<(JsonV, Seq<JsonV>)>::empty())
    } else {
        Seq::<(JsonV, Seq<JsonV>)>::empty()
    };
    run_join(
        crate::ndjson::parsed_records(
            crate::ndjson::split_lines(stream_input),
            0,
            Seq::<JsonV>::empty(),
        ),
        0,
        sfields,
        m0,
        Seq::<char>::empty(),
    )
}

/// Writes the merged line of each matching reference object, mirroring
/// `emit_matches`.
#[verifier::rlimit(90)]
fn emit_for_matches(g: &Vec<JsonValue>, v: &JsonValue, out: &mut Vec<char>)
    ensures
        final(out)@ == emit_matches(crate::json::arr_view(g@), 0, v@, old(out)@),
{
    let ghost gv = crate::json::arr_view(g@);
    proof {
        crate::json::lemma_arr_view(g@);
    }
    let mut j: usize = 0;
    while j < g.len()
        invariant
            j <= g@.len(),
            gv == crate::json::arr_view(g@),
            gv.len() == g@.len(),
            forall|t: int| 0 <= t < g@.len() ==> #[trigger] gv[t] == value_view(g@[t]),
            emit_matches(gv, 0, v@, old(out)@) == emit_matches(gv, j as int, v@, out@),
        decreases g@.len() - j,
    {
        let ghost out0 = out@;
        match (&g[j], v) {
            (JsonValue::Obj(src), JsonValue::Obj(_)) => {
                let cloned = v.deep_clone();
                match cloned {
                    JsonValue::Obj(mut entries) => {
                        merge_entries(&mut entries, src);
                        let merged = JsonValue::Obj(entries);
                        merged.write_chars(out);
                        out.push('\n');
                        proof {
                            assert(value_view(merged) == JsonV::Obj(
                                obj_merge(v@->Obj_0, gv[j as int]->Obj_0),
                            ));
                            assert(out@ =~= out0 + ser_value(value_view(merged)) + seq!['\n']);
                        }
                    },
                    _ => {
                        proof {
                            assert(false);
                        }
                    },
                }
            },
            _ => {},
        }
        j += 1;
    }
}

/// Writes the output of one stream record over every stream field,
/// mirroring `fields_fold`.
#[verifier::rlimit(90)]
fn stream_record_out(
    v: &JsonValue,
    stream_fields: &Vec<Vec<Selector>>,
    m: &Vec<(JsonValue, Vec<JsonValue>)>,
    out: &mut Vec<char>,
)
    ensures
        final(out)@ == fields_fold(
            v@,
            fields_view(stream_fields@),
            0,
            refs_view(m@),
            old(out)@,
        ),
{
    let ghost fv = fields_view(stream_fields@);
    let ghost mv = refs_view(m@);
    proof {
        lemma_fields_view(stream_fields@);
    }
    let empty_m: Vec<(JsonValue, Vec<JsonValue>)> = Vec::new();
    proof {
        assert(refs_view(empty_m@) =~= Seq::<(JsonV, Seq<JsonV>)>::empty());
    }
    let mut kk: usize = 0;
    while kk < stream_fields.len()
        invariant
            kk <= stream_fields@.len(),
            fv == fields_view(stream_fields@),
            mv == refs_view(m@),
            refs_view(empty_m@) == Seq::<(JsonV, Seq<JsonV>)>::empty(),
            fv.len() == stream_fields@.len(),
            forall|t: int| 0 <= t < stream_fields@.len() ==> #[trigger] fv[t] == sels_view(
                stream_fields@[t]@,
            ),
            fields_fold(v@, fv, 0, mv, old(out)@) == fields_fold(v@, fv, kk as int, mv, out@),
        decreases stream_fields@.len() - kk,
    {
        let ghost out0 = out@;
        match select_from_json_object(v, &stream_fields[kk]) {
            Err(_) => {},
            Ok(key) => {
                let skip = match &key {
                    JsonValue::Arr(_) => true,
                    JsonValue::Obj(_) => true,
                    JsonValue::Null => true,
                    _ => false,
                };
                if !skip {
                    let mref: &Vec<(JsonValue, Vec<JsonValue>)> = if kk == 0 {
                        m
                    } else {
                        &empty_m
                    };
                    match get_refs(mref, &key) {
                        Some(g) => {
                            emit_for_matches(g, v, out);
                        },
                        None => {
                            proof {
                                assert(emit_matches(
                                    Seq::<JsonV>::empty(),
                                    0,
                                    v@,
                                    out0,
                                ) == out0);
                            }
                        },
                    }
                }
            },
        }
        kk += 1;
    }
}

/// Joins a stream against a reference input, mirroring `join_spec`.
#[verifier::rlimit(90)]
pub fn join(
    reference: &str,
    reference_fields: Vec<Vec<Selector>>,
    stream_fields: Vec<Vec<Selector>>,
    stream: &str,
) -> (r: Result<String, NdJsonSpatialError>)
    ensures
        (match r {
            Ok(out) => out@ == join_spec(
                reference@,
                fields_view(reference_fields@),
                fields_view(stream_fields@),
                stream@,
            ),
            Err(_) => false,
        }),
{
    let rcs = to_chars(reference);
    let rlines = crate::ndjson::cut_lines(&rcs);
    let refs = crate::ndjson::parse_records(&rlines);
    let ghost refsv = crate::json::arr_view(refs@);
    proof {
        crate::json::lemma_arr_view(refs@);
        lemma_fields_view(reference_fields@);
    }
    let mut m: Vec<(JsonValue, Vec<JsonValue>)> = Vec::new();
    proof {
        assert(refs_view(m@) =~= Seq::<(JsonV, Seq<JsonV>)>::empty());
    }
    if reference_fields.len() > 0 {
        let field0 = &reference_fields[0];
        let ghost f0 = sels_view(field0@);
        let mut i: usize = 0;
        while i < refs.len()
            invariant
                i <= refs@.len(),
                refsv == crate::json::arr_view(refs@),
                f0 == sels_view(field0@),
                refsv.len() == refs@.len(),
                forall|t: int| 0 <= t < refs@.len() ==> #[trigger] refsv[t] == value_view(
                    refs@[t],
                ),
                build_refs(refsv, 0, f0, Seq::<(JsonV, Seq<JsonV>)>::empty()) == build_refs(
                    refsv,
                    i as int,
                    f0,
                    refs_view(m@),
                ),
            decreases refs@.len() - i,
        {
            let rec = &refs[i];
            let is_obj = match rec {
                JsonValue::Obj(_) => true,
                _ => false,
            };
            if is_obj {
                match select_from_json_object(rec, field0) {
                    Ok(kv) => {
                        add_ref(&mut m, kv, rec.deep_clone());
                    },
                    Err(_) => {},
                }
            }
            i += 1;
        }
    }
    let scs = to_chars(stream);
    let slines = crate::ndjson::cut_lines(&scs);
    let svals = crate::ndjson::parse_records(&slines);
    let ghost sv = crate::json::arr_view(svals@);
    proof {
        crate::json::lemma_arr_view(svals@);
    }
    let mut out: Vec<char> = Vec::new();
    let mut i: usize = 0;
    while i < svals.len()
        invariant
            i <= svals@.len(),
            sv == crate::json::arr_view(svals@),
            sv.len() == svals@.len(),
            forall|t: int| 0 <= t < svals@.len() ==> #[trigger] sv[t] == value_view(svals@[t]),
            run_join(sv, 0, fields_view(stream_fields@), refs_view(m@), Seq::<char>::empty())
                == run_join(sv, i as int, fields_view(stream_fields@), refs_view(m@), out@),
        decreases svals@.len() - i,
    {
        stream_record_out(&svals[i], &stream_fields, &m, &mut out);
        i += 1;
    }
    Ok(chars_to_string(&out))
}

} // verus!
