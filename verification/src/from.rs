//! The structural stream splitter: follows a chain of field names and
//! array positions through one large JSON document by tracking brace and
//! bracket depth — never counting inside string literals — then emits
//! each element of the target collection as one self-contained line,
//! without parsing the document.  Elements are objects, or sub-arrays
//! when the target is an array of arrays.

use vstd::prelude::*;

use crate::error::NdJsonSpatialError;
use crate::json_selector_parser::{sels_view, SelV, Selector};
use crate::text::{chars_to_string, to_chars};

verus! {

/// One step of the seek chain: a field name sought as a quoted key, or
/// an array position counted by element separators.
pub enum SeekStep {
    Name(Seq<char>),
    Pos(u64),
}

/// The seek chain of a path: identifiers with their wrapping quotes
/// stripped, indices as positions.
pub open spec fn spec_seek_steps(sels: Seq<SelV>) -> Seq<SeekStep>
    decreases sels.len(),
{
    if sels.len() == 0 {
        Seq::<SeekStep>::empty()
    } else {
        spec_seek_steps(sels.drop_last()).push(
            match sels.last() {
                SelV::Identifier(name) => SeekStep::Name(crate::filter::strip_quotes_spec(name)),
                SelV::Index(n) => SeekStep::Pos(n as u64),
            },
        )
    }
}

/// How many name steps a chain holds: the brace level the target sits
/// at once the whole chain has matched.
pub open spec fn name_count(steps: Seq<SeekStep>) -> int
    decreases steps.len(),
{
    if steps.len() == 0 {
        0
    } else {
        name_count(steps.drop_last()) + (if steps.last() is Name {
            1int
        } else {
            0int
        })
    }
}

/// The string-literal state after one character: `instr` while inside a
/// string literal, `esc` right after a backslash there.
pub open spec fn str_next(instr: bool, esc: bool, c: char) -> (bool, bool) {
    if instr {
        if esc {
            (true, false)
        } else if c == '\\' {
            (true, true)
        } else if c == '"' {
            (false, false)
        } else {
            (true, false)
        }
    } else {
        if c == '"' {
            (true, false)
        } else {
            (false, false)
        }
    }
}

/// Whether the text ending at `end` ends with `name` wrapped in quotes.
pub open spec fn ends_with_quoted(s: Seq<char>, end: int, name: Seq<char>) -> bool {
    let q = seq!['"'] + name + seq!['"'];
    q.len() <= end <= s.len() && s.subrange(end - q.len(), end) == q
}

/// The seek phase: consumes characters while tracking brace and bracket
/// depth outside string literals.  A name step matches as a quoted key
/// when the brace depth equals one more than the names already matched;
/// a position step waits for the opening bracket of the following array
/// and matches at the start of its n-th element, elements counted by
/// the commas at the array's own level.  Yields the position after the
/// last match and the brace depth there; the input running out, or an
/// awaited array closing early, yields nothing.
pub open spec fn spec_seek(
    s: Seq<char>,
    i: int,
    steps: Seq<SeekStep>,
    ni: int,
    idn: int,
    b: int,
    k: int,
    instr: bool,
    esc: bool,
    inarr: bool,
    kb: int,
    db: int,
    cnt: int,
) -> Option<(int, int)>
    decreases s.len() - i,
{
    if ni >= steps.len() {
        Some((i, b))
    } else if i < 0 || i >= s.len() {
        None
    } else {
        let c = s[i];
        let (instr2, esc2) = str_next(instr, esc, c);
        let b2 = if !instr && c == '{' {
            b + 1
        } else if !instr && c == '}' {
            b - 1
        } else {
            b
        };
        let k2 = if !instr && c == '[' {
            k + 1
        } else if !instr && c == ']' {
            k - 1
        } else {
            k
        };
        match steps[ni] {
            SeekStep::Name(name) => {
                let matched = b2 == idn + 1 && ends_with_quoted(s, i + 1, name);
                if matched {
                    spec_seek(s, i + 1, steps, ni + 1, idn + 1, b2, k2, instr2, esc2, false, 0, 0, 0)
                } else {
                    spec_seek(s, i + 1, steps, ni, idn, b2, k2, instr2, esc2, inarr, kb, db, cnt)
                }
            },
            SeekStep::Pos(n) => {
                if !inarr {
                    if !instr && c == '[' {
                        if n == 0 {
                            spec_seek(
                                s,
                                i + 1,
                                steps,
                                ni + 1,
                                idn,
                                b2,
                                k2,
                                instr2,
                                esc2,
                                false,
                                0,
                                0,
                                0,
                            )
                        } else {
                            spec_seek(s, i + 1, steps, ni, idn, b2, k2, instr2, esc2, true, k, b2, 0)
                        }
                    } else {
                        spec_seek(s, i + 1, steps, ni, idn, b2, k2, instr2, esc2, false, 0, 0, 0)
                    }
                } else {
                    if !instr && c == ']' && k2 == kb {
                        None
                    } else if !instr && c == ',' && k2 == kb + 1 && b2 == db {
                        if cnt + 1 == n {
                            spec_seek(
                                s,
                                i + 1,
                                steps,
                                ni + 1,
                                idn,
                                b2,
                                k2,
                                instr2,
                                esc2,
                                false,
                                0,
                                0,
                                0,
                            )
                        } else {
                            spec_seek(
                                s,
                                i + 1,
                                steps,
                                ni,
                                idn,
                                b2,
                                k2,
                                instr2,
                                esc2,
                                true,
                                kb,
                                db,
                                if n > 0 && cnt < n - 1 {
                                    cnt + 1
                                } else {
                                    cnt
                                },
                            )
                        }
                    } else {
                        spec_seek(s, i + 1, steps, ni, idn, b2, k2, instr2, esc2, true, kb, db, cnt)
                    }
                }
            },
        }
    }
}

/// The emit phase: tracks brace and bracket depth outside string
/// literals from the seek's stopping point.  An object element is
/// captured from a brace that enters level `target + 1` until the depth
/// returns to `target`; a sub-array element from a bracket entering
/// bracket depth two until the bracket depth returns to one.  Captured
/// text loses embedded newlines and each element becomes one output
/// line.  Everything stops when the brace depth drops below `target`.
pub open spec fn spec_emit(
    s: Seq<char>,
    i: int,
    target: int,
    b: int,
    k: int,
    instr: bool,
    esc: bool,
    mode: int,
    buf: Seq<char>,
    acc: Seq<char>,
) -> Seq<char>
    decreases s.len() - i,
{
    if i < 0 || i >= s.len() {
        acc
    } else {
        let c = s[i];
        let (instr2, esc2) = str_next(instr, esc, c);
        let b2 = if !instr && c == '{' {
            b + 1
        } else if !instr && c == '}' {
            b - 1
        } else {
            b
        };
        let k2 = if !instr && c == '[' {
            k + 1
        } else if !instr && c == ']' {
            k - 1
        } else {
            k
        };
        if !instr && c == '}' && b2 < target {
            acc
        } else if mode == 0 {
            if !instr && c == '{' && b2 == target + 1 {
                spec_emit(s, i + 1, target, b2, k2, instr2, esc2, 1, seq!['{'], acc)
            } else if !instr && c == '[' && k2 == 2 {
                spec_emit(s, i + 1, target, b2, k2, instr2, esc2, 2, seq!['['], acc)
            } else {
                spec_emit(s, i + 1, target, b2, k2, instr2, esc2, 0, Seq::<char>::empty(), acc)
            }
        } else {
            let buf2 = if c == '\n' {
                buf
            } else {
                buf.push(c)
            };
            if !instr && mode == 1 && c == '}' && b2 == target {
                spec_emit(
                    s,
                    i + 1,
                    target,
                    b2,
                    k2,
                    instr2,
                    esc2,
                    0,
                    Seq::<char>::empty(),
                    acc + buf2 + seq!['\n'],
                )
            } else if !instr && mode == 2 && c == ']' && k2 == 1 {
                spec_emit(
                    s,
                    i + 1,
                    target,
                    b2,
                    k2,
                    instr2,
                    esc2,
                    0,
                    Seq::<char>::empty(),
                    acc + buf2 + seq!['\n'],
                )
            } else {
                spec_emit(s, i + 1, target, b2, k2, instr2, esc2, mode, buf2, acc)
            }
        }
    }
}

/// What splitting yields: seek the chain, then emit the elements at the
/// level the names establish.  An exhausted seek yields no output.
pub open spec fn split_spec(s: Seq<char>, steps: Seq<SeekStep>) -> Seq<char> {
    match spec_seek(s, 0, steps, 0, 0, 0, 0, false, false, false, 0, 0, 0) {
        Some((pos, depth)) => spec_emit(
            s,
            pos,
            name_count(steps),
            depth,
            0,
            false,
            false,
            0,
            Seq::<char>::empty(),
            Seq::<char>::empty(),
        ),
        None => Seq::<char>::empty(),
    }
}


/// Whether `s` ends at `end` with `name` wrapped in quotes.
#[verifier::loop_isolation(false)]
fn suffix_matches(s: &Vec<char>, end: usize, name: &Vec<char>) -> (r: bool)
    requires
        end <= s@.len(),
    ensures
        r == ends_with_quoted(s@, end as int, name@),
{
    let ghost q = seq!['"'] + name@ + seq!['"'];
    proof {
        assert(q.len() == name@.len() + 2);
        assert(q[0] == '"');
        assert(q[q.len() - 1] == '"');
        assert(forall|t: int| 0 <= t < name@.len() ==> q[1 + t] == #[trigger] name@[t]);
    }
    if end < 2 || end - 2 < name.len() {
        return false;
    }
    let start = end - name.len() - 2;
    if s[start] != '"' || s[end - 1] != '"' {
        proof {
            if s@.subrange(end - q.len(), end as int) == q {
                assert(s@.subrange(end - q.len(), end as int)[0] == q[0]);
                assert(s@.subrange(end - q.len(), end as int)[q.len() - 1] == q[q.len() - 1]);
            }
        }
        return false;
    }
    let mut j: usize = 0;
    while j < name.len()
        invariant
            j <= name@.len(),
            end <= s@.len(),
            end >= name@.len() + 2,
            start == end - name@.len() - 2,
            forall|t: int| 0 <= t < j ==> s@[start + 1 + t] == name@[t],
        decreases name@.len() - j,
    {
        if s[start + 1 + j] != name[j] {
            proof {
                if s@.subrange(end - q.len(), end as int) == q {
                    assert(s@.subrange(end - q.len(), end as int)[1 + j] == q[1 + j]);
                    assert(s@.subrange(end - q.len(), end as int)[1 + j] == s@[start + 1 + j]);
                }
            }
            return false;
        }
        j += 1;
    }
    proof {
        assert(s@.subrange(end - q.len(), end as int) =~= q);
    }
    true
}

/// One step of the seek chain, as the machine runs it.
enum Step {
    Name(Vec<char>),
    Pos(u64),
}

/// The model of a step list.
spec fn steps_view(v: Seq<Step>) -> Seq<SeekStep>
    decreases v.len(),
{
    if v.len() == 0 {
        Seq::<SeekStep>::empty()
    } else {
        steps_view(v.drop_last()).push(
            match v.last() {
                Step::Name(n) => SeekStep::Name(n@),
                Step::Pos(p) => SeekStep::Pos(p),
            },
        )
    }
}

/// The step list model maps each step to its model.
proof fn lemma_steps_view(v: Seq<Step>)
    ensures
        steps_view(v).len() == v.len(),
        forall|i: int| 0 <= i < v.len() ==> #[trigger] steps_view(v)[i] == (match v[i] {
            Step::Name(n) => SeekStep::Name(n@),
            Step::Pos(p) => SeekStep::Pos(p),
        }),
    decreases v.len(),
{
    if v.len() > 0 {
        lemma_steps_view(v.drop_last());
    }
}

/// How many name steps a step list holds.
#[verifier::loop_isolation(false)]
fn count_names(steps: &Vec<Step>) -> (r: usize)
    ensures
        r as int == name_count(steps_view(steps@)),
        r <= steps@.len(),
{
    proof {
        lemma_steps_view(steps@);
    }
    let mut r: usize = 0;
    let mut i: usize = 0;
    while i < steps.len()
        invariant
            i <= steps@.len(),
            r <= i,
            r as int == name_count(steps_view(steps@).subrange(0, i as int)),
        decreases steps@.len() - i,
    {
        let isname = match &steps[i] {
            Step::Name(_) => true,
            Step::Pos(_) => false,
        };
        if isname {
            r += 1;
        }
        i += 1;
        proof {
            let sub = steps_view(steps@).subrange(0, i as int);
            assert(sub.drop_last() =~= steps_view(steps@).subrange(0, i - 1));
            assert(sub.last() == steps_view(steps@)[i - 1]);
        }
    }
    proof {
        assert(steps_view(steps@).subrange(0, steps@.len() as int) =~= steps_view(steps@));
    }
    r
}

/// Builds the seek chain of a path, mirroring `spec_seek_steps`.
#[verifier::loop_isolation(false)]
fn build_steps(selectors: &Vec<Selector>) -> (r: Vec<Step>)
    ensures
        steps_view(r@) == spec_seek_steps(sels_view(selectors@)),
{
    let ghost sv = sels_view(selectors@);
    proof {
        crate::json_selector_parser::lemma_sels_view(selectors@);
        assert(steps_view(Seq::<Step>::empty()) =~= spec_seek_steps(sv.subrange(0, 0)));
    }
    let mut out: Vec<Step> = Vec::new();
    let mut i: usize = 0;
    while i < selectors.len()
        invariant
            i <= selectors@.len(),
            steps_view(out@) == spec_seek_steps(sv.subrange(0, i as int)),
        decreases selectors@.len() - i,
    {
        let ghost out0 = out@;
        match &selectors[i] {
            Selector::Identifier(name) => {
                let stripped = crate::filter::strip_quotes_string(name);
                out.push(Step::Name(to_chars(stripped.as_str())));
            },
            Selector::Index(n) => {
                out.push(Step::Pos(*n as u64));
            },
        }
        i += 1;
        proof {
            assert(out@.drop_last() =~= out0);
            let sub = sv.subrange(0, i as int);
            assert(sub.drop_last() =~= sv.subrange(0, i - 1));
            assert(sub.last() == sv[i - 1]);
            assert(steps_view(out@) =~= spec_seek_steps(sub));
        }
    }
    proof {
        assert(sv.subrange(0, sv.len() as int) =~= sv);
    }
    out
}


/// Runs the seek phase, mirroring `spec_seek`.
#[verifier::rlimit(90)]
fn run_seek(s: &Vec<char>, steps: &Vec<Step>) -> (r: Option<(usize, i128)>)
    ensures
        (match r {
            Some((pos, depth)) => spec_seek(
                s@,
                0,
                steps_view(steps@),
                0,
                0,
                0,
                0,
                false,
                false,
                false,
                0,
                0,
                0,
            ) == Some((pos as int, depth as int)) && pos <= s@.len() && -(pos as int)
                <= depth as int <= pos as int,
            None => (spec_seek(
                s@,
                0,
                steps_view(steps@),
                0,
                0,
                0,
                0,
                false,
                false,
                false,
                0,
                0,
                0,
            ) is None),
        }),
{
    let ghost sv = steps_view(steps@);
    proof {
        lemma_steps_view(steps@);
    }
    let mut i: usize = 0;
    let mut ni: usize = 0;
    let mut idn: usize = 0;
    let mut b: i128 = 0;
    let mut k: i128 = 0;
    let mut instr: bool = false;
    let mut esc: bool = false;
    let mut inarr: bool = false;
    let mut kb: i128 = 0;
    let mut db: i128 = 0;
    let mut cnt: u64 = 0;
    loop
        invariant_except_break
            i <= s@.len(),
            ni <= steps@.len(),
            idn <= ni,
            sv == steps_view(steps@),
            sv.len() == steps@.len(),
            forall|j: int| 0 <= j < steps@.len() ==> #[trigger] sv[j] == (match steps@[j] {
                Step::Name(n) => SeekStep::Name(n@),
                Step::Pos(p) => SeekStep::Pos(p),
            }),
            -(i as int) <= b as int <= i as int,
            -(i as int) <= k as int <= i as int,
            -(i as int) <= kb as int <= i as int,
            -(i as int) <= db as int <= i as int,
            !instr ==> !esc,
            spec_seek(s@, 0, sv, 0, 0, 0, 0, false, false, false, 0, 0, 0) == spec_seek(
                s@,
                i as int,
                sv,
                ni as int,
                idn as int,
                b as int,
                k as int,
                instr,
                esc,
                inarr,
                kb as int,
                db as int,
                cnt as int,
            ),
        ensures
            spec_seek(s@, 0, sv, 0, 0, 0, 0, false, false, false, 0, 0, 0) == spec_seek(
                s@,
                i as int,
                sv,
                ni as int,
                idn as int,
                b as int,
                k as int,
                instr,
                esc,
                inarr,
                kb as int,
                db as int,
                cnt as int,
            ),
            i <= s@.len(),
            -(i as int) <= b as int <= i as int,
            ni == steps@.len() || i == s@.len(),
        decreases s@.len() - i,
    {
        if ni >= steps.len() {
            break;
        }
        if i >= s.len() {
            break;
        }
        let ghost nii = ni as int;
        let ghost idni = idn as int;
        let ghost bi = b as int;
        let ghost kki = k as int;
        let ghost instri = instr;
        let ghost esci = esc;
        let ghost inarri = inarr;
        let ghost kbi = kb as int;
        let ghost dbi = db as int;
        let ghost cnti = cnt as int;
        let c = s[i];
        let instr0 = instr;
        if instr {
            if esc {
                esc = false;
            } else if c == '\\' {
                esc = true;
            } else if c == '"' {
                instr = false;
            }
        } else {
            if c == '"' {
                instr = true;
            }
        }
        let mut b2 = b;
        let mut k2 = k;
        if !instr0 && c == '{' {
            b2 = b + 1;
        } else if !instr0 && c == '}' {
            b2 = b - 1;
        }
        if !instr0 && c == '[' {
            k2 = k + 1;
        } else if !instr0 && c == ']' {
            k2 = k - 1;
        }
        let isname = match &steps[ni] {
            Step::Name(_) => true,
            Step::Pos(_) => false,
        };
        if isname {
            let matched = match &steps[ni] {
                Step::Name(name) => b2 == (idn as i128) + 1 && suffix_matches(s, i + 1, name),
                Step::Pos(_) => false,
            };
            if matched {
                ni += 1;
                idn += 1;
                inarr = false;
                kb = 0;
                db = 0;
                cnt = 0;
            }
        } else {
            let n = match &steps[ni] {
                Step::Pos(p) => *p,
                Step::Name(_) => 0,
            };
            if !inarr {
                if !instr0 && c == '[' {
                    if n == 0 {
                        ni += 1;
                        inarr = false;
                        kb = 0;
                        db = 0;
                        cnt = 0;
                    } else {
                        inarr = true;
                        kb = k;
                        db = b2;
                        cnt = 0;
                    }
                } else {
                    inarr = false;
                    kb = 0;
                    db = 0;
                    cnt = 0;
                }
            } else {
                if !instr0 && c == ']' && k2 == kb {
                    return None;
                } else if !instr0 && c == ',' && k2 == kb + 1 && b2 == db {
                    if (cnt as u128) + 1 == n as u128 {
                        ni += 1;
                        inarr = false;
                        kb = 0;
                        db = 0;
                        cnt = 0;
                    } else if n > 0 && cnt < n - 1 {
                        cnt = cnt + 1;
                    }
                }
            }
        }
        b = b2;
        k = k2;
        i += 1;
        proof {
            assert(spec_seek(
                s@,
                i - 1,
                sv,
                nii,
                idni,
                bi,
                kki,
                instri,
                esci,
                inarri,
                kbi,
                dbi,
                cnti,
            ) == spec_seek(
                s@,
                i as int,
                sv,
                ni as int,
                idn as int,
                b as int,
                k as int,
                instr,
                esc,
                inarr,
                kb as int,
                db as int,
                cnt as int,
            ));
        }
    }
    if ni >= steps.len() {
        Some((i, b))
    } else {
        None
    }
}

/// Runs the emit phase, mirroring `spec_emit`.
#[verifier::rlimit(90)]
fn run_emit(s: &Vec<char>, pos: usize, target: usize, depth0: i128) -> (out: Vec<char>)
    requires
        pos <= s@.len(),
        -(pos as int) <= depth0 as int <= pos as int,
    ensures
        out@ == spec_emit(
            s@,
            pos as int,
            target as int,
            depth0 as int,
            0,
            false,
            false,
            0,
            Seq::<char>::empty(),
            Seq::<char>::empty(),
        ),
{
    let mut out: Vec<char> = Vec::new();
    let mut buf: Vec<char> = Vec::new();
    let mut i: usize = pos;
    let mut b: i128 = depth0;
    let mut k: i128 = 0;
    let mut instr: bool = false;
    let mut esc: bool = false;
    let mut mode: u8 = 0;
    loop
        invariant_except_break
            pos <= i <= s@.len(),
            -(i as int) <= b as int <= i as int,
            -(i as int) <= k as int <= i as int,
            mode == 0 || mode == 1 || mode == 2,
            mode == 0 ==> buf@ == Seq::<char>::empty(),
            !instr ==> !esc,
            spec_emit(
                s@,
                pos as int,
                target as int,
                depth0 as int,
                0,
                false,
                false,
                0,
                Seq::<char>::empty(),
                Seq::<char>::empty(),
            ) == spec_emit(
                s@,
                i as int,
                target as int,
                b as int,
                k as int,
                instr,
                esc,
                mode as int,
                buf@,
                out@,
            ),
        ensures
            spec_emit(
                s@,
                pos as int,
                target as int,
                depth0 as int,
                0,
                false,
                false,
                0,
                Seq::<char>::empty(),
                Seq::<char>::empty(),
            ) == out@,
        decreases s@.len() - i,
    {
        if i >= s.len() {
            break;
        }
        let ghost bi = b as int;
        let ghost ki = k as int;
        let ghost mi = mode as int;
        let ghost bufi = buf@;
        let ghost outi = out@;
        let ghost instri = instr;
        let ghost esci = esc;
        let c = s[i];
        let instr0 = instr;
        if instr {
            if esc {
                esc = false;
            } else if c == '\\' {
                esc = true;
            } else if c == '"' {
                instr = false;
            }
        } else {
            if c == '"' {
                instr = true;
            }
        }
        let mut b2 = b;
        let mut k2 = k;
        if !instr0 && c == '{' {
            b2 = b + 1;
        } else if !instr0 && c == '}' {
            b2 = b - 1;
        }
        if !instr0 && c == '[' {
            k2 = k + 1;
        } else if !instr0 && c == ']' {
            k2 = k - 1;
        }
        if !instr0 && c == '}' && b2 < target as i128 {
            break;
        }
        if mode == 0 {
            if !instr0 && c == '{' && b2 == target as i128 + 1 {
                mode = 1;
                buf = Vec::new();
                buf.push('{');
                proof {
                    assert(buf@ =~= seq!['{']);
                }
            } else if !instr0 && c == '[' && k2 == 2 {
                mode = 2;
                buf = Vec::new();
                buf.push('[');
                proof {
                    assert(buf@ =~= seq!['[']);
                }
            }
        } else {
            if c != '\n' {
                buf.push(c);
            }
            let done_obj = !instr0 && mode == 1 && c == '}' && b2 == target as i128;
            let done_arr = !instr0 && mode == 2 && c == ']' && k2 == 1;
            if done_obj || done_arr {
                let ghost out0 = out@;
                let ghost bufv = buf@;
                let mut flushed = buf;
                out.append(&mut flushed);
                out.push('\n');
                buf = Vec::new();
                mode = 0;
                proof {
                    assert(out@ =~= out0 + bufv + seq!['\n']);
                }
            }
        }
        b = b2;
        k = k2;
        i += 1;
        proof {
            assert(spec_emit(s@, i - 1, target as int, bi, ki, instri, esci, mi, bufi, outi)
                == spec_emit(
                s@,
                i as int,
                target as int,
                b as int,
                k as int,
                instr,
                esc,
                mode as int,
                buf@,
                out@,
            ));
        }
    }
    out
}

/// Splits one JSON document on a chain of field names and array
/// positions: each element of the collection under the chain becomes
/// one output line.
pub fn generic_split(input: &str, selectors: &Vec<Selector>) -> (r: Result<
    String,
    NdJsonSpatialError,
>)
    ensures
        (match r {
            Ok(out) => out@ == split_spec(input@, spec_seek_steps(sels_view(selectors@))),
            Err(_) => false,
        }),
{
    let cs = to_chars(input);
    let steps = build_steps(selectors);
    let target = count_names(&steps);
    match run_seek(&cs, &steps) {
        Some((pos, depth)) => {
            let out = run_emit(&cs, pos, target, depth);
            Ok(chars_to_string(&out))
        },
        None => {
            let empty: Vec<char> = Vec::new();
            Ok(chars_to_string(&empty))
        },
    }
}

} // verus!
