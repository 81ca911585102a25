//! Line-oriented input: cutting an NDJSON text into its lines the way a
//! line-by-line reader hands them out, and the reader front ends that
//! the command-line tools wrap around a source.

use vstd::prelude::*;

use crate::json::{arr_view, lemma_arr_view, parse_json_chars, ser_value, spec_json_line, value_view, JsonValue};

verus! {

/// The first position at or after `i` holding a newline.
pub open spec fn line_break(s: Seq<char>, i: int) -> int
    recommends
        0 <= i <= s.len(),
    decreases s.len() - i,
{
    if i < s.len() && s[i] != '\n' {
        line_break(s, i + 1)
    } else {
        i
    }
}

/// The scan is bounded by the sequence.
pub proof fn lemma_line_break(s: Seq<char>, i: int)
    requires
        0 <= i <= s.len(),
    ensures
        i <= line_break(s, i) <= s.len(),
    decreases s.len() - i,
{
    if i < s.len() && s[i] != '\n' {
        lemma_line_break(s, i + 1);
    }
}

/// A final line without a newline loses one trailing comma, as a
/// line-by-line reader strips it.
pub open spec fn strip_comma(t: Seq<char>) -> Seq<char> {
    if t.len() > 0 && t.last() == ',' {
        t.drop_last()
    } else {
        t
    }
}

/// The lines of an NDJSON text: segments between newlines, the final
/// segment (if it lacks a newline) with one trailing comma stripped, and
/// nothing after a final newline.
pub open spec fn split_lines(s: Seq<char>) -> Seq<Seq<char>>
    decreases s.len(),
    via split_lines_decreases
{
    if s.len() == 0 {
        Seq::<Seq<char>>::empty()
    } else {
        let e = line_break(s, 0);
        if e >= s.len() {
            seq![strip_comma(s)]
        } else {
            seq![s.subrange(0, e)] + split_lines(s.subrange(e + 1, s.len() as int))
        }
    }
}

#[via_fn]
proof fn split_lines_decreases(s: Seq<char>) {
    if s.len() > 0 {
        lemma_line_break(s, 0);
    }
}

/// Cuts `s` into lines, mirroring `split_lines`.
pub fn cut_lines(s: &Vec<char>) -> (r: Vec<Vec<char>>)
    ensures
        lines_view(r@) == split_lines(s@),
    decreases s@.len(),
{
    let mut out: Vec<Vec<char>> = Vec::new();
    if s.len() == 0 {
        proof {
            assert(lines_view(out@) =~= split_lines(s@));
        }
        return out;
    }
    proof {
        lemma_line_break(s@, 0);
    }
    let mut e: usize = 0;
    loop
        invariant_except_break
            e <= s@.len(),
            line_break(s@, 0) == line_break(s@, e as int),
        ensures
            e <= s@.len(),
            line_break(s@, 0) == e as int,
            e < s@.len() ==> s@[e as int] == '\n',
        decreases s@.len() - e,
    {
        if e >= s.len() {
            break;
        }
        if s[e] == '\n' {
            break;
        }
        e += 1;
    }
    if e >= s.len() {
        let mut line: Vec<char> = Vec::new();
        crate::number::push_range(s, 0, s.len(), &mut line);
        if line.len() > 0 && line[line.len() - 1] == ',' {
            line.pop();
            proof {
                assert(line@ =~= strip_comma(s@)) by {
                    assert(s@.subrange(0, s@.len() as int) =~= s@);
                }
            }
        } else {
            proof {
                assert(line@ =~= strip_comma(s@)) by {
                    assert(s@.subrange(0, s@.len() as int) =~= s@);
                }
            }
        }
        let ghost linev = line@;
        out.push(line);
        proof {
            assert(out@.drop_last() =~= Seq::<Vec<char>>::empty());
            assert(lines_view(Seq::<Vec<char>>::empty()) == Seq::<Seq<char>>::empty());
            assert(out@.last()@ == linev);
            assert(lines_view(out@) =~= split_lines(s@));
        }
        return out;
    }
    let mut line: Vec<char> = Vec::new();
    crate::number::push_range(s, 0, e, &mut line);
    let mut restv: Vec<char> = Vec::new();
    crate::number::push_range(s, e + 1, s.len(), &mut restv);
    let mut rest_lines = cut_lines(&restv);
    let ghost rl = rest_lines@;
    let ghost linev = line@;
    out.push(line);
    out.append(&mut rest_lines);
    proof {
        assert(out@.len() == 1 + rl.len());
        assert(out@[0]@ == s@.subrange(0, e as int));
        assert(out@.subrange(1, out@.len() as int) =~= rl);
        lemma_lines_view_concat(out@, restv@, s@, e as int);
    }
    out
}

/// The character sequences of a vector of lines.
pub open spec fn lines_view(ls: Seq<Vec<char>>) -> Seq<Seq<char>>
    decreases ls.len(),
{
    if ls.len() == 0 {
        Seq::<Seq<char>>::empty()
    } else {
        lines_view(ls.drop_last()).push(ls.last()@)
    }
}

/// The line list model maps each line to its characters.
pub proof fn lemma_lines_view(ls: Seq<Vec<char>>)
    ensures
        lines_view(ls).len() == ls.len(),
        forall|i: int| 0 <= i < ls.len() ==> #[trigger] lines_view(ls)[i] == ls[i]@,
    decreases ls.len(),
{
    if ls.len() > 0 {
        lemma_lines_view(ls.drop_last());
    }
}

/// Connects the pushed-and-appended line vector with the recursive cut.
proof fn lemma_lines_view_concat(outs: Seq<Vec<char>>, rest: Seq<char>, s: Seq<char>, e: int)
    requires
        0 <= e < s.len(),
        s[e] == '\n',
        line_break(s, 0) == e,
        rest == s.subrange(e + 1, s.len() as int),
        outs.len() >= 1,
        outs[0]@ == s.subrange(0, e),
        lines_view(outs.subrange(1, outs.len() as int)) == split_lines(rest),
    ensures
        lines_view(outs) == split_lines(s),
{
    lemma_lines_view(outs);
    lemma_lines_view(outs.subrange(1, outs.len() as int));
    assert(split_lines(s) == seq![s.subrange(0, e)] + split_lines(rest));
    assert(lines_view(outs) =~= split_lines(s)) by {
        assert forall|i: int| 0 <= i < outs.len() implies #[trigger] lines_view(outs)[i]
            == split_lines(s)[i] by {
            if i > 0 {
                assert(outs.subrange(1, outs.len() as int)[i - 1] == outs[i]);
                assert(lines_view(outs.subrange(1, outs.len() as int))[i - 1] == outs[i]@);
            }
        }
    }
}

/// A reader front end that hands out whole-document GeoJSON values line
/// by line from its source.
#[derive(Debug)]
pub struct NdJsonGeojsonReader<IN> {
    source: IN,
}

impl<IN> NdJsonGeojsonReader<IN> {
    /// The source this reader wraps.
    pub closed spec fn spec_source(&self) -> IN {
        self.source
    }

    /// Wraps a source.
    pub fn new(std_in: IN) -> (r: NdJsonGeojsonReader<IN>)
        ensures
            r.spec_source() == std_in,
    {
        NdJsonGeojsonReader { source: std_in }
    }

    /// Hands the source back.
    pub fn into_inner(self) -> (r: IN)
        ensures
            r == self.spec_source(),
    {
        self.source
    }
}

/// A reader front end that hands out JSON values line by line from its
/// source.
#[derive(Debug)]
pub struct NdjsonReader<IN> {
    source: IN,
}

impl<IN> NdjsonReader<IN> {
    /// The source this reader wraps.
    pub closed spec fn spec_source(&self) -> IN {
        self.source
    }

    /// Wraps a source.
    pub fn new(std_in: IN) -> (r: NdjsonReader<IN>)
        ensures
            r.spec_source() == std_in,
    {
        NdjsonReader { source: std_in }
    }

    /// Hands the source back.
    pub fn into_inner(self) -> (r: IN)
        ensures
            r == self.spec_source(),
    {
        self.source
    }
}


/// The values of the lines that parse, from `i` on, unparseable lines
/// skipped, appended to `acc`.
pub open spec fn parsed_records(lines: Seq<Seq<char>>, i: int, acc: Seq<
    crate::json::JsonV,
>) -> Seq<crate::json::JsonV>
    decreases lines.len() - i,
{
    if i < 0 || i >= lines.len() {
        acc
    } else {
        match spec_json_line(lines[i]) {
            Some(v) => parsed_records(lines, i + 1, acc.push(v)),
            None => parsed_records(lines, i + 1, acc),
        }
    }
}

/// Parses every line that will parse, mirroring `parsed_records`.
pub fn parse_records(lines: &Vec<Vec<char>>) -> (r: Vec<JsonValue>)
    ensures
        arr_view(r@) == parsed_records(lines_view(lines@), 0, Seq::<crate::json::JsonV>::empty()),
{
    let ghost lv = lines_view(lines@);
    proof {
        lemma_lines_view(lines@);
    }
    let mut out: Vec<JsonValue> = Vec::new();
    proof {
        assert(arr_view(out@) =~= Seq::<crate::json::JsonV>::empty());
    }
    let mut i: usize = 0;
    while i < lines.len()
        invariant
            i <= lines@.len(),
            lv == lines_view(lines@),
            lv.len() == lines@.len(),
            forall|j: int| 0 <= j < lines@.len() ==> #[trigger] lv[j] == lines@[j]@,
            parsed_records(lv, 0, Seq::<crate::json::JsonV>::empty()) == parsed_records(
                lv,
                i as int,
                arr_view(out@),
            ),
        decreases lines@.len() - i,
    {
        match parse_json_chars(&lines[i]) {
            Some(v) => {
                proof {
                    crate::json::lemma_arr_view_push(out@, v);
                }
                out.push(v);
            },
            None => {},
        }
        i += 1;
    }
    out
}

/// The records serialized back, one line each, from `i` on.
pub open spec fn render_records(vs: Seq<crate::json::JsonV>, i: int, acc: Seq<char>) -> Seq<char>
    decreases vs.len() - i,
{
    if i < 0 || i >= vs.len() {
        acc
    } else {
        render_records(vs, i + 1, acc + ser_value(vs[i]) + seq!['\n'])
    }
}

/// Serializes records one per line, mirroring `render_records`.
pub fn write_records(vs: &Vec<JsonValue>) -> (r: Vec<char>)
    ensures
        r@ == render_records(arr_view(vs@), 0, Seq::<char>::empty()),
{
    let ghost av = arr_view(vs@);
    proof {
        lemma_arr_view(vs@);
    }
    let mut out: Vec<char> = Vec::new();
    let mut i: usize = 0;
    while i < vs.len()
        invariant
            i <= vs@.len(),
            av == arr_view(vs@),
            av.len() == vs@.len(),
            forall|j: int| 0 <= j < vs@.len() ==> #[trigger] av[j] == value_view(vs@[j]),
            render_records(av, 0, Seq::<char>::empty()) == render_records(av, i as int, out@),
        decreases vs@.len() - i,
    {
        let ghost out0 = out@;
        vs[i].write_chars(&mut out);
        out.push('\n');
        proof {
            assert(out@ =~= out0 + ser_value(av[i as int]) + seq!['\n']);
        }
        i += 1;
    }
    out
}

} // verus!
