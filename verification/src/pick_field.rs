//! The pick-field tool: write the value a selector path picks out of
//! each record, one line per record that has one.

use vstd::prelude::*;

use crate::error::NdJsonSpatialError;
use crate::filter::{sel_spec, select_from_json_object};
use crate::json::{parse_json_chars, ser_value, spec_json_line};
use crate::json_selector_parser::{sels_view, SelV, Selector};
use crate::text::{chars_to_string, to_chars};

verus! {

/// What picking yields over the lines from `i` on: the serialized
/// selected value of each line whose selection succeeds; a line that
/// does not parse, or whose selection fails, contributes nothing.
pub open spec fn run_pick(lines: Seq<Seq<char>>, i: int, path: Seq<SelV>, acc: Seq<char>) -> Seq<
    char,
>
    decreases lines.len() - i,
{
    if i < 0 || i >= lines.len() {
        acc
    } else {
        match spec_json_line(lines[i]) {
            None => run_pick(lines, i + 1, path, acc),
            Some(jv) => match sel_spec(jv, path) {
                Ok(w) => run_pick(lines, i + 1, path, acc + ser_value(w) + seq!['\n']),
                Err(_) => run_pick(lines, i + 1, path, acc),
            },
        }
    }
}

/// Picks the selected value out of each record, mirroring `run_pick`;
/// it never fails.
#[verifier::rlimit(90)]
pub fn pick_field(identifiers: Vec<Selector>, input: &str) -> (r: Result<
    String,
    NdJsonSpatialError,
>)
    ensures
        (r matches Ok(out) && run_pick(
            crate::ndjson::split_lines(input@),
            0,
            sels_view(identifiers@),
            Seq::<char>::empty(),
        ) == out@),
{
    let cs = to_chars(input);
    let lines = crate::ndjson::cut_lines(&cs);
    let ghost lv = crate::ndjson::lines_view(lines@);
    let ghost path = sels_view(identifiers@);
    proof {
        crate::ndjson::lemma_lines_view(lines@);
    }
    let mut out: Vec<char> = Vec::new();
    let mut i: usize = 0;
    while i < lines.len()
        invariant
            i <= lines@.len(),
            lv == crate::ndjson::lines_view(lines@),
            lv == crate::ndjson::split_lines(input@),
            path == sels_view(identifiers@),
            lv.len() == lines@.len(),
            forall|j: int| 0 <= j < lines@.len() ==> #[trigger] lv[j] == lines@[j]@,
            run_pick(lv, 0, path, Seq::<char>::empty()) == run_pick(lv, i as int, path, out@),
        decreases lines@.len() - i,
    {
        let ghost out0 = out@;
        match parse_json_chars(&lines[i]) {
            None => {},
            Some(v) => {
                match select_from_json_object(&v, &identifiers) {
                    Ok(w) => {
                        w.write_chars(&mut out);
                        out.push('\n');
                        proof {
                            assert(out@ =~= out0 + ser_value(crate::json::value_view(w))
                                + seq!['\n']);
                        }
                    },
                    Err(_) => {},
                }
            },
        }
        i += 1;
    }
    Ok(chars_to_string(&out))
}

} // verus!
