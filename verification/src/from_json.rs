//! Splitting one JSON document on a parsed selector path.

use vstd::prelude::*;

use crate::error::NdJsonSpatialError;
use crate::from::{generic_split, split_spec};
use crate::json_selector_parser::{parse_json_selector, spec_json_selector};

verus! {

/// Splits a JSON document on the chain of field names and array
/// positions that a selector expression gives: each element of the
/// collection under that chain becomes one output line.
pub fn from_json(expression: &str, input: &str) -> (r: Result<String, NdJsonSpatialError>)
    ensures
        (match spec_json_selector(expression@, 0) {
            Some((sels, _)) => r matches Ok(out) && out@ == split_spec(
                input@,
                crate::from::spec_seek_steps(sels),
            ),
            None => (r is Err),
        }),
{
    match parse_json_selector(expression) {
        Ok((_, identifiers)) => generic_split(input, &identifiers),
        Err(_) => Err(
            NdJsonSpatialError::Error("Could not parse json selector".to_owned()),
        ),
    }
}

} // verus!
