//! Splitting one GeoJSON feature collection into one feature per line.

use vstd::prelude::*;

use crate::error::NdJsonSpatialError;
use crate::from::{generic_split, split_spec, SeekStep};
use crate::json_selector_parser::{sels_view, Selector};

verus! {

/// Splits a GeoJSON document on its `features` collection: each feature
/// becomes one output line.
pub fn split(input: &str) -> (r: Result<String, NdJsonSpatialError>)
    ensures
        (match r {
            Ok(out) => out@ == split_spec(
                input@,
                seq![SeekStep::Name(seq!['f', 'e', 'a', 't', 'u', 'r', 'e', 's'])],
            ),
            Err(_) => false,
        }),
{
    let name: String = "features".to_owned();
    proof {
        reveal_strlit("features");
    }
    let mut selectors: Vec<Selector> = Vec::new();
    selectors.push(Selector::Identifier(name));
    proof {
        crate::json_selector_parser::lemma_sels_view(selectors@);
        assert(sels_view(selectors@).drop_last() =~= Seq::<
            crate::json_selector_parser::SelV,
        >::empty());
        assert(sels_view(selectors@).len() == 1);
        assert(sels_view(selectors@)[0] == selectors@[0]@);
        assert(sels_view(selectors@).last() == selectors@[0]@);
        assert(crate::from::spec_seek_steps(
            Seq::<crate::json_selector_parser::SelV>::empty(),
        ) == Seq::<SeekStep>::empty());
        assert(crate::filter::strip_quotes_spec(selectors@[0]@->Identifier_0) =~= seq![
            'f',
            'e',
            'a',
            't',
            'u',
            'r',
            'e',
            's',
        ]);
        assert(crate::from::spec_seek_steps(sels_view(selectors@)) =~= seq![
            SeekStep::Name(seq!['f', 'e', 'a', 't', 'u', 'r', 'e', 's']),
        ]);
    }
    generic_split(input, &selectors)
}

} // verus!
