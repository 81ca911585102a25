//! Streaming NDJSON record processing: a selector expression language
//! (`d.properties.AREA >= 5.5`), a path evaluator over an in-memory JSON
//! value model, typed comparators, and a structural splitter that cuts
//! elements out of a large JSON document by tracking nesting depth.

pub mod aggregate;
pub mod error;
pub mod filter;
pub mod from;
pub mod from_geojson;
pub mod from_json;
pub mod infer_json;
pub mod join;
pub mod json;
pub mod json_parser;
pub mod json_selector_parser;
pub mod ndjson;
pub mod number;
pub mod path;
pub mod pick_field;
pub mod select_count;
pub mod selector;
pub mod sort;
pub mod spatial;
pub mod text;

pub use error::NdJsonSpatialError;
