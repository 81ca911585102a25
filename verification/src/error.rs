//! The error type shared by every pipeline stage.

use vstd::prelude::*;

verus! {

/// A processing error carrying a human-readable message.
#[derive(Debug, PartialEq, Eq, Clone)]
pub enum NdJsonSpatialError {
    Error(String),
}

impl NdJsonSpatialError {
    /// The message carried by this error.
    pub fn message(&self) -> (r: &String)
        ensures
            self matches NdJsonSpatialError::Error(m) && r@ == m@,
    {
        match self {
            NdJsonSpatialError::Error(m) => m,
        }
    }
}

} // verus!
