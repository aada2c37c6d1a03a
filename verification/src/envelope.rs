//! The object that wraps a streamed JSON array.

use crate::error::StreamError;
use vstd::prelude::*;

verus! {

/// An object, already serialized, one of whose fields is to hold the streamed
/// array. `object` is what the codec made of it: its JSON bytes, or the
/// failure that the codec reported.
pub struct StreamFormatEnvelope {
    pub object: Result<Vec<u8>, StreamError>,
    pub array_field: String,
}

} // verus!
