//! What every format offers: the encoding of a stream of items into chunks,
//! and the headers of the response.

use bytes::Bytes;
use crate::error::StreamError;
use crate::headers::header_entries;
use crate::stream::{chunks_model, ends_at_error};
use crate::stream_body_as::StreamBodyAsOptions;
use http::header::{HeaderMap, HeaderValue};
use vstd::prelude::*;

verus! {

/// The entries of an optional header map.
pub open spec fn headers_model(headers: Option<HeaderMap<HeaderValue>>) -> Option<
    Map<Seq<u8>, Seq<Seq<u8>>>,
> {
    match headers {
        Some(map) => Some(header_entries(map)),
        None => None,
    }
}

/// A wire format for a stream of items of type `T`.
pub trait StreamingFormat<T> {
    /// Whether `chunks` is an encoding of `items` in this format.
    spec fn frames(
        &self,
        items: Seq<Result<T, StreamError>>,
        chunks: Seq<Result<Seq<u8>, StreamError>>,
    ) -> bool;

    /// The entries of the headers that a response in this format carries
    /// under `options`, if it carries any.
    spec fn response_headers(&self, options: StreamBodyAsOptions) -> Option<
        Map<Seq<u8>, Seq<Seq<u8>>>,
    >;

    /// The first error ends a stream in every format: an encoding holds at
    /// most one error, as its last chunk.
    proof fn lemma_frames_end_at_error(
        &self,
        items: Seq<Result<T, StreamError>>,
        chunks: Seq<Result<Seq<u8>, StreamError>>,
    )
        requires
            self.frames(items, chunks),
        ensures
            ends_at_error(chunks),
    ;

    /// Encodes a whole stream of items, in their order.
    fn to_bytes_stream(
        &self,
        stream: Vec<Result<T, StreamError>>,
        options: &StreamBodyAsOptions,
    ) -> (chunks: Vec<Result<Bytes, StreamError>>)
        ensures
            self.frames(stream@, chunks_model(chunks@)),
    ;

    /// The headers of the response.
    fn http_response_headers(&self, options: &StreamBodyAsOptions) -> (headers: Option<
        HeaderMap<HeaderValue>,
    >)
        ensures
            headers_model(headers) == self.response_headers(*options),
    ;
}

} // verus!
