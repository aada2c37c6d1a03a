//! Plain text: each item's bytes as they are.

use bytes::Bytes;
use crate::chunk::bytes_view;
use crate::error::StreamError;
use crate::headers::{content_type_headers, content_type_of, content_type_response_headers};
use crate::stream::{
    all_ok, chunks_model, halted, into_successes, lemma_chunks_model_push, lemma_first_error_at,
    lemma_halted_ends, stream_bytes,
};
use crate::stream_body_as::{stream_frames, StreamBodyAs, StreamBodyAsOptions};
use crate::stream_format::StreamingFormat;
use http::header::{HeaderMap, HeaderValue};
use vstd::prelude::*;
use vstd::utf8::encode_utf8;

verus! {

/// One item of text as the bytes of its UTF-8 form.
pub open spec fn text_item_model(item: Result<String, StreamError>) -> Result<
    Seq<u8>,
    StreamError,
> {
    match item {
        Ok(text) => Ok(encode_utf8(text@)),
        Err(e) => Err(e),
    }
}

/// A stream of text items as the bytes of their UTF-8 forms.
pub open spec fn text_items_model(items: Seq<Result<String, StreamError>>) -> Seq<
    Result<Seq<u8>, StreamError>,
> {
    Seq::new(items.len(), |i: int| text_item_model(items[i]))
}

/// Text sent as it is, nothing added and nothing escaped.
pub struct TextStreamFormat;

impl TextStreamFormat {
    pub fn new() -> Self {
        TextStreamFormat {  }
    }

    /// The chunk for one item: the bytes of the text.
    pub fn item_chunk(item: &String) -> (chunk: Bytes)
        ensures
            bytes_view(chunk) == encode_utf8(item@),
    {
        let data = vstd::slice::slice_to_vec(item.as_str().as_bytes());
        Bytes::from(data)
    }
}

impl StreamingFormat<String> for TextStreamFormat {
    open spec fn frames(
        &self,
        items: Seq<Result<String, StreamError>>,
        chunks: Seq<Result<Seq<u8>, StreamError>>,
    ) -> bool {
        chunks == halted(text_items_model(items))
    }

    open spec fn response_headers(&self, options: StreamBodyAsOptions) -> Option<
        Map<Seq<u8>, Seq<Seq<u8>>>,
    > {
        Some(
            content_type_headers(
                content_type_of(options.content_type, "text/plain; charset=utf-8"@),
            ),
        )
    }

    proof fn lemma_frames_end_at_error(
        &self,
        items: Seq<Result<String, StreamError>>,
        chunks: Seq<Result<Seq<u8>, StreamError>>,
    ) {
        lemma_halted_ends(text_items_model(items));
    }

    /// The headers of the response: `text/plain; charset=utf-8` as the
    /// content type, unless the options set another.
    fn http_response_headers(&self, options: &StreamBodyAsOptions) -> (headers: Option<
        HeaderMap<HeaderValue>,
    >) {
        proof {
            reveal_strlit("text/plain; charset=utf-8");
        }
        content_type_response_headers(&options.content_type, "text/plain; charset=utf-8")
    }

    /// Encodes a whole stream of text: one chunk per item, which is the
    /// item's bytes. A failed item ends the stream with its error.
    fn to_bytes_stream(
        &self,
        stream: Vec<Result<String, StreamError>>,
        _options: &StreamBodyAsOptions,
    ) -> (chunks: Vec<Result<Bytes, StreamError>>) {
        let ghost items = text_items_model(stream@);
        let mut chunks: Vec<Result<Bytes, StreamError>> = Vec::new();
        let mut i: usize = 0;
        assert(chunks_model(chunks@) =~= items.take(0));
        while i < stream.len()
            invariant
                0 <= i <= stream.len(),
                items == text_items_model(stream@),
                forall|j: int| 0 <= j < i ==> (#[trigger] items[j]) is Ok,
                chunks_model(chunks@) == items.take(i as int),
            decreases stream.len() - i,
        {
            let ghost before = chunks@;
            assert(items.take(i + 1) =~= items.take(i as int).push(items[i as int]));
            match &stream[i] {
                Ok(item) => {
                    let chunk = Self::item_chunk(item);
                    chunks.push(Ok(chunk));
                    proof {
                        lemma_chunks_model_push(before, Ok(chunk));
                        assert(items[i as int] == Ok::<Seq<u8>, StreamError>(bytes_view(chunk)));
                    }
                },
                Err(e) => {
                    chunks.push(Err(e.clone()));
                    proof {
                        lemma_chunks_model_push(before, Err(*e));
                        assert(items[i as int] == Err::<Seq<u8>, StreamError>(*e));
                        lemma_first_error_at(items, i as int);
                    }
                    return chunks;
                },
            }
            i += 1;
        }
        proof {
            lemma_first_error_at(items, i as int);
            assert(items.take(i as int) =~= items);
        }
        chunks
    }
}

impl StreamBodyAs {
    /// The body of items that cannot fail, as plain text.
    pub fn text(stream: Vec<String>) -> (body: Self)
        ensures
            body.frames() == halted(text_items_model(all_ok(stream@))),
            body.response_headers() == Some(
                content_type_headers(encode_utf8("text/plain; charset=utf-8"@)),
            ),
    {
        Self::new(TextStreamFormat::new(), into_successes(stream))
    }

    /// The body of a stream that may fail, as plain text.
    pub fn text_with_errors(stream: Vec<Result<String, StreamError>>) -> (body: Self)
        ensures
            body.frames() == halted(text_items_model(stream@)),
            body.response_headers() == Some(
                content_type_headers(encode_utf8("text/plain; charset=utf-8"@)),
            ),
    {
        Self::new(TextStreamFormat::new(), stream)
    }
}

impl StreamBodyAsOptions {
    /// The body of items that cannot fail, as plain text, under these options.
    pub fn text(self, stream: Vec<String>) -> (body: StreamBodyAs)
        requires
            self.valid(),
            self.buffering_ready_items is Some ==> stream_bytes(
                halted(text_items_model(all_ok(stream@))),
            ).len() <= usize::MAX,
        ensures
            body.frames() == stream_frames(
                halted(text_items_model(all_ok(stream@))),
                self.buffering_ready_items,
                self.buffering_bytes,
            ),
            body.response_headers() == Some(
                content_type_headers(
                    content_type_of(self.content_type, "text/plain; charset=utf-8"@),
                ),
            ),
    {
        StreamBodyAs::with_options(TextStreamFormat::new(), into_successes(stream), self)
    }

    /// The body of a stream that may fail, as plain text, under these options.
    pub fn text_with_errors(self, stream: Vec<Result<String, StreamError>>) -> (body:
        StreamBodyAs)
        requires
            self.valid(),
            self.buffering_ready_items is Some ==> stream_bytes(
                halted(text_items_model(stream@)),
            ).len() <= usize::MAX,
        ensures
            body.frames() == stream_frames(
                halted(text_items_model(stream@)),
                self.buffering_ready_items,
                self.buffering_bytes,
            ),
            body.response_headers() == Some(
                content_type_headers(
                    content_type_of(self.content_type, "text/plain; charset=utf-8"@),
                ),
            ),
    {
        StreamBodyAs::with_options(TextStreamFormat::new(), stream, self)
    }
}

} // verus!
