//! Binary records, each behind a varint that gives its length.

use bytes::Bytes;
use crate::chunk::{append_bytes, bytes_view};
use crate::error::StreamError;
use crate::headers::{content_type_headers, content_type_of, content_type_response_headers};
use crate::stream::{
    all_ok, chunks_model, error_free, halted, into_successes, items_model, lemma_chunks_model_push,
    lemma_error_free_halted, lemma_first_error_at, lemma_halted_ends, map_items, ok_prefix,
    stream_bytes, successes,
};
use crate::stream_body_as::{stream_frames, StreamBodyAs, StreamBodyAsOptions};
use crate::stream_format::StreamingFormat;
use crate::varint::{encode_varint, lemma_varint_round_trip, read_varint, varint_bytes};
use http::header::{HeaderMap, HeaderValue};
use vstd::prelude::*;
use vstd::utf8::encode_utf8;

verus! {

/// One record on the wire: the length of the payload as a varint, then the
/// payload.
pub open spec fn record_bytes(payload: Seq<u8>) -> Seq<u8> {
    varint_bytes(payload.len()) + payload
}

/// The chunks of a stream of records: one record per item up to the first
/// failure, and then that failure.
pub open spec fn record_chunks(items: Seq<Result<Seq<u8>, StreamError>>) -> Seq<
    Result<Seq<u8>, StreamError>,
> {
    halted(map_items(items, |i: int, b: Seq<u8>| record_bytes(b)))
}

/// Reads records off `bytes` until none is left: a varint, then as many
/// bytes as it says, again and again. Nothing if the bytes end inside a
/// record.
pub open spec fn read_records(bytes: Seq<u8>) -> Option<Seq<Seq<u8>>>
    decreases bytes.len(),
{
    if bytes.len() == 0 {
        Some(Seq::empty())
    } else {
        match read_varint(bytes) {
            Some((length, used)) => if used >= 1 && used + length <= bytes.len() {
                match read_records(bytes.skip((used + length) as int)) {
                    Some(rest) => Some(
                        seq![bytes.subrange(used as int, (used + length) as int)] + rest,
                    ),
                    None => None,
                }
            } else {
                None
            },
            None => None,
        }
    }
}

/// Messages in their binary wire form, each prefixed by its length.
pub struct ProtobufStreamFormat;

impl ProtobufStreamFormat {
    pub fn new() -> Self {
        ProtobufStreamFormat {  }
    }

    /// The chunk for one message, given its wire form.
    pub fn item_chunk(item: &Vec<u8>) -> (chunk: Bytes)
        ensures
            bytes_view(chunk) == record_bytes(item@),
    {
        let mut frame: Vec<u8> = Vec::new();
        let payload_len = item.len() as u64;
        encode_varint(payload_len, &mut frame);
        append_bytes(&mut frame, item.as_slice());
        assert(frame@ =~= record_bytes(item@));
        Bytes::from(frame)
    }
}

impl StreamingFormat<Vec<u8>> for ProtobufStreamFormat {
    open spec fn frames(
        &self,
        items: Seq<Result<Vec<u8>, StreamError>>,
        chunks: Seq<Result<Seq<u8>, StreamError>>,
    ) -> bool {
        chunks == record_chunks(items_model(items))
    }

    open spec fn response_headers(&self, options: StreamBodyAsOptions) -> Option<
        Map<Seq<u8>, Seq<Seq<u8>>>,
    > {
        Some(
            content_type_headers(
                content_type_of(options.content_type, "application/x-protobuf-stream"@),
            ),
        )
    }

    proof fn lemma_frames_end_at_error(
        &self,
        items: Seq<Result<Vec<u8>, StreamError>>,
        chunks: Seq<Result<Seq<u8>, StreamError>>,
    ) {
        lemma_halted_ends(map_items(items_model(items), |i: int, b: Seq<u8>| record_bytes(b)));
    }

    /// The headers of the response: `application/x-protobuf-stream` as the
    /// content type, unless the options set another.
    fn http_response_headers(&self, options: &StreamBodyAsOptions) -> (headers: Option<
        HeaderMap<HeaderValue>,
    >) {
        proof {
            reveal_strlit("application/x-protobuf-stream");
        }
        content_type_response_headers(&options.content_type, "application/x-protobuf-stream")
    }

    /// Encodes a whole stream of messages, each given in its wire form.
    /// Nothing stands between two records. A failed item ends the stream
    /// with its error.
    fn to_bytes_stream(
        &self,
        stream: Vec<Result<Vec<u8>, StreamError>>,
        _options: &StreamBodyAsOptions,
    ) -> (chunks: Vec<Result<Bytes, StreamError>>) {
        let ghost items = items_model(stream@);
        let ghost mapped = map_items(items, |i: int, b: Seq<u8>| record_bytes(b));
        let mut chunks: Vec<Result<Bytes, StreamError>> = Vec::new();
        let mut i: usize = 0;
        assert(chunks_model(chunks@) =~= mapped.take(0));
        while i < stream.len()
            invariant
                0 <= i <= stream.len(),
                items == items_model(stream@),
                mapped == map_items(items, |i: int, b: Seq<u8>| record_bytes(b)),
                forall|j: int| 0 <= j < i ==> (#[trigger] mapped[j]) is Ok,
                chunks_model(chunks@) == mapped.take(i as int),
            decreases stream.len() - i,
        {
            let ghost before = chunks@;
            assert(mapped.take(i + 1) =~= mapped.take(i as int).push(mapped[i as int]));
            match &stream[i] {
                Ok(item) => {
                    let chunk = Self::item_chunk(item);
                    chunks.push(Ok(chunk));
                    proof {
                        lemma_chunks_model_push(before, Ok(chunk));
                        assert(mapped[i as int] == Ok::<Seq<u8>, StreamError>(bytes_view(chunk)));
                    }
                },
                Err(e) => {
                    chunks.push(Err(e.clone()));
                    proof {
                        lemma_chunks_model_push(before, Err(*e));
                        assert(mapped[i as int] == Err::<Seq<u8>, StreamError>(*e));
                        lemma_first_error_at(mapped, i as int);
                    }
                    return chunks;
                },
            }
            i += 1;
        }
        proof {
            lemma_first_error_at(mapped, i as int);
            assert(mapped.take(i as int) =~= mapped);
        }
        chunks
    }
}

/// The records of `items`, one after the other.
pub open spec fn records(items: Seq<Seq<u8>>) -> Seq<Seq<u8>> {
    Seq::new(items.len(), |i: int| record_bytes(items[i]))
}

/// Reading the records of `items` back gives `items`.
pub proof fn lemma_read_records(items: Seq<Seq<u8>>)
    ensures
        read_records(records(items).flatten()) == Some(items),
    decreases items.len(),
{
    let written = records(items).flatten();
    if items.len() == 0 {
        assert(records(items) =~= Seq::<Seq<u8>>::empty());
        assert(items =~= Seq::<Seq<u8>>::empty());
    } else {
        let payload = items[0];
        let later = items.drop_first();
        let tail = records(later).flatten();
        assert(records(items).drop_first() =~= records(later));
        assert(written == record_bytes(payload) + tail);
        lemma_read_records(later);
        lemma_varint_round_trip(payload.len(), payload + tail);
        let used = varint_bytes(payload.len()).len();
        assert(written =~= varint_bytes(payload.len()) + (payload + tail));
        assert(written.subrange(used as int, (used + payload.len()) as int) =~= payload);
        assert(written.skip((used + payload.len()) as int) =~= tail);
        assert(seq![payload] + later =~= items);
    }
}

/// The round trip of the length-prefixed format: when no item fails, a
/// reader that takes a varint and then that many bytes, until the stream is
/// used up, gets back the items that were sent, each whole and in order.
pub proof fn lemma_record_stream_round_trip(items: Seq<Seq<u8>>)
    ensures
        error_free(record_chunks(successes(items))),
        read_records(stream_bytes(record_chunks(successes(items)))) == Some(items),
{
    let mapped = map_items(successes(items), |i: int, b: Seq<u8>| record_bytes(b));
    lemma_error_free_halted(mapped);
    lemma_error_free_halted(record_chunks(successes(items)));
    assert(ok_prefix(record_chunks(successes(items))) =~= records(items));
    lemma_read_records(items);
}

impl StreamBodyAs {
    /// The body of items that cannot fail, as length-prefixed records.
    pub fn protobuf(stream: Vec<Vec<u8>>) -> (body: Self)
        ensures
            body.frames() == record_chunks(items_model(all_ok(stream@))),
            body.response_headers() == Some(
                content_type_headers(encode_utf8("application/x-protobuf-stream"@)),
            ),
    {
        Self::new(ProtobufStreamFormat::new(), into_successes(stream))
    }

    /// The body of a stream that may fail, as length-prefixed records.
    pub fn protobuf_with_errors(stream: Vec<Result<Vec<u8>, StreamError>>) -> (body: Self)
        ensures
            body.frames() == record_chunks(items_model(stream@)),
            body.response_headers() == Some(
                content_type_headers(encode_utf8("application/x-protobuf-stream"@)),
            ),
    {
        Self::new(ProtobufStreamFormat::new(), stream)
    }
}

impl StreamBodyAsOptions {
    /// The body of items that cannot fail, as length-prefixed records, under these options.
    pub fn protobuf(self, stream: Vec<Vec<u8>>) -> (body: StreamBodyAs)
        requires
            self.valid(),
            self.buffering_ready_items is Some ==> stream_bytes(
                record_chunks(items_model(all_ok(stream@))),
            ).len() <= usize::MAX,
        ensures
            body.frames() == stream_frames(
                record_chunks(items_model(all_ok(stream@))),
                self.buffering_ready_items,
                self.buffering_bytes,
            ),
            body.response_headers() == Some(
                content_type_headers(
                    content_type_of(self.content_type, "application/x-protobuf-stream"@),
                ),
            ),
    {
        StreamBodyAs::with_options(ProtobufStreamFormat::new(), into_successes(stream), self)
    }

    /// The body of a stream that may fail, as length-prefixed records, under these options.
    pub fn protobuf_with_errors(self, stream: Vec<Result<Vec<u8>, StreamError>>) -> (body:
        StreamBodyAs)
        requires
            self.valid(),
            self.buffering_ready_items is Some ==> stream_bytes(
                record_chunks(items_model(stream@)),
            ).len() <= usize::MAX,
        ensures
            body.frames() == stream_frames(
                record_chunks(items_model(stream@)),
                self.buffering_ready_items,
                self.buffering_bytes,
            ),
            body.response_headers() == Some(
                content_type_headers(
                    content_type_of(self.content_type, "application/x-protobuf-stream"@),
                ),
            ),
    {
        StreamBodyAs::with_options(ProtobufStreamFormat::new(), stream, self)
    }
}

} // verus!
