//! JSON as a streamed array, optionally inside an envelope object, and JSON
//! as one value per line.

use bytes::Bytes;
use crate::chunk::{append_bytes, bytes_view};
use crate::envelope::StreamFormatEnvelope;
use crate::error::{StreamError, StreamErrorKind};
use crate::headers::{content_type_headers, content_type_of, content_type_response_headers};
use crate::stream::{
    all_ok, chunks_model, ends_at_error, error_free, halted, into_successes, items_model,
    lemma_chunks_model_push, lemma_error_free_halted, lemma_first_error_at,
    lemma_first_error_bounds, lemma_halted_ends, map_items, ok_prefix, stream_bytes, successes,
};
use crate::stream_body_as::{stream_frames, StreamBodyAs, StreamBodyAsOptions};
use crate::stream_format::StreamingFormat;
use http::header::{HeaderMap, HeaderValue};
use vstd::prelude::*;
use vstd::utf8::encode_utf8;

verus! {

/// `[`, which opens an array.
pub const JSON_ARRAY_BEGIN: u8 = 0x5b;

/// `]`, which closes an array.
pub const JSON_ARRAY_END: u8 = 0x5d;

/// `}`, which closes an object.
pub const JSON_OBJECT_END: u8 = 0x7d;

/// `,`, which stands between two elements or two fields.
pub const JSON_SEP: u8 = 0x2c;

/// `"`, which stands on both sides of a field's name.
pub const JSON_QUOTE: u8 = 0x22;

/// `:`, which stands between a field's name and its value.
pub const JSON_COLON: u8 = 0x3a;

/// The line feed that ends a line.
pub const JSON_NL_SEP: u8 = 0x0a;

/// The opening of an enveloped array: the serialized object without its
/// closing brace, a comma if the object has other fields, the quoted name of
/// the array field, a colon and the opening bracket.
pub open spec fn enveloped_prefix(object: Seq<u8>, array_field: Seq<u8>) -> Seq<u8>
    recommends
        object.len() >= 2,
{
    object.drop_last() + (if object.len() > 2 {
        seq![JSON_SEP]
    } else {
        Seq::<u8>::empty()
    }) + seq![JSON_QUOTE] + array_field + seq![JSON_QUOTE, JSON_COLON, JSON_ARRAY_BEGIN]
}

/// One array element as it is sent: a comma before every item but the first,
/// then the item's own bytes.
pub open spec fn array_item_bytes(index: int, item: Seq<u8>) -> Seq<u8> {
    if index == 0 {
        item
    } else {
        seq![JSON_SEP] + item
    }
}

/// The chunks of a streamed array between `prefix` and `suffix`: the opening,
/// one chunk per item up to the first failure, and then either that failure
/// or, when every item succeeded, the closing.
pub open spec fn array_chunks(
    prefix: Seq<u8>,
    items: Seq<Result<Seq<u8>, StreamError>>,
    suffix: Seq<u8>,
) -> Seq<Result<Seq<u8>, StreamError>> {
    seq![Ok(prefix)] + halted(map_items(items, |i: int, b: Seq<u8>| array_item_bytes(i, b))) + (
    if error_free(items) {
        seq![Ok(suffix)]
    } else {
        Seq::empty()
    })
}

/// The chunks of an array without an envelope: `[`, the items, `]`.
pub open spec fn bare_array_chunks(items: Seq<Result<Seq<u8>, StreamError>>) -> Seq<
    Result<Seq<u8>, StreamError>,
> {
    array_chunks(seq![JSON_ARRAY_BEGIN], items, seq![JSON_ARRAY_END])
}

/// The opening of an array inside the envelope `object`, where it has one.
/// An envelope of fewer than two bytes, or one that its codec could not
/// serialize, has none.
pub open spec fn envelope_prefix(
    object: Result<Vec<u8>, StreamError>,
    array_field: Seq<char>,
) -> Option<Seq<u8>> {
    match object {
        Ok(bytes) => if bytes@.len() >= 2 {
            Some(enveloped_prefix(bytes@, encode_utf8(array_field)))
        } else {
            None
        },
        Err(_) => None,
    }
}

/// Whether `e` is the error that stands for an envelope without an opening:
/// the codec's own failure, or a configuration error for one too short.
pub open spec fn envelope_prefix_error(
    object: Result<Vec<u8>, StreamError>,
    e: StreamError,
) -> bool {
    match object {
        Ok(bytes) => bytes@.len() < 2 && e.kind == StreamErrorKind::Config && e.message@
            == "Too short envelope"@,
        Err(cause) => e == cause,
    }
}

/// Whether `chunks` is the output for `items` inside the envelope `object`:
/// the chunks of the array between the envelope's opening and `]}`, or, where
/// the envelope has no opening, the error that stands for that and no more.
pub open spec fn envelope_frames(
    object: Result<Vec<u8>, StreamError>,
    array_field: Seq<char>,
    items: Seq<Result<Seq<u8>, StreamError>>,
    chunks: Seq<Result<Seq<u8>, StreamError>>,
) -> bool {
    match envelope_prefix(object, array_field) {
        Some(prefix) => chunks == array_chunks(
            prefix,
            items,
            seq![JSON_ARRAY_END, JSON_OBJECT_END],
        ),
        None => chunks.len() == 1 && chunks[0] is Err && envelope_prefix_error(
            object,
            chunks[0]->Err_0,
        ),
    }
}

/// The chunks of a streamed array hold at most one error, as the last chunk.
pub proof fn lemma_array_chunks_end_at_error(
    prefix: Seq<u8>,
    items: Seq<Result<Seq<u8>, StreamError>>,
    suffix: Seq<u8>,
)
    ensures
        ends_at_error(array_chunks(prefix, items, suffix)),
{
    let mapped = map_items(items, |i: int, b: Seq<u8>| array_item_bytes(i, b));
    let chunks = array_chunks(prefix, items, suffix);
    lemma_halted_ends(mapped);
    lemma_first_error_bounds(mapped);
    if error_free(items) {
        assert forall|i: int| 0 <= i < mapped.len() implies (#[trigger] mapped[i]) is Ok by {
            assert(items[i] is Ok);
        }
        lemma_error_free_halted(mapped);
    } else {
        let bad = choose|i: int| 0 <= i < items.len() && !((#[trigger] items[i]) is Ok);
        assert(mapped[bad] is Err);
    }
    assert forall|i: int| 0 <= i < chunks.len() - 1 implies (#[trigger] chunks[i]) is Ok by {
        if i > 0 {
            assert(chunks[i] == halted(mapped)[i - 1]);
            if !error_free(items) {
                assert(i - 1 < halted(mapped).len() - 1);
            }
        }
    }
}

/// A JSON array whose elements are sent one chunk each.
pub struct JsonArrayStreamFormat {
    pub envelope: Option<StreamFormatEnvelope>,
}

impl JsonArrayStreamFormat {
    /// A bare array: `[`, the items, `]`.
    pub fn new() -> (format: JsonArrayStreamFormat)
        ensures
            format.envelope is None,
    {
        JsonArrayStreamFormat { envelope: None }
    }

    /// An array held by the field `array_field` of `envelope`, the serialized
    /// form of the wrapping object.
    pub fn with_envelope(envelope: Result<Vec<u8>, StreamError>, array_field: &str) -> (format:
        JsonArrayStreamFormat)
        ensures
            format.envelope is Some,
            format.envelope->0.object == envelope,
            format.envelope->0.array_field@ == array_field@,
    {
        JsonArrayStreamFormat {
            envelope: Some(
                StreamFormatEnvelope { object: envelope, array_field: array_field.to_owned() },
            ),
        }
    }

    /// The bytes that open the stream, where there are any: the bracket
    /// alone, or the envelope's opening if the envelope has one.
    pub open spec fn prefix(&self) -> Option<Seq<u8>> {
        match self.envelope {
            None => Some(seq![JSON_ARRAY_BEGIN]),
            Some(envelope) => envelope_prefix(envelope.object, envelope.array_field@),
        }
    }

    /// Whether `e` is the error that stands for an envelope without an
    /// opening.
    pub open spec fn prefix_error(&self, e: StreamError) -> bool {
        match self.envelope {
            None => false,
            Some(envelope) => envelope_prefix_error(envelope.object, e),
        }
    }

    /// The bytes that close the stream: `]`, or `]}` inside an envelope.
    pub open spec fn suffix(&self) -> Seq<u8> {
        if self.envelope is Some {
            seq![JSON_ARRAY_END, JSON_OBJECT_END]
        } else {
            seq![JSON_ARRAY_END]
        }
    }

    /// Whether `chunks` is this format's output for `items`: the chunks of
    /// the array, or, where the envelope has no opening, the error that
    /// stands for that and no more.
    pub open spec fn array_frames(
        &self,
        items: Seq<Result<Seq<u8>, StreamError>>,
        chunks: Seq<Result<Seq<u8>, StreamError>>,
    ) -> bool {
        match self.envelope {
            None => chunks == bare_array_chunks(items),
            Some(envelope) => envelope_frames(
                envelope.object,
                envelope.array_field@,
                items,
                chunks,
            ),
        }
    }

    /// The first chunk of the stream, sent before any item is looked at.
    pub fn prefix_chunk(&self) -> (chunk: Result<Bytes, StreamError>)
        ensures
            match self.prefix() {
                Some(prefix) => chunk is Ok && bytes_view(chunk->Ok_0) == prefix,
                None => chunk is Err && self.prefix_error(chunk->Err_0),
            },
    {
        match &self.envelope {
            None => {
                let mut buf: Vec<u8> = Vec::new();
                buf.push(JSON_ARRAY_BEGIN);
                assert(buf@ =~= seq![JSON_ARRAY_BEGIN]);
                Ok(Bytes::from(buf))
            },
            Some(envelope) => match &envelope.object {
                Err(cause) => Err(cause.clone()),
                Ok(object) => {
                    if object.len() > 1 {
                        let mut buf: Vec<u8> = Vec::new();
                        let body = vstd::slice::slice_subrange(
                            object.as_slice(),
                            0,
                            object.len() - 1,
                        );
                        append_bytes(&mut buf, body);
                        if object.len() > 2 {
                            buf.push(JSON_SEP);
                        }
                        buf.push(JSON_QUOTE);
                        append_bytes(&mut buf, envelope.array_field.as_str().as_bytes());
                        buf.push(JSON_QUOTE);
                        buf.push(JSON_COLON);
                        buf.push(JSON_ARRAY_BEGIN);
                        assert(buf@ =~= enveloped_prefix(
                            object@,
                            encode_utf8(envelope.array_field@),
                        ));
                        Ok(Bytes::from(buf))
                    } else {
                        Err(StreamError::config("Too short envelope".to_owned()))
                    }
                },
            },
        }
    }

    /// The chunk for the item at position `index`, given its serialized form.
    pub fn item_chunk(index: usize, item: &Vec<u8>) -> (chunk: Bytes)
        ensures
            bytes_view(chunk) == array_item_bytes(index as int, item@),
    {
        let mut buf: Vec<u8> = Vec::new();
        if index != 0 {
            buf.push(JSON_SEP);
        }
        append_bytes(&mut buf, item.as_slice());
        assert(buf@ =~= array_item_bytes(index as int, item@));
        Bytes::from(buf)
    }

    /// The last chunk of a stream in which nothing failed.
    pub fn suffix_chunk(&self) -> (chunk: Bytes)
        ensures
            bytes_view(chunk) == self.suffix(),
    {
        let mut buf: Vec<u8> = Vec::new();
        buf.push(JSON_ARRAY_END);
        if self.envelope.is_some() {
            buf.push(JSON_OBJECT_END);
        }
        assert(buf@ =~= self.suffix());
        Bytes::from(buf)
    }
}

impl StreamingFormat<Vec<u8>> for JsonArrayStreamFormat {
    open spec fn frames(
        &self,
        items: Seq<Result<Vec<u8>, StreamError>>,
        chunks: Seq<Result<Seq<u8>, StreamError>>,
    ) -> bool {
        self.array_frames(items_model(items), chunks)
    }

    open spec fn response_headers(&self, options: StreamBodyAsOptions) -> Option<
        Map<Seq<u8>, Seq<Seq<u8>>>,
    > {
        Some(content_type_headers(content_type_of(options.content_type, "application/json"@)))
    }

    proof fn lemma_frames_end_at_error(
        &self,
        items: Seq<Result<Vec<u8>, StreamError>>,
        chunks: Seq<Result<Seq<u8>, StreamError>>,
    ) {
        if self.prefix() is Some {
            lemma_array_chunks_end_at_error(self.prefix()->0, items_model(items), self.suffix());
        }
    }

    /// The headers of the response: `application/json` as the content type,
    /// unless the options set another.
    fn http_response_headers(&self, options: &StreamBodyAsOptions) -> (headers: Option<
        HeaderMap<HeaderValue>,
    >) {
        proof {
            reveal_strlit("application/json");
        }
        content_type_response_headers(&options.content_type, "application/json")
    }

    /// Encodes a whole stream of serialized items: the opening, the items
    /// separated by commas, and the closing, which is sent even when there is
    /// no item. A failed item ends the stream with its error.
    fn to_bytes_stream(
        &self,
        stream: Vec<Result<Vec<u8>, StreamError>>,
        _options: &StreamBodyAsOptions,
    ) -> (chunks: Vec<Result<Bytes, StreamError>>) {
        let ghost items = items_model(stream@);
        let ghost mapped = map_items(items, |i: int, b: Seq<u8>| array_item_bytes(i, b));
        let mut chunks: Vec<Result<Bytes, StreamError>> = Vec::new();
        match self.prefix_chunk() {
            Err(e) => {
                chunks.push(Err(e));
                return chunks;
            },
            Ok(prefix) => {
                chunks.push(Ok(prefix));
            },
        }
        let ghost prefix = self.prefix()->0;
        let mut i: usize = 0;
        while i < stream.len()
            invariant
                0 <= i <= stream.len(),
                self.prefix() == Some(prefix),
                items == items_model(stream@),
                mapped == map_items(items, |i: int, b: Seq<u8>| array_item_bytes(i, b)),
                forall|j: int| 0 <= j < i ==> (#[trigger] mapped[j]) is Ok,
                chunks_model(chunks@) == seq![Ok(prefix)] + mapped.take(i as int),
            decreases stream.len() - i,
        {
            let ghost before = chunks@;
            assert(mapped.take(i + 1) =~= mapped.take(i as int).push(mapped[i as int]));
            match &stream[i] {
                Ok(item) => {
                    let chunk = Self::item_chunk(i, item);
                    chunks.push(Ok(chunk));
                    proof {
                        lemma_chunks_model_push(before, Ok(chunk));
                        assert(mapped[i as int] == Ok::<Seq<u8>, StreamError>(bytes_view(chunk)));
                        assert(chunks_model(chunks@) =~= seq![Ok(prefix)] + mapped.take(i + 1));
                    }
                },
                Err(e) => {
                    chunks.push(Err(e.clone()));
                    proof {
                        lemma_chunks_model_push(before, Err(*e));
                        assert(mapped[i as int] == Err::<Seq<u8>, StreamError>(*e));
                        assert(items[i as int] is Err);
                        lemma_first_error_at(mapped, i as int);
                        assert(halted(mapped) == mapped.take(i + 1));
                        assert(chunks_model(chunks@) =~= seq![Ok(prefix)] + mapped.take(i + 1));
                        assert(chunks_model(chunks@) =~= array_chunks(
                            prefix,
                            items,
                            self.suffix(),
                        ));
                    }
                    return chunks;
                },
            }
            i += 1;
        }
        let ghost before = chunks@;
        let suffix = self.suffix_chunk();
        chunks.push(Ok(suffix));
        proof {
            lemma_chunks_model_push(before, Ok(suffix));
            lemma_first_error_at(mapped, i as int);
            assert forall|j: int| 0 <= j < items.len() implies (#[trigger] items[j]) is Ok by {
                assert(mapped[j] is Ok);
            }
            assert(mapped.take(i as int) =~= mapped);
            assert(chunks_model(chunks@) =~= array_chunks(prefix, items, self.suffix()));
        }
        chunks
    }
}

/// The items with `sep` between each two neighbours.
pub open spec fn joined(items: Seq<Seq<u8>>, sep: Seq<u8>) -> Seq<u8>
    decreases items.len(),
{
    if items.len() == 0 {
        Seq::empty()
    } else if items.len() == 1 {
        items[0]
    } else {
        joined(items.drop_last(), sep) + sep + items.last()
    }
}

/// The array elements as they are sent, one per item.
pub open spec fn array_item_chunks(items: Seq<Seq<u8>>) -> Seq<Seq<u8>> {
    Seq::new(items.len(), |i: int| array_item_bytes(i, items[i]))
}

/// The element chunks of an array, put end to end, are the items joined by
/// commas.
pub proof fn lemma_array_items_joined(items: Seq<Seq<u8>>)
    ensures
        array_item_chunks(items).flatten() == joined(items, seq![JSON_SEP]),
    decreases items.len(),
{
    let chunks = array_item_chunks(items);
    if items.len() == 0 {
        assert(chunks =~= Seq::<Seq<u8>>::empty());
    } else if items.len() == 1 {
        assert(chunks[0] == items[0]);
        chunks.lemma_flatten_singleton();
    } else {
        let front = items.drop_last();
        lemma_array_items_joined(front);
        assert(chunks =~= array_item_chunks(front).push(seq![JSON_SEP] + items.last()));
        array_item_chunks(front).lemma_flatten_push(seq![JSON_SEP] + items.last());
        assert(chunks.flatten() =~= joined(items, seq![JSON_SEP]));
    }
}

/// When no item fails, the bytes of a streamed array are its opening, the
/// items joined by commas, and its closing: for a bare array `[`, the items
/// and `]`, whether or not there are any items.
pub proof fn lemma_array_stream_bytes(prefix: Seq<u8>, items: Seq<Seq<u8>>, suffix: Seq<u8>)
    ensures
        error_free(array_chunks(prefix, successes(items), suffix)),
        stream_bytes(array_chunks(prefix, successes(items), suffix)) == prefix + joined(
            items,
            seq![JSON_SEP],
        ) + suffix,
{
    let source = successes(items);
    let mapped = map_items(source, |i: int, b: Seq<u8>| array_item_bytes(i, b));
    let chunks = array_chunks(prefix, source, suffix);
    lemma_error_free_halted(mapped);
    assert(error_free(source));
    assert(chunks =~= seq![Ok(prefix)] + mapped + seq![Ok(suffix)]);
    lemma_error_free_halted(chunks);
    let payloads = ok_prefix(chunks);
    assert(payloads =~= (seq![prefix] + array_item_chunks(items)).push(suffix));
    vstd::seq_lib::lemma_flatten_concat(seq![prefix], array_item_chunks(items));
    (seq![prefix] + array_item_chunks(items)).lemma_flatten_push(suffix);
    lemma_array_items_joined(items);
    seq![prefix].lemma_flatten_singleton();
}

/// One line of line-delimited output: the item and a newline.
pub open spec fn line_bytes(item: Seq<u8>) -> Seq<u8> {
    item + seq![JSON_NL_SEP]
}

/// The chunks of line-delimited output: one line per item up to the first
/// failure, and then that failure.
pub open spec fn line_chunks(items: Seq<Result<Seq<u8>, StreamError>>) -> Seq<
    Result<Seq<u8>, StreamError>,
> {
    halted(map_items(items, |i: int, b: Seq<u8>| line_bytes(b)))
}

/// JSON values, one per line, each line ended by a newline.
pub struct JsonNewLineStreamFormat;

impl JsonNewLineStreamFormat {
    pub fn new() -> Self {
        JsonNewLineStreamFormat {  }
    }

    /// The chunk for one item, given its serialized form.
    pub fn item_chunk(item: &Vec<u8>) -> (chunk: Bytes)
        ensures
            bytes_view(chunk) == line_bytes(item@),
    {
        let mut buf: Vec<u8> = Vec::new();
        append_bytes(&mut buf, item.as_slice());
        buf.push(JSON_NL_SEP);
        assert(buf@ =~= line_bytes(item@));
        Bytes::from(buf)
    }
}

impl StreamingFormat<Vec<u8>> for JsonNewLineStreamFormat {
    open spec fn frames(
        &self,
        items: Seq<Result<Vec<u8>, StreamError>>,
        chunks: Seq<Result<Seq<u8>, StreamError>>,
    ) -> bool {
        chunks == line_chunks(items_model(items))
    }

    open spec fn response_headers(&self, options: StreamBodyAsOptions) -> Option<
        Map<Seq<u8>, Seq<Seq<u8>>>,
    > {
        Some(content_type_headers(content_type_of(options.content_type, "application/jsonstream"@)))
    }

    proof fn lemma_frames_end_at_error(
        &self,
        items: Seq<Result<Vec<u8>, StreamError>>,
        chunks: Seq<Result<Seq<u8>, StreamError>>,
    ) {
        lemma_halted_ends(map_items(items_model(items), |i: int, b: Seq<u8>| line_bytes(b)));
    }

    /// The headers of the response: `application/jsonstream` as the content
    /// type, unless the options set another.
    fn http_response_headers(&self, options: &StreamBodyAsOptions) -> (headers: Option<
        HeaderMap<HeaderValue>,
    >) {
        proof {
            reveal_strlit("application/jsonstream");
        }
        content_type_response_headers(&options.content_type, "application/jsonstream")
    }

    /// Encodes a whole stream of serialized items, each followed by a
    /// newline, the last one too. A failed item ends the stream with its
    /// error.
    fn to_bytes_stream(
        &self,
        stream: Vec<Result<Vec<u8>, StreamError>>,
        _options: &StreamBodyAsOptions,
    ) -> (chunks: Vec<Result<Bytes, StreamError>>) {
        let ghost items = items_model(stream@);
        let ghost mapped = map_items(items, |i: int, b: Seq<u8>| line_bytes(b));
        let mut chunks: Vec<Result<Bytes, StreamError>> = Vec::new();
        let mut i: usize = 0;
        assert(chunks_model(chunks@) =~= mapped.take(0));
        while i < stream.len()
            invariant
                0 <= i <= stream.len(),
                items == items_model(stream@),
                mapped == map_items(items, |i: int, b: Seq<u8>| line_bytes(b)),
                forall|j: int| 0 <= j < i ==> (#[trigger] mapped[j]) is Ok,
                chunks_model(chunks@) == mapped.take(i as int),
            decreases stream.len() - i,
        {
            let ghost before = chunks@;
            assert(mapped.take(i + 1) =~= mapped.take(i as int).push(mapped[i as int]));
            match &stream[i] {
                Ok(item) => {
                    let chunk = Self::item_chunk(item);
                    chunks.push(Ok(chunk));
                    proof {
                        lemma_chunks_model_push(before, Ok(chunk));
                        assert(mapped[i as int] == Ok::<Seq<u8>, StreamError>(bytes_view(chunk)));
                    }
                },
                Err(e) => {
                    chunks.push(Err(e.clone()));
                    proof {
                        lemma_chunks_model_push(before, Err(*e));
                        assert(mapped[i as int] == Err::<Seq<u8>, StreamError>(*e));
                        lemma_first_error_at(mapped, i as int);
                    }
                    return chunks;
                },
            }
            i += 1;
        }
        proof {
            lemma_first_error_at(mapped, i as int);
            assert(mapped.take(i as int) =~= mapped);
        }
        chunks
    }
}

/// When no item fails, line-delimited output is the lines of the items put
/// end to end, and nothing for no items.
pub proof fn lemma_line_stream_bytes(items: Seq<Seq<u8>>)
    ensures
        error_free(line_chunks(successes(items))),
        stream_bytes(line_chunks(successes(items))) == Seq::new(
            items.len(),
            |i: int| line_bytes(items[i]),
        ).flatten(),
        items.len() == 0 ==> line_chunks(successes(items)).len() == 0,
{
    let mapped = map_items(successes(items), |i: int, b: Seq<u8>| line_bytes(b));
    lemma_error_free_halted(mapped);
    lemma_error_free_halted(line_chunks(successes(items)));
    assert(ok_prefix(line_chunks(successes(items))) =~= Seq::new(
        items.len(),
        |i: int| line_bytes(items[i]),
    ));
}

impl StreamBodyAs {
    /// The body of items that cannot fail, as a JSON array.
    pub fn json_array(stream: Vec<Vec<u8>>) -> (body: Self)
        ensures
            body.frames() == bare_array_chunks(items_model(all_ok(stream@))),
            body.response_headers() == Some(
                content_type_headers(encode_utf8("application/json"@)),
            ),
    {
        Self::new(JsonArrayStreamFormat::new(), into_successes(stream))
    }

    /// The body of a stream that may fail, as a JSON array.
    pub fn json_array_with_errors(stream: Vec<Result<Vec<u8>, StreamError>>) -> (body: Self)
        ensures
            body.frames() == bare_array_chunks(items_model(stream@)),
            body.response_headers() == Some(
                content_type_headers(encode_utf8("application/json"@)),
            ),
    {
        Self::new(JsonArrayStreamFormat::new(), stream)
    }

    /// The body of items that cannot fail, as a JSON array in the field
    /// `array_field` of `envelope`.
    pub fn json_array_with_envelope(
        stream: Vec<Vec<u8>>,
        envelope: Result<Vec<u8>, StreamError>,
        array_field: &str,
    ) -> (body: Self)
        ensures
            envelope_frames(envelope, array_field@, items_model(all_ok(stream@)), body.frames()),
            body.response_headers() == Some(
                content_type_headers(encode_utf8("application/json"@)),
            ),
    {
        Self::new(
            JsonArrayStreamFormat::with_envelope(envelope, array_field),
            into_successes(stream),
        )
    }

    /// The body of a stream that may fail, as a JSON array in the field
    /// `array_field` of `envelope`.
    pub fn json_array_with_envelope_errors(
        stream: Vec<Result<Vec<u8>, StreamError>>,
        envelope: Result<Vec<u8>, StreamError>,
        array_field: &str,
    ) -> (body: Self)
        ensures
            envelope_frames(envelope, array_field@, items_model(stream@), body.frames()),
            body.response_headers() == Some(
                content_type_headers(encode_utf8("application/json"@)),
            ),
    {
        Self::new(JsonArrayStreamFormat::with_envelope(envelope, array_field), stream)
    }

    /// The body of items that cannot fail, as JSON lines.
    pub fn json_nl(stream: Vec<Vec<u8>>) -> (body: Self)
        ensures
            body.frames() == line_chunks(items_model(all_ok(stream@))),
            body.response_headers() == Some(
                content_type_headers(encode_utf8("application/jsonstream"@)),
            ),
    {
        Self::new(JsonNewLineStreamFormat::new(), into_successes(stream))
    }

    /// The body of a stream that may fail, as JSON lines.
    pub fn json_nl_with_errors(stream: Vec<Result<Vec<u8>, StreamError>>) -> (body: Self)
        ensures
            body.frames() == line_chunks(items_model(stream@)),
            body.response_headers() == Some(
                content_type_headers(encode_utf8("application/jsonstream"@)),
            ),
    {
        Self::new(JsonNewLineStreamFormat::new(), stream)
    }
}

impl StreamBodyAsOptions {
    /// The body of items that cannot fail, as a JSON array, under these
    /// options.
    pub fn json_array(self, stream: Vec<Vec<u8>>) -> (body: StreamBodyAs)
        requires
            self.valid(),
            self.buffering_ready_items is Some ==> stream_bytes(
                bare_array_chunks(items_model(all_ok(stream@))),
            ).len() <= usize::MAX,
        ensures
            body.frames() == stream_frames(
                bare_array_chunks(items_model(all_ok(stream@))),
                self.buffering_ready_items,
                self.buffering_bytes,
            ),
            body.response_headers() == Some(
                content_type_headers(content_type_of(self.content_type, "application/json"@)),
            ),
    {
        StreamBodyAs::with_options(JsonArrayStreamFormat::new(), into_successes(stream), self)
    }

    /// The body of a stream that may fail, as a JSON array, under these
    /// options.
    pub fn json_array_with_errors(self, stream: Vec<Result<Vec<u8>, StreamError>>) -> (body:
        StreamBodyAs)
        requires
            self.valid(),
            self.buffering_ready_items is Some ==> stream_bytes(
                bare_array_chunks(items_model(stream@)),
            ).len() <= usize::MAX,
        ensures
            body.frames() == stream_frames(
                bare_array_chunks(items_model(stream@)),
                self.buffering_ready_items,
                self.buffering_bytes,
            ),
            body.response_headers() == Some(
                content_type_headers(content_type_of(self.content_type, "application/json"@)),
            ),
    {
        StreamBodyAs::with_options(JsonArrayStreamFormat::new(), stream, self)
    }

    /// The body of items that cannot fail, as a JSON array in the field
    /// `array_field` of `envelope`, under these options.
    pub fn json_array_with_envelope(
        self,
        stream: Vec<Vec<u8>>,
        envelope: Result<Vec<u8>, StreamError>,
        array_field: &str,
    ) -> (body: StreamBodyAs)
        requires
            self.valid(),
            self.buffering_ready_items is Some ==> forall|
                chunks: Seq<Result<Seq<u8>, StreamError>>,
            |
                #[trigger] envelope_frames(
                    envelope,
                    array_field@,
                    items_model(all_ok(stream@)),
                    chunks,
                ) ==> stream_bytes(chunks).len() <= usize::MAX,
        ensures
            exists|chunks: Seq<Result<Seq<u8>, StreamError>>|
                #[trigger] envelope_frames(
                    envelope,
                    array_field@,
                    items_model(all_ok(stream@)),
                    chunks,
                ) && body.frames() == stream_frames(
                    chunks,
                    self.buffering_ready_items,
                    self.buffering_bytes,
                ),
            body.response_headers() == Some(
                content_type_headers(content_type_of(self.content_type, "application/json"@)),
            ),
    {
        let format = JsonArrayStreamFormat::with_envelope(envelope, array_field);
        let stream = into_successes(stream);
        let body = StreamBodyAs::with_options(format, stream, self);
        proof {
            let chunks = choose|chunks: Seq<Result<Seq<u8>, StreamError>>|
                #[trigger] format.frames(stream@, chunks) && body.frames() == stream_frames(
                    chunks,
                    self.buffering_ready_items,
                    self.buffering_bytes,
                );
            assert(envelope_frames(envelope, array_field@, items_model(stream@), chunks));
        }
        body
    }

    /// The body of a stream that may fail, as a JSON array in the field
    /// `array_field` of `envelope`, under these options.
    pub fn json_array_with_envelope_errors(
        self,
        stream: Vec<Result<Vec<u8>, StreamError>>,
        envelope: Result<Vec<u8>, StreamError>,
        array_field: &str,
    ) -> (body: StreamBodyAs)
        requires
            self.valid(),
            self.buffering_ready_items is Some ==> forall|
                chunks: Seq<Result<Seq<u8>, StreamError>>,
            |
                #[trigger] envelope_frames(envelope, array_field@, items_model(stream@), chunks)
                    ==> stream_bytes(chunks).len() <= usize::MAX,
        ensures
            exists|chunks: Seq<Result<Seq<u8>, StreamError>>|
                #[trigger] envelope_frames(envelope, array_field@, items_model(stream@), chunks)
                    && body.frames() == stream_frames(
                    chunks,
                    self.buffering_ready_items,
                    self.buffering_bytes,
                ),
            body.response_headers() == Some(
                content_type_headers(content_type_of(self.content_type, "application/json"@)),
            ),
    {
        let format = JsonArrayStreamFormat::with_envelope(envelope, array_field);
        let ghost items = stream@;
        let body = StreamBodyAs::with_options(format, stream, self);
        proof {
            let chunks = choose|chunks: Seq<Result<Seq<u8>, StreamError>>|
                #[trigger] format.frames(items, chunks) && body.frames() == stream_frames(
                    chunks,
                    self.buffering_ready_items,
                    self.buffering_bytes,
                );
            assert(envelope_frames(envelope, array_field@, items_model(items), chunks));
        }
        body
    }

    /// The body of items that cannot fail, as JSON lines, under these
    /// options.
    pub fn json_nl(self, stream: Vec<Vec<u8>>) -> (body: StreamBodyAs)
        requires
            self.valid(),
            self.buffering_ready_items is Some ==> stream_bytes(
                line_chunks(items_model(all_ok(stream@))),
            ).len() <= usize::MAX,
        ensures
            body.frames() == stream_frames(
                line_chunks(items_model(all_ok(stream@))),
                self.buffering_ready_items,
                self.buffering_bytes,
            ),
            body.response_headers() == Some(
                content_type_headers(content_type_of(self.content_type, "application/jsonstream"@)),
            ),
    {
        StreamBodyAs::with_options(JsonNewLineStreamFormat::new(), into_successes(stream), self)
    }

    /// The body of a stream that may fail, as JSON lines, under these
    /// options.
    pub fn json_nl_with_errors(self, stream: Vec<Result<Vec<u8>, StreamError>>) -> (body:
        StreamBodyAs)
        requires
            self.valid(),
            self.buffering_ready_items is Some ==> stream_bytes(
                line_chunks(items_model(stream@)),
            ).len() <= usize::MAX,
        ensures
            body.frames() == stream_frames(
                line_chunks(items_model(stream@)),
                self.buffering_ready_items,
                self.buffering_bytes,
            ),
            body.response_headers() == Some(
                content_type_headers(content_type_of(self.content_type, "application/jsonstream"@)),
            ),
    {
        StreamBodyAs::with_options(JsonNewLineStreamFormat::new(), stream, self)
    }
}

} // verus!
