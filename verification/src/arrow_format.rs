//! Arrow record batches as an IPC stream: continuous, with the schema once,
//! the batches and the end-of-stream marker, or with every batch as a stream
//! of its own.

use arrow::datatypes::Schema;
use arrow::error::ArrowError;
use arrow::ipc::writer::{DictionaryTracker, EncodedData, IpcWriteOptions};
use bytes::Bytes;
use crate::chunk::{append_bytes, bytes_as_slice, bytes_view};
use crate::error::{StreamError, StreamErrorKind};
use crate::headers::{content_type_headers, content_type_of, content_type_response_headers};
use crate::stream::{
    all_ok, chunk_model, chunks_model, ends_at_error, error_free, into_successes,
    lemma_chunks_model_push, lemma_error_free_halted, ok_prefix, stream_bytes, successes,
};
use crate::stream_body_as::{stream_frames, StreamBodyAs, StreamBodyAsOptions};
use crate::stream_format::StreamingFormat;
use http::header::{HeaderMap, HeaderValue};
use std::sync::Arc;
use vstd::prelude::*;
use vstd::utf8::encode_utf8;

verus! {

/// One record batch of the `arrow` crate, carried through as it is.
#[verifier::external_body]
pub struct ArrowBatch {
    pub batch: arrow::array::RecordBatch,
}

#[verifier::external_type_specification]
#[verifier::external_body]
pub struct ExSchema(arrow::datatypes::Schema);

#[verifier::external_type_specification]
#[verifier::external_body]
pub struct ExArrowError(arrow::error::ArrowError);

#[verifier::external_type_specification]
#[verifier::external_body]
pub struct ExIpcWriteOptions(arrow::ipc::writer::IpcWriteOptions);

#[verifier::external_type_specification]
#[verifier::external_body]
pub struct ExDictionaryTracker(arrow::ipc::writer::DictionaryTracker);

#[verifier::external_type_specification]
pub struct ExEncodedData(arrow::ipc::writer::EncodedData);

/// `IpcWriteOptions::default`: the writer's standard options.
#[verifier::external_body]
pub(crate) fn default_write_options() -> (options: IpcWriteOptions) {
    IpcWriteOptions::default()
}

/// `DictionaryTracker::new` for a stream, in which a dictionary may be
/// replaced: a tracker that has seen no dictionary yet.
#[verifier::external_body]
pub(crate) fn new_dictionary_tracker() -> (tracker: DictionaryTracker) {
    DictionaryTracker::new(false)
}

/// The message that the `arrow` crate makes of a schema for a stream whose
/// dictionaries are tracked by `tracker`.
pub uninterp spec fn ipc_schema_message(
    schema: Arc<Schema>,
    tracker: DictionaryTracker,
    options: IpcWriteOptions,
) -> Seq<u8>;

/// The messages that the `arrow` crate makes of a batch, in the order in
/// which they are written: one for each dictionary that `tracker` has not
/// seen as it is now, then the batch itself. Each is given as its message
/// and its data. Nothing where the batch cannot be encoded.
pub uninterp spec fn ipc_batch_messages(
    batch: ArrowBatch,
    tracker: DictionaryTracker,
    options: IpcWriteOptions,
) -> Option<Seq<(Seq<u8>, Seq<u8>)>>;

/// What a tracker holds once the `arrow` crate has made the message of a
/// schema with it.
pub uninterp spec fn ipc_tracker_after_schema(
    schema: Arc<Schema>,
    tracker: DictionaryTracker,
    options: IpcWriteOptions,
) -> DictionaryTracker;

/// What a tracker holds once the `arrow` crate has encoded a batch with it,
/// or has tried to.
pub uninterp spec fn ipc_tracker_after_batch(
    batch: ArrowBatch,
    tracker: DictionaryTracker,
    options: IpcWriteOptions,
) -> DictionaryTracker;

/// The bytes that the `arrow` crate writes into a stream for one message,
/// given as its message and its data. Nothing where it refuses to write it.
pub uninterp spec fn ipc_message_bytes(
    ipc_message: Seq<u8>,
    arrow_data: Seq<u8>,
    options: IpcWriteOptions,
) -> Option<Seq<u8>>;

/// Messages as their plain parts: of each its message and its data.
pub open spec fn message_parts(messages: Seq<EncodedData>) -> Seq<(Seq<u8>, Seq<u8>)> {
    Seq::new(messages.len(), |i: int| (messages[i].ipc_message@, messages[i].arrow_data@))
}

/// `IpcDataGenerator::schema_to_bytes_with_dictionary_tracker`: the schema as
/// one message without data, its dictionaries noted in the tracker. The
/// message, and what the tracker holds afterwards, depend on the schema, on
/// what the tracker holds and on the options, and on nothing else.
#[verifier::external_body]
pub(crate) fn schema_message(
    schema: &Arc<Schema>,
    tracker: &mut DictionaryTracker,
    options: &IpcWriteOptions,
) -> (message: EncodedData)
    ensures
        message.ipc_message@ == ipc_schema_message(*schema, *old(tracker), *options),
        message.arrow_data@ == Seq::<u8>::empty(),
        *final(tracker) == ipc_tracker_after_schema(*schema, *old(tracker), *options),
{
    arrow::ipc::writer::IpcDataGenerator::default().schema_to_bytes_with_dictionary_tracker(
        schema.as_ref(),
        tracker,
        options,
    )
}

/// `IpcDataGenerator::encode`: the batch as one message, and before it one
/// message for each dictionary that the tracker has not seen as it is now.
/// Whether it succeeds, with which messages, and what the tracker holds
/// afterwards, depend on the batch, on what the tracker holds and on the
/// options, and on nothing else.
#[verifier::external_body]
pub(crate) fn batch_messages(
    batch: &ArrowBatch,
    tracker: &mut DictionaryTracker,
    options: &IpcWriteOptions,
) -> (messages: Result<(Vec<EncodedData>, EncodedData), ArrowError>)
    ensures
        match messages {
            Ok(found) => ipc_batch_messages(*batch, *old(tracker), *options) == Some(
                message_parts(found.0@.push(found.1)),
            ),
            Err(_) => ipc_batch_messages(*batch, *old(tracker), *options) is None,
        },
        *final(tracker) == ipc_tracker_after_batch(*batch, *old(tracker), *options),
{
    arrow::ipc::writer::IpcDataGenerator::default().encode(
        &batch.batch,
        tracker,
        options,
        &mut Default::default(),
    )
}

/// `arrow::ipc::writer::write_message` into a vector of its own: the bytes of
/// one message as they stand in a stream. Whether it succeeds, and with
/// which bytes, depends on the message, its data and the options, and on
/// nothing else.
#[verifier::external_body]
pub(crate) fn message_bytes(message: EncodedData, options: &IpcWriteOptions) -> (written: Result<
    Vec<u8>,
    ArrowError,
>)
    ensures
        match written {
            Ok(bytes) => ipc_message_bytes(message.ipc_message@, message.arrow_data@, *options)
                == Some(bytes@),
            Err(_) => ipc_message_bytes(message.ipc_message@, message.arrow_data@, *options)
                is None,
        },
{
    let mut out: Vec<u8> = Vec::new();
    arrow::ipc::writer::write_message(&mut out, message, options)?;
    Ok(out)
}

/// The text of an `ArrowError`, through its `Display`.
#[verifier::external_body]
pub(crate) fn arrow_error_text(error: &ArrowError) -> (text: String) {
    error.to_string()
}

/// The bytes of `messages` written one after the other, each given as its
/// message and its data. Nothing where one of them cannot be written.
pub open spec fn written_messages(
    messages: Seq<(Seq<u8>, Seq<u8>)>,
    options: IpcWriteOptions,
) -> Option<Seq<u8>>
    decreases messages.len(),
{
    if messages.len() == 0 {
        Some(Seq::empty())
    } else {
        match (
            ipc_message_bytes(messages[0].0, messages[0].1, options),
            written_messages(messages.drop_first(), options),
        ) {
            (Some(first), Some(rest)) => Some(first + rest),
            _ => None,
        }
    }
}

/// `bytes` before what `rest` holds, where it holds anything.
pub open spec fn after_bytes(bytes: Seq<u8>, rest: Option<Seq<u8>>) -> Option<Seq<u8>> {
    match rest {
        Some(more) => Some(bytes + more),
        None => None,
    }
}

/// Writing messages one after the other is writing the first, and behind it
/// the others.
pub proof fn lemma_written_messages_step(
    messages: Seq<(Seq<u8>, Seq<u8>)>,
    options: IpcWriteOptions,
    sofar: Seq<u8>,
)
    requires
        messages.len() > 0,
    ensures
        after_bytes(sofar, written_messages(messages, options)) == match ipc_message_bytes(
            messages[0].0,
            messages[0].1,
            options,
        ) {
            Some(first) => after_bytes(
                sofar + first,
                written_messages(messages.drop_first(), options),
            ),
            None => None::<Seq<u8>>,
        },
{
    match (
        ipc_message_bytes(messages[0].0, messages[0].1, options),
        written_messages(messages.drop_first(), options),
    ) {
        (Some(first), Some(rest)) => {
            assert(sofar + (first + rest) =~= (sofar + first) + rest);
        },
        _ => {},
    }
}

/// The eight bytes that end a stream: the continuation marker and a length
/// of zero.
pub open spec fn end_of_stream() -> Seq<u8> {
    seq![0xffu8, 0xff, 0xff, 0xff, 0, 0, 0, 0]
}

/// The end-of-stream marker as a chunk.
pub fn write_continuation() -> (chunk: Bytes)
    ensures
        bytes_view(chunk) == end_of_stream(),
{
    let mut buf: Vec<u8> = Vec::new();
    buf.push(0xff);
    buf.push(0xff);
    buf.push(0xff);
    buf.push(0xff);
    buf.push(0);
    buf.push(0);
    buf.push(0);
    buf.push(0);
    assert(buf@ =~= end_of_stream());
    Bytes::from(buf)
}

/// What one stream keeps from batch to batch: the dictionaries that were
/// sent, and whether the schema was.
pub struct IpcStreamState {
    tracker: DictionaryTracker,
    opened: bool,
}

impl IpcStreamState {
    /// Whether the schema was sent.
    pub closed spec fn opened(&self) -> bool {
        self.opened
    }

    /// The tracker of the dictionaries that were sent.
    pub closed spec fn tracker(&self) -> DictionaryTracker {
        self.tracker
    }
}

/// One batch as it was encoded: the messages of the batch, and before them
/// the message of the schema if the batch opened its stream.
pub struct EncodedBatch {
    pub preamble: Option<Vec<u8>>,
    pub messages: Vec<u8>,
}

impl EncodedBatch {
    /// The bytes of the chunk: the preamble, if there is one, and the
    /// messages.
    pub open spec fn chunk_bytes(&self) -> Seq<u8> {
        match self.preamble {
            Some(schema) => schema@ + self.messages@,
            None => self.messages@,
        }
    }

    /// The bytes of the chunk.
    pub fn into_bytes(self) -> (bytes: Vec<u8>)
        ensures
            bytes@ == self.chunk_bytes(),
    {
        let mut out: Vec<u8> = Vec::new();
        match &self.preamble {
            Some(schema) => {
                append_bytes(&mut out, schema.as_slice());
            },
            None => {},
        }
        append_bytes(&mut out, self.messages.as_slice());
        assert(out@ =~= self.chunk_bytes());
        out
    }

    /// The chunk that carries this batch.
    pub fn into_chunk(self) -> (chunk: Bytes)
        ensures
            bytes_view(chunk) == self.chunk_bytes(),
    {
        Bytes::from(self.into_bytes())
    }

    /// The chunk that carries this batch as a stream of its own: the bytes
    /// of the chunk, closed by the end-of-stream marker.
    pub fn into_stream(self) -> (chunk: Bytes)
        ensures
            bytes_view(chunk) == self.chunk_bytes() + end_of_stream(),
    {
        let mut out = self.into_bytes();
        let marker = write_continuation();
        append_bytes(&mut out, bytes_as_slice(&marker));
        Bytes::from(out)
    }
}

/// What encoding one batch gave, as plain bytes.
pub open spec fn encoded_model(encoded: Result<EncodedBatch, StreamError>) -> Result<
    Seq<u8>,
    StreamError,
> {
    match encoded {
        Ok(parts) => Ok(parts.chunk_bytes()),
        Err(e) => Err(e),
    }
}

/// Record batches of one schema, sent as a continuous IPC stream.
pub struct ArrowRecordBatchIpcStreamFormat {
    schema: Arc<Schema>,
    options: IpcWriteOptions,
}

impl ArrowRecordBatchIpcStreamFormat {
    /// The schema of the batches.
    pub closed spec fn schema(&self) -> Arc<Schema> {
        self.schema
    }

    /// The options that the messages are written with.
    pub closed spec fn write_options(&self) -> IpcWriteOptions {
        self.options
    }

    /// The bytes of the schema's message in a stream whose dictionaries are
    /// tracked by `tracker`. Nothing where the message cannot be written.
    pub closed spec fn schema_bytes(&self, tracker: DictionaryTracker) -> Option<Seq<u8>> {
        ipc_message_bytes(
            ipc_schema_message(self.schema, tracker, self.options),
            Seq::empty(),
            self.options,
        )
    }

    /// What `tracker` holds once the schema's message was made with it.
    pub closed spec fn tracker_after_schema(
        &self,
        tracker: DictionaryTracker,
    ) -> DictionaryTracker {
        ipc_tracker_after_schema(self.schema, tracker, self.options)
    }

    /// The bytes of the messages of `batch` in a stream whose dictionaries
    /// are tracked by `tracker`: the dictionaries that the batch brings, then
    /// the batch itself. Nothing where the batch cannot be encoded or one of
    /// its messages cannot be written.
    pub closed spec fn batch_bytes(&self, tracker: DictionaryTracker, batch: ArrowBatch) -> Option<
        Seq<u8>,
    > {
        match ipc_batch_messages(batch, tracker, self.options) {
            Some(messages) => written_messages(messages, self.options),
            None => None,
        }
    }

    /// What `tracker` holds once `batch` was encoded with it.
    pub closed spec fn tracker_after_batch(
        &self,
        tracker: DictionaryTracker,
        batch: ArrowBatch,
    ) -> DictionaryTracker {
        ipc_tracker_after_batch(batch, tracker, self.options)
    }

    /// The tracker under which the next batch of a stream is encoded: the
    /// stream's own if the stream is opened, else the stream's own as the
    /// schema leaves it.
    pub open spec fn batch_tracker(
        &self,
        tracker: DictionaryTracker,
        opened: bool,
    ) -> DictionaryTracker {
        if opened {
            tracker
        } else {
            self.tracker_after_schema(tracker)
        }
    }

    /// The bytes of the chunk for the next batch of a stream: the schema's
    /// message if the stream is not opened yet, and the messages of the
    /// batch. Nothing where either cannot be had.
    pub open spec fn chunk_bytes(
        &self,
        tracker: DictionaryTracker,
        opened: bool,
        batch: ArrowBatch,
    ) -> Option<Seq<u8>> {
        let messages = self.batch_bytes(self.batch_tracker(tracker, opened), batch);
        if opened {
            messages
        } else {
            match (self.schema_bytes(tracker), messages) {
                (Some(schema), Some(rest)) => Some(schema + rest),
                _ => None,
            }
        }
    }

    /// What the stream's tracker holds behind the next batch.
    pub open spec fn next_tracker(
        &self,
        tracker: DictionaryTracker,
        opened: bool,
        batch: ArrowBatch,
    ) -> DictionaryTracker {
        self.tracker_after_batch(self.batch_tracker(tracker, opened), batch)
    }

    /// The chunks of the items that stand before the first that fails or
    /// cannot be encoded, in a stream that starts from `tracker` and
    /// `opened`: each batch is encoded with what the batches before it left
    /// in the tracker, and only the first chunk of a stream carries the
    /// schema.
    pub open spec fn sent_batches(
        &self,
        tracker: DictionaryTracker,
        opened: bool,
        items: Seq<Result<ArrowBatch, StreamError>>,
    ) -> Seq<Seq<u8>>
        decreases items.len(),
    {
        if items.len() == 0 {
            Seq::empty()
        } else {
            match items[0] {
                Ok(batch) => match self.chunk_bytes(tracker, opened, batch) {
                    Some(bytes) => seq![bytes] + self.sent_batches(
                        self.next_tracker(tracker, opened, batch),
                        true,
                        items.drop_first(),
                    ),
                    None => Seq::empty(),
                },
                Err(_) => Seq::empty(),
            }
        }
    }

    /// Whether `chunks` is the continuous stream of `items` that starts with
    /// `tracker`: the chunks of the batches that stand before the first item
    /// that fails or cannot be encoded; then the end-of-stream marker, if
    /// there is no such item; else that item's error, or an encode error for
    /// a batch that cannot be encoded, and nothing behind it.
    pub open spec fn frames_from(
        &self,
        tracker: DictionaryTracker,
        items: Seq<Result<ArrowBatch, StreamError>>,
        chunks: Seq<Result<Seq<u8>, StreamError>>,
    ) -> bool {
        let sent = self.sent_batches(tracker, false, items);
        &&& chunks.len() == sent.len() + 1
        &&& chunks.take(sent.len() as int) == successes(sent)
        &&& if sent.len() >= items.len() {
            chunks.last() == Ok::<Seq<u8>, StreamError>(end_of_stream())
        } else {
            match items[sent.len() as int] {
                Ok(_) => chunks.last() is Err && chunks.last()->Err_0.kind
                    == StreamErrorKind::Encode,
                Err(e) => chunks.last() == Err::<Seq<u8>, StreamError>(e),
            }
        }
    }

    /// Whether `chunk` is what a batch gives as a stream of its own under
    /// `tracker`: the schema's message, the messages of the batch and the
    /// end-of-stream marker, or an encode error where they cannot be had.
    pub open spec fn alone_outcome(
        &self,
        tracker: DictionaryTracker,
        batch: ArrowBatch,
        chunk: Result<Seq<u8>, StreamError>,
    ) -> bool {
        match self.chunk_bytes(tracker, false, batch) {
            Some(bytes) => chunk == Ok::<Seq<u8>, StreamError>(bytes + end_of_stream()),
            None => chunk is Err && chunk->Err_0.kind == StreamErrorKind::Encode,
        }
    }

    /// Whether `chunks` is the output for `items` with every batch as a
    /// stream of its own. Each chunk stands for the item at its position:
    /// what the batch gives alone under a tracker that has seen nothing, or
    /// the item's own error. An error is the last chunk, and only an error
    /// ends the output before the items end.
    pub open spec fn self_contained_frames(
        &self,
        items: Seq<Result<ArrowBatch, StreamError>>,
        chunks: Seq<Result<Seq<u8>, StreamError>>,
    ) -> bool {
        &&& chunks.len() <= items.len()
        &&& forall|i: int|
            0 <= i < chunks.len() ==> match items[i] {
                Ok(batch) => exists|tracker: DictionaryTracker|
                    self.alone_outcome(tracker, batch, #[trigger] chunks[i]),
                Err(e) => chunks[i] == Err::<Seq<u8>, StreamError>(e),
            }
        &&& ends_at_error(chunks)
        &&& chunks.len() < items.len() ==> chunks.len() > 0 && chunks.last() is Err
    }

    /// A stream of batches of `schema`, written with the standard options.
    pub fn new(schema: Arc<Schema>) -> (format: Self)
        ensures
            format.schema() == schema,
    {
        Self::with_options(schema, default_write_options())
    }

    /// A stream of batches of `schema`, written with `options`.
    pub fn with_options(schema: Arc<Schema>, options: IpcWriteOptions) -> (format: Self)
        ensures
            format.schema() == schema,
            format.write_options() == options,
    {
        ArrowRecordBatchIpcStreamFormat { schema, options }
    }

    /// The state of a stream of which nothing was sent yet.
    pub fn start(&self) -> (state: IpcStreamState)
        ensures
            !state.opened(),
    {
        IpcStreamState { tracker: new_dictionary_tracker(), opened: false }
    }

    /// Encodes the next batch of a stream, and before it the schema if the
    /// stream was not opened yet. It succeeds where the schema's message, if
    /// it is owed, and the messages of the batch can be had; the stream is
    /// then opened, and its tracker holds what the batch left in it. A batch
    /// that cannot be encoded is an encode error, and does not open the
    /// stream.
    pub fn encode_batch(&self, state: &mut IpcStreamState, batch: &ArrowBatch) -> (encoded: Result<
        EncodedBatch,
        StreamError,
    >)
        ensures
            encoded is Ok <==> self.chunk_bytes(
                old(state).tracker(),
                old(state).opened(),
                *batch,
            ) is Some,
            encoded matches Ok(parts) ==> {
                &&& Some(parts.chunk_bytes()) == self.chunk_bytes(
                    old(state).tracker(),
                    old(state).opened(),
                    *batch,
                )
                &&& parts.preamble is Some <==> !old(state).opened()
                &&& parts.preamble matches Some(schema) ==> self.schema_bytes(
                    old(state).tracker(),
                ) == Some(schema@)
                &&& self.batch_bytes(
                    self.batch_tracker(old(state).tracker(), old(state).opened()),
                    *batch,
                ) == Some(parts.messages@)
                &&& final(state).opened()
                &&& final(state).tracker() == self.next_tracker(
                    old(state).tracker(),
                    old(state).opened(),
                    *batch,
                )
            },
            encoded matches Err(e) ==> e.kind == StreamErrorKind::Encode && final(state).opened()
                == old(state).opened(),
    {
        let preamble = if !state.opened {
            match self.write_schema(&mut state.tracker) {
                Ok(bytes) => Some(bytes),
                Err(e) => {
                    return Err(e);
                },
            }
        } else {
            None
        };
        match self.write_batch(&mut state.tracker, batch) {
            Ok(messages) => {
                state.opened = true;
                let parts = EncodedBatch { preamble, messages };
                assert(parts.chunk_bytes() =~= self.chunk_bytes(
                    old(state).tracker(),
                    old(state).opened(),
                    *batch,
                )->0);
                Ok(parts)
            },
            Err(e) => Err(e),
        }
    }

    /// Encodes a batch as a stream of its own, behind the schema, with a
    /// tracker that has seen nothing. A batch that cannot be encoded is an
    /// encode error.
    pub fn encode_alone(&self, batch: &ArrowBatch) -> (encoded: Result<EncodedBatch, StreamError>)
        ensures
            encoded matches Ok(parts) ==> parts.preamble is Some,
            exists|tracker: DictionaryTracker| #[trigger]
                self.chunk_bytes(tracker, false, *batch) == match encoded {
                    Ok(parts) => Some(parts.chunk_bytes()),
                    Err(_) => None::<Seq<u8>>,
                },
            encoded matches Err(e) ==> e.kind == StreamErrorKind::Encode,
    {
        let mut state = self.start();
        let ghost tracker = state.tracker();
        let encoded = self.encode_batch(&mut state, batch);
        assert(self.chunk_bytes(tracker, false, *batch) == match encoded {
            Ok(parts) => Some(parts.chunk_bytes()),
            Err(_) => None::<Seq<u8>>,
        });
        encoded
    }

    /// Encodes a whole stream of batches so that every chunk can be read by
    /// itself: each batch behind the schema and closed by the end-of-stream
    /// marker, with dictionaries of its own. A failed item, or a batch that
    /// cannot be encoded, ends the stream with its error.
    pub fn to_self_contained_stream(
        &self,
        stream: Vec<Result<ArrowBatch, StreamError>>,
    ) -> (chunks: Vec<Result<Bytes, StreamError>>)
        ensures
            self.self_contained_frames(stream@, chunks_model(chunks@)),
    {
        let mut chunks: Vec<Result<Bytes, StreamError>> = Vec::new();
        let mut i: usize = 0;
        while i < stream.len()
            invariant
                0 <= i <= stream.len(),
                chunks.len() == i,
                forall|j: int| 0 <= j < i ==> (#[trigger] chunks_model(chunks@)[j]) is Ok,
                forall|j: int|
                    0 <= j < i ==> match stream@[j] {
                        Ok(batch) => exists|tracker: DictionaryTracker|
                            self.alone_outcome(tracker, batch, #[trigger] chunks_model(chunks@)[j]),
                        Err(e) => chunks_model(chunks@)[j] == Err::<Seq<u8>, StreamError>(e),
                    },
            decreases stream.len() - i,
        {
            let ghost before = chunks@;
            let outcome = match &stream[i] {
                Ok(batch) => {
                    let encoded = self.encode_alone(batch);
                    let ghost tracker = choose|tracker: DictionaryTracker| #[trigger]
                        self.chunk_bytes(tracker, false, *batch) == match encoded {
                            Ok(parts) => Some(parts.chunk_bytes()),
                            Err(_) => None::<Seq<u8>>,
                        };
                    let outcome = match encoded {
                        Ok(parts) => Ok(parts.into_stream()),
                        Err(e) => Err(e),
                    };
                    assert(self.alone_outcome(tracker, *batch, chunk_model(outcome)));
                    outcome
                },
                Err(e) => Err(e.clone()),
            };
            let failed = outcome.is_err();
            chunks.push(outcome);
            proof {
                lemma_chunks_model_push(before, outcome);
                let model = chunks_model(chunks@);
                assert forall|j: int| 0 <= j < model.len() implies match stream@[j] {
                    Ok(batch) => exists|tracker: DictionaryTracker|
                        self.alone_outcome(tracker, batch, #[trigger] model[j]),
                    Err(e) => model[j] == Err::<Seq<u8>, StreamError>(e),
                } by {
                    if j < i {
                        assert(model[j] == chunks_model(before)[j]);
                    }
                }
                assert forall|j: int| 0 <= j < model.len() - 1 implies (#[trigger] model[j])
                    is Ok by {
                    assert(model[j] == chunks_model(before)[j]);
                }
            }
            if failed {
                return chunks;
            }
            i += 1;
        }
        chunks
    }

    /// The schema as the bytes of its message. A failure of the writer is an
    /// encode error.
    fn write_schema(&self, tracker: &mut DictionaryTracker) -> (written: Result<
        Vec<u8>,
        StreamError,
    >)
        ensures
            *final(tracker) == self.tracker_after_schema(*old(tracker)),
            match written {
                Ok(bytes) => self.schema_bytes(*old(tracker)) == Some(bytes@),
                Err(e) => e.kind == StreamErrorKind::Encode && self.schema_bytes(*old(tracker))
                    is None,
            },
    {
        let message = schema_message(&self.schema, tracker, &self.options);
        match message_bytes(message, &self.options) {
            Ok(bytes) => Ok(bytes),
            Err(e) => Err(StreamError::encode(arrow_error_text(&e))),
        }
    }

    /// One batch as the bytes of its messages: the dictionaries that it
    /// brings, then the batch itself. A failure of the encoder or of the
    /// writer is an encode error.
    fn write_batch(&self, tracker: &mut DictionaryTracker, batch: &ArrowBatch) -> (written: Result<
        Vec<u8>,
        StreamError,
    >)
        ensures
            *final(tracker) == self.tracker_after_batch(*old(tracker), *batch),
            match written {
                Ok(bytes) => self.batch_bytes(*old(tracker), *batch) == Some(bytes@),
                Err(e) => e.kind == StreamErrorKind::Encode && self.batch_bytes(
                    *old(tracker),
                    *batch,
                ) is None,
            },
    {
        let ghost entry = *tracker;
        let (dictionaries, message) = match batch_messages(batch, tracker, &self.options) {
            Ok(messages) => messages,
            Err(e) => {
                return Err(StreamError::encode(arrow_error_text(&e)));
            },
        };
        let ghost options = self.options;
        let ghost last = (message.ipc_message@, message.arrow_data@);
        let ghost all = message_parts(dictionaries@.push(message));
        let mut out: Vec<u8> = Vec::new();
        let mut dictionaries = dictionaries;
        proof {
            assert(after_bytes(out@, written_messages(all, options)) == written_messages(
                all,
                options,
            )) by {
                if written_messages(all, options) is Some {
                    assert(out@ + written_messages(all, options)->0 =~= written_messages(
                        all,
                        options,
                    )->0);
                }
            }
            assert(message_parts(dictionaries@).push(last) =~= all);
        }
        while dictionaries.len() > 0
            invariant
                options == self.options,
                entry == *old(tracker),
                *tracker == self.tracker_after_batch(entry, *batch),
                self.batch_bytes(entry, *batch) == written_messages(all, options),
                written_messages(all, options) == after_bytes(
                    out@,
                    written_messages(message_parts(dictionaries@).push(last), options),
                ),
            decreases dictionaries.len(),
        {
            let ghost ahead = message_parts(dictionaries@).push(last);
            let ghost sofar = out@;
            let dictionary = dictionaries.remove(0);
            proof {
                assert(ahead[0] == (dictionary.ipc_message@, dictionary.arrow_data@));
                assert(ahead.drop_first() =~= message_parts(dictionaries@).push(last));
                lemma_written_messages_step(ahead, options, sofar);
            }
            match message_bytes(dictionary, &self.options) {
                Ok(bytes) => {
                    append_bytes(&mut out, bytes.as_slice());
                },
                Err(e) => {
                    return Err(StreamError::encode(arrow_error_text(&e)));
                },
            }
        }
        let ghost ahead = message_parts(dictionaries@).push(last);
        let ghost sofar = out@;
        proof {
            assert(ahead =~= seq![last]);
            assert(ahead.drop_first() =~= Seq::<(Seq<u8>, Seq<u8>)>::empty());
            lemma_written_messages_step(ahead, options, sofar);
        }
        match message_bytes(message, &self.options) {
            Ok(bytes) => {
                append_bytes(&mut out, bytes.as_slice());
                assert(out@ + Seq::<u8>::empty() =~= out@);
            },
            Err(e) => {
                return Err(StreamError::encode(arrow_error_text(&e)));
            },
        }
        Ok(out)
    }
}

impl StreamingFormat<ArrowBatch> for ArrowRecordBatchIpcStreamFormat {
    /// Whether `chunks` is an output of this format for `items`: the
    /// continuous stream of the items that starts with some tracker that has
    /// seen nothing.
    open spec fn frames(
        &self,
        items: Seq<Result<ArrowBatch, StreamError>>,
        chunks: Seq<Result<Seq<u8>, StreamError>>,
    ) -> bool {
        exists|tracker: DictionaryTracker| #[trigger] self.frames_from(tracker, items, chunks)
    }

    open spec fn response_headers(&self, options: StreamBodyAsOptions) -> Option<
        Map<Seq<u8>, Seq<Seq<u8>>>,
    > {
        Some(
            content_type_headers(
                content_type_of(options.content_type, "application/vnd.apache.arrow.stream"@),
            ),
        )
    }

    proof fn lemma_frames_end_at_error(
        &self,
        items: Seq<Result<ArrowBatch, StreamError>>,
        chunks: Seq<Result<Seq<u8>, StreamError>>,
    ) {
        let tracker = choose|tracker: DictionaryTracker| #[trigger]
            self.frames_from(tracker, items, chunks);
        let sent = self.sent_batches(tracker, false, items);
        assert forall|i: int| 0 <= i < chunks.len() - 1 implies (#[trigger] chunks[i]) is Ok by {
            assert(chunks[i] == chunks.take(sent.len() as int)[i]);
        }
    }

    /// The headers of the response: `application/vnd.apache.arrow.stream` as
    /// the content type, unless the options set another.
    fn http_response_headers(&self, options: &StreamBodyAsOptions) -> (headers: Option<
        HeaderMap<HeaderValue>,
    >) {
        proof {
            reveal_strlit("application/vnd.apache.arrow.stream");
        }
        content_type_response_headers(&options.content_type, "application/vnd.apache.arrow.stream")
    }

    /// Encodes a whole stream of batches. The schema is encoded when the
    /// first batch arrives and opens its chunk; the dictionaries are tracked
    /// over the whole stream; the end-of-stream marker follows the last
    /// batch. A failed item, or a batch that cannot be encoded, ends the
    /// stream with its error.
    fn to_bytes_stream(
        &self,
        stream: Vec<Result<ArrowBatch, StreamError>>,
        _options: &StreamBodyAsOptions,
    ) -> (chunks: Vec<Result<Bytes, StreamError>>) {
        let mut state = self.start();
        let ghost first = state.tracker();
        let ghost total = self.sent_batches(first, false, stream@);
        let ghost sent: Seq<Seq<u8>> = Seq::empty();
        let mut chunks: Vec<Result<Bytes, StreamError>> = Vec::new();
        let mut i: usize = 0;
        proof {
            assert(stream@.skip(0) =~= stream@);
            assert(sent + total =~= total);
            assert(chunks_model(chunks@) =~= successes(sent));
        }
        while i < stream.len()
            invariant
                0 <= i <= stream.len(),
                sent.len() == i,
                state.opened() == (i > 0),
                total == self.sent_batches(first, false, stream@),
                total == sent + self.sent_batches(
                    state.tracker(),
                    state.opened(),
                    stream@.skip(i as int),
                ),
                chunks_model(chunks@) == successes(sent),
            decreases stream.len() - i,
        {
            let ghost before = chunks@;
            let ghost ahead = stream@.skip(i as int);
            let ghost tracker = state.tracker();
            let ghost opened = state.opened();
            proof {
                assert(ahead[0] == stream@[i as int]);
                assert(ahead.drop_first() =~= stream@.skip(i + 1));
            }
            match &stream[i] {
                Ok(batch) => match self.encode_batch(&mut state, batch) {
                    Ok(parts) => {
                        let ghost bytes = parts.chunk_bytes();
                        let chunk = parts.into_chunk();
                        chunks.push(Ok(chunk));
                        proof {
                            lemma_chunks_model_push(before, Ok(chunk));
                            assert(self.sent_batches(tracker, opened, ahead) == seq![bytes]
                                + self.sent_batches(state.tracker(), true, ahead.drop_first()));
                            assert(total =~= sent.push(bytes) + self.sent_batches(
                                state.tracker(),
                                true,
                                stream@.skip(i + 1),
                            ));
                            assert(chunks_model(chunks@) =~= successes(sent.push(bytes)));
                            sent = sent.push(bytes);
                        }
                    },
                    Err(e) => {
                        chunks.push(Err(e));
                        proof {
                            lemma_chunks_model_push(before, Err(e));
                            assert(self.sent_batches(tracker, opened, ahead) =~= Seq::<
                                Seq<u8>,
                            >::empty());
                            assert(total =~= sent);
                            let model = chunks_model(chunks@);
                            assert(model.take(total.len() as int) =~= successes(total));
                            assert(self.frames_from(first, stream@, model));
                        }
                        return chunks;
                    },
                },
                Err(e) => {
                    chunks.push(Err(e.clone()));
                    proof {
                        lemma_chunks_model_push(before, Err(*e));
                        assert(self.sent_batches(tracker, opened, ahead) =~= Seq::<
                            Seq<u8>,
                        >::empty());
                        assert(total =~= sent);
                        let model = chunks_model(chunks@);
                        assert(model.take(total.len() as int) =~= successes(total));
                        assert(self.frames_from(first, stream@, model));
                    }
                    return chunks;
                },
            }
            i += 1;
        }
        let ghost before = chunks@;
        let marker = write_continuation();
        chunks.push(Ok(marker));
        proof {
            lemma_chunks_model_push(before, Ok(marker));
            assert(stream@.skip(i as int) =~= Seq::empty());
            assert(total =~= sent);
            let model = chunks_model(chunks@);
            assert(model.take(total.len() as int) =~= successes(total));
            assert(self.frames_from(first, stream@, model));
        }
        chunks
    }
}

/// In a continuous stream in which every item is a batch that can be
/// encoded, there is one chunk per batch and the end-of-stream marker behind
/// them: the marker is the last chunk and the last eight bytes, and the
/// bytes of the stream are the chunks of the batches and then the marker.
/// The schema's message opens the first batch's chunk and stands nowhere
/// else.
pub proof fn lemma_ipc_stream_bytes(
    format: ArrowRecordBatchIpcStreamFormat,
    tracker: DictionaryTracker,
    items: Seq<Result<ArrowBatch, StreamError>>,
    chunks: Seq<Result<Seq<u8>, StreamError>>,
)
    requires
        format.frames_from(tracker, items, chunks),
        format.sent_batches(tracker, false, items).len() == items.len(),
    ensures
        error_free(chunks),
        chunks.len() == items.len() + 1,
        chunks.last() == Ok::<Seq<u8>, StreamError>(end_of_stream()),
        stream_bytes(chunks) == format.sent_batches(tracker, false, items).flatten()
            + end_of_stream(),
        stream_bytes(chunks).len() >= 8,
        stream_bytes(chunks).skip(stream_bytes(chunks).len() - 8) == end_of_stream(),
        items.len() > 0 ==> items[0] is Ok && Some(
            format.sent_batches(tracker, false, items)[0],
        ) == format.chunk_bytes(tracker, false, items[0]->Ok_0),
{
    let sent = format.sent_batches(tracker, false, items);
    assert forall|i: int| 0 <= i < chunks.len() implies (#[trigger] chunks[i]) is Ok by {
        if i < sent.len() {
            assert(chunks[i] == chunks.take(sent.len() as int)[i]);
        }
    }
    lemma_error_free_halted(chunks);
    assert(ok_prefix(chunks) =~= sent.push(end_of_stream())) by {
        assert forall|i: int| 0 <= i < sent.len() implies ok_prefix(chunks)[i] == sent[i] by {
            assert(chunks[i] == chunks.take(sent.len() as int)[i]);
        }
    }
    sent.lemma_flatten_push(end_of_stream());
    let all = stream_bytes(chunks);
    assert(all.skip(all.len() - 8) =~= end_of_stream());
}

/// Whether `chunks` is a continuous stream of `items` in a format of
/// `schema` with the standard options.
pub open spec fn ipc_frames(
    schema: Arc<Schema>,
    items: Seq<Result<ArrowBatch, StreamError>>,
    chunks: Seq<Result<Seq<u8>, StreamError>>,
) -> bool {
    exists|format: ArrowRecordBatchIpcStreamFormat|
        format.schema() == schema && #[trigger] format.frames(items, chunks)
}

/// Whether `chunks` is a continuous stream of `items` in the format of
/// `schema` and `options`.
pub open spec fn ipc_frames_with(
    schema: Arc<Schema>,
    options: IpcWriteOptions,
    items: Seq<Result<ArrowBatch, StreamError>>,
    chunks: Seq<Result<Seq<u8>, StreamError>>,
) -> bool {
    exists|format: ArrowRecordBatchIpcStreamFormat|
        format.schema() == schema && format.write_options() == options
            && #[trigger] format.frames(items, chunks)
}

impl StreamBodyAs {
    /// The body of batches that cannot fail, as an IPC stream.
    pub fn arrow_ipc(
        schema: Arc<Schema>,
        stream: Vec<ArrowBatch>,
    ) -> (body: Self)
        ensures
            ipc_frames(schema, all_ok(stream@), body.frames()),
            body.response_headers() == Some(
                content_type_headers(encode_utf8("application/vnd.apache.arrow.stream"@)),
            ),
    {
        let format = ArrowRecordBatchIpcStreamFormat::new(schema);
        let ghost chosen = format;
        let items = into_successes(stream);
        let ghost given = items@;
        let body = Self::new(format, items);
        assert(chosen.frames(given, body.frames()));
        body
    }

    /// The body of a stream of batches that may fail, as an IPC stream.
    pub fn arrow_ipc_with_errors(
        schema: Arc<Schema>,
        stream: Vec<Result<ArrowBatch, StreamError>>,
    ) -> (body: Self)
        ensures
            ipc_frames(schema, stream@, body.frames()),
            body.response_headers() == Some(
                content_type_headers(encode_utf8("application/vnd.apache.arrow.stream"@)),
            ),
    {
        let format = ArrowRecordBatchIpcStreamFormat::new(schema);
        let ghost chosen = format;
        let items = stream;
        let ghost given = items@;
        let body = Self::new(format, items);
        assert(chosen.frames(given, body.frames()));
        body
    }

    /// The body of batches that cannot fail, as an IPC stream written with
    /// `options`.
    pub fn arrow_ipc_with_options(
        schema: Arc<Schema>,
        stream: Vec<ArrowBatch>,
        options: IpcWriteOptions,
    ) -> (body: Self)
        ensures
            ipc_frames_with(schema, options, all_ok(stream@), body.frames()),
            body.response_headers() == Some(
                content_type_headers(encode_utf8("application/vnd.apache.arrow.stream"@)),
            ),
    {
        let format = ArrowRecordBatchIpcStreamFormat::with_options(schema, options);
        let ghost chosen = format;
        let items = into_successes(stream);
        let ghost given = items@;
        let body = Self::new(format, items);
        assert(chosen.frames(given, body.frames()));
        body
    }

    /// The body of a stream of batches that may fail, as an IPC stream written
    /// with `options`.
    pub fn arrow_ipc_with_options_errors(
        schema: Arc<Schema>,
        stream: Vec<Result<ArrowBatch, StreamError>>,
        options: IpcWriteOptions,
    ) -> (body: Self)
        ensures
            ipc_frames_with(schema, options, stream@, body.frames()),
            body.response_headers() == Some(
                content_type_headers(encode_utf8("application/vnd.apache.arrow.stream"@)),
            ),
    {
        let format = ArrowRecordBatchIpcStreamFormat::with_options(schema, options);
        let ghost chosen = format;
        let items = stream;
        let ghost given = items@;
        let body = Self::new(format, items);
        assert(chosen.frames(given, body.frames()));
        body
    }
}

impl StreamBodyAsOptions {
    /// The body of batches that cannot fail, as an IPC stream, under these
    /// options.
    pub fn arrow_ipc(
        self,
        schema: Arc<Schema>,
        stream: Vec<ArrowBatch>,
    ) -> (body: StreamBodyAs)
        requires
            self.valid(),
            self.buffering_ready_items is Some ==> forall|
                chunks: Seq<Result<Seq<u8>, StreamError>>,
            |
                #[trigger] ipc_frames(schema, all_ok(stream@), chunks) ==> stream_bytes(
                    chunks,
                ).len() <= usize::MAX,
        ensures
            exists|chunks: Seq<Result<Seq<u8>, StreamError>>|
                #[trigger] ipc_frames(schema, all_ok(stream@), chunks) && body.frames()
                    == stream_frames(
                    chunks,
                    self.buffering_ready_items,
                    self.buffering_bytes,
                ),
            body.response_headers() == Some(
                content_type_headers(
                    content_type_of(self.content_type, "application/vnd.apache.arrow.stream"@),
                ),
            ),
    {
        let format = ArrowRecordBatchIpcStreamFormat::new(schema);
        let ghost chosen = format;
        let items = into_successes(stream);
        let ghost given = items@;
        proof {
            if self.buffering_ready_items is Some {
                assert forall|chunks: Seq<Result<Seq<u8>, StreamError>>| #[trigger]
                    chosen.frames(given, chunks) implies stream_bytes(chunks).len()
                    <= usize::MAX by {
                    assert(ipc_frames(schema, all_ok(stream@), chunks));
                }
            }
        }
        let body = StreamBodyAs::with_options(format, items, self);
        proof {
            let chunks = choose|chunks: Seq<Result<Seq<u8>, StreamError>>|
                #[trigger] chosen.frames(given, chunks) && body.frames() == stream_frames(
                    chunks,
                    self.buffering_ready_items,
                    self.buffering_bytes,
                );
            assert(ipc_frames(schema, all_ok(stream@), chunks));
        }
        body
    }

    /// The body of a stream of batches that may fail, as an IPC stream, under
    /// these options.
    pub fn arrow_ipc_with_errors(
        self,
        schema: Arc<Schema>,
        stream: Vec<Result<ArrowBatch, StreamError>>,
    ) -> (body: StreamBodyAs)
        requires
            self.valid(),
            self.buffering_ready_items is Some ==> forall|
                chunks: Seq<Result<Seq<u8>, StreamError>>,
            |
                #[trigger] ipc_frames(schema, stream@, chunks) ==> stream_bytes(
                    chunks,
                ).len() <= usize::MAX,
        ensures
            exists|chunks: Seq<Result<Seq<u8>, StreamError>>|
                #[trigger] ipc_frames(schema, stream@, chunks) && body.frames()
                    == stream_frames(
                    chunks,
                    self.buffering_ready_items,
                    self.buffering_bytes,
                ),
            body.response_headers() == Some(
                content_type_headers(
                    content_type_of(self.content_type, "application/vnd.apache.arrow.stream"@),
                ),
            ),
    {
        let format = ArrowRecordBatchIpcStreamFormat::new(schema);
        let ghost chosen = format;
        let items = stream;
        let ghost given = items@;
        proof {
            if self.buffering_ready_items is Some {
                assert forall|chunks: Seq<Result<Seq<u8>, StreamError>>| #[trigger]
                    chosen.frames(given, chunks) implies stream_bytes(chunks).len()
                    <= usize::MAX by {
                    assert(ipc_frames(schema, stream@, chunks));
                }
            }
        }
        let body = StreamBodyAs::with_options(format, items, self);
        proof {
            let chunks = choose|chunks: Seq<Result<Seq<u8>, StreamError>>|
                #[trigger] chosen.frames(given, chunks) && body.frames() == stream_frames(
                    chunks,
                    self.buffering_ready_items,
                    self.buffering_bytes,
                );
            assert(ipc_frames(schema, stream@, chunks));
        }
        body
    }

    /// The body of batches that cannot fail, as an IPC stream written with
    /// `options`, under these options.
    pub fn arrow_ipc_with_options(
        self,
        schema: Arc<Schema>,
        stream: Vec<ArrowBatch>,
        options: IpcWriteOptions,
    ) -> (body: StreamBodyAs)
        requires
            self.valid(),
            self.buffering_ready_items is Some ==> forall|
                chunks: Seq<Result<Seq<u8>, StreamError>>,
            |
                #[trigger] ipc_frames_with(schema, options, all_ok(stream@), chunks)
                    ==> stream_bytes(chunks).len() <= usize::MAX,
        ensures
            exists|chunks: Seq<Result<Seq<u8>, StreamError>>|
                #[trigger] ipc_frames_with(schema, options, all_ok(stream@), chunks)
                    && body.frames() == stream_frames(
                    chunks,
                    self.buffering_ready_items,
                    self.buffering_bytes,
                ),
            body.response_headers() == Some(
                content_type_headers(
                    content_type_of(self.content_type, "application/vnd.apache.arrow.stream"@),
                ),
            ),
    {
        let format = ArrowRecordBatchIpcStreamFormat::with_options(schema, options);
        let ghost chosen = format;
        let items = into_successes(stream);
        let ghost given = items@;
        proof {
            if self.buffering_ready_items is Some {
                assert forall|chunks: Seq<Result<Seq<u8>, StreamError>>| #[trigger]
                    chosen.frames(given, chunks) implies stream_bytes(chunks).len()
                    <= usize::MAX by {
                    assert(ipc_frames_with(schema, options, all_ok(stream@), chunks));
                }
            }
        }
        let body = StreamBodyAs::with_options(format, items, self);
        proof {
            let chunks = choose|chunks: Seq<Result<Seq<u8>, StreamError>>|
                #[trigger] chosen.frames(given, chunks) && body.frames() == stream_frames(
                    chunks,
                    self.buffering_ready_items,
                    self.buffering_bytes,
                );
            assert(ipc_frames_with(schema, options, all_ok(stream@), chunks));
        }
        body
    }

    /// The body of a stream of batches that may fail, as an IPC stream written
    /// with `options`, under these options.
    pub fn arrow_ipc_with_options_errors(
        self,
        schema: Arc<Schema>,
        stream: Vec<Result<ArrowBatch, StreamError>>,
        options: IpcWriteOptions,
    ) -> (body: StreamBodyAs)
        requires
            self.valid(),
            self.buffering_ready_items is Some ==> forall|
                chunks: Seq<Result<Seq<u8>, StreamError>>,
            |
                #[trigger] ipc_frames_with(schema, options, stream@, chunks) ==> stream_bytes(
                    chunks,
                ).len() <= usize::MAX,
        ensures
            exists|chunks: Seq<Result<Seq<u8>, StreamError>>|
                #[trigger] ipc_frames_with(schema, options, stream@, chunks) && body.frames()
                    == stream_frames(
                    chunks,
                    self.buffering_ready_items,
                    self.buffering_bytes,
                ),
            body.response_headers() == Some(
                content_type_headers(
                    content_type_of(self.content_type, "application/vnd.apache.arrow.stream"@),
                ),
            ),
    {
        let format = ArrowRecordBatchIpcStreamFormat::with_options(schema, options);
        let ghost chosen = format;
        let items = stream;
        let ghost given = items@;
        proof {
            if self.buffering_ready_items is Some {
                assert forall|chunks: Seq<Result<Seq<u8>, StreamError>>| #[trigger]
                    chosen.frames(given, chunks) implies stream_bytes(chunks).len()
                    <= usize::MAX by {
                    assert(ipc_frames_with(schema, options, stream@, chunks));
                }
            }
        }
        let body = StreamBodyAs::with_options(format, items, self);
        proof {
            let chunks = choose|chunks: Seq<Result<Seq<u8>, StreamError>>|
                #[trigger] chosen.frames(given, chunks) && body.frames() == stream_frames(
                    chunks,
                    self.buffering_ready_items,
                    self.buffering_bytes,
                );
            assert(ipc_frames_with(schema, options, stream@, chunks));
        }
        body
    }
}

} // verus!
