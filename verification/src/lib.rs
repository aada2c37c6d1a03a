//! Streaming encoders that turn a sequence of items into framed byte chunks
//! for an HTTP response body, with optional rebuffering of the chunks.
//!
//! A format takes the items of a stream, already serialized by their codec
//! where the codec is generic, and gives the chunks that go on the wire: a
//! JSON array, JSON lines, CSV, length-prefixed binary records, an Arrow IPC
//! stream, or plain text. The first error ends a stream; nothing follows it.

pub mod arrow_format;
pub mod chunk;
pub mod csv_format;
pub mod envelope;
pub mod error;
pub mod headers;
pub mod json_formats;
pub mod protobuf_format;
pub mod rebuffer;
pub mod stream;
pub mod stream_body_as;
pub mod stream_format;
pub mod text_format;
pub mod varint;

pub use arrow_format::{ArrowBatch, ArrowRecordBatchIpcStreamFormat};
pub use csv::{QuoteStyle, Terminator};
pub use csv_format::{CsvRecord, CsvStreamFormat};
pub use envelope::StreamFormatEnvelope;
pub use error::{StreamError, StreamErrorKind};
pub use json_formats::{JsonArrayStreamFormat, JsonNewLineStreamFormat};
pub use protobuf_format::ProtobufStreamFormat;
pub use stream_body_as::{HttpHeaderValue, StreamBodyAs, StreamBodyAsOptions};
pub use stream_format::StreamingFormat;
pub use text_format::TextStreamFormat;
