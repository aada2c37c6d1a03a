//! The one error type that every stage of the pipeline reports.

use vstd::prelude::*;

verus! {

/// Where in the pipeline a failure arose.
#[derive(Debug, Clone, Copy, PartialEq, Eq, Structural)]
pub enum StreamErrorKind {
    /// The source of items reported a failure.
    Source,
    /// A codec could not serialize one item.
    Encode,
    /// The format was set up in a way that cannot be encoded.
    Config,
}

/// A failure that ends a stream: once one is emitted, nothing follows it.
#[derive(Debug, PartialEq, Eq)]
pub struct StreamError {
    pub kind: StreamErrorKind,
    pub message: String,
}

impl StreamError {
    /// A failure reported by the source of items.
    pub fn source(message: String) -> (e: Self)
        ensures
            e.kind == StreamErrorKind::Source,
            e.message == message,
    {
        StreamError { kind: StreamErrorKind::Source, message }
    }

    /// A failure of a codec on one item, carrying the codec's own words.
    pub fn encode(message: String) -> (e: Self)
        ensures
            e.kind == StreamErrorKind::Encode,
            e.message == message,
    {
        StreamError { kind: StreamErrorKind::Encode, message }
    }

    /// A failure of the format's own configuration.
    pub fn config(message: String) -> (e: Self)
        ensures
            e.kind == StreamErrorKind::Config,
            e.message == message,
    {
        StreamError { kind: StreamErrorKind::Config, message }
    }

    /// The stage that failed.
    pub fn kind(&self) -> (k: StreamErrorKind)
        ensures
            k == self.kind,
    {
        self.kind
    }

    /// The text that describes the failure.
    pub fn message(&self) -> (m: &str)
        ensures
            m@ == self.message@,
    {
        self.message.as_str()
    }
}

impl Clone for StreamError {
    fn clone(&self) -> (e: Self)
        ensures
            e == *self,
    {
        StreamError { kind: self.kind, message: self.message.clone() }
    }
}

} // verus!
