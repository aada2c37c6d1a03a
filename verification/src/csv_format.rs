//! CSV: one row per item, with a header row before the first if asked for.

use bytes::Bytes;
use crate::chunk::bytes_view;
use crate::error::{StreamError, StreamErrorKind};
use crate::headers::{content_type_headers, content_type_of, content_type_response_headers};
use crate::stream::{
    all_ok, chunks_model, error_free, into_successes, lemma_chunks_model_push,
    lemma_error_free_halted, ok_prefix, stream_bytes,
};
use crate::stream_body_as::{stream_frames, StreamBodyAs, StreamBodyAsOptions};
use crate::stream_format::StreamingFormat;
use csv::{QuoteStyle, Terminator};
use http::header::{HeaderMap, HeaderValue};
use vstd::prelude::*;
use vstd::utf8::encode_utf8;

verus! {

#[verifier::external_type_specification]
pub struct ExQuoteStyle(csv::QuoteStyle);

#[verifier::external_type_specification]
pub struct ExTerminator(csv::Terminator);

#[verifier::external_type_specification]
#[verifier::external_body]
pub struct ExCsvError(csv::Error);

/// The bytes that the `csv` crate writes for one record under the given
/// settings: the fields, quoted and escaped as the settings ask, with the
/// delimiter between them and the terminator behind them.
pub uninterp spec fn csv_record_bytes(
    delimiter: u8,
    quote_style: QuoteStyle,
    quote: u8,
    double_quote: bool,
    escape: u8,
    terminator: Terminator,
    fields: Seq<Seq<u8>>,
) -> Seq<u8>;

/// How rows are written.
#[derive(Debug, Clone, Copy)]
pub struct CsvStreamFormat {
    pub has_headers: bool,
    pub delimiter: u8,
    pub flexible: bool,
    pub quote_style: QuoteStyle,
    pub quote: u8,
    pub double_quote: bool,
    pub escape: u8,
    pub terminator: Terminator,
}

/// One item of a CSV stream: the values of its fields, in the order of the
/// columns, and the names of the columns if the item has any.
#[derive(Debug, PartialEq, Eq)]
pub struct CsvRecord {
    pub header: Option<Vec<Vec<u8>>>,
    pub fields: Vec<Vec<u8>>,
}

/// Writes one record with a writer of its own, built by `csv::WriterBuilder`
/// from the format's settings, through `csv::Writer::write_record`, and hands
/// back what the writer holds at the end. The first record of a writer into
/// a vector is never refused.
#[verifier::external_body]
pub(crate) fn csv_write_record(format: &CsvStreamFormat, fields: &Vec<Vec<u8>>) -> (written: Result<
    Vec<u8>,
    csv::Error,
>)
    ensures
        written is Ok,
        written->Ok_0@ == csv_record_bytes(
            format.delimiter,
            format.quote_style,
            format.quote,
            format.double_quote,
            format.escape,
            format.terminator,
            fields.deep_view(),
        ),
{
    let mut writer = csv::WriterBuilder::new()
        .has_headers(false)
        .delimiter(format.delimiter)
        .flexible(format.flexible)
        .quote_style(format.quote_style)
        .quote(format.quote)
        .double_quote(format.double_quote)
        .escape(format.escape)
        .terminator(format.terminator)
        .from_writer(Vec::new());
    writer.write_record(fields)?;
    writer.into_inner().map_err(|e| csv::Error::from(e.into_error()))
}

/// Writes a header row and a row with one writer, built by
/// `csv::WriterBuilder` from the format's settings, through two calls of
/// `csv::Writer::write_record`, and hands back what the writer holds at the
/// end. The writer refuses the second record if and only if it is not
/// flexible and the two differ in their number of fields. What it writes
/// for a record does not depend on the record before it.
#[verifier::external_body]
pub(crate) fn csv_write_header_and_record(
    format: &CsvStreamFormat,
    header: &Vec<Vec<u8>>,
    fields: &Vec<Vec<u8>>,
) -> (written: Result<Vec<u8>, csv::Error>)
    ensures
        written is Ok <==> format.flexible || header@.len() == fields@.len(),
        written matches Ok(bytes) ==> bytes@ == csv_record_bytes(
            format.delimiter,
            format.quote_style,
            format.quote,
            format.double_quote,
            format.escape,
            format.terminator,
            header.deep_view(),
        ) + csv_record_bytes(
            format.delimiter,
            format.quote_style,
            format.quote,
            format.double_quote,
            format.escape,
            format.terminator,
            fields.deep_view(),
        ),
{
    let mut writer = csv::WriterBuilder::new()
        .has_headers(false)
        .delimiter(format.delimiter)
        .flexible(format.flexible)
        .quote_style(format.quote_style)
        .quote(format.quote)
        .double_quote(format.double_quote)
        .escape(format.escape)
        .terminator(format.terminator)
        .from_writer(Vec::new());
    writer.write_record(header)?;
    writer.write_record(fields)?;
    writer.into_inner().map_err(|e| csv::Error::from(e.into_error()))
}

/// The text of a `csv::Error`, through its `Display`.
#[verifier::external_body]
pub(crate) fn csv_error_text(error: &csv::Error) -> (text: String) {
    error.to_string()
}

impl Default for CsvStreamFormat {
    /// Headers on, fields separated by commas and quoted only where needed,
    /// quotes doubled inside quoted fields, rows ended by a line feed.
    fn default() -> (format: Self)
        ensures
            format.has_headers,
            format.delimiter == 0x2c,
            !format.flexible,
            format.quote_style is Necessary,
            format.quote == 0x22,
            format.double_quote,
            format.escape == 0x5c,
            format.terminator == Terminator::Any(0x0a),
    {
        CsvStreamFormat {
            has_headers: true,
            delimiter: 0x2c,
            flexible: false,
            quote_style: QuoteStyle::Necessary,
            quote: 0x22,
            double_quote: true,
            escape: 0x5c,
            terminator: Terminator::Any(0x0a),
        }
    }
}

impl CsvRecord {
    /// A record without column names.
    pub fn new(fields: Vec<Vec<u8>>) -> (record: Self)
        ensures
            record.header is None,
            record.fields == fields,
    {
        CsvRecord { header: None, fields }
    }

    /// A record whose columns are named by `header`.
    pub fn with_header(header: Vec<Vec<u8>>, fields: Vec<Vec<u8>>) -> (record: Self)
        ensures
            record.header == Some(header),
            record.fields == fields,
    {
        CsvRecord { header: Some(header), fields }
    }
}

impl CsvStreamFormat {
    /// The default settings but for `has_headers` and `delimiter`.
    pub fn new(has_headers: bool, delimiter: u8) -> (format: Self)
        ensures
            format.has_headers == has_headers,
            format.delimiter == delimiter,
            !format.flexible,
            format.quote_style is Necessary,
            format.quote == 0x22,
            format.double_quote,
            format.escape == 0x5c,
            format.terminator == Terminator::Any(0x0a),
    {
        CsvStreamFormat {
            has_headers,
            delimiter,
            flexible: false,
            quote_style: QuoteStyle::Necessary,
            quote: 0x22,
            double_quote: true,
            escape: 0x5c,
            terminator: Terminator::Any(0x0a),
        }
    }

    /// The bytes of one record under this format's settings.
    pub open spec fn record_bytes(&self, fields: Seq<Seq<u8>>) -> Seq<u8> {
        csv_record_bytes(
            self.delimiter,
            self.quote_style,
            self.quote,
            self.double_quote,
            self.escape,
            self.terminator,
            fields,
        )
    }

    /// Whether the item at position `index` is sent with a header row before
    /// it: only the first item is, only if headers are on, and only if the
    /// item names its columns.
    pub open spec fn sends_header(&self, index: int, record: CsvRecord) -> bool {
        index == 0 && self.has_headers && record.header is Some
    }

    /// Whether the item at position `index` can be written: a header row and
    /// the row behind it must have as many fields as each other, unless the
    /// format is flexible.
    pub open spec fn accepts(&self, index: int, record: CsvRecord) -> bool {
        self.sends_header(index, record) && !self.flexible ==> record.header->0.len()
            == record.fields.len()
    }

    /// The chunk for the item at position `index`: its header row, where one
    /// is sent, and its row.
    pub open spec fn item_bytes(&self, index: int, record: CsvRecord) -> Seq<u8> {
        if self.sends_header(index, record) {
            self.record_bytes(record.header->0.deep_view()) + self.record_bytes(
                record.fields.deep_view(),
            )
        } else {
            self.record_bytes(record.fields.deep_view())
        }
    }

    /// The chunk for the item at position `index`: its header row, where one
    /// is sent, and its row. An item whose header row and row the writer
    /// does not take together is an encode error, and no other item is.
    pub fn item_chunk(&self, index: usize, record: &CsvRecord) -> (chunk: Result<
        Bytes,
        StreamError,
    >)
        ensures
            chunk is Ok <==> self.accepts(index as int, *record),
            match chunk {
                Ok(bytes) => bytes_view(bytes) == self.item_bytes(index as int, *record),
                Err(e) => e.kind == StreamErrorKind::Encode,
            },
    {
        let written = if index == 0 && self.has_headers {
            match &record.header {
                Some(header) => csv_write_header_and_record(self, header, &record.fields),
                None => csv_write_record(self, &record.fields),
            }
        } else {
            csv_write_record(self, &record.fields)
        };
        match written {
            Ok(bytes) => Ok(Bytes::from(bytes)),
            Err(e) => Err(StreamError::encode(csv_error_text(&e))),
        }
    }

    /// Sets whether a header row and its row may differ in their number of fields.
    pub fn with_flexible(self, flexible: bool) -> (format: Self)
        ensures
            format == (CsvStreamFormat { flexible, ..self }),
    {
        CsvStreamFormat { flexible, ..self }
    }

    /// Sets which fields are quoted.
    pub fn with_quote_style(self, quote_style: QuoteStyle) -> (format: Self)
        ensures
            format == (CsvStreamFormat { quote_style, ..self }),
    {
        CsvStreamFormat { quote_style, ..self }
    }

    /// Sets the quote character.
    pub fn with_quote(self, quote: u8) -> (format: Self)
        ensures
            format == (CsvStreamFormat { quote, ..self }),
    {
        CsvStreamFormat { quote, ..self }
    }

    /// Sets whether a quote inside a field is doubled rather than escaped.
    pub fn with_double_quote(self, double_quote: bool) -> (format: Self)
        ensures
            format == (CsvStreamFormat { double_quote, ..self }),
    {
        CsvStreamFormat { double_quote, ..self }
    }

    /// Sets the escape character.
    pub fn with_escape(self, escape: u8) -> (format: Self)
        ensures
            format == (CsvStreamFormat { escape, ..self }),
    {
        CsvStreamFormat { escape, ..self }
    }

    /// Sets what ends a row.
    pub fn with_terminator(self, terminator: Terminator) -> (format: Self)
        ensures
            format == (CsvStreamFormat { terminator, ..self }),
    {
        CsvStreamFormat { terminator, ..self }
    }

    /// Sets what separates two fields.
    pub fn with_delimiter(self, delimiter: u8) -> (format: Self)
        ensures
            format == (CsvStreamFormat { delimiter, ..self }),
    {
        CsvStreamFormat { delimiter, ..self }
    }

    /// Sets whether a header row is sent before the first row.
    pub fn with_has_headers(self, has_headers: bool) -> (format: Self)
        ensures
            format == (CsvStreamFormat { has_headers, ..self }),
    {
        CsvStreamFormat { has_headers, ..self }
    }
}

impl StreamingFormat<CsvRecord> for CsvStreamFormat {
    /// Whether `chunks` is the output of this format for `items`. Each chunk
    /// stands for the item at its position: the item's header row, where one
    /// is sent, and its row; or the item's own error; or an encode error, if
    /// and only if the format does not accept the item. An error is the last
    /// chunk, and only an error ends the output before the items end.
    open spec fn frames(
        &self,
        items: Seq<Result<CsvRecord, StreamError>>,
        chunks: Seq<Result<Seq<u8>, StreamError>>,
    ) -> bool {
        &&& chunks.len() <= items.len()
        &&& forall|i: int|
            0 <= i < chunks.len() ==> match items[i] {
                Ok(record) => match #[trigger] chunks[i] {
                    Ok(bytes) => self.accepts(i, record) && bytes == self.item_bytes(i, record),
                    Err(e) => !self.accepts(i, record) && e.kind == StreamErrorKind::Encode,
                },
                Err(e) => chunks[i] == Err::<Seq<u8>, StreamError>(e),
            }
        &&& forall|i: int| 0 <= i < chunks.len() - 1 ==> (#[trigger] chunks[i]) is Ok
        &&& chunks.len() < items.len() ==> chunks.len() > 0 && chunks.last() is Err
    }

    open spec fn response_headers(&self, options: StreamBodyAsOptions) -> Option<
        Map<Seq<u8>, Seq<Seq<u8>>>,
    > {
        Some(content_type_headers(content_type_of(options.content_type, "text/csv"@)))
    }

    proof fn lemma_frames_end_at_error(
        &self,
        items: Seq<Result<CsvRecord, StreamError>>,
        chunks: Seq<Result<Seq<u8>, StreamError>>,
    ) {

    }

    /// The headers of the response: `text/csv` as the content type, unless
    /// the options set another.
    fn http_response_headers(&self, options: &StreamBodyAsOptions) -> (headers: Option<
        HeaderMap<HeaderValue>,
    >) {
        proof {
            reveal_strlit("text/csv");
        }
        content_type_response_headers(&options.content_type, "text/csv")
    }

    /// Encodes a whole stream of records: one chunk per record, the first
    /// with the header row before it if headers are on. A failed item, or
    /// one that cannot be encoded, ends the stream with its error.
    fn to_bytes_stream(
        &self,
        stream: Vec<Result<CsvRecord, StreamError>>,
        _options: &StreamBodyAsOptions,
    ) -> (chunks: Vec<Result<Bytes, StreamError>>) {
        let mut chunks: Vec<Result<Bytes, StreamError>> = Vec::new();
        let mut i: usize = 0;
        while i < stream.len()
            invariant
                0 <= i <= stream.len(),
                chunks.len() == i,
                forall|j: int| 0 <= j < i ==> (#[trigger] chunks_model(chunks@)[j]) is Ok,
                self.frames(stream@.take(i as int), chunks_model(chunks@)),
            decreases stream.len() - i,
        {
            let ghost before = chunks@;
            let outcome = match &stream[i] {
                Ok(record) => self.item_chunk(i, record),
                Err(e) => Err(e.clone()),
            };
            let failed = outcome.is_err();
            chunks.push(outcome);
            proof {
                lemma_chunks_model_push(before, outcome);
                let model = chunks_model(chunks@);
                assert forall|j: int| 0 <= j < model.len() - 1 implies (#[trigger] model[j])
                    is Ok by {
                    assert(model[j] == chunks_model(before)[j]);
                }
                assert forall|j: int| 0 <= j < model.len() implies match stream@[j] {
                    Ok(record) => match #[trigger] model[j] {
                        Ok(bytes) => self.accepts(j, record) && bytes == self.item_bytes(j, record),
                        Err(e) => !self.accepts(j, record) && e.kind == StreamErrorKind::Encode,
                    },
                    Err(e) => model[j] == Err::<Seq<u8>, StreamError>(e),
                } by {
                    if j < i {
                        assert(model[j] == chunks_model(before)[j]);
                        assert(stream@.take(i as int)[j] == stream@[j]);
                    }
                }
            }
            if failed {
                return chunks;
            }
            i += 1;
            proof {
                let model = chunks_model(chunks@);
                let seen = stream@.take(i as int);
                assert forall|j: int| 0 <= j < model.len() implies match seen[j] {
                    Ok(record) => match #[trigger] model[j] {
                        Ok(bytes) => self.accepts(j, record) && bytes == self.item_bytes(j, record),
                        Err(e) => !self.accepts(j, record) && e.kind == StreamErrorKind::Encode,
                    },
                    Err(e) => model[j] == Err::<Seq<u8>, StreamError>(e),
                } by {
                    assert(seen[j] == stream@[j]);
                }
            }
        }
        assert(stream@.take(i as int) =~= stream@);
        chunks
    }
}

/// The format of the ready-made CSV bodies: no header row, and for the rest
/// the default settings.
pub open spec fn plain_csv_format() -> CsvStreamFormat {
    CsvStreamFormat {
        has_headers: false,
        delimiter: 0x2c,
        flexible: false,
        quote_style: QuoteStyle::Necessary,
        quote: 0x22,
        double_quote: true,
        escape: 0x5c,
        terminator: Terminator::Any(0x0a),
    }
}

/// The rows of `items` under `format`, without any header row.
pub open spec fn csv_rows(format: CsvStreamFormat, items: Seq<CsvRecord>) -> Seq<Seq<u8>> {
    Seq::new(items.len(), |i: int| format.record_bytes(items[i].fields.deep_view()))
}

/// A stream of records in which every item succeeded.
pub open spec fn csv_successes(items: Seq<CsvRecord>) -> Seq<Result<CsvRecord, StreamError>> {
    Seq::new(items.len(), |i: int| Ok(items[i]))
}

/// When no item fails and the format accepts the first, every item gives
/// its chunk: the output is the header row of the first item, where one is
/// sent, and then the rows of all the items in their order.
pub proof fn lemma_csv_stream_bytes(
    format: CsvStreamFormat,
    items: Seq<CsvRecord>,
    chunks: Seq<Result<Seq<u8>, StreamError>>,
)
    requires
        items.len() > 0 ==> format.accepts(0, items[0]),
        format.frames(csv_successes(items), chunks),
    ensures
        error_free(chunks),
        chunks.len() == items.len(),
        forall|i: int|
            0 <= i < items.len() ==> (#[trigger] chunks[i]) == Ok::<Seq<u8>, StreamError>(
                format.item_bytes(i, items[i]),
            ),
        stream_bytes(chunks) == (if items.len() > 0 && format.sends_header(0, items[0]) {
            format.record_bytes(items[0].header->0.deep_view())
        } else {
            Seq::<u8>::empty()
        }) + csv_rows(format, items).flatten(),
{
    let source = csv_successes(items);
    let rows = csv_rows(format, items);
    assert forall|i: int| 0 <= i < chunks.len() implies (#[trigger] chunks[i]) == Ok::<
        Seq<u8>,
        StreamError,
    >(format.item_bytes(i, items[i])) by {
        assert(source[i] == Ok::<CsvRecord, StreamError>(items[i]));
        assert(format.accepts(i, items[i]));
    }
    assert(chunks.len() == items.len()) by {
        if chunks.len() < items.len() {
            assert(chunks.last() is Err);
            assert(chunks[chunks.len() - 1] is Ok);
        }
    }
    lemma_error_free_halted(chunks);
    let payloads = ok_prefix(chunks);
    if items.len() == 0 {
        assert(payloads =~= Seq::<Seq<u8>>::empty());
        assert(rows =~= Seq::<Seq<u8>>::empty());
        assert(Seq::<u8>::empty() + rows.flatten() =~= rows.flatten());
    } else if format.sends_header(0, items[0]) {
        let header = format.record_bytes(items[0].header->0.deep_view());
        assert(payloads =~= seq![header + rows[0]] + rows.drop_first());
        assert(rows =~= seq![rows[0]] + rows.drop_first());
        vstd::seq_lib::lemma_flatten_concat(seq![header + rows[0]], rows.drop_first());
        vstd::seq_lib::lemma_flatten_concat(seq![rows[0]], rows.drop_first());
        seq![header + rows[0]].lemma_flatten_singleton();
        seq![rows[0]].lemma_flatten_singleton();
        assert(stream_bytes(chunks) =~= header + rows.flatten());
    } else {
        assert(payloads =~= rows);
        assert(Seq::<u8>::empty() + rows.flatten() =~= rows.flatten());
    }
}

/// With headers on, the header row is sent once and first: when no item
/// fails and the writer takes the first item's header row and row together,
/// the output is that header row and then the rows of all the items, however
/// many there are.
pub proof fn lemma_csv_header_once(
    format: CsvStreamFormat,
    items: Seq<CsvRecord>,
    chunks: Seq<Result<Seq<u8>, StreamError>>,
)
    requires
        format.has_headers,
        items.len() > 0,
        items[0].header is Some,
        format.accepts(0, items[0]),
        format.frames(csv_successes(items), chunks),
    ensures
        error_free(chunks),
        stream_bytes(chunks) == format.record_bytes(items[0].header->0.deep_view()) + csv_rows(
            format,
            items,
        ).flatten(),
{
    lemma_csv_stream_bytes(format, items, chunks);
}

impl StreamBodyAs {
    /// The body of items that cannot fail, as CSV without a header row.
    pub fn csv(stream: Vec<CsvRecord>) -> (body: Self)
        ensures
            plain_csv_format().frames(all_ok(stream@), body.frames()),
            body.response_headers() == Some(
                content_type_headers(encode_utf8("text/csv"@)),
            ),
    {
        Self::new(CsvStreamFormat::new(false, 0x2c), into_successes(stream))
    }

    /// The body of a stream that may fail, as CSV without a header row.
    pub fn csv_with_errors(stream: Vec<Result<CsvRecord, StreamError>>) -> (body: Self)
        ensures
            plain_csv_format().frames(stream@, body.frames()),
            body.response_headers() == Some(
                content_type_headers(encode_utf8("text/csv"@)),
            ),
    {
        Self::new(CsvStreamFormat::new(false, 0x2c), stream)
    }
}

impl StreamBodyAsOptions {
    /// The body of items that cannot fail, as CSV without a header row, under these
    /// options.
    pub fn csv(self, stream: Vec<CsvRecord>) -> (body: StreamBodyAs)
        requires
            self.valid(),
            self.buffering_ready_items is Some ==> forall|
                chunks: Seq<Result<Seq<u8>, StreamError>>,
            |
                #[trigger] plain_csv_format().frames(all_ok(stream@), chunks) ==> stream_bytes(
                    chunks,
                ).len() <= usize::MAX,
        ensures
            exists|chunks: Seq<Result<Seq<u8>, StreamError>>|
                #[trigger] plain_csv_format().frames(all_ok(stream@), chunks) && body.frames()
                    == stream_frames(
                    chunks,
                    self.buffering_ready_items,
                    self.buffering_bytes,
                ),
            body.response_headers() == Some(
                content_type_headers(content_type_of(self.content_type, "text/csv"@)),
            ),
    {
        StreamBodyAs::with_options(CsvStreamFormat::new(false, 0x2c), into_successes(stream), self)
    }

    /// The body of a stream that may fail, as CSV without a header row, under these
    /// options.
    pub fn csv_with_errors(
        self,
        stream: Vec<Result<CsvRecord, StreamError>>,
    ) -> (body: StreamBodyAs)
        requires
            self.valid(),
            self.buffering_ready_items is Some ==> forall|
                chunks: Seq<Result<Seq<u8>, StreamError>>,
            |
                #[trigger] plain_csv_format().frames(stream@, chunks) ==> stream_bytes(
                    chunks,
                ).len() <= usize::MAX,
        ensures
            exists|chunks: Seq<Result<Seq<u8>, StreamError>>|
                #[trigger] plain_csv_format().frames(stream@, chunks) && body.frames()
                    == stream_frames(
                    chunks,
                    self.buffering_ready_items,
                    self.buffering_bytes,
                ),
            body.response_headers() == Some(
                content_type_headers(content_type_of(self.content_type, "text/csv"@)),
            ),
    {
        StreamBodyAs::with_options(CsvStreamFormat::new(false, 0x2c), stream, self)
    }
}

} // verus!
