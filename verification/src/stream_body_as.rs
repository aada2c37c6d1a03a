//! The options of a response body and the rebuffering of its chunks.

use bytes::Bytes;
use crate::chunk::{bytes_as_slice, bytes_view};
use crate::error::{StreamError, StreamErrorKind};
use crate::headers::{
    header_entries, header_map_takes, header_map_try_append, header_name_bytes,
    header_value_bytes, no_headers, with_appended,
};
use crate::rebuffer::{
    coalesce_ready_chunks, coalesced, lemma_split_append, lemma_split_exact,
    lemma_stream_bytes_grows, lemma_stream_bytes_part, lemma_stream_bytes_step,
    lemma_stream_bytes_until_error, split_frames, split_rest, ByteRebuffer,
};
use crate::stream::{
    chunk_model, chunks_model, error_free, first_error, halt_on_error, halted,
    lemma_chunks_model_push, lemma_ended_is_halted, lemma_error_free_halted, lemma_first_error_at,
    lemma_first_error_bounds, lemma_stream_bytes_after_ok, lemma_successes_bytes, ok_prefix,
    stream_bytes, successes,
};
use crate::stream_format::{headers_model, StreamingFormat};
use http::header::{HeaderMap, HeaderName, HeaderValue};
use vstd::prelude::*;

verus! {

/// The type of a header's value, as the `http` crate has it.
pub type HttpHeaderValue = http::header::HeaderValue;

/// How a response body is delivered, whatever its format: whether and how its
/// chunks are rebuffered, and the content type that replaces the format's own.
pub struct StreamBodyAsOptions {
    pub buffering_ready_items: Option<usize>,
    pub buffering_bytes: Option<usize>,
    pub content_type: Option<HeaderValue>,
}

impl StreamBodyAsOptions {
    /// No rebuffering and the format's own content type.
    pub fn new() -> (options: Self)
        ensures
            options.buffering_ready_items is None,
            options.buffering_bytes is None,
            options.content_type is None,
    {
        StreamBodyAsOptions {
            buffering_ready_items: None,
            buffering_bytes: None,
            content_type: None,
        }
    }

    /// Asks for chunks that are ready together to be sent as one, at most
    /// `ready_items` of them at a time.
    pub fn buffering_ready_items(self, ready_items: usize) -> (options: Self)
        ensures
            options == (StreamBodyAsOptions { buffering_ready_items: Some(ready_items), ..self }),
    {
        StreamBodyAsOptions { buffering_ready_items: Some(ready_items), ..self }
    }

    /// Asks for chunks of exactly `ready_bytes` bytes.
    pub fn buffering_bytes(self, ready_bytes: usize) -> (options: Self)
        ensures
            options == (StreamBodyAsOptions { buffering_bytes: Some(ready_bytes), ..self }),
    {
        StreamBodyAsOptions { buffering_bytes: Some(ready_bytes), ..self }
    }

    /// Sets the content type of the response, in place of the format's own.
    pub fn content_type(self, content_type: HeaderValue) -> (options: Self)
        ensures
            options == (StreamBodyAsOptions { content_type: Some(content_type), ..self }),
    {
        StreamBodyAsOptions { content_type: Some(content_type), ..self }
    }

    /// Whether the rebuffering that is asked for can be carried out: a count
    /// or a size of zero cannot.
    pub open spec fn valid(&self) -> bool {
        match (self.buffering_ready_items, self.buffering_bytes) {
            (Some(count), _) => count > 0,
            (None, Some(size)) => size > 0,
            (None, None) => true,
        }
    }
}

/// The options that ask for nothing.
pub open spec fn no_options() -> StreamBodyAsOptions {
    StreamBodyAsOptions { buffering_ready_items: None, buffering_bytes: None, content_type: None }
}

/// Rebuffering by count when every chunk is ready: each run of `count`
/// chunks, and the shorter run at the end, becomes one chunk. In a run with
/// an error the chunks that precede the error become one chunk, the error
/// follows it, and the stream ends there.
pub open spec fn frames_by_items(chunks: Seq<Result<Seq<u8>, StreamError>>, count: nat) -> Seq<
    Result<Seq<u8>, StreamError>,
>
    decreases chunks.len(),
{
    if count == 0 || chunks.len() == 0 {
        Seq::empty()
    } else {
        let taken = if count < chunks.len() {
            count as int
        } else {
            chunks.len() as int
        };
        if error_free(chunks.take(taken)) {
            coalesced(chunks.take(taken)) + frames_by_items(chunks.skip(taken), count)
        } else {
            coalesced(chunks.take(taken))
        }
    }
}

/// Rebuffering by size: the bytes delivered before the first error, cut into
/// frames of exactly `size` bytes; then that error, or else the bytes left
/// over, as a last and shorter chunk, if there are any. Where an error ends
/// the stream, the bytes that did not fill a frame are not sent.
pub open spec fn frames_by_bytes(chunks: Seq<Result<Seq<u8>, StreamError>>, size: nat) -> Seq<
    Result<Seq<u8>, StreamError>,
> {
    let flat = stream_bytes(chunks);
    successes(split_frames(flat, size)) + (if first_error(chunks) < chunks.len() {
        seq![Err(chunks[first_error(chunks)]->Err_0)]
    } else if split_rest(flat, size).len() > 0 {
        seq![Ok(split_rest(flat, size))]
    } else {
        Seq::empty()
    })
}

/// What the transport receives for `chunks` under the given rebuffering: by
/// count if one is set, else by size if one is set, else the chunks as they
/// are. In every mode the first error is the last element.
pub open spec fn stream_frames(
    chunks: Seq<Result<Seq<u8>, StreamError>>,
    buffering_ready_items: Option<usize>,
    buffering_bytes: Option<usize>,
) -> Seq<Result<Seq<u8>, StreamError>> {
    match (buffering_ready_items, buffering_bytes) {
        (Some(count), _) => frames_by_items(chunks, count as nat),
        (None, Some(size)) => frames_by_bytes(chunks, size as nat),
        (None, None) => halted(chunks),
    }
}

/// Rebuffers a whole stream of chunks by count, every chunk being ready.
pub fn rebuffer_by_items(chunks: Vec<Result<Bytes, StreamError>>, count: usize) -> (frames: Vec<
    Result<Bytes, StreamError>,
>)
    requires
        count > 0,
        stream_bytes(chunks_model(chunks@)).len() <= usize::MAX,
    ensures
        chunks_model(frames@) == frames_by_items(chunks_model(chunks@), count as nat),
{
    let ghost model = chunks_model(chunks@);
    let mut frames: Vec<Result<Bytes, StreamError>> = Vec::new();
    let mut start: usize = 0;
    assert(model.skip(0) =~= model);
    assert(chunks_model(frames@) + frames_by_items(model.skip(0), count as nat)
        =~= frames_by_items(model, count as nat));
    while start < chunks.len()
        invariant
            0 <= start <= chunks.len(),
            count > 0,
            model == chunks_model(chunks@),
            stream_bytes(model).len() <= usize::MAX,
            forall|j: int| 0 <= j < start ==> (#[trigger] model[j]) is Ok,
            chunks_model(frames@) + frames_by_items(model.skip(start as int), count as nat)
                == frames_by_items(model, count as nat),
        decreases chunks.len() - start,
    {
        let end = if chunks.len() - start > count {
            start + count
        } else {
            chunks.len()
        };
        let group = vstd::slice::slice_subrange(chunks.as_slice(), start, end);
        let ghost before = frames@;
        let ghost ahead = model.skip(start as int);
        proof {
            lemma_first_error_bounds(model);
            assert(start <= first_error(model)) by {
                if first_error(model) < start {
                    assert(model[first_error(model)] is Ok);
                }
            }
            lemma_stream_bytes_part(model, start as int, end as int);
            assert(chunks_model(group@) =~= model.subrange(start as int, end as int));
            assert(ahead.take(end - start) =~= model.subrange(start as int, end as int));
            assert(ahead.skip(end - start) =~= model.skip(end as int));
        }
        let mut merged = coalesce_ready_chunks(group);
        let ghost joined = merged@;
        let failed = merged[merged.len() - 1].is_err();
        proof {
            lemma_first_error_bounds(ahead.take(end - start));
            assert(chunks_model(joined).last() == chunk_model(joined.last()));
            assert(failed <==> !error_free(ahead.take(end - start))) by {
                let run = ahead.take(end - start);
                if error_free(run) {
                    lemma_error_free_halted(run);
                } else {
                    let bad = choose|j: int| 0 <= j < run.len() && !((#[trigger] run[j]) is Ok);
                    if first_error(run) >= run.len() {
                        assert(run[bad] is Ok);
                    }
                }
            }
        }
        frames.append(&mut merged);
        proof {
            assert(chunks_model(frames@) =~= chunks_model(before) + chunks_model(joined));
        }
        if failed {
            proof {
                assert(chunks_model(frames@) =~= chunks_model(before) + frames_by_items(
                    ahead,
                    count as nat,
                ));
            }
            return frames;
        }
        proof {
            assert forall|j: int| 0 <= j < end implies (#[trigger] model[j]) is Ok by {
                if j >= start {
                    assert(ahead.take(end - start)[j - start] is Ok);
                }
            }
            assert(chunks_model(frames@) + frames_by_items(model.skip(end as int), count as nat)
                =~= chunks_model(before) + frames_by_items(ahead, count as nat));
        }
        start = end;
    }
    proof {
        assert(model.skip(start as int) =~= Seq::empty());
        assert(chunks_model(frames@) =~= frames_by_items(model, count as nat));
    }
    frames
}

/// Rebuffers a whole stream of chunks by size.
pub fn rebuffer_by_bytes(chunks: Vec<Result<Bytes, StreamError>>, size: usize) -> (frames: Vec<
    Result<Bytes, StreamError>,
>)
    requires
        size > 0,
    ensures
        chunks_model(frames@) == frames_by_bytes(chunks_model(chunks@), size as nat),
{
    let ghost model = chunks_model(chunks@);
    let mut frames: Vec<Result<Bytes, StreamError>> = Vec::new();
    let mut state = ByteRebuffer::new(size);
    let mut i: usize = 0;
    proof {
        assert(stream_bytes(model.take(0)) =~= Seq::<u8>::empty()) by {
            assert(crate::stream::ok_prefix(model.take(0)) =~= Seq::<Seq<u8>>::empty());
        }
        assert(chunks_model(frames@) =~= successes(split_frames(Seq::empty(), size as nat)));
    }
    while i < chunks.len()
        invariant
            0 <= i <= chunks.len(),
            size > 0,
            model == chunks_model(chunks@),
            state.wf(),
            state.frame_size() == size,
            forall|j: int| 0 <= j < i ==> (#[trigger] model[j]) is Ok,
            chunks_model(frames@) == successes(
                split_frames(stream_bytes(model.take(i as int)), size as nat),
            ),
            state.pending() == split_rest(stream_bytes(model.take(i as int)), size as nat),
        decreases chunks.len() - i,
    {
        let ghost flat = stream_bytes(model.take(i as int));
        match &chunks[i] {
            Ok(chunk) => {
                proof {
                    assert(model[i as int] == Ok::<Seq<u8>, StreamError>(bytes_view(*chunk)));
                    lemma_stream_bytes_step(model, i as int);
                    lemma_split_append(flat, bytes_view(*chunk), size as nat);
                }
                state.push(chunk, &mut frames);
                proof {
                    assert(chunks_model(frames@) =~= successes(
                        split_frames(flat + bytes_view(*chunk), size as nat),
                    ));
                }
            },
            Err(e) => {
                let ghost before = frames@;
                frames.push(Err(e.clone()));
                proof {
                    lemma_chunks_model_push(before, Err(*e));
                    assert(model[i as int] == Err::<Seq<u8>, StreamError>(*e));
                    lemma_first_error_at(model, i as int);
                    lemma_stream_bytes_until_error(model);
                    assert(chunks_model(frames@) =~= frames_by_bytes(model, size as nat));
                }
                return frames;
            },
        }
        i += 1;
    }
    proof {
        lemma_first_error_at(model, i as int);
        assert(model.take(i as int) =~= model);
    }
    let ghost before = frames@;
    match state.finish() {
        Some(rest) => {
            frames.push(Ok(rest));
            proof {
                lemma_chunks_model_push(before, Ok(rest));
                assert(chunks_model(frames@) =~= frames_by_bytes(model, size as nat));
            }
        },
        None => {
            assert(chunks_model(frames@) =~= frames_by_bytes(model, size as nat));
        },
    }
    frames
}

/// Turns the chunks of a format into what the transport receives, under the
/// rebuffering that `options` asks for.
pub fn create_stream_frames(
    chunks: Vec<Result<Bytes, StreamError>>,
    options: &StreamBodyAsOptions,
) -> (frames: Vec<Result<Bytes, StreamError>>)
    requires
        options.valid(),
        options.buffering_ready_items is Some ==> stream_bytes(chunks_model(chunks@)).len()
            <= usize::MAX,
    ensures
        chunks_model(frames@) == stream_frames(
            chunks_model(chunks@),
            options.buffering_ready_items,
            options.buffering_bytes,
        ),
{
    match (options.buffering_ready_items, options.buffering_bytes) {
        (Some(count), _) => rebuffer_by_items(chunks, count),
        (None, Some(size)) => rebuffer_by_bytes(chunks, size),
        (None, None) => {
            let frames = halt_on_error(chunks);
            proof {
                lemma_halted_model(chunks@);
            }
            frames
        },
    }
}

/// The number of bytes that `chunks` deliver before they end or fail, if it
/// fits in a `usize`.
pub fn delivered_len(chunks: &Vec<Result<Bytes, StreamError>>) -> (total: Option<usize>)
    ensures
        match total {
            Some(n) => n == stream_bytes(chunks_model(chunks@)).len(),
            None => stream_bytes(chunks_model(chunks@)).len() > usize::MAX,
        },
{
    let ghost model = chunks_model(chunks@);
    let mut total: usize = 0;
    let mut i: usize = 0;
    proof {
        assert(ok_prefix(model.take(0)) =~= Seq::<Seq<u8>>::empty());
    }
    while i < chunks.len()
        invariant
            0 <= i <= chunks.len(),
            model == chunks_model(chunks@),
            forall|j: int| 0 <= j < i ==> (#[trigger] model[j]) is Ok,
            total == stream_bytes(model.take(i as int)).len(),
        decreases chunks.len() - i,
    {
        match &chunks[i] {
            Ok(chunk) => {
                proof {
                    assert(model[i as int] == Ok::<Seq<u8>, StreamError>(bytes_view(*chunk)));
                    lemma_stream_bytes_step(model, i as int);
                    lemma_stream_bytes_grows(model, i as int + 1);
                }
                match total.checked_add(bytes_as_slice(chunk).len()) {
                    Some(sum) => {
                        total = sum;
                    },
                    None => {
                        return None;
                    },
                }
            },
            Err(e) => {
                proof {
                    assert(model[i as int] is Err);
                    lemma_first_error_at(model, i as int);
                    lemma_stream_bytes_until_error(model);
                }
                return Some(total);
            },
        }
        i += 1;
    }
    proof {
        assert(model.take(i as int) =~= model);
    }
    Some(total)
}

/// Rebuffers as `create_stream_frames` does, wherever that can be done.
/// There is nothing to hand out where the options ask for a count or a size
/// of zero, or where chunks are to be coalesced whose bytes together do not
/// fit in a `usize`.
pub fn try_create_stream_frames(
    chunks: Vec<Result<Bytes, StreamError>>,
    options: &StreamBodyAsOptions,
) -> (frames: Option<Vec<Result<Bytes, StreamError>>>)
    ensures
        match frames {
            Some(frames) => options.valid() && chunks_model(frames@) == stream_frames(
                chunks_model(chunks@),
                options.buffering_ready_items,
                options.buffering_bytes,
            ),
            None => !options.valid() || (options.buffering_ready_items is Some && stream_bytes(
                chunks_model(chunks@),
            ).len() > usize::MAX),
        },
{
    let valid = match (options.buffering_ready_items, options.buffering_bytes) {
        (Some(count), _) => count > 0,
        (None, Some(size)) => size > 0,
        (None, None) => true,
    };
    if !valid {
        return None;
    }
    if options.buffering_ready_items.is_some() && delivered_len(&chunks).is_none() {
        return None;
    }
    Some(create_stream_frames(chunks, options))
}

/// Ending a stream at its first error and taking its model can be done in
/// either order.
pub proof fn lemma_halted_model(chunks: Seq<Result<Bytes, StreamError>>)
    ensures
        chunks_model(halted(chunks)) == halted(chunks_model(chunks)),
{
    lemma_first_error_bounds(chunks);
    let k = first_error(chunks);
    let model = chunks_model(chunks);
    assert forall|j: int| 0 <= j < k implies (#[trigger] model[j]) is Ok by {
        assert(chunks[j] is Ok);
    }
    if k < chunks.len() {
        assert(chunks[k] is Err);
        assert(model[k] is Err);
    }
    lemma_first_error_at(model, k);
    assert(chunks_model(halted(chunks)) =~= halted(model));
}

/// Rebuffering by count loses and reorders no byte, whether or not the
/// stream fails: the rebuffered chunks deliver the bytes that the chunks that
/// came in deliver before their first error, and that error, if there is
/// one, is the last of them.
pub proof fn lemma_rebuffer_by_items_keeps_bytes(
    chunks: Seq<Result<Seq<u8>, StreamError>>,
    count: nat,
)
    requires
        count > 0,
    ensures
        stream_bytes(frames_by_items(chunks, count)) == stream_bytes(chunks),
        first_error(chunks) == chunks.len() ==> error_free(frames_by_items(chunks, count)),
        first_error(chunks) < chunks.len() ==> frames_by_items(chunks, count).len() > 0
            && first_error(frames_by_items(chunks, count)) == frames_by_items(
            chunks,
            count,
        ).len() - 1 && frames_by_items(chunks, count).last() == Err::<Seq<u8>, StreamError>(
            chunks[first_error(chunks)]->Err_0,
        ),
    decreases chunks.len(),
{
    let frames = frames_by_items(chunks, count);
    lemma_first_error_bounds(chunks);
    if chunks.len() == 0 {
        lemma_error_free_halted(frames);
        assert(ok_prefix(frames) =~= ok_prefix(chunks));
    } else {
        let taken = if count < chunks.len() {
            count as int
        } else {
            chunks.len() as int
        };
        let group = chunks.take(taken);
        let rest = chunks.skip(taken);
        let merged = coalesced(group);
        assert(chunks =~= group + rest);
        lemma_first_error_bounds(group);
        let k = first_error(group);
        if error_free(group) {
            lemma_error_free_halted(group);
            lemma_rebuffer_by_items_keeps_bytes(rest, count);
            let later = frames_by_items(rest, count);
            assert(frames == merged + later);
            assert(merged =~= successes(seq![stream_bytes(group)]));
            lemma_successes_bytes(seq![stream_bytes(group)]);
            seq![stream_bytes(group)].lemma_flatten_singleton();
            lemma_stream_bytes_after_ok(merged, later);
            lemma_stream_bytes_after_ok(group, rest);
            vstd::seq_lib::lemma_flatten_concat(ok_prefix(merged), ok_prefix(later));
            vstd::seq_lib::lemma_flatten_concat(ok_prefix(group), ok_prefix(rest));
            lemma_first_error_bounds(rest);
            lemma_first_error_bounds(later);
            if first_error(rest) < rest.len() {
                assert(chunks[taken + first_error(rest)] == rest[first_error(rest)]);
                assert(frames.last() == later.last());
            } else {
                assert forall|i: int| 0 <= i < frames.len() implies (#[trigger] frames[i])
                    is Ok by {
                    if i >= 1 {
                        assert(later[i - 1] is Ok);
                    }
                }
            }
        } else {
            assert(k < group.len()) by {
                if k >= group.len() {
                    let bad = choose|j: int|
                        0 <= j < group.len() && !((#[trigger] group[j]) is Ok);
                    assert(group[bad] is Ok);
                }
            }
            assert forall|i: int| 0 <= i < k implies (#[trigger] chunks[i]) is Ok by {
                assert(group[i] is Ok);
            }
            assert(chunks[k] == group[k]);
            lemma_first_error_at(chunks, k);
            lemma_stream_bytes_until_error(chunks);
            lemma_stream_bytes_until_error(group);
            assert(chunks.take(k) =~= group.take(k));
            assert(frames == merged);
            if k == 0 {
                lemma_first_error_at(merged, 0);
                assert(ok_prefix(merged) =~= Seq::<Seq<u8>>::empty());
                assert(ok_prefix(group) =~= Seq::<Seq<u8>>::empty());
            } else {
                lemma_first_error_at(merged, 1);
                assert(ok_prefix(merged) =~= seq![stream_bytes(group)]);
                seq![stream_bytes(group)].lemma_flatten_singleton();
            }
        }
    }
}

/// Rebuffering by size cuts the bytes of the stream into chunks of exactly
/// `size` bytes, but for the last, which holds what is left over when that is
/// not nothing: for chunks without an error, no output chunk is empty or
/// longer than `size`, every one but the last has exactly `size` bytes, and
/// put end to end they are the chunks that came in, put end to end.
pub proof fn lemma_rebuffer_by_bytes_exact(chunks: Seq<Seq<u8>>, size: nat)
    requires
        size > 0,
    ensures
        error_free(frames_by_bytes(successes(chunks), size)),
        stream_bytes(frames_by_bytes(successes(chunks), size)) == chunks.flatten(),
        forall|i: int|
            0 <= i < frames_by_bytes(successes(chunks), size).len() - 1 ==> (
            #[trigger] frames_by_bytes(successes(chunks), size)[i])->Ok_0.len() == size,
        forall|i: int|
            0 <= i < frames_by_bytes(successes(chunks), size).len() ==> 0 < (
            #[trigger] frames_by_bytes(successes(chunks), size)[i])->Ok_0.len() <= size,
{
    let source = successes(chunks);
    let frames = frames_by_bytes(source, size);
    lemma_successes_bytes(chunks);
    let flat = chunks.flatten();
    let full = split_frames(flat, size);
    let rest = split_rest(flat, size);
    lemma_split_exact(flat, size);
    lemma_error_free_halted(source);
    lemma_successes_bytes(full);
    if rest.len() > 0 {
        assert(frames =~= successes(full.push(rest)));
        lemma_successes_bytes(full.push(rest));
        full.lemma_flatten_push(rest);
        assert forall|i: int| 0 <= i < frames.len() implies 0 < (#[trigger] frames[i])->Ok_0.len()
            <= size by {
            if i < full.len() {
                assert(full[i].len() == size);
            }
        }
        assert forall|i: int| 0 <= i < frames.len() - 1 implies (#[trigger] frames[i])->Ok_0.len()
            == size by {
            assert(full[i].len() == size);
        }
    } else {
        assert(frames =~= successes(full));
        assert(flat =~= full.flatten());
        assert forall|i: int| 0 <= i < frames.len() implies 0 < (#[trigger] frames[i])->Ok_0.len()
            <= size by {
            assert(full[i].len() == size);
        }
    }
}

/// A response body: the frames that the transport is to receive, in their
/// order, and the headers of the response.
#[derive(Debug)]
pub struct StreamBodyAs {
    stream: Vec<Result<Bytes, StreamError>>,
    headers: Option<HeaderMap<HeaderValue>>,
}

impl StreamBodyAs {
    /// The frames that have not been taken yet, in the order in which they
    /// will be.
    pub closed spec fn frames(&self) -> Seq<Result<Seq<u8>, StreamError>> {
        chunks_model(self.stream@)
    }

    /// The entries of the headers of the response, if it has any.
    pub closed spec fn response_headers(&self) -> Option<Map<Seq<u8>, Seq<Seq<u8>>>> {
        headers_model(self.headers)
    }

    /// Whether the headers of the response take one more value under `key`.
    /// A response without headers does.
    pub closed spec fn takes_header(&self, key: HeaderName) -> bool {
        match self.headers {
            Some(headers) => header_map_takes(headers, key),
            None => true,
        }
    }

    /// The body of `stream` in the given format, not rebuffered, with the
    /// format's own headers.
    pub fn new<T, FMT>(
        stream_format: FMT,
        stream: Vec<Result<T, StreamError>>,
    ) -> (body: Self) where FMT: StreamingFormat<T>
        ensures
            stream_format.frames(stream@, body.frames()),
            body.response_headers() == stream_format.response_headers(no_options()),
    {
        let body = Self::with_options(stream_format, stream, StreamBodyAsOptions::new());
        proof {
            let chunks = choose|chunks: Seq<Result<Seq<u8>, StreamError>>|
                #[trigger] stream_format.frames(stream@, chunks) && body.frames() == stream_frames(
                    chunks,
                    None,
                    None,
                );
            stream_format.lemma_frames_end_at_error(stream@, chunks);
            lemma_ended_is_halted(chunks);
        }
        body
    }

    /// The body of `stream` in the given format, rebuffered as `options` ask,
    /// with the headers that the format gives under `options`.
    pub fn with_options<T, FMT>(
        stream_format: FMT,
        stream: Vec<Result<T, StreamError>>,
        options: StreamBodyAsOptions,
    ) -> (body: Self) where FMT: StreamingFormat<T>
        requires
            options.valid(),
            options.buffering_ready_items is Some ==> forall|
                chunks: Seq<Result<Seq<u8>, StreamError>>,
            |
                #[trigger] stream_format.frames(stream@, chunks) ==> stream_bytes(chunks).len()
                    <= usize::MAX,
        ensures
            exists|chunks: Seq<Result<Seq<u8>, StreamError>>|
                #[trigger] stream_format.frames(stream@, chunks) && body.frames() == stream_frames(
                    chunks,
                    options.buffering_ready_items,
                    options.buffering_bytes,
                ),
            body.response_headers() == stream_format.response_headers(options),
    {
        let chunks = stream_format.to_bytes_stream(stream, &options);
        let ghost encoded = chunks_model(chunks@);
        let frames = create_stream_frames(chunks, &options);
        let headers = stream_format.http_response_headers(&options);
        assert(stream_format.frames(stream@, encoded));
        StreamBodyAs { stream: frames, headers }
    }

    /// The body that `with_options` gives, wherever it can be made. There is
    /// none where the options ask for a count or a size of zero, or where
    /// chunks are to be coalesced whose bytes together do not fit in a
    /// `usize`.
    pub fn try_with_options<T, FMT>(
        stream_format: FMT,
        stream: Vec<Result<T, StreamError>>,
        options: StreamBodyAsOptions,
    ) -> (body: Option<Self>) where FMT: StreamingFormat<T>
        ensures
            match body {
                Some(body) => options.valid() && body.response_headers()
                    == stream_format.response_headers(options) && exists|
                    chunks: Seq<Result<Seq<u8>, StreamError>>,
                |
                    #[trigger] stream_format.frames(stream@, chunks) && body.frames()
                        == stream_frames(
                        chunks,
                        options.buffering_ready_items,
                        options.buffering_bytes,
                    ),
                None => !options.valid() || (options.buffering_ready_items is Some && exists|
                    chunks: Seq<Result<Seq<u8>, StreamError>>,
                |
                    #[trigger] stream_format.frames(stream@, chunks) && stream_bytes(chunks).len()
                        > usize::MAX),
            },
    {
        let chunks = stream_format.to_bytes_stream(stream, &options);
        let ghost encoded = chunks_model(chunks@);
        assert(stream_format.frames(stream@, encoded));
        match try_create_stream_frames(chunks, &options) {
            Some(frames) => {
                let headers = stream_format.http_response_headers(&options);
                Some(StreamBodyAs { stream: frames, headers })
            },
            None => None,
        }
    }

    /// Replaces the headers of the response.
    pub fn headers(self, headers: HeaderMap<HeaderValue>) -> (body: Self)
        ensures
            body.frames() == self.frames(),
            body.response_headers() == Some(header_entries(headers)),
            forall|key: HeaderName|
                #[trigger] body.takes_header(key) == header_map_takes(headers, key),
    {
        StreamBodyAs { stream: self.stream, headers: Some(headers) }
    }

    /// Adds one header to those of the response, behind the values that its
    /// name already has. It is added unless the header map has reached its
    /// largest size and takes no more: that is a configuration error.
    pub fn header(self, key: HeaderName, value: HeaderValue) -> (added: Result<Self, StreamError>)
        ensures
            added is Ok <==> self.takes_header(key),
            match added {
                Ok(body) => body.frames() == self.frames() && body.response_headers() == Some(
                    with_appended(
                        match self.response_headers() {
                            Some(entries) => entries,
                            None => no_headers(),
                        },
                        header_name_bytes(key),
                        header_value_bytes(value),
                    ),
                ),
                Err(e) => e.kind == StreamErrorKind::Config,
            },
    {
        let mut current = match self.headers {
            Some(headers) => headers,
            None => HeaderMap::new(),
        };
        match header_map_try_append(&mut current, key, value) {
            Ok(_) => Ok(StreamBodyAs { stream: self.stream, headers: Some(current) }),
            Err(_) => Err(StreamError::config("the header map is full".to_owned())),
        }
    }

    /// The headers of the response, if it has any. Taking frames does not
    /// change them.
    pub fn header_map(&self) -> (headers: &Option<HeaderMap<HeaderValue>>)
        ensures
            headers_model(*headers) == self.response_headers(),
    {
        &self.headers
    }

    /// Hands out the next frame, as the transport asks for it: the first of
    /// those not yet taken, or nothing once all are.
    pub fn poll_frame(&mut self) -> (frame: Option<Result<Bytes, StreamError>>)
        ensures
            final(self).response_headers() == old(self).response_headers(),
            match frame {
                Some(next) => old(self).frames().len() > 0 && chunk_model(next) == old(
                    self,
                ).frames()[0] && final(self).frames() == old(self).frames().drop_first(),
                None => old(self).frames().len() == 0 && final(self).frames() == old(
                    self,
                ).frames(),
            },
    {
        if self.stream.len() == 0 {
            None
        } else {
            let next = self.stream.remove(0);
            assert(chunks_model(self.stream@) =~= chunks_model(old(self).stream@).drop_first());
            Some(next)
        }
    }

    /// Takes the body apart into its headers and the frames not yet taken.
    pub fn into_parts(
        self,
    ) -> (parts: (Option<HeaderMap<HeaderValue>>, Vec<Result<Bytes, StreamError>>))
        ensures
            headers_model(parts.0) == self.response_headers(),
            chunks_model(parts.1@) == self.frames(),
    {
        (self.headers, self.stream)
    }
}

} // verus!
