//! Rebuffering: chunks coalesced by count, or cut to a fixed size in bytes.

use bytes::{Bytes, BytesMut};
use crate::chunk::{bytes_as_slice, bytes_mut_view, bytes_view};
use crate::error::StreamError;
use crate::stream::{
    chunks_model, first_error, lemma_first_error_at, ok_prefix, stream_bytes, successes,
};
use vstd::prelude::*;

verus! {

/// The frames of exactly `size` bytes that `flat` is cut into, front to back,
/// for as long as at least `size` bytes remain.
pub open spec fn split_frames(flat: Seq<u8>, size: nat) -> Seq<Seq<u8>>
    decreases flat.len(),
{
    if size == 0 || flat.len() < size {
        Seq::empty()
    } else {
        seq![flat.take(size as int)] + split_frames(flat.skip(size as int), size)
    }
}

/// What is left of `flat` once its frames of `size` bytes are cut off: fewer
/// than `size` bytes.
pub open spec fn split_rest(flat: Seq<u8>, size: nat) -> Seq<u8>
    decreases flat.len(),
{
    if size == 0 || flat.len() < size {
        flat
    } else {
        split_rest(flat.skip(size as int), size)
    }
}

/// Cutting loses and reorders nothing: every frame has exactly `size` bytes,
/// the rest has fewer, and the frames followed by the rest are `flat`.
pub proof fn lemma_split_exact(flat: Seq<u8>, size: nat)
    requires
        size > 0,
    ensures
        forall|i: int|
            0 <= i < split_frames(flat, size).len() ==> (#[trigger] split_frames(
                flat,
                size,
            )[i]).len() == size,
        split_rest(flat, size).len() < size,
        split_frames(flat, size).flatten() + split_rest(flat, size) == flat,
    decreases flat.len(),
{
    if flat.len() < size {
        assert(split_frames(flat, size).flatten() + split_rest(flat, size) =~= flat);
    } else {
        let tail = flat.skip(size as int);
        lemma_split_exact(tail, size);
        vstd::seq_lib::lemma_flatten_concat(
            seq![flat.take(size as int)],
            split_frames(tail, size),
        );
        seq![flat.take(size as int)].lemma_flatten_singleton();
        assert(split_frames(flat, size).flatten() + split_rest(flat, size) =~= flat.take(
            size as int,
        ) + (split_frames(tail, size).flatten() + split_rest(tail, size)));
        assert(flat.take(size as int) + tail =~= flat);
    }
}

/// Bytes that arrive later do not change the frames already cut: cutting
/// `head + tail` gives the frames of `head` and then the frames of what
/// `head` left over followed by `tail`.
pub proof fn lemma_split_append(head: Seq<u8>, tail: Seq<u8>, size: nat)
    requires
        size > 0,
    ensures
        split_frames(head + tail, size) == split_frames(head, size) + split_frames(
            split_rest(head, size) + tail,
            size,
        ),
        split_rest(head + tail, size) == split_rest(split_rest(head, size) + tail, size),
    decreases head.len(),
{
    if head.len() >= size {
        let rest = head.skip(size as int);
        lemma_split_append(rest, tail, size);
        assert((head + tail).take(size as int) =~= head.take(size as int));
        assert((head + tail).skip(size as int) =~= rest + tail);
        assert(split_frames(head + tail, size) =~= split_frames(head, size) + split_frames(
            split_rest(head, size) + tail,
            size,
        ));
    }
}

/// What a group of chunks is coalesced into: one chunk with all the bytes
/// that precede the group's first error, and behind it that error, if there
/// is one. A group that opens with an error is the error alone.
pub open spec fn coalesced(group: Seq<Result<Seq<u8>, StreamError>>) -> Seq<
    Result<Seq<u8>, StreamError>,
> {
    let k = first_error(group);
    if k >= group.len() {
        seq![Ok(stream_bytes(group))]
    } else if k == 0 {
        seq![Err(group[0]->Err_0)]
    } else {
        seq![Ok(stream_bytes(group)), Err(group[k]->Err_0)]
    }
}

/// However chunks are grouped, coalescing each group loses and reorders no
/// byte: the coalesced chunks put end to end are the chunks of all the
/// groups put end to end.
pub proof fn lemma_coalescing_keeps_bytes(groups: Seq<Seq<Seq<u8>>>)
    ensures
        forall|i: int|
            0 <= i < groups.len() ==> coalesced(successes(#[trigger] groups[i])) == seq![
                Ok::<Seq<u8>, StreamError>(groups[i].flatten()),
            ],
        Seq::new(groups.len(), |i: int| groups[i].flatten()).flatten()
            == groups.flatten().flatten(),
    decreases groups.len(),
{
    assert forall|i: int| 0 <= i < groups.len() implies coalesced(
        successes(#[trigger] groups[i]),
    ) == seq![Ok::<Seq<u8>, StreamError>(groups[i].flatten())] by {
        crate::stream::lemma_successes_bytes(groups[i]);
        crate::stream::lemma_error_free_halted(successes(groups[i]));
    }
    let merged = Seq::new(groups.len(), |i: int| groups[i].flatten());
    if groups.len() == 0 {
        assert(merged =~= Seq::<Seq<u8>>::empty());
        assert(groups.flatten() =~= Seq::<Seq<u8>>::empty());
    } else {
        let front = groups.drop_last();
        lemma_coalescing_keeps_bytes(front);
        let merged_front = Seq::new(front.len(), |i: int| front[i].flatten());
        assert(merged =~= merged_front.push(groups.last().flatten()));
        merged_front.lemma_flatten_push(groups.last().flatten());
        assert(groups =~= front.push(groups.last()));
        front.lemma_flatten_push(groups.last());
        vstd::seq_lib::lemma_flatten_concat(front.flatten(), groups.last());
    }
}

/// Coalesces the chunks that were ready together: the chunks that precede
/// the first error become one chunk, and the error follows it. Nothing that
/// stands behind the error is handed on.
pub fn coalesce_ready_chunks(group: &[Result<Bytes, StreamError>]) -> (chunks: Vec<
    Result<Bytes, StreamError>,
>)
    requires
        stream_bytes(chunks_model(group@)).len() <= usize::MAX,
    ensures
        chunks_model(chunks@) == coalesced(chunks_model(group@)),
{
    let ghost model = chunks_model(group@);
    let mut chunks: Vec<Result<Bytes, StreamError>> = Vec::new();
    let mut buf = BytesMut::new();
    let mut i: usize = 0;
    assert(ok_prefix(model.take(0)) =~= Seq::<Seq<u8>>::empty());
    while i < group.len()
        invariant
            0 <= i <= group.len(),
            chunks@.len() == 0,
            model == chunks_model(group@),
            stream_bytes(model).len() <= usize::MAX,
            forall|j: int| 0 <= j < i ==> (#[trigger] model[j]) is Ok,
            bytes_mut_view(buf) == stream_bytes(model.take(i as int)),
        decreases group.len() - i,
    {
        match &group[i] {
            Ok(chunk) => {
                proof {
                    lemma_stream_bytes_step(model, i as int);
                    lemma_stream_bytes_grows(model, i as int + 1);
                }
                buf.extend_from_slice(bytes_as_slice(chunk));
            },
            Err(e) => {
                proof {
                    assert(model[i as int] == Err::<Seq<u8>, StreamError>(*e));
                    lemma_first_error_at(model, i as int);
                    lemma_stream_bytes_until_error(model);
                }
                if i > 0 {
                    chunks.push(Ok(buf.freeze()));
                }
                chunks.push(Err(e.clone()));
                assert(chunks_model(chunks@) =~= coalesced(model));
                return chunks;
            },
        }
        i += 1;
    }
    proof {
        assert(model.take(i as int) =~= model);
        lemma_first_error_at(model, i as int);
    }
    chunks.push(Ok(buf.freeze()));
    assert(chunks_model(chunks@) =~= coalesced(model));
    chunks
}

/// The bytes delivered by the first `i + 1` chunks, when all of them
/// succeeded, are those of the first `i` followed by chunk `i`.
pub proof fn lemma_stream_bytes_step(chunks: Seq<Result<Seq<u8>, StreamError>>, i: int)
    requires
        0 <= i < chunks.len(),
        forall|j: int| 0 <= j <= i ==> (#[trigger] chunks[j]) is Ok,
    ensures
        stream_bytes(chunks.take(i + 1)) == stream_bytes(chunks.take(i)) + chunks[i]->Ok_0,
{
    let shorter = chunks.take(i);
    let longer = chunks.take(i + 1);
    lemma_first_error_at(shorter, i);
    lemma_first_error_at(longer, i + 1);
    assert(ok_prefix(longer) =~= ok_prefix(shorter).push(chunks[i]->Ok_0));
    ok_prefix(shorter).lemma_flatten_push(chunks[i]->Ok_0);
}

/// A stream delivers at least as many bytes as any error-free part of it
/// that starts at its front.
pub proof fn lemma_stream_bytes_grows(chunks: Seq<Result<Seq<u8>, StreamError>>, i: int)
    requires
        0 <= i <= chunks.len(),
        forall|j: int| 0 <= j < i ==> (#[trigger] chunks[j]) is Ok,
    ensures
        stream_bytes(chunks.take(i)).len() <= stream_bytes(chunks).len(),
{
    crate::stream::lemma_first_error_bounds(chunks);
    let k = first_error(chunks);
    lemma_first_error_at(chunks.take(i), i);
    let head = ok_prefix(chunks.take(i));
    let all = ok_prefix(chunks);
    assert(i <= k) by {
        if k < i {
            assert(chunks[k] is Ok);
        }
    }
    assert(all =~= head + all.skip(i));
    vstd::seq_lib::lemma_flatten_concat(head, all.skip(i));
}

/// Part of a stream that starts no later than its first error delivers no
/// more bytes than the whole stream.
pub proof fn lemma_stream_bytes_part(
    chunks: Seq<Result<Seq<u8>, StreamError>>,
    start: int,
    end: int,
)
    requires
        0 <= start <= end <= chunks.len(),
        start <= first_error(chunks),
    ensures
        stream_bytes(chunks.subrange(start, end)).len() <= stream_bytes(chunks).len(),
{
    crate::stream::lemma_first_error_bounds(chunks);
    let k = first_error(chunks);
    let part = chunks.subrange(start, end);
    let stop = if end <= k {
        end
    } else {
        k
    };
    assert forall|j: int| 0 <= j < stop - start implies (#[trigger] part[j]) is Ok by {
        assert(chunks[start + j] is Ok);
    }
    lemma_first_error_at(part, stop - start);
    let all = ok_prefix(chunks);
    assert(all =~= all.take(start) + ok_prefix(part) + all.skip(stop));
    vstd::seq_lib::lemma_flatten_concat(all.take(start) + ok_prefix(part), all.skip(stop));
    vstd::seq_lib::lemma_flatten_concat(all.take(start), ok_prefix(part));
}

/// An error ends the delivery of bytes: the stream delivers what the chunks
/// before its first error deliver.
pub proof fn lemma_stream_bytes_until_error(chunks: Seq<Result<Seq<u8>, StreamError>>)
    ensures
        stream_bytes(chunks) == stream_bytes(chunks.take(first_error(chunks))),
{
    crate::stream::lemma_first_error_bounds(chunks);
    let k = first_error(chunks);
    lemma_first_error_at(chunks.take(k), k);
    assert(ok_prefix(chunks) =~= ok_prefix(chunks.take(k)));
}

/// The state of rebuffering by size: the bytes that have arrived and have
/// not yet filled a frame.
pub struct ByteRebuffer {
    buffer: BytesMut,
    size: usize,
}

impl ByteRebuffer {
    /// The size of a frame is positive and fewer bytes than that are held.
    pub closed spec fn wf(&self) -> bool {
        self.size > 0 && bytes_mut_view(self.buffer).len() < self.size
    }

    /// The bytes held back for the next frame.
    pub closed spec fn pending(&self) -> Seq<u8> {
        bytes_mut_view(self.buffer)
    }

    /// The number of bytes in a frame.
    pub closed spec fn frame_size(&self) -> nat {
        self.size as nat
    }

    /// Starts with nothing held back.
    pub fn new(size: usize) -> (state: Self)
        requires
            size > 0,
        ensures
            state.wf(),
            state.frame_size() == size,
            state.pending() == Seq::<u8>::empty(),
    {
        ByteRebuffer { buffer: BytesMut::new(), size }
    }

    /// Takes one more chunk and appends to `out` every frame that it
    /// completes, each of exactly the frame size; what does not fill a frame
    /// is held back.
    pub fn push(&mut self, chunk: &Bytes, out: &mut Vec<Result<Bytes, StreamError>>)
        requires
            old(self).wf(),
        ensures
            final(self).wf(),
            final(self).frame_size() == old(self).frame_size(),
            chunks_model(final(out)@) == chunks_model(old(out)@) + successes(
                split_frames(old(self).pending() + bytes_view(*chunk), old(self).frame_size()),
            ),
            final(self).pending() == split_rest(
                old(self).pending() + bytes_view(*chunk),
                old(self).frame_size(),
            ),
    {
        let data = bytes_as_slice(chunk);
        let ghost total = self.pending() + data@;
        let ghost size = self.size as nat;
        let mut taken: usize = 0;
        assert(data@.skip(0) =~= data@);
        assert(chunks_model(out@) =~= chunks_model(old(out)@) + successes(Seq::empty()));
        while data.len() - taken >= self.size - self.buffer.len()
            invariant
                self.wf(),
                self.size == size,
                data@ == bytes_view(*chunk),
                0 <= taken <= data.len(),
                split_frames(total, size) == split_frames(total, size).take(
                    split_frames(total, size).len() - split_frames(
                        self.pending() + data@.skip(taken as int),
                        size,
                    ).len(),
                ) + split_frames(self.pending() + data@.skip(taken as int), size),
                chunks_model(out@) == chunks_model(old(out)@) + successes(
                    split_frames(total, size).take(
                        split_frames(total, size).len() - split_frames(
                            self.pending() + data@.skip(taken as int),
                            size,
                        ).len(),
                    ),
                ),
                split_rest(total, size) == split_rest(
                    self.pending() + data@.skip(taken as int),
                    size,
                ),
            decreases data.len() - taken,
        {
            let need = self.size - self.buffer.len();
            let ghost held = self.pending();
            let ghost ahead = held + data@.skip(taken as int);
            let ghost before = out@;
            self.buffer.extend_from_slice(vstd::slice::slice_subrange(data, taken, taken + need));
            let frame = self.buffer.split_to(self.size).freeze();
            proof {
                assert(bytes_view(frame) =~= ahead.take(size as int));
                assert(self.pending() =~= Seq::<u8>::empty());
                assert(self.pending() + data@.skip(taken + need) =~= ahead.skip(size as int));
                crate::stream::lemma_chunks_model_push(before, Ok(frame));
                let all = split_frames(total, size);
                let later = split_frames(ahead.skip(size as int), size);
                assert(split_frames(ahead, size) == seq![ahead.take(size as int)] + later);
                let done = all.len() - split_frames(ahead, size).len();
                assert(all[done] == ahead.take(size as int));
                assert(all.take(done + 1) =~= all.take(done).push(ahead.take(size as int)));
                assert(all =~= all.take(done + 1) + later);
                assert(successes(all.take(done + 1)) =~= successes(all.take(done)).push(
                    Ok(ahead.take(size as int)),
                ));
            }
            out.push(Ok(frame));
            taken += need;
        }
        proof {
            let ahead = self.pending() + data@.skip(taken as int);
            assert(split_frames(ahead, size) =~= Seq::<Seq<u8>>::empty());
            assert(split_frames(total, size).take(split_frames(total, size).len() as int)
                =~= split_frames(total, size));
        }
        self.buffer.extend_from_slice(vstd::slice::slice_subrange(data, taken, data.len()));
    }

    /// Ends the stream: what was held back is the last chunk, and there is
    /// none if nothing was held back.
    pub fn finish(self) -> (last: Option<Bytes>)
        requires
            self.wf(),
        ensures
            match last {
                Some(chunk) => self.pending().len() > 0 && bytes_view(chunk) == self.pending(),
                None => self.pending().len() == 0,
            },
    {
        if self.buffer.len() > 0 {
            Some(self.buffer.freeze())
        } else {
            None
        }
    }
}

/// One step of rebuffering by size, for a stream that arrives chunk by
/// chunk. `state` is the rebuffering while the stream goes on, and nothing
/// once it has ended. A chunk gives the frames that it completes; an error
/// ends the stream and is handed on alone; the end of the stream, given as
/// no event, ends it and hands on what was held back, if anything was.
/// Behind the end nothing is handed on.
pub fn rebuffer_step(
    state: &mut Option<ByteRebuffer>,
    event: Option<Result<Bytes, StreamError>>,
) -> (frames: Vec<Result<Bytes, StreamError>>)
    requires
        *old(state) matches Some(held) ==> held.wf(),
    ensures
        *final(state) matches Some(held) ==> held.wf(),
        match (*old(state), event) {
            (None, _) => *final(state) is None && frames@.len() == 0,
            (Some(held), Some(Ok(chunk))) => {
                let arrived = held.pending() + bytes_view(chunk);
                &&& *final(state) matches Some(kept) && kept.frame_size() == held.frame_size()
                    && kept.pending() == split_rest(arrived, held.frame_size())
                &&& chunks_model(frames@) == successes(split_frames(arrived, held.frame_size()))
            },
            (Some(held), Some(Err(e))) => *final(state) is None && chunks_model(frames@) == seq![
                Err::<Seq<u8>, StreamError>(e),
            ],
            (Some(held), None) => *final(state) is None && chunks_model(frames@) == (
            if held.pending().len() > 0 {
                seq![Ok::<Seq<u8>, StreamError>(held.pending())]
            } else {
                Seq::empty()
            }),
        },
{
    let mut frames: Vec<Result<Bytes, StreamError>> = Vec::new();
    assert(chunks_model(frames@) =~= Seq::empty());
    match state.take() {
        None => {},
        Some(held) => match event {
            Some(Ok(chunk)) => {
                let mut held = held;
                held.push(&chunk, &mut frames);
                *state = Some(held);
            },
            Some(Err(e)) => {
                frames.push(Err(e));
                assert(chunks_model(frames@) =~= seq![Err::<Seq<u8>, StreamError>(e)]);
            },
            None => match held.finish() {
                Some(rest) => {
                    frames.push(Ok(rest));
                    assert(chunks_model(frames@) =~= seq![
                        Ok::<Seq<u8>, StreamError>(held.pending()),
                    ]);
                },
                None => {},
            },
        },
    }
    frames
}

} // verus!
