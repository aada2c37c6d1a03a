//! The model of a stream as a finite sequence of results, and the adapter
//! that ends a stream at its first error.

use bytes::Bytes;
use crate::chunk::bytes_view;
use crate::error::StreamError;
use vstd::prelude::*;

verus! {

/// The position of the first error in `s`, or the length of `s` if it has
/// none.
pub open spec fn first_error<T>(s: Seq<Result<T, StreamError>>) -> int
    decreases s.len(),
{
    if s.len() == 0 {
        0
    } else if s[0] is Err {
        0
    } else {
        1 + first_error(s.drop_first())
    }
}

/// Whether every element of `s` is a success.
pub open spec fn error_free<T>(s: Seq<Result<T, StreamError>>) -> bool {
    forall|i: int| 0 <= i < s.len() ==> (#[trigger] s[i]) is Ok
}

/// What a consumer observes of `s`: everything up to its first error, the
/// error itself, and nothing after it.
pub open spec fn halted<T>(s: Seq<Result<T, StreamError>>) -> Seq<Result<T, StreamError>> {
    let k = first_error(s);
    if k < s.len() {
        s.take(k + 1)
    } else {
        s
    }
}

/// The payloads of the successes that precede the first error.
pub open spec fn ok_prefix<T>(s: Seq<Result<T, StreamError>>) -> Seq<T> {
    Seq::new(first_error(s) as nat, |i: int| s[i]->Ok_0)
}

/// One chunk of output as plain bytes.
pub open spec fn chunk_model(c: Result<Bytes, StreamError>) -> Result<Seq<u8>, StreamError> {
    match c {
        Ok(b) => Ok(bytes_view(b)),
        Err(e) => Err(e),
    }
}

/// A stream of output chunks as plain bytes.
pub open spec fn chunks_model(s: Seq<Result<Bytes, StreamError>>) -> Seq<
    Result<Seq<u8>, StreamError>,
> {
    Seq::new(s.len(), |i: int| chunk_model(s[i]))
}

/// One encoded item as plain bytes.
pub open spec fn item_model(c: Result<Vec<u8>, StreamError>) -> Result<Seq<u8>, StreamError> {
    match c {
        Ok(b) => Ok(b@),
        Err(e) => Err(e),
    }
}

/// A stream of encoded items as plain bytes.
pub open spec fn items_model(s: Seq<Result<Vec<u8>, StreamError>>) -> Seq<
    Result<Seq<u8>, StreamError>,
> {
    Seq::new(s.len(), |i: int| item_model(s[i]))
}

/// A stream in which every item succeeded.
pub open spec fn successes(items: Seq<Seq<u8>>) -> Seq<Result<Seq<u8>, StreamError>> {
    Seq::new(items.len(), |i: int| Ok(items[i]))
}

/// All the bytes that a consumer receives before the stream ends or fails,
/// in the order in which they are delivered.
pub open spec fn stream_bytes(chunks: Seq<Result<Seq<u8>, StreamError>>) -> Seq<u8> {
    ok_prefix(chunks).flatten()
}

/// A stream whose successes are rewritten by `f`, which is given each item's
/// position, and whose errors are passed on.
pub open spec fn map_items(
    items: Seq<Result<Seq<u8>, StreamError>>,
    f: spec_fn(int, Seq<u8>) -> Seq<u8>,
) -> Seq<Result<Seq<u8>, StreamError>> {
    Seq::new(
        items.len(),
        |i: int|
            match items[i] {
                Ok(b) => Ok(f(i, b)),
                Err(e) => Err(e),
            },
    )
}

/// Appending a chunk to a stream appends its model to the stream's model.
pub proof fn lemma_chunks_model_push(
    s: Seq<Result<Bytes, StreamError>>,
    c: Result<Bytes, StreamError>,
)
    ensures
        chunks_model(s.push(c)) == chunks_model(s).push(chunk_model(c)),
{
    assert(chunks_model(s.push(c)) =~= chunks_model(s).push(chunk_model(c)));
}

/// `first_error` is the one position with only successes before it that is
/// either the end of the sequence or an error.
pub proof fn lemma_first_error_at<T>(s: Seq<Result<T, StreamError>>, k: int)
    requires
        0 <= k <= s.len(),
        forall|i: int| 0 <= i < k ==> (#[trigger] s[i]) is Ok,
        k < s.len() ==> s[k] is Err,
    ensures
        first_error(s) == k,
    decreases s.len(),
{
    if s.len() > 0 && k > 0 {
        let rest = s.drop_first();
        assert(s[0] is Ok);
        assert forall|i: int| 0 <= i < k - 1 implies (#[trigger] rest[i]) is Ok by {
            assert(s[i + 1] is Ok);
        }
        lemma_first_error_at(rest, k - 1);
    }
}

/// A stream without an error is observed whole.
pub proof fn lemma_error_free_halted<T>(s: Seq<Result<T, StreamError>>)
    requires
        error_free(s),
    ensures
        first_error(s) == s.len(),
        halted(s) == s,
{
    lemma_first_error_at(s, s.len() as int);
}

/// A stream of successes has no error and delivers its items end to end.
pub proof fn lemma_successes_bytes(items: Seq<Seq<u8>>)
    ensures
        error_free(successes(items)),
        stream_bytes(successes(items)) == items.flatten(),
{
    lemma_error_free_halted(successes(items));
    assert(ok_prefix(successes(items)) =~= items);
}

/// Whether `s` has ended at its first error: an error, if there is one, is
/// the last element.
pub open spec fn ends_at_error<T>(s: Seq<Result<T, StreamError>>) -> bool {
    forall|i: int| 0 <= i < s.len() - 1 ==> (#[trigger] s[i]) is Ok
}

/// A stream that has ended at its first error is observed whole.
pub proof fn lemma_ended_is_halted<T>(s: Seq<Result<T, StreamError>>)
    requires
        ends_at_error(s),
    ensures
        halted(s) == s,
{
    if s.len() > 0 && s.last() is Err {
        lemma_first_error_at(s, s.len() - 1);
        assert(s.take(s.len() as int) =~= s);
    } else {
        assert forall|i: int| 0 <= i < s.len() implies (#[trigger] s[i]) is Ok by {
            if i == s.len() - 1 {
                assert(s.last() is Ok);
            }
        }
        lemma_error_free_halted(s);
    }
}

/// What is observed of a stream has ended at its first error.
pub proof fn lemma_halted_ends<T>(s: Seq<Result<T, StreamError>>)
    ensures
        ends_at_error(halted(s)),
{
    lemma_first_error_bounds(s);
    let k = first_error(s);
    let observed = halted(s);
    assert forall|i: int| 0 <= i < observed.len() - 1 implies (#[trigger] observed[i]) is Ok by {
        assert(s[i] is Ok);
    }
}

/// Behind an error-free stream another stream delivers its bytes behind the
/// bytes of the first, and its first error is the first of the whole.
pub proof fn lemma_stream_bytes_after_ok<T>(
    first: Seq<Result<T, StreamError>>,
    second: Seq<Result<T, StreamError>>,
)
    requires
        error_free(first),
    ensures
        first_error(first + second) == first.len() + first_error(second),
        ok_prefix(first + second) == ok_prefix(first) + ok_prefix(second),
{
    let both = first + second;
    lemma_first_error_bounds(second);
    lemma_error_free_halted(first);
    let k = first_error(second);
    assert forall|i: int| 0 <= i < first.len() + k implies (#[trigger] both[i]) is Ok by {
        if i < first.len() {
            assert(first[i] is Ok);
        } else {
            assert(second[i - first.len()] is Ok);
        }
    }
    if k < second.len() {
        assert(both[first.len() + k] == second[k]);
    }
    lemma_first_error_at(both, first.len() + k);
    assert(ok_prefix(both) =~= ok_prefix(first) + ok_prefix(second));
}

/// `first_error` lies within the sequence, has only successes before it, and
/// points at an error unless it is the end.
pub proof fn lemma_first_error_bounds<T>(s: Seq<Result<T, StreamError>>)
    ensures
        0 <= first_error(s) <= s.len(),
        forall|i: int| 0 <= i < first_error(s) ==> (#[trigger] s[i]) is Ok,
        first_error(s) < s.len() ==> s[first_error(s)] is Err,
    decreases s.len(),
{
    if s.len() > 0 && s[0] is Ok {
        let rest = s.drop_first();
        lemma_first_error_bounds(rest);
        assert forall|i: int| 0 <= i < first_error(s) implies (#[trigger] s[i]) is Ok by {
            if i > 0 {
                assert(rest[i - 1] is Ok);
            }
        }
    }
}

/// One step of ending a stream at its first error, for a stream that arrives
/// item by item. `failed` tells whether an error was passed on before: if
/// so, the item is dropped; if not, the item is passed on, and `failed`
/// tells afterwards whether it was an error.
pub fn pass_until_error<T, E>(failed: &mut bool, item: Result<T, E>) -> (passed: Option<
    Result<T, E>,
>)
    ensures
        *old(failed) ==> passed is None && *final(failed),
        !*old(failed) ==> passed == Some(item) && *final(failed) == (item is Err),
{
    if *failed {
        None
    } else {
        *failed = item.is_err();
        Some(item)
    }
}

/// Ends a stream at its first error: the successes before it pass through in
/// order, the error is the last element, and whatever followed is dropped.
pub fn halt_on_error<T>(stream: Vec<Result<T, StreamError>>) -> (out: Vec<Result<T, StreamError>>)
    ensures
        out@ == halted(stream@),
{
    let mut stream = stream;
    let ghost given = stream@;
    let mut i: usize = 0;
    while i < stream.len() && stream[i].is_ok()
        invariant
            stream@ == given,
            0 <= i <= stream.len(),
            forall|j: int| 0 <= j < i ==> (#[trigger] given[j]) is Ok,
        decreases stream.len() - i,
    {
        i += 1;
    }
    proof {
        lemma_first_error_at(given, i as int);
    }
    if i < stream.len() {
        stream.truncate(i + 1);
    }
    stream
}

/// A stream in which every one of `items` succeeded.
pub open spec fn all_ok<T>(items: Seq<T>) -> Seq<Result<T, StreamError>> {
    Seq::new(items.len(), |i: int| Ok(items[i]))
}

/// Turns items that cannot fail into a stream of successes.
pub fn into_successes<T>(items: Vec<T>) -> (stream: Vec<Result<T, StreamError>>)
    ensures
        stream@ == all_ok(items@),
{
    let mut stream: Vec<Result<T, StreamError>> = Vec::new();
    for item in iter: items
        invariant
            iter.seq() == items@,
            stream@ == all_ok(items@.take(iter.index() as int)),
    {
        stream.push(Ok(item));
        assert(stream@ =~= all_ok(items@.take(iter.index() + 1)));
    }
    assert(items@.take(items@.len() as int) =~= items@);
    stream
}

} // verus!
