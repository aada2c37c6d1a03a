use axum_streams::rebuffer::{coalesce_ready_chunks, rebuffer_step, ByteRebuffer};
use axum_streams::stream::{halt_on_error, into_successes, pass_until_error};
use axum_streams::stream_body_as::{
    create_stream_frames, delivered_len, rebuffer_by_bytes, rebuffer_by_items,
    try_create_stream_frames,
};
use axum_streams::{
    StreamBodyAs, StreamBodyAsOptions, StreamError, StreamErrorKind, TextStreamFormat,
};
use bytes::Bytes;

fn text_stream(items: &[&str]) -> Vec<Result<String, StreamError>> {
    items.iter().map(|s| Ok(s.to_string())).collect()
}

fn chunk_stream(items: &[&str]) -> Vec<Result<Bytes, StreamError>> {
    items
        .iter()
        .map(|s| Ok(Bytes::copy_from_slice(s.as_bytes())))
        .collect()
}

fn drain(mut body: StreamBodyAs) -> Vec<Result<Bytes, StreamError>> {
    let mut frames = Vec::new();
    while let Some(frame) = body.poll_frame() {
        frames.push(frame);
    }
    frames
}

fn content_type(body: StreamBodyAs) -> String {
    let (headers, _) = body.into_parts();
    headers
        .unwrap()
        .get(http::header::CONTENT_TYPE)
        .unwrap()
        .to_str()
        .unwrap()
        .to_string()
}

#[test]
fn test_stream_body_as_options() {
    let options = StreamBodyAsOptions::new();
    assert_eq!(options.buffering_ready_items, None);

    let options = StreamBodyAsOptions::new().buffering_ready_items(10);
    assert_eq!(options.buffering_ready_items, Some(10));
}

#[test]
fn test_stream_body_as() {
    let stream = text_stream(&["First", "Second"]);
    let body = StreamBodyAs::new(TextStreamFormat::new(), stream);
    let data: Vec<Bytes> = drain(body).into_iter().map(|r| r.unwrap()).collect();
    assert_eq!(data.len(), 2);
    assert_eq!(data[0], Bytes::from("First"));
    assert_eq!(data[1], Bytes::from("Second"));

    let body = StreamBodyAs::new(TextStreamFormat::new(), text_stream(&["First", "Second"]));
    assert_eq!(content_type(body), "text/plain; charset=utf-8");
}

#[test]
fn test_stream_body_as_buffering_items() {
    let stream = text_stream(&["First", "Second", "Third"]);
    let body = StreamBodyAs::with_options(
        TextStreamFormat::new(),
        stream,
        StreamBodyAsOptions::new().buffering_ready_items(2),
    );
    let data: Vec<Bytes> = drain(body).into_iter().map(|r| r.unwrap()).collect();
    assert_eq!(data.len(), 2);
    assert_eq!(data[0], Bytes::from("FirstSecond"));
    assert_eq!(data[1], Bytes::from("Third"));

    let body = StreamBodyAs::with_options(
        TextStreamFormat::new(),
        text_stream(&["First", "Second", "Third"]),
        StreamBodyAsOptions::new().buffering_ready_items(2),
    );
    assert_eq!(content_type(body), "text/plain; charset=utf-8");
}

#[test]
fn test_stream_body_as_buffering_bytes() {
    let stream = text_stream(&["First", "Second", "Third"]);
    let body = StreamBodyAs::with_options(
        TextStreamFormat::new(),
        stream,
        StreamBodyAsOptions::new().buffering_bytes(3),
    );
    let data: Vec<Bytes> = drain(body).into_iter().map(|r| r.unwrap()).collect();
    assert_eq!(data.len(), 6);
    assert_eq!(data[0], Bytes::from("Fir"));
    assert_eq!(data[1], Bytes::from("stS"));
    assert_eq!(data[2], Bytes::from("eco"));
    assert_eq!(data[3], Bytes::from("ndT"));
    assert_eq!(data[4], Bytes::from("hir"));
    assert_eq!(data[5], Bytes::from("d"));

    let body = StreamBodyAs::with_options(
        TextStreamFormat::new(),
        text_stream(&["First", "Second", "Third"]),
        StreamBodyAsOptions::new().buffering_bytes(3),
    );
    assert_eq!(content_type(body), "text/plain; charset=utf-8");
}

#[test]
fn options_builders_set_one_field_each() {
    let options = StreamBodyAsOptions::new()
        .buffering_bytes(7)
        .content_type(http::HeaderValue::from_static("text/x-custom"));
    assert_eq!(options.buffering_ready_items, None);
    assert_eq!(options.buffering_bytes, Some(7));
    assert_eq!(
        options.content_type,
        Some(http::HeaderValue::from_static("text/x-custom"))
    );
}

#[test]
fn buffering_by_items_takes_precedence_over_bytes() {
    let options = StreamBodyAsOptions::new()
        .buffering_ready_items(2)
        .buffering_bytes(3);
    let frames = create_stream_frames(chunk_stream(&["ab", "cd", "ef"]), &options);
    assert_eq!(frames, vec![Ok(Bytes::from("abcd")), Ok(Bytes::from("ef"))]);
}

#[test]
fn no_buffering_passes_chunks_through() {
    let frames = create_stream_frames(chunk_stream(&["ab", "", "cd"]), &StreamBodyAsOptions::new());
    assert_eq!(
        frames,
        vec![
            Ok(Bytes::from("ab")),
            Ok(Bytes::new()),
            Ok(Bytes::from("cd"))
        ]
    );
}

#[test]
fn no_buffering_stops_at_the_first_error() {
    let mut chunks = chunk_stream(&["ab", "cd"]);
    chunks.push(Err(StreamError::source("broken".to_string())));
    chunks.push(Ok(Bytes::from("ef")));
    chunks.push(Err(StreamError::source("later".to_string())));
    let frames = create_stream_frames(chunks, &StreamBodyAsOptions::new());
    assert_eq!(
        frames,
        vec![
            Ok(Bytes::from("ab")),
            Ok(Bytes::from("cd")),
            Err(StreamError::source("broken".to_string()))
        ]
    );
}

#[test]
fn halt_on_error_keeps_a_stream_without_error() {
    let stream: Vec<Result<u32, StreamError>> = vec![Ok(1), Ok(2), Ok(3)];
    assert_eq!(halt_on_error(stream), vec![Ok(1), Ok(2), Ok(3)]);
    let empty: Vec<Result<u32, StreamError>> = Vec::new();
    assert_eq!(halt_on_error(empty), Vec::new());
}

#[test]
fn halt_on_error_drops_what_follows_the_error() {
    let stream: Vec<Result<u32, StreamError>> = vec![
        Ok(1),
        Err(StreamError::encode("first".to_string())),
        Ok(2),
        Err(StreamError::encode("second".to_string())),
    ];
    assert_eq!(
        halt_on_error(stream),
        vec![Ok(1), Err(StreamError::encode("first".to_string()))]
    );
}

#[test]
fn into_successes_keeps_order() {
    assert_eq!(
        into_successes(vec!["a", "b", "c"]),
        vec![Ok("a"), Ok("b"), Ok("c")]
    );
    assert_eq!(into_successes(Vec::<u8>::new()), Vec::new());
}

#[test]
fn rebuffer_by_items_concatenation_is_unchanged() {
    let source = ["a", "bc", "", "def", "g", "hij", "k"];
    let expected: Vec<u8> = source.iter().flat_map(|s| s.bytes()).collect();
    for count in 1..=8usize {
        let frames = rebuffer_by_items(chunk_stream(&source), count);
        let joined: Vec<u8> = frames
            .iter()
            .flat_map(|r| r.as_ref().unwrap().to_vec())
            .collect();
        assert_eq!(joined, expected);
        assert_eq!(frames.len(), (source.len() + count - 1) / count);
    }
}

#[test]
fn rebuffer_by_items_of_nothing_is_nothing() {
    assert_eq!(rebuffer_by_items(Vec::new(), 3), Vec::new());
}

#[test]
fn rebuffer_by_items_keeps_the_chunks_before_an_error() {
    let mut chunks = chunk_stream(&["ab", "cd", "ef"]);
    chunks.push(Err(StreamError::source("broken".to_string())));
    chunks.push(Ok(Bytes::from("gh")));
    let frames = rebuffer_by_items(chunks, 2);
    assert_eq!(
        frames,
        vec![
            Ok(Bytes::from("abcd")),
            Ok(Bytes::from("ef")),
            Err(StreamError::source("broken".to_string()))
        ]
    );
}

#[test]
fn buffering_items_delivers_what_precedes_the_error_in_its_group() {
    let stream = vec![
        Ok("a".to_string()),
        Ok("b".to_string()),
        Err(StreamError::source("broken".to_string())),
    ];
    let body = StreamBodyAs::with_options(
        TextStreamFormat::new(),
        stream,
        StreamBodyAsOptions::new().buffering_ready_items(3),
    );
    assert_eq!(
        drain(body),
        vec![
            Ok(Bytes::from("ab")),
            Err(StreamError::source("broken".to_string()))
        ]
    );
}

#[test]
fn rebuffer_by_items_group_that_opens_with_the_error_is_the_error() {
    let mut chunks = chunk_stream(&["ab", "cd"]);
    chunks.push(Err(StreamError::source("broken".to_string())));
    let frames = rebuffer_by_items(chunks, 2);
    assert_eq!(
        frames,
        vec![
            Ok(Bytes::from("abcd")),
            Err(StreamError::source("broken".to_string()))
        ]
    );
}

#[test]
fn coalesce_ready_chunks_joins_in_order() {
    let group = chunk_stream(&["First", "Second"]);
    assert_eq!(
        coalesce_ready_chunks(&group),
        vec![Ok(Bytes::from("FirstSecond"))]
    );
    assert_eq!(coalesce_ready_chunks(&[]), vec![Ok(Bytes::new())]);
}

#[test]
fn coalesce_ready_chunks_gives_the_chunks_before_the_first_error_and_the_error() {
    let group = vec![
        Ok(Bytes::from("ab")),
        Ok(Bytes::from("c")),
        Err(StreamError::encode("one".to_string())),
        Ok(Bytes::from("d")),
        Err(StreamError::encode("two".to_string())),
    ];
    assert_eq!(
        coalesce_ready_chunks(&group),
        vec![
            Ok(Bytes::from("abc")),
            Err(StreamError::encode("one".to_string()))
        ]
    );
    let group = vec![
        Err(StreamError::encode("one".to_string())),
        Ok(Bytes::from("d")),
    ];
    assert_eq!(
        coalesce_ready_chunks(&group),
        vec![Err(StreamError::encode("one".to_string()))]
    );
}

#[test]
fn rebuffer_by_bytes_cuts_exact_frames() {
    let frames = rebuffer_by_bytes(chunk_stream(&["abcdefgh", "ij"]), 4);
    assert_eq!(
        frames,
        vec![
            Ok(Bytes::from("abcd")),
            Ok(Bytes::from("efgh")),
            Ok(Bytes::from("ij"))
        ]
    );
}

#[test]
fn rebuffer_by_bytes_has_no_last_chunk_without_remainder() {
    let frames = rebuffer_by_bytes(chunk_stream(&["abc", "def"]), 3);
    assert_eq!(frames, vec![Ok(Bytes::from("abc")), Ok(Bytes::from("def"))]);
    assert_eq!(rebuffer_by_bytes(Vec::new(), 3), Vec::new());
    assert_eq!(rebuffer_by_bytes(chunk_stream(&["", ""]), 3), Vec::new());
}

#[test]
fn rebuffer_by_bytes_empty_chunk_does_not_flush() {
    let frames = rebuffer_by_bytes(chunk_stream(&["ab", "", "cd"]), 3);
    assert_eq!(frames, vec![Ok(Bytes::from("abc")), Ok(Bytes::from("d"))]);
}

#[test]
fn rebuffer_by_bytes_every_size_keeps_the_bytes() {
    let source = ["First", "Second", "", "Third", "x"];
    let expected: Vec<u8> = source.iter().flat_map(|s| s.bytes()).collect();
    for size in 1..=20usize {
        let frames = rebuffer_by_bytes(chunk_stream(&source), size);
        let mut joined = Vec::new();
        for (i, frame) in frames.iter().enumerate() {
            let frame = frame.as_ref().unwrap();
            if i + 1 < frames.len() {
                assert_eq!(frame.len(), size);
            } else {
                assert!(!frame.is_empty() && frame.len() <= size);
            }
            joined.extend_from_slice(frame);
        }
        assert_eq!(joined, expected);
    }
}

#[test]
fn rebuffer_by_bytes_error_follows_the_full_frames() {
    let mut chunks = chunk_stream(&["abcd", "ef"]);
    chunks.push(Err(StreamError::source("broken".to_string())));
    chunks.push(Ok(Bytes::from("gh")));
    let frames = rebuffer_by_bytes(chunks, 3);
    assert_eq!(
        frames,
        vec![
            Ok(Bytes::from("abc")),
            Ok(Bytes::from("def")),
            Err(StreamError::source("broken".to_string()))
        ]
    );
}

#[test]
fn byte_rebuffer_steps() {
    let mut state = ByteRebuffer::new(3);
    let mut out = Vec::new();
    state.push(&Bytes::from("First"), &mut out);
    assert_eq!(out, vec![Ok(Bytes::from("Fir"))]);
    state.push(&Bytes::from("S"), &mut out);
    assert_eq!(out, vec![Ok(Bytes::from("Fir")), Ok(Bytes::from("stS"))]);
    let mut more = Vec::new();
    state.push(&Bytes::from("e"), &mut more);
    assert_eq!(more, Vec::new());
    assert_eq!(state.finish(), Some(Bytes::from("e")));
    assert_eq!(ByteRebuffer::new(3).finish(), None);
}

#[test]
fn poll_frame_hands_out_frames_in_order_then_nothing() {
    let mut body = StreamBodyAs::new(TextStreamFormat::new(), text_stream(&["a", "b"]));
    assert_eq!(body.poll_frame(), Some(Ok(Bytes::from("a"))));
    assert_eq!(body.poll_frame(), Some(Ok(Bytes::from("b"))));
    assert_eq!(body.poll_frame(), None);
    assert_eq!(body.poll_frame(), None);
}

#[test]
fn source_error_ends_the_body() {
    let mut stream = text_stream(&["a", "b"]);
    stream.push(Err(StreamError::source("gone".to_string())));
    stream.push(Ok("c".to_string()));
    let frames = drain(StreamBodyAs::new(TextStreamFormat::new(), stream));
    assert_eq!(frames.len(), 3);
    assert_eq!(frames[0], Ok(Bytes::from("a")));
    assert_eq!(frames[1], Ok(Bytes::from("b")));
    let error = frames[2].clone().unwrap_err();
    assert_eq!(error.kind(), StreamErrorKind::Source);
    assert_eq!(error.message(), "gone");
}

#[test]
fn delivered_len_counts_the_bytes_before_the_first_error() {
    assert_eq!(delivered_len(&Vec::new()), Some(0));
    assert_eq!(delivered_len(&chunk_stream(&["ab", "", "cde"])), Some(5));
    let mut chunks = chunk_stream(&["ab", "cde"]);
    chunks.push(Err(StreamError::source("broken".to_string())));
    chunks.push(Ok(Bytes::from("fghi")));
    assert_eq!(delivered_len(&chunks), Some(5));
}

#[test]
fn try_create_stream_frames_refuses_a_count_or_size_of_zero() {
    let options = StreamBodyAsOptions::new().buffering_ready_items(0);
    assert_eq!(
        try_create_stream_frames(chunk_stream(&["ab"]), &options),
        None
    );
    let options = StreamBodyAsOptions::new().buffering_bytes(0);
    assert_eq!(
        try_create_stream_frames(chunk_stream(&["ab"]), &options),
        None
    );
    let options = StreamBodyAsOptions::new()
        .buffering_ready_items(0)
        .buffering_bytes(3);
    assert_eq!(
        try_create_stream_frames(chunk_stream(&["ab"]), &options),
        None
    );
    let options = StreamBodyAsOptions::new()
        .buffering_ready_items(1)
        .buffering_bytes(0);
    assert_eq!(
        try_create_stream_frames(chunk_stream(&["ab"]), &options),
        Some(vec![Ok(Bytes::from("ab"))])
    );
}

#[test]
fn try_create_stream_frames_rebuffers_as_asked() {
    let options = StreamBodyAsOptions::new().buffering_bytes(3);
    assert_eq!(
        try_create_stream_frames(chunk_stream(&["ab", "cd"]), &options),
        Some(vec![Ok(Bytes::from("abc")), Ok(Bytes::from("d"))])
    );
    let options = StreamBodyAsOptions::new().buffering_ready_items(2);
    assert_eq!(
        try_create_stream_frames(chunk_stream(&["ab", "cd", "e"]), &options),
        Some(vec![Ok(Bytes::from("abcd")), Ok(Bytes::from("e"))])
    );
    assert_eq!(
        try_create_stream_frames(chunk_stream(&["ab", "cd"]), &StreamBodyAsOptions::new()),
        Some(vec![Ok(Bytes::from("ab")), Ok(Bytes::from("cd"))])
    );
}

#[test]
fn try_with_options_gives_the_body_or_nothing() {
    let body = StreamBodyAs::try_with_options(
        TextStreamFormat::new(),
        text_stream(&["First", "Second", "Third"]),
        StreamBodyAsOptions::new().buffering_bytes(8),
    )
    .unwrap();
    assert_eq!(
        drain(body),
        vec![Ok(Bytes::from("FirstSec")), Ok(Bytes::from("ondThird"))]
    );
    assert!(StreamBodyAs::try_with_options(
        TextStreamFormat::new(),
        text_stream(&["First"]),
        StreamBodyAsOptions::new().buffering_bytes(0),
    )
    .is_none());
}

#[test]
fn pass_until_error_passes_up_to_the_first_error() {
    let mut failed = false;
    let first: Result<u8, &str> = Ok(1);
    assert_eq!(pass_until_error(&mut failed, first), Some(Ok(1)));
    assert!(!failed);
    assert_eq!(
        pass_until_error(&mut failed, Err("broken")),
        Some(Err::<u8, &str>("broken"))
    );
    assert!(failed);
    assert_eq!(pass_until_error(&mut failed, Ok::<u8, &str>(2)), None);
    assert_eq!(
        pass_until_error(&mut failed, Err::<u8, &str>("later")),
        None
    );
    assert!(failed);
}

#[test]
fn rebuffer_step_follows_the_stream_to_its_end() {
    let mut state = Some(ByteRebuffer::new(3));
    assert_eq!(
        rebuffer_step(&mut state, Some(Ok(Bytes::from("First")))),
        vec![Ok(Bytes::from("Fir"))]
    );
    assert_eq!(
        rebuffer_step(&mut state, Some(Ok(Bytes::from("S")))),
        vec![Ok(Bytes::from("stS"))]
    );
    assert_eq!(
        rebuffer_step(&mut state, Some(Ok(Bytes::from("e")))),
        Vec::new()
    );
    assert!(state.is_some());
    assert_eq!(rebuffer_step(&mut state, None), vec![Ok(Bytes::from("e"))]);
    assert!(state.is_none());
    assert_eq!(
        rebuffer_step(&mut state, Some(Ok(Bytes::from("late")))),
        Vec::new()
    );
    assert_eq!(rebuffer_step(&mut state, None), Vec::new());
}

#[test]
fn rebuffer_step_ends_at_an_error() {
    let mut state = Some(ByteRebuffer::new(3));
    assert_eq!(
        rebuffer_step(&mut state, Some(Ok(Bytes::from("abcd")))),
        vec![Ok(Bytes::from("abc"))]
    );
    assert_eq!(
        rebuffer_step(
            &mut state,
            Some(Err(StreamError::source("lost".to_string())))
        ),
        vec![Err(StreamError::source("lost".to_string()))]
    );
    assert!(state.is_none());
    assert_eq!(rebuffer_step(&mut state, None), Vec::new());

    let mut empty = Some(ByteRebuffer::new(3));
    assert_eq!(rebuffer_step(&mut empty, None), Vec::new());
    assert!(empty.is_none());
}
