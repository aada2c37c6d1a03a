use axum_streams::{
    StreamBodyAs, StreamBodyAsOptions, StreamError, StreamingFormat, TextStreamFormat,
};
use bytes::Bytes;

#[test]
fn serialize_text_stream_format() {
    let test_stream_vec = vec![
        String::from("bar1"),
        String::from("bar2"),
        String::from("bar3"),
        String::from("bar4"),
        String::from("bar5"),
        String::from("bar6"),
        String::from("bar7"),
        String::from("bar8"),
        String::from("bar9"),
    ];

    let expected_text_buf: Vec<u8> = test_stream_vec
        .iter()
        .flat_map(|obj| {
            let obj_vec = obj.as_bytes().to_vec();
            obj_vec
        })
        .collect();

    let mut body = StreamBodyAs::new(
        TextStreamFormat::new(),
        test_stream_vec.iter().cloned().map(Ok).collect(),
    );
    let mut data = Vec::new();
    while let Some(frame) = body.poll_frame() {
        data.extend_from_slice(&frame.unwrap());
    }

    assert_eq!(data, expected_text_buf);
}

#[test]
fn text_chunks_are_the_utf8_bytes_of_the_items() {
    let items = vec![
        Ok("plain".to_string()),
        Ok("gr\u{fc}n \u{2713}".to_string()),
        Ok(String::new()),
    ];
    let chunks = TextStreamFormat::new().to_bytes_stream(items, &StreamBodyAsOptions::new());
    assert_eq!(
        chunks,
        vec![
            Ok(Bytes::from("plain")),
            Ok(Bytes::from(vec![
                0x67, 0x72, 0xc3, 0xbc, 0x6e, 0x20, 0xe2, 0x9c, 0x93
            ])),
            Ok(Bytes::new()),
        ]
    );
    assert_eq!(
        TextStreamFormat::item_chunk(&"a\"b\\c\n".to_string()),
        Bytes::from("a\"b\\c\n")
    );
}

#[test]
fn text_error_ends_the_stream() {
    let items = vec![
        Ok("a".to_string()),
        Err(StreamError::source("lost".to_string())),
        Ok("b".to_string()),
    ];
    let chunks = TextStreamFormat::new().to_bytes_stream(items, &StreamBodyAsOptions::new());
    assert_eq!(
        chunks,
        vec![
            Ok(Bytes::from("a")),
            Err(StreamError::source("lost".to_string()))
        ]
    );
}

#[test]
fn text_default_content_type() {
    let headers = TextStreamFormat::new()
        .http_response_headers(&StreamBodyAsOptions::new())
        .unwrap();
    assert_eq!(headers.len(), 1);
    assert_eq!(
        headers.get(http::header::CONTENT_TYPE).unwrap(),
        "text/plain; charset=utf-8"
    );
}
