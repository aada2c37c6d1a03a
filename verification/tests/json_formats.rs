use axum_streams::{
    JsonArrayStreamFormat, JsonNewLineStreamFormat, StreamBodyAs, StreamBodyAsOptions, StreamError,
    StreamErrorKind, StreamingFormat,
};
use bytes::Bytes;
use serde_json::Value;

fn test_item() -> Value {
    let mut object = serde_json::Map::new();
    object.insert("foo".to_string(), Value::String("bar".to_string()));
    Value::Object(object)
}

fn encoded_items(count: usize) -> Vec<Result<Vec<u8>, StreamError>> {
    (0..count)
        .map(|_| Ok(serde_json::to_vec(&test_item()).unwrap()))
        .collect()
}

fn body_bytes(mut body: StreamBodyAs) -> Vec<u8> {
    let mut data = Vec::new();
    while let Some(frame) = body.poll_frame() {
        data.extend_from_slice(&frame.unwrap());
    }
    data
}

fn content_type(body: StreamBodyAs) -> String {
    let (headers, _) = body.into_parts();
    headers
        .unwrap()
        .get("content-type")
        .and_then(|h| h.to_str().ok())
        .unwrap()
        .to_string()
}

fn joined(chunks: &[Result<Bytes, StreamError>]) -> Vec<u8> {
    chunks
        .iter()
        .flat_map(|r| r.as_ref().unwrap().to_vec())
        .collect()
}

#[test]
fn serialize_json_array_stream_format() {
    let test_stream_vec = vec![test_item(); 7];

    let expected_json = serde_json::to_string(&test_stream_vec).unwrap();
    let body = StreamBodyAs::new(JsonArrayStreamFormat::new(), encoded_items(7));
    assert_eq!(content_type(body), "application/json");

    let body = StreamBodyAs::new(JsonArrayStreamFormat::new(), encoded_items(7));
    let text = String::from_utf8(body_bytes(body)).unwrap();
    assert_eq!(text, expected_json);
}

#[test]
fn serialize_json_nl_stream_format() {
    let test_stream_vec = vec![test_item(); 7];

    let expected_json = test_stream_vec
        .iter()
        .map(|item| serde_json::to_string(item).unwrap())
        .collect::<Vec<String>>()
        .join("\n")
        + "\n";

    let body = StreamBodyAs::new(JsonNewLineStreamFormat::new(), encoded_items(7));
    assert_eq!(content_type(body), "application/jsonstream");

    let body = StreamBodyAs::new(JsonNewLineStreamFormat::new(), encoded_items(7));
    let text = String::from_utf8(body_bytes(body)).unwrap();
    assert_eq!(text, expected_json);
}

#[test]
fn serialize_json_array_stream_with_envelope_format() {
    let test_stream_vec = vec![test_item(); 7];

    let mut test_envelope = serde_json::Map::new();
    test_envelope.insert(
        "envelope_field".to_string(),
        Value::String("test_envelope".to_string()),
    );

    let mut expected_envelope = test_envelope.clone();
    expected_envelope.insert(
        "my_array".to_string(),
        Value::Array(test_stream_vec.clone()),
    );
    let expected_json = serde_json::to_string(&Value::Object(expected_envelope)).unwrap();

    let envelope_bytes = serde_json::to_vec(&Value::Object(test_envelope)).unwrap();
    let body = StreamBodyAs::new(
        JsonArrayStreamFormat::with_envelope(Ok(envelope_bytes.clone()), "my_array"),
        encoded_items(7),
    );
    assert_eq!(content_type(body), "application/json");

    let body = StreamBodyAs::new(
        JsonArrayStreamFormat::with_envelope(Ok(envelope_bytes), "my_array"),
        encoded_items(7),
    );
    let text = String::from_utf8(body_bytes(body)).unwrap();
    assert_eq!(text, expected_json);
}

#[test]
fn serialize_json_array_stream_with_empty_envelope_format() {
    let test_stream_vec = vec![test_item(); 7];

    let test_envelope = serde_json::Map::new();

    let mut expected_envelope = test_envelope.clone();
    expected_envelope.insert(
        "my_array".to_string(),
        Value::Array(test_stream_vec.clone()),
    );
    let expected_json = serde_json::to_string(&Value::Object(expected_envelope)).unwrap();

    let envelope_bytes = serde_json::to_vec(&Value::Object(test_envelope)).unwrap();
    assert_eq!(envelope_bytes, b"{}".to_vec());
    let body = StreamBodyAs::new(
        JsonArrayStreamFormat::with_envelope(Ok(envelope_bytes.clone()), "my_array"),
        encoded_items(7),
    );
    assert_eq!(content_type(body), "application/json");

    let body = StreamBodyAs::new(
        JsonArrayStreamFormat::with_envelope(Ok(envelope_bytes), "my_array"),
        encoded_items(7),
    );
    let text = String::from_utf8(body_bytes(body)).unwrap();
    assert_eq!(text, expected_json);
}

#[test]
fn json_array_envelope_with_two_items() {
    let mut envelope = serde_json::Map::new();
    envelope.insert("other_field".to_string(), Value::String("test".to_string()));
    let envelope_bytes = serde_json::to_vec(&Value::Object(envelope)).unwrap();
    let items = vec![Ok(b"1".to_vec()), Ok(b"{\"a\":2}".to_vec())];
    let chunks = JsonArrayStreamFormat::with_envelope(Ok(envelope_bytes), "my_array")
        .to_bytes_stream(items, &StreamBodyAsOptions::new());
    assert_eq!(
        chunks,
        vec![
            Ok(Bytes::from("{\"other_field\":\"test\",\"my_array\":[")),
            Ok(Bytes::from("1")),
            Ok(Bytes::from(",{\"a\":2}")),
            Ok(Bytes::from("]}")),
        ]
    );
    assert_eq!(
        joined(&chunks),
        b"{\"other_field\":\"test\",\"my_array\":[1,{\"a\":2}]}".to_vec()
    );
}

#[test]
fn json_array_chunks_one_per_item_between_brackets() {
    let items = vec![Ok(b"1".to_vec()), Ok(b"2".to_vec()), Ok(b"3".to_vec())];
    let chunks = JsonArrayStreamFormat::new().to_bytes_stream(items, &StreamBodyAsOptions::new());
    assert_eq!(
        chunks,
        vec![
            Ok(Bytes::from("[")),
            Ok(Bytes::from("1")),
            Ok(Bytes::from(",2")),
            Ok(Bytes::from(",3")),
            Ok(Bytes::from("]")),
        ]
    );
}

#[test]
fn json_array_of_nothing_is_an_empty_array() {
    let chunks =
        JsonArrayStreamFormat::new().to_bytes_stream(Vec::new(), &StreamBodyAsOptions::new());
    assert_eq!(chunks, vec![Ok(Bytes::from("[")), Ok(Bytes::from("]"))]);

    let chunks = JsonArrayStreamFormat::with_envelope(Ok(b"{\"a\":1}".to_vec()), "items")
        .to_bytes_stream(Vec::new(), &StreamBodyAsOptions::new());
    assert_eq!(joined(&chunks), b"{\"a\":1,\"items\":[]}".to_vec());
}

#[test]
fn json_array_steps() {
    let format = JsonArrayStreamFormat::new();
    assert_eq!(format.prefix_chunk(), Ok(Bytes::from("[")));
    assert_eq!(
        JsonArrayStreamFormat::item_chunk(0, &b"{}".to_vec()),
        Bytes::from("{}")
    );
    assert_eq!(
        JsonArrayStreamFormat::item_chunk(5, &b"{}".to_vec()),
        Bytes::from(",{}")
    );
    assert_eq!(format.suffix_chunk(), Bytes::from("]"));
    let enveloped = JsonArrayStreamFormat::with_envelope(Ok(b"{}".to_vec()), "rows");
    assert_eq!(enveloped.prefix_chunk(), Ok(Bytes::from("{\"rows\":[")));
    assert_eq!(enveloped.suffix_chunk(), Bytes::from("]}"));
}

#[test]
fn json_array_too_short_envelope_is_a_configuration_error() {
    for short in [Vec::new(), b"1".to_vec()] {
        let format = JsonArrayStreamFormat::with_envelope(Ok(short), "my_array");
        let chunks = format.to_bytes_stream(encoded_items(3), &StreamBodyAsOptions::new());
        assert_eq!(chunks.len(), 1);
        let error = chunks[0].clone().unwrap_err();
        assert_eq!(error.kind(), StreamErrorKind::Config);
        assert_eq!(error.message(), "Too short envelope");
    }
}

#[test]
fn json_array_envelope_that_failed_to_serialize_is_the_only_chunk() {
    let cause = StreamError::encode("key must be a string".to_string());
    let format = JsonArrayStreamFormat::with_envelope(Err(cause.clone()), "my_array");
    let chunks = format.to_bytes_stream(encoded_items(3), &StreamBodyAsOptions::new());
    assert_eq!(chunks, vec![Err(cause)]);
}

#[test]
fn json_array_error_at_the_tenth_of_many_items() {
    let mut stream: Vec<Result<Vec<u8>, StreamError>> = Vec::new();
    for index in 0..10000usize {
        if index == 9 {
            stream.push(Err(StreamError::source("injected".to_string())));
        } else {
            stream.push(Ok(index.to_string().into_bytes()));
        }
    }
    let chunks = JsonArrayStreamFormat::new().to_bytes_stream(stream, &StreamBodyAsOptions::new());
    assert_eq!(chunks.len(), 11);
    assert_eq!(chunks[0], Ok(Bytes::from("[")));
    assert_eq!(chunks[1], Ok(Bytes::from("0")));
    for index in 1..9usize {
        assert_eq!(chunks[index + 1], Ok(Bytes::from(format!(",{}", index))));
    }
    assert_eq!(chunks[10], Err(StreamError::source("injected".to_string())));
}

#[test]
fn json_nl_of_nothing_is_nothing() {
    let chunks =
        JsonNewLineStreamFormat::new().to_bytes_stream(Vec::new(), &StreamBodyAsOptions::new());
    assert_eq!(chunks, Vec::new());
}

#[test]
fn json_nl_ends_every_item_with_a_newline() {
    let items = vec![Ok(b"1".to_vec()), Ok(b"\"x\"".to_vec())];
    let chunks = JsonNewLineStreamFormat::new().to_bytes_stream(items, &StreamBodyAsOptions::new());
    assert_eq!(
        chunks,
        vec![Ok(Bytes::from("1\n")), Ok(Bytes::from("\"x\"\n"))]
    );
    assert_eq!(
        JsonNewLineStreamFormat::item_chunk(&b"{}".to_vec()),
        Bytes::from("{}\n")
    );
}

#[test]
fn json_nl_error_ends_the_stream() {
    let items = vec![
        Ok(b"1".to_vec()),
        Err(StreamError::encode("bad item".to_string())),
        Ok(b"3".to_vec()),
    ];
    let chunks = JsonNewLineStreamFormat::new().to_bytes_stream(items, &StreamBodyAsOptions::new());
    assert_eq!(
        chunks,
        vec![
            Ok(Bytes::from("1\n")),
            Err(StreamError::encode("bad item".to_string()))
        ]
    );
}

#[test]
fn json_content_type_can_be_replaced() {
    let options = StreamBodyAsOptions::new()
        .content_type(http::HeaderValue::from_static("application/x-json"));
    let headers = JsonArrayStreamFormat::new()
        .http_response_headers(&options)
        .unwrap();
    assert_eq!(headers.len(), 1);
    assert_eq!(headers.get("content-type").unwrap(), "application/x-json");
    let headers = StreamingFormat::<Vec<u8>>::http_response_headers(
        &JsonNewLineStreamFormat::new(),
        &options,
    )
    .unwrap();
    assert_eq!(headers.len(), 1);
    assert_eq!(headers.get("content-type").unwrap(), "application/x-json");
}
