use axum_streams::{
    ArrowRecordBatchIpcStreamFormat, CsvStreamFormat, JsonArrayStreamFormat,
    JsonNewLineStreamFormat, ProtobufStreamFormat, StreamBodyAs, StreamBodyAsOptions, StreamError,
    StreamErrorKind, StreamingFormat, TextStreamFormat,
};
use http::header::{HeaderName, HeaderValue, CONTENT_TYPE};
use http::HeaderMap;
use std::sync::Arc;

fn only_content_type(headers: Option<HeaderMap>) -> String {
    let headers = headers.unwrap();
    assert_eq!(headers.len(), 1);
    headers
        .get(CONTENT_TYPE)
        .unwrap()
        .to_str()
        .unwrap()
        .to_string()
}

fn text_body() -> StreamBodyAs {
    StreamBodyAs::new(TextStreamFormat::new(), vec![Ok("a".to_string())])
}

#[test]
fn default_content_types() {
    let options = StreamBodyAsOptions::new();
    assert_eq!(
        only_content_type(JsonArrayStreamFormat::new().http_response_headers(&options)),
        "application/json"
    );
    assert_eq!(
        only_content_type(StreamingFormat::<Vec<u8>>::http_response_headers(
            &JsonNewLineStreamFormat::new(),
            &options
        )),
        "application/jsonstream"
    );
    assert_eq!(
        only_content_type(CsvStreamFormat::new(true, b',').http_response_headers(&options)),
        "text/csv"
    );
    assert_eq!(
        only_content_type(StreamingFormat::<Vec<u8>>::http_response_headers(
            &ProtobufStreamFormat::new(),
            &options
        )),
        "application/x-protobuf-stream"
    );
    assert_eq!(
        only_content_type(TextStreamFormat::new().http_response_headers(&options)),
        "text/plain; charset=utf-8"
    );
    let schema = Arc::new(arrow::datatypes::Schema::empty());
    assert_eq!(
        only_content_type(
            ArrowRecordBatchIpcStreamFormat::new(schema).http_response_headers(&options)
        ),
        "application/vnd.apache.arrow.stream"
    );
}

#[test]
fn content_type_of_the_options_replaces_the_default() {
    let options = StreamBodyAsOptions::new().content_type(HeaderValue::from_static("text/x-mine"));
    assert_eq!(
        only_content_type(TextStreamFormat::new().http_response_headers(&options)),
        "text/x-mine"
    );
    assert_eq!(
        only_content_type(CsvStreamFormat::new(true, b',').http_response_headers(&options)),
        "text/x-mine"
    );
    let body =
        StreamBodyAs::with_options(TextStreamFormat::new(), vec![Ok("a".to_string())], options);
    assert_eq!(only_content_type(body.into_parts().0), "text/x-mine");
}

#[test]
fn headers_replaces_all_headers() {
    let mut replacement = HeaderMap::new();
    replacement.insert("x-first", HeaderValue::from_static("1"));
    let (headers, frames) = text_body().headers(replacement.clone()).into_parts();
    assert_eq!(headers, Some(replacement));
    assert_eq!(frames, vec![Ok(bytes::Bytes::from("a"))]);
}

#[test]
fn header_appends_behind_the_values_of_its_name() {
    let body = text_body()
        .header(
            HeaderName::from_static("x-trace"),
            HeaderValue::from_static("one"),
        )
        .unwrap()
        .header(
            HeaderName::from_static("x-trace"),
            HeaderValue::from_static("two"),
        )
        .unwrap()
        .header(CONTENT_TYPE, HeaderValue::from_static("text/x-second"))
        .unwrap();
    let (headers, frames) = body.into_parts();
    let headers = headers.unwrap();
    assert_eq!(headers.len(), 4);
    let traces: Vec<&HeaderValue> = headers.get_all("x-trace").iter().collect();
    assert_eq!(traces, vec!["one", "two"]);
    let types: Vec<&HeaderValue> = headers.get_all(CONTENT_TYPE).iter().collect();
    assert_eq!(types, vec!["text/plain; charset=utf-8", "text/x-second"]);
    assert_eq!(frames, vec![Ok(bytes::Bytes::from("a"))]);
}

#[test]
fn header_on_a_full_map_is_a_configuration_error() {
    let mut full = HeaderMap::new();
    let mut index = 0usize;
    loop {
        let name = HeaderName::from_bytes(format!("x-{}", index).as_bytes()).unwrap();
        if full
            .try_append(name, HeaderValue::from_static("v"))
            .is_err()
        {
            break;
        }
        index += 1;
    }
    let added = text_body().headers(full).header(
        HeaderName::from_static("x-one-more"),
        HeaderValue::from_static("v"),
    );
    let error: StreamError = added.err().unwrap();
    assert_eq!(error.kind(), StreamErrorKind::Config);
}

#[test]
fn error_constructors_set_kind_and_message() {
    let error = StreamError::source("a".to_string());
    assert_eq!(error.kind(), StreamErrorKind::Source);
    assert_eq!(error.message(), "a");
    let error = StreamError::encode("b".to_string());
    assert_eq!(error.kind(), StreamErrorKind::Encode);
    assert_eq!(error.message(), "b");
    let error = StreamError::config("c".to_string());
    assert_eq!(error.kind(), StreamErrorKind::Config);
    assert_eq!(error.message(), "c");
    assert_eq!(error.clone(), error);
}

#[test]
fn header_map_is_unchanged_by_taking_frames() {
    let mut body = text_body();
    let before = body.header_map().clone();
    assert_eq!(
        before.as_ref().unwrap().get(CONTENT_TYPE).unwrap(),
        "text/plain; charset=utf-8"
    );
    assert!(body.poll_frame().is_some());
    assert!(body.poll_frame().is_none());
    assert_eq!(body.header_map(), &before);
}
