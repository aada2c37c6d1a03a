use arrow::array::{Float64Array, Int64Array, RecordBatch, StringArray};
use arrow::datatypes::{DataType, Field, Schema, SchemaRef};
use axum_streams::arrow_format::write_continuation;
use axum_streams::{
    ArrowBatch, ArrowRecordBatchIpcStreamFormat, StreamBodyAs, StreamBodyAsOptions, StreamError,
    StreamingFormat,
};
use bytes::Bytes;
use std::sync::Arc;

fn test_schema() -> SchemaRef {
    Arc::new(Schema::new(vec![
        Field::new("id", DataType::Int64, false),
        Field::new("city", DataType::Utf8, false),
        Field::new("lat", DataType::Float64, false),
        Field::new("lng", DataType::Float64, false),
    ]))
}

fn create_test_batch(schema_ref: SchemaRef) -> Vec<RecordBatch> {
    let vec_schema = schema_ref.clone();
    (0i64..10i64)
        .map(move |idx| {
            RecordBatch::try_new(
                vec_schema.clone(),
                vec![
                    Arc::new(Int64Array::from(vec![idx, idx * 2, idx * 3])),
                    Arc::new(StringArray::from(vec!["New York", "London", "Gothenburg"])),
                    Arc::new(Float64Array::from(vec![40.7128, 51.5074, 57.7089])),
                    Arc::new(Float64Array::from(vec![-74.0060, -0.1278, 11.9746])),
                ],
            )
            .unwrap()
        })
        .collect()
}

fn joined(chunks: &[Result<Bytes, StreamError>]) -> Vec<u8> {
    chunks
        .iter()
        .flat_map(|r| r.as_ref().unwrap().to_vec())
        .collect()
}

const END_OF_STREAM: [u8; 8] = [0xff, 0xff, 0xff, 0xff, 0, 0, 0, 0];

#[test]
fn serialize_arrow_stream_format() {
    let schema = test_schema();

    let stream: Vec<Result<ArrowBatch, StreamError>> = create_test_batch(schema.clone())
        .into_iter()
        .map(|batch| Ok(ArrowBatch { batch }))
        .collect();
    let body = StreamBodyAs::new(ArrowRecordBatchIpcStreamFormat::new(schema.clone()), stream);

    let mut writer =
        arrow::ipc::writer::StreamWriter::try_new(Vec::new(), &schema).expect("writer failed");
    for batch in create_test_batch(schema.clone()) {
        writer.write(&batch).expect("write failed");
    }
    writer.finish().expect("writer failed");
    let expected_buf = writer.into_inner().expect("writer failed");

    let (headers, frames) = body.into_parts();
    assert_eq!(
        headers
            .unwrap()
            .get("content-type")
            .and_then(|h| h.to_str().ok()),
        Some("application/vnd.apache.arrow.stream")
    );
    let body = joined(&frames);

    assert_eq!(body.len(), expected_buf.len());
    assert_eq!(body, expected_buf);
}

#[test]
fn arrow_stream_reads_back_as_the_batches() {
    let schema = test_schema();
    let batches = create_test_batch(schema.clone());
    let stream = batches
        .iter()
        .cloned()
        .map(|batch| Ok(ArrowBatch { batch }))
        .collect();
    let chunks = ArrowRecordBatchIpcStreamFormat::new(schema.clone())
        .to_bytes_stream(stream, &StreamBodyAsOptions::new());
    assert_eq!(chunks.len(), batches.len() + 1);
    assert_eq!(
        chunks.last().unwrap(),
        &Ok(Bytes::from(END_OF_STREAM.to_vec()))
    );
    let wire = joined(&chunks);
    assert_eq!(&wire[wire.len() - 8..], &END_OF_STREAM);
    let reader =
        arrow::ipc::reader::StreamReader::try_new(std::io::Cursor::new(wire), None).unwrap();
    assert_eq!(reader.schema(), schema);
    let read: Vec<RecordBatch> = reader.map(|b| b.unwrap()).collect();
    assert_eq!(read, batches);
}

#[test]
fn arrow_stream_of_nothing_is_the_end_marker() {
    let chunks = ArrowRecordBatchIpcStreamFormat::new(test_schema())
        .to_bytes_stream(Vec::new(), &StreamBodyAsOptions::new());
    assert_eq!(chunks, vec![Ok(Bytes::from(END_OF_STREAM.to_vec()))]);
    assert_eq!(write_continuation(), Bytes::from(END_OF_STREAM.to_vec()));
}

#[test]
fn arrow_stream_with_options_uses_them() {
    let schema = test_schema();
    let options =
        arrow::ipc::writer::IpcWriteOptions::try_new(64, false, arrow::ipc::MetadataVersion::V5)
            .unwrap();
    let stream = create_test_batch(schema.clone())
        .into_iter()
        .map(|batch| Ok(ArrowBatch { batch }))
        .collect();
    let chunks = ArrowRecordBatchIpcStreamFormat::with_options(schema.clone(), options.clone())
        .to_bytes_stream(stream, &StreamBodyAsOptions::new());

    let mut writer =
        arrow::ipc::writer::StreamWriter::try_new_with_options(Vec::new(), &schema, options)
            .unwrap();
    for batch in create_test_batch(schema.clone()) {
        writer.write(&batch).unwrap();
    }
    writer.finish().unwrap();
    assert_eq!(joined(&chunks), writer.into_inner().unwrap());
}

#[test]
fn arrow_error_ends_the_stream_without_the_end_marker() {
    let schema = test_schema();
    let mut batches = create_test_batch(schema.clone()).into_iter();
    let stream = vec![
        Ok(ArrowBatch {
            batch: batches.next().unwrap(),
        }),
        Err(StreamError::source("lost".to_string())),
        Ok(ArrowBatch {
            batch: batches.next().unwrap(),
        }),
    ];
    let chunks = ArrowRecordBatchIpcStreamFormat::new(schema)
        .to_bytes_stream(stream, &StreamBodyAsOptions::new());
    assert_eq!(chunks.len(), 2);
    assert!(chunks[0].is_ok());
    assert_eq!(chunks[1], Err(StreamError::source("lost".to_string())));
}

#[test]
fn arrow_self_contained_chunks_read_back_one_by_one() {
    let schema = test_schema();
    let batches = create_test_batch(schema.clone());
    let stream = batches
        .iter()
        .cloned()
        .map(|batch| Ok(ArrowBatch { batch }))
        .collect();
    let chunks =
        ArrowRecordBatchIpcStreamFormat::new(schema.clone()).to_self_contained_stream(stream);
    assert_eq!(chunks.len(), batches.len());
    for (chunk, batch) in chunks.iter().zip(batches.iter()) {
        let wire = chunk.as_ref().unwrap().to_vec();
        assert_eq!(&wire[wire.len() - 8..], &END_OF_STREAM);
        let mut writer = arrow::ipc::writer::StreamWriter::try_new(Vec::new(), &schema).unwrap();
        writer.write(batch).unwrap();
        writer.finish().unwrap();
        assert_eq!(wire, writer.into_inner().unwrap());
        let reader =
            arrow::ipc::reader::StreamReader::try_new(std::io::Cursor::new(wire), None).unwrap();
        let read: Vec<RecordBatch> = reader.map(|b| b.unwrap()).collect();
        assert_eq!(read, vec![batch.clone()]);
    }
}

#[test]
fn arrow_self_contained_stream_of_nothing_is_nothing() {
    let chunks =
        ArrowRecordBatchIpcStreamFormat::new(test_schema()).to_self_contained_stream(Vec::new());
    assert_eq!(chunks, Vec::new());
}

#[test]
fn arrow_self_contained_stream_ends_at_the_first_error() {
    let schema = test_schema();
    let mut batches = create_test_batch(schema.clone()).into_iter();
    let stream = vec![
        Ok(ArrowBatch {
            batch: batches.next().unwrap(),
        }),
        Err(StreamError::source("lost".to_string())),
        Ok(ArrowBatch {
            batch: batches.next().unwrap(),
        }),
    ];
    let chunks = ArrowRecordBatchIpcStreamFormat::new(schema).to_self_contained_stream(stream);
    assert_eq!(chunks.len(), 2);
    assert!(chunks[0].is_ok());
    assert_eq!(chunks[1], Err(StreamError::source("lost".to_string())));
}

#[test]
fn arrow_encode_alone_always_carries_the_schema() {
    let schema = test_schema();
    let format = ArrowRecordBatchIpcStreamFormat::new(schema.clone());
    for batch in create_test_batch(schema.clone()).into_iter().take(3) {
        let parts = format.encode_alone(&ArrowBatch { batch }).unwrap();
        assert!(parts.preamble.is_some());
        let mut expected = parts.preamble.clone().unwrap();
        expected.extend_from_slice(&parts.messages);
        expected.extend_from_slice(&END_OF_STREAM);
        assert_eq!(parts.into_stream(), Bytes::from(expected));
    }
}

#[test]
fn arrow_first_chunk_alone_carries_the_schema() {
    let schema = test_schema();
    let batches = create_test_batch(schema.clone());
    let stream = batches
        .iter()
        .take(3)
        .cloned()
        .map(|batch| Ok(ArrowBatch { batch }))
        .collect();
    let format = ArrowRecordBatchIpcStreamFormat::new(schema.clone());
    let chunks = format.to_bytes_stream(stream, &StreamBodyAsOptions::new());
    assert_eq!(chunks.len(), 4);

    let mut state = format.start();
    let first = format
        .encode_batch(
            &mut state,
            &ArrowBatch {
                batch: batches[0].clone(),
            },
        )
        .unwrap();
    let preamble = first.preamble.clone().unwrap();
    let first_chunk = chunks[0].as_ref().unwrap();
    assert_eq!(&first_chunk[..preamble.len()], &preamble[..]);
    assert_eq!(&first_chunk[preamble.len()..], &first.messages[..]);
    for (index, chunk) in chunks.iter().enumerate().skip(1).take(2) {
        let parts = format
            .encode_batch(
                &mut state,
                &ArrowBatch {
                    batch: batches[index].clone(),
                },
            )
            .unwrap();
        assert!(parts.preamble.is_none());
        assert_eq!(chunk.as_ref().unwrap().to_vec(), parts.messages);
    }
}
