use otel_multivariate_time_series::bench::{column_sum, first_divergence};
use otel_multivariate_time_series::bitmap::is_valid_value;
use otel_multivariate_time_series::event::{BatchPolicy, Error, EventBatchHandler};
use otel_multivariate_time_series::http_transaction::HttpTransaction;
use otel_multivariate_time_series::json::{JsonScalar, JsonRecord};
use otel_multivariate_time_series::json_trace::{Evt, JsonTrace, Status};
use otel_multivariate_time_series::column::Column;
use otel_multivariate_time_series::column_codec::{decode_column_bytes, encode_column};

fn http(i: u32) -> HttpTransaction {
    HttpTransaction {
        host: format!("host{}", i % 7),
        port: 80,
        path: "/index".to_string(),
        query: String::new(),
        method: "GET".to_string(),
        http_code: if i % 3 == 0 { 500 } else { 200 },
        dns_latency_ms: i,
        tls_handshake_ms: 2 * i,
        content_transfer_ms: 3,
        server_processing_ms: 4,
        request_size_bytes: 10,
        response_size_bytes: u64::MAX,
        timestamp_unix_nano: 7_000 + i as u64,
    }
}

fn trace(kind: Option<i64>, code: Option<i64>, attrs: Vec<(&str, Option<&str>)>) -> JsonTrace {
    JsonTrace {
        evt: Evt {
            trace_id: "abc".to_string(),
            span_id: "def".to_string(),
            trace_state: Some("st".to_string()),
            parent_span_id: None,
            name: "op".to_string(),
            kind,
            start_time_unix_nano: 1_000,
            end_time_unix_nano: 2_000,
            status: Status { message: Some("ok".to_string()), code },
            attributes: Some(attrs.into_iter().map(|(k, v)| (k.to_string(), v.map(|s| s.to_string()))).collect()),
        },
    }
}

#[test]
fn column_bytes_use_base_128_varints() {
    let mut c: Column<i64> = Column::new_required("n", 2);
    c.values = vec![300, 1];
    let mut buf = vec![];
    encode_column(&c, &mut buf);
    assert_eq!(buf, vec![0x0a, 0x01, b'n', 0x3a, 0x03, 0xac, 0x02, 0x01]);
    let back: Column<i64> = decode_column_bytes(&buf).unwrap();
    assert_eq!(back.values, vec![300, 1]);
    assert_eq!(back.name, "n");
    assert!(decode_column_bytes::<i64>(&[0x3a, 0x01, 0x80]).is_none());
    assert!(decode_column_bytes::<i64>(&[0x0a, 0x01, 0xff]).is_none());
    let s: Column<String> = decode_column_bytes(&[0x3a, 0x02, 0xc3, 0xa9]).unwrap();
    assert_eq!(s.values, vec!["é"]);
}

#[test]
fn hundred_events_survive_a_round_trip() {
    let mut handler: EventBatchHandler<HttpTransaction> = EventBatchHandler::new(BatchPolicy::new(100, 0));
    for i in 0..100 {
        handler.record(http(i)).unwrap();
    }
    let batch = &handler.resource_events.instrumentation_library_events[0].batches[0];
    let before = column_sum(&batch.columns.i64_values[1]);
    let expected: i128 = (0..100).map(|i| if i % 3 == 0 { 500 } else { 200 }).sum();
    assert_eq!(before, expected);
    let buf = handler.serialize().unwrap();

    let mut fresh: EventBatchHandler<HttpTransaction> = EventBatchHandler::new(BatchPolicy::new(100, 0));
    fresh.deserialize(buf.clone()).unwrap();
    let decoded = &fresh.resource_events.instrumentation_library_events[0].batches[0];
    assert_eq!(decoded.size, 100);
    assert_eq!(column_sum(&decoded.columns.i64_values[1]), before);
    assert_eq!(decoded.columns.i64_values[7].values[0], -1);
    assert_eq!(decoded.columns.string_values[0].values, batch.columns.string_values[0].values);
    assert_eq!(decoded.start_time_unix_nano_column, batch.start_time_unix_nano_column);
    assert_eq!(fresh.serialize().unwrap(), buf);
}

#[test]
fn traces_round_trip_with_bitmaps_and_children() {
    let mut handler: EventBatchHandler<JsonTrace> = EventBatchHandler::new(BatchPolicy::new(10, 0));
    handler.record(trace(Some(2), None, vec![("k1", Some("v1")), ("k2", None)])).unwrap();
    handler.record(trace(None, Some(-3), vec![])).unwrap();
    handler.record(trace(Some(5), Some(1), vec![("a", Some("b")), ("c", Some("d"))])).unwrap();
    let buf = handler.serialize().unwrap();
    let mut fresh: EventBatchHandler<JsonTrace> = EventBatchHandler::new(BatchPolicy::new(10, 0));
    fresh.deserialize(buf.clone()).unwrap();
    let a = &handler.resource_events.instrumentation_library_events[0].batches[0];
    let b = &fresh.resource_events.instrumentation_library_events[0].batches[0];
    for (x, y) in a.columns.i64_values.iter().zip(b.columns.i64_values.iter()) {
        assert_eq!(x.values, y.values);
        assert_eq!(x.validity_bitmap, y.validity_bitmap);
        assert_eq!(x.name, y.name);
    }
    for (x, y) in a.columns.string_values.iter().zip(b.columns.string_values.iter()) {
        assert_eq!(x.values, y.values);
        assert_eq!(x.validity_bitmap, y.validity_bitmap);
    }
    assert_eq!(b.auxiliary_entities[0].parent_ranks, vec![0, 2, 2]);
    assert_eq!(b.auxiliary_entities[0].columns.string_values[1].values, vec!["v1", "b", "d"]);
    assert_eq!(fresh.serialize().unwrap(), buf);
    // recording goes on after a round trip
    fresh.record(trace(None, None, vec![])).unwrap();
    assert_eq!(fresh.resource_events.instrumentation_library_events[0].batches[0].size, 4);
}

#[test]
fn empty_batch_round_trips() {
    let handler: EventBatchHandler<JsonTrace> = EventBatchHandler::new(BatchPolicy::new(10, 0));
    let buf = handler.serialize().unwrap();
    let mut fresh: EventBatchHandler<JsonTrace> = EventBatchHandler::new(BatchPolicy::new(10, 0));
    fresh.deserialize(buf.clone()).unwrap();
    let b = &fresh.resource_events.instrumentation_library_events[0].batches[0];
    assert_eq!(b.size, 0);
    assert!(b.columns.i64_values.iter().all(|c| c.values.is_empty()));
    assert!(handler.to_json_value().is_empty());
}

#[test]
fn null_rows_keep_values_and_clear_bits() {
    let mut handler: EventBatchHandler<JsonTrace> = EventBatchHandler::new(BatchPolicy::new(10, 0));
    handler.record(trace(None, None, vec![])).unwrap();
    handler.record(trace(None, None, vec![])).unwrap();
    let buf = handler.serialize().unwrap();
    let mut fresh: EventBatchHandler<JsonTrace> = EventBatchHandler::new(BatchPolicy::new(10, 0));
    fresh.deserialize(buf).unwrap();
    let kind = &fresh.resource_events.instrumentation_library_events[0].batches[0].columns.i64_values[0];
    assert_eq!(kind.values, vec![0, 0]);
    assert!(!is_valid_value(&kind.validity_bitmap, 0));
    assert!(!is_valid_value(&kind.validity_bitmap, 1));
    assert!(kind.validity_bitmap.iter().all(|b| *b == 0));
}

#[test]
fn malformed_or_foreign_buffers_are_refused() {
    let mut handler: EventBatchHandler<JsonTrace> = EventBatchHandler::new(BatchPolicy::new(10, 0));
    handler.record(trace(Some(1), None, vec![])).unwrap();
    let before = handler.serialize().unwrap();
    assert_eq!(handler.deserialize(vec![0xff, 0xff]), Err(Error::DecodeError));
    assert_eq!(handler.deserialize(vec![0x0a, 0x05, 0x01]), Err(Error::DecodeError));
    let http_handler: EventBatchHandler<HttpTransaction> = EventBatchHandler::new(BatchPolicy::new(10, 0));
    assert_eq!(handler.deserialize(http_handler.serialize().unwrap()), Err(Error::DecodeError));
    assert_eq!(handler.serialize().unwrap(), before);
    // unknown fields are skipped
    let mut with_unknown = before.clone();
    with_unknown.extend_from_slice(&[0xf8, 0x01, 0x07]);
    handler.deserialize(with_unknown).unwrap();
    assert_eq!(handler.serialize().unwrap(), before);
}

#[test]
fn batch_over_capacity_is_refused_on_decode() {
    let mut big: EventBatchHandler<HttpTransaction> = EventBatchHandler::new(BatchPolicy::new(5, 0));
    for i in 0..5 {
        big.record(http(i)).unwrap();
    }
    let mut small: EventBatchHandler<HttpTransaction> = EventBatchHandler::new(BatchPolicy::new(4, 0));
    assert_eq!(small.deserialize(big.serialize().unwrap()), Err(Error::DecodeError));
}

#[test]
fn json_projection_of_traces() {
    let mut handler: EventBatchHandler<JsonTrace> = EventBatchHandler::new(BatchPolicy::new(10, 0));
    handler.record(trace(Some(2), None, vec![("k1", Some("v1")), ("k2", Some("v2"))])).unwrap();
    handler.record(trace(None, Some(7), vec![])).unwrap();
    let rows = handler.to_json_value();
    assert_eq!(rows.len(), 2);
    let first = &rows[0];
    assert_eq!(first.entries[0], ("@schema_url".to_string(), JsonScalar::Str("urn:project_a:trace:service".to_string())));
    assert_eq!(first.entries[1], ("@start_time_unix_nano".to_string(), JsonScalar::UInt(1_000)));
    assert_eq!(first.entries[2], ("@end_time_unix_nano".to_string(), JsonScalar::UInt(2_000)));
    assert_eq!(first.entries[3], ("kind".to_string(), JsonScalar::Int(2)));
    assert!(!first.entries.iter().any(|(k, _)| k == "status.code"));
    assert!(!first.entries.iter().any(|(k, _)| k == "parent_span_id"));
    assert_eq!(first.children.len(), 1);
    assert_eq!(first.children[0].0, "attributes");
    assert_eq!(
        first.children[0].1,
        vec![
            JsonRecord { entries: vec![("name".to_string(), JsonScalar::Str("k1".to_string())), ("value".to_string(), JsonScalar::Str("v1".to_string()))] },
            JsonRecord { entries: vec![("name".to_string(), JsonScalar::Str("k2".to_string())), ("value".to_string(), JsonScalar::Str("v2".to_string()))] },
        ]
    );
    let second = &rows[1];
    assert!(second.children.is_empty());
    assert!(second.entries.contains(&("status.code".to_string(), JsonScalar::Int(7))));
    assert!(!second.entries.iter().any(|(k, _)| k == "kind"));
}

#[test]
fn equivalence_check_finds_first_divergence() {
    let same = vec![vec!["1".to_string(), "2".to_string()], vec!["1".to_string(), "2".to_string()]];
    assert_eq!(first_divergence(&same), None);
    let diff = vec![
        vec!["1".to_string()],
        vec!["1".to_string()],
        vec!["3".to_string()],
        vec!["4".to_string()],
    ];
    assert_eq!(first_divergence(&diff), Some(2));
    assert_eq!(first_divergence(&vec![]), None);
}
