use otel_multivariate_time_series::batch::{BatchEvent, ColumnSet};
use otel_multivariate_time_series::arrow_handler::ArrowDataType;
use otel_multivariate_time_series::event::{BatchPolicy, Error, EventBatchHandler, EventCollector};
use otel_multivariate_time_series::http_transaction::HttpTransaction;
use otel_multivariate_time_series::json_trace::{Evt, JsonTrace, Status};
use otel_multivariate_time_series::bitmap::is_valid_value;

fn http(host: &str, port: u16, code: u16) -> HttpTransaction {
    HttpTransaction {
        host: host.to_string(),
        port,
        path: "/".to_string(),
        query: "q=1".to_string(),
        method: "GET".to_string(),
        http_code: code,
        dns_latency_ms: 1,
        tls_handshake_ms: 2,
        content_transfer_ms: 3,
        server_processing_ms: 4,
        request_size_bytes: 100,
        response_size_bytes: 200,
        timestamp_unix_nano: 5_000,
    }
}

fn trace(kind: Option<i64>, attributes: Option<Vec<(String, Option<String>)>>) -> JsonTrace {
    JsonTrace {
        evt: Evt {
            trace_id: "t1".to_string(),
            span_id: "s1".to_string(),
            trace_state: None,
            parent_span_id: Some("parent".to_string()),
            name: "span".to_string(),
            kind,
            start_time_unix_nano: 10,
            end_time_unix_nano: 20,
            status: Status { message: None, code: Some(1) },
            attributes,
        },
    }
}

#[test]
fn three_http_transactions_fill_three_rows() {
    let mut handler: EventBatchHandler<HttpTransaction> = EventBatchHandler::new(BatchPolicy::new(10, 10_000));
    handler.record(http("a", 80, 200)).unwrap();
    handler.record(http("b", 443, 200)).unwrap();
    handler.record(http("c", 8080, 404)).unwrap();
    let batch = &handler.resource_events.instrumentation_library_events[0].batches[0];
    assert_eq!(batch.size, 3);
    assert_eq!(batch.columns.string_values[0].values, vec!["a", "b", "c"]);
    assert_eq!(batch.columns.i64_values[0].values, vec![80, 443, 8080]);
    assert_eq!(batch.columns.i64_values[1].values, vec![200, 200, 404]);
    assert_eq!(batch.start_time_unix_nano_column.len(), 3);
    assert_eq!(batch.end_time_unix_nano_column, batch.start_time_unix_nano_column);
}

#[test]
fn optional_kind_marks_bitmap() {
    let mut handler: EventBatchHandler<JsonTrace> = EventBatchHandler::new(BatchPolicy::new(10, 10_000));
    handler.record(trace(Some(2), None)).unwrap();
    handler.record(trace(None, None)).unwrap();
    let batch = &handler.resource_events.instrumentation_library_events[0].batches[0];
    let kind = &batch.columns.i64_values[0];
    assert_eq!(kind.name, "kind");
    assert_eq!(kind.values, vec![2, 0]);
    assert!(is_valid_value(&kind.validity_bitmap, 0));
    assert!(!is_valid_value(&kind.validity_bitmap, 1));
    assert_eq!(batch.columns.string_values[2].values, vec!["", ""]);
    assert!(!is_valid_value(&batch.columns.string_values[2].validity_bitmap, 0));
    assert!(is_valid_value(&batch.columns.string_values[3].validity_bitmap, 1));
}

#[test]
fn attributes_go_to_the_auxiliary_entity() {
    let mut handler: EventBatchHandler<JsonTrace> = EventBatchHandler::new(BatchPolicy::new(10, 10_000));
    let attrs = vec![
        ("k1".to_string(), Some("v1".to_string())),
        ("k2".to_string(), Some("v2".to_string())),
    ];
    handler.record(trace(Some(1), Some(attrs))).unwrap();
    let batch = &handler.resource_events.instrumentation_library_events[0].batches[0];
    let aux = &batch.auxiliary_entities[0];
    assert_eq!(aux.parent_column, "attributes");
    assert_eq!(aux.size, 2);
    assert_eq!(aux.parent_ranks, vec![0, 0]);
    assert_eq!(aux.columns.string_values[0].values, vec!["k1", "k2"]);
    assert_eq!(aux.columns.string_values[1].values, vec!["v1", "v2"]);
}

#[test]
fn attributes_without_value_are_skipped_and_ranks_follow_rows() {
    let mut handler: EventBatchHandler<JsonTrace> = EventBatchHandler::new(BatchPolicy::new(10, 10_000));
    handler.record(trace(None, Some(vec![("a".to_string(), None), ("b".to_string(), Some("x".to_string()))]))).unwrap();
    handler.record(trace(None, None)).unwrap();
    handler.record(trace(None, Some(vec![("c".to_string(), Some("y".to_string()))]))).unwrap();
    let aux = &handler.resource_events.instrumentation_library_events[0].batches[0].auxiliary_entities[0];
    assert_eq!(aux.parent_ranks, vec![0, 2]);
    assert_eq!(aux.columns.string_values[0].values, vec!["b", "c"]);
}

#[test]
fn eleventh_record_flushes_once() {
    let mut handler: EventBatchHandler<HttpTransaction> = EventBatchHandler::new(BatchPolicy::new(10, 10_000));
    for i in 0..10 {
        handler.record(http("h", i as u16, 200)).unwrap();
    }
    assert!(handler.pending.is_empty());
    handler.record(http("last", 1, 500)).unwrap();
    assert_eq!(handler.pending.len(), 1);
    let batch = &handler.resource_events.instrumentation_library_events[0].batches[0];
    assert_eq!(batch.size, 1);
    for c in &batch.columns.i64_values {
        assert_eq!(c.values.len(), 1);
    }
    for c in &batch.columns.string_values {
        assert_eq!(c.values.len(), 1);
    }
    assert_eq!(batch.columns.string_values[0].values, vec!["last"]);
    let pending = handler.take_pending();
    assert_eq!(pending.len(), 1);
    assert!(handler.pending.is_empty());
}

#[test]
fn size_cycles_through_max_size() {
    let mut handler: EventBatchHandler<HttpTransaction> = EventBatchHandler::new(BatchPolicy::new(3, 10_000));
    let mut sizes = vec![];
    for n in 1..=7u16 {
        handler.record(http("h", n, 200)).unwrap();
        sizes.push(handler.resource_events.instrumentation_library_events[0].batches[0].size);
    }
    assert_eq!(sizes, vec![1, 2, 3, 1, 2, 3, 1]);
    assert_eq!(handler.pending.len(), 2);
}

#[test]
fn zero_capacity_policy_refuses_events() {
    let mut handler: EventBatchHandler<HttpTransaction> = EventBatchHandler::new(BatchPolicy::new(0, 0));
    assert_eq!(handler.record(http("a", 1, 200)), Err(Error::CapacityError));
    assert_eq!(handler.resource_events.instrumentation_library_events[0].batches[0].size, 0);
}

#[test]
fn reset_twice_is_reset_once() {
    let mut handler: EventBatchHandler<JsonTrace> = EventCollector::new(BatchPolicy::new(4, 0)).event_handler();
    handler.record(trace(Some(3), Some(vec![("k".to_string(), Some("v".to_string()))]))).unwrap();
    handler.reset_batch_event();
    let once = handler.serialize().unwrap();
    let batch = &handler.resource_events.instrumentation_library_events[0].batches[0];
    assert_eq!(batch.size, 0);
    assert!(batch.columns.i64_values[0].values.is_empty());
    assert!(batch.columns.i64_values[0].validity_bitmap.iter().all(|b| *b == 0));
    assert_eq!(batch.auxiliary_entities[0].size, 0);
    assert!(batch.auxiliary_entities[0].parent_ranks.is_empty());
    handler.reset_batch_event();
    assert_eq!(handler.serialize().unwrap(), once);
    handler.reset_batch_event();
    assert_eq!(handler.serialize().unwrap(), once);
}

#[test]
fn serialize_does_not_change_the_handler() {
    let mut handler: EventBatchHandler<HttpTransaction> = EventBatchHandler::new(BatchPolicy::new(10, 0));
    handler.record(http("a", 80, 200)).unwrap();
    let first = handler.serialize().unwrap();
    let second = handler.serialize().unwrap();
    assert_eq!(first, second);
    assert!(!first.is_empty());
}

#[test]
fn record_batch_handler_starts_empty_and_counts_rows() {
    let collector = EventCollector::new(BatchPolicy::new(2, 0));
    let mut h = collector.arrow_event_handler::<JsonTrace>();
    assert_eq!(h.schema_url, "urn:project_a:trace:service");
    assert_eq!(h.arrow_schema.len(), 8);
    assert_eq!(h.arrow_schema[7].name, "attributes");
    assert!(matches!(h.arrow_schema[7].data_type, ArrowDataType::List(_)));
    assert!(h.resource_events.schema_url.is_empty());
    let lib = &h.resource_events.instrumentation_library_events[0];
    assert_eq!(lib.instrumentation_library.as_ref().unwrap().name, "otel-rust");
    assert_eq!(lib.batches[0].size, 0);
    assert!(lib.batches[0].arrow_buffer.is_empty());
    h.record(trace(Some(1), None)).unwrap();
    h.record(trace(None, None)).unwrap();
    h.record(trace(None, None)).unwrap();
    let b = &h.resource_events.instrumentation_library_events[0].batches[0];
    assert_eq!(b.size, 1);
    assert_eq!(b.start_time_unix_nano_column, vec![10]);
    assert_eq!(b.end_time_unix_nano_column, vec![20]);
    let mut none = EventCollector::new(BatchPolicy::new(0, 0)).arrow_event_handler::<JsonTrace>();
    assert_eq!(none.record(trace(None, None)), Err(Error::CapacityError));
}

#[test]
fn fresh_handler_message_is_fixed() {
    let handler: EventBatchHandler<JsonTrace> = EventBatchHandler::new(BatchPolicy::new(20, 0));
    let re = &handler.resource_events;
    assert!(re.schema_url.is_empty());
    assert_eq!(re.instrumentation_library_events.len(), 1);
    assert_eq!(re.instrumentation_library_events[0].batches.len(), 1);
    let b = &re.instrumentation_library_events[0].batches[0];
    assert_eq!(b.columns.i64_values[0].validity_bitmap.len(), 3);
    assert!(b.columns.string_values[0].validity_bitmap.is_empty());
    assert!(handler.to_json_value().is_empty());
}

#[test]
fn timer_flushes_a_waiting_batch() {
    let mut handler: EventBatchHandler<HttpTransaction> = EventBatchHandler::new(BatchPolicy::new(10, 500));
    assert!(!handler.on_tick(1_000));
    handler.record(http("a", 80, 200)).unwrap();
    assert!(!handler.on_tick(499));
    assert!(handler.pending.is_empty());
    assert!(handler.on_tick(500));
    assert_eq!(handler.pending.len(), 1);
    assert_eq!(handler.resource_events.instrumentation_library_events[0].batches[0].size, 0);
}

#[test]
fn zero_capacity_optional_columns_have_empty_bitmaps() {
    let handler: EventBatchHandler<JsonTrace> = EventBatchHandler::new(BatchPolicy::new(0, 0));
    let b = &handler.resource_events.instrumentation_library_events[0].batches[0];
    assert_eq!(b.columns.i64_values[0].name, "kind");
    assert!(b.columns.i64_values[0].validity_bitmap.is_empty());
    assert!(b.columns.string_values[2].validity_bitmap.is_empty());
}

#[test]
fn declared_columns_are_named() {
    let handler: EventBatchHandler<HttpTransaction> = EventBatchHandler::new(BatchPolicy::new(8, 0));
    let b = &handler.resource_events.instrumentation_library_events[0].batches[0];
    let names: Vec<&str> = b.columns.i64_values.iter().map(|c| c.name.as_str()).collect();
    assert_eq!(names, vec!["port", "http_code", "dns_latency_ms", "tls_handshake_ms", "content_transfer_ms", "server_processing_ms", "request_size_bytes", "response_size_bytes"]);
    assert_eq!(b.columns.string_values[3].name, "method");
}

#[test]
fn a_malformed_later_batch_is_refused() {
    let mut source: EventBatchHandler<HttpTransaction> = EventBatchHandler::new(BatchPolicy::new(8, 0));
    source.record(http("a", 1, 200)).unwrap();
    source.resource_events.instrumentation_library_events[0].batches.push(BatchEvent {
        schema_url: String::new(),
        size: 3,
        start_time_unix_nano_column: vec![],
        end_time_unix_nano_column: vec![],
        columns: ColumnSet::empty(),
        auxiliary_entities: vec![],
    });
    let buf = source.serialize().unwrap();
    let mut target: EventBatchHandler<HttpTransaction> = EventBatchHandler::new(BatchPolicy::new(8, 0));
    let before = target.serialize().unwrap();
    assert_eq!(target.deserialize(buf), Err(Error::DecodeError));
    assert_eq!(target.serialize().unwrap(), before);
}
