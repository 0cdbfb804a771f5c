use otel_multivariate_time_series::envelope::{AnyValue, KeyValue};
use otel_multivariate_time_series::bench::{first_divergence, native_digest, trace_digest};
use otel_multivariate_time_series::event::{BatchPolicy, EventBatchHandler};
use otel_multivariate_time_series::json_trace::{Evt, JsonTrace, Status};
use otel_multivariate_time_series::native_trace::{json_trace_to_span, NativeTraceHandler, Span, SpanStatus};

fn span(name: &str) -> Span {
    Span {
        trace_id: vec![1, 2, 3],
        span_id: vec![4],
        trace_state: String::new(),
        parent_span_id: vec![],
        name: name.to_string(),
        kind: 2,
        start_time_unix_nano: 10,
        end_time_unix_nano: 20,
        attributes: vec![KeyValue { key: "k".to_string(), value: Some(AnyValue::StringValue("v".to_string())) }],
        dropped_attributes_count: 0,
        status: Some(SpanStatus { message: String::new(), code: 1 }),
    }
}

#[test]
fn native_handler_records_and_clears() {
    let mut h = NativeTraceHandler::new();
    let empty = h.serialize().unwrap();
    h.record(span("a"));
    h.record(span("b"));
    assert_eq!(h.resource_spans.instrumentation_library_spans[0].spans.len(), 2);
    let full = h.serialize().unwrap();
    assert!(full.len() > empty.len());
    h.clear();
    assert!(h.resource_spans.instrumentation_library_spans[0].spans.is_empty());
    assert_eq!(h.serialize().unwrap(), empty);
}

#[test]
fn empty_native_handler_bytes() {
    let h = NativeTraceHandler::new();
    // resource (empty message), one library with name and version
    let bytes = h.serialize().unwrap();
    assert_eq!(
        bytes,
        vec![
            0x0a, 0x00, 0x12, 0x12, 0x0a, 0x10, 0x0a, 0x09, b'o', b't', b'e', b'l', b'-', b'r', b'u', b's', b't',
            0x12, 0x03, b'1', b'.', b'0'
        ]
    );
}

#[test]
fn native_handler_round_trips() {
    let mut h = NativeTraceHandler::new();
    h.record(span("a"));
    h.record(span("b"));
    let buf = h.serialize().unwrap();
    let mut fresh = NativeTraceHandler::new();
    fresh.deserialize(buf.clone()).unwrap();
    let spans = &fresh.resource_spans.instrumentation_library_spans[0].spans;
    assert_eq!(spans.len(), 2);
    assert_eq!(spans[1].name, "b");
    assert_eq!(spans[0].trace_id, vec![1, 2, 3]);
    assert_eq!(fresh.serialize().unwrap(), buf);
    assert!(fresh.deserialize(vec![0x12, 0x7f]).is_err());
    assert_eq!(fresh.serialize().unwrap(), buf);
}

#[test]
fn digests_agree_between_representations() {
    let traces: Vec<JsonTrace> = (0..6)
        .map(|i| JsonTrace {
            evt: Evt {
                trace_id: format!("t{}", i),
                span_id: "s".to_string(),
                trace_state: None,
                parent_span_id: None,
                name: "n".to_string(),
                kind: if i % 2 == 0 { Some(i) } else { None },
                start_time_unix_nano: 1,
                end_time_unix_nano: 2,
                status: Status { message: None, code: if i % 3 == 0 { None } else { Some(2) } },
                attributes: Some(vec![("k".to_string(), Some("v".to_string())), ("x".to_string(), None)]),
            },
        })
        .collect();
    let mut columnar: EventBatchHandler<JsonTrace> = EventBatchHandler::new(BatchPolicy::new(6, 0));
    let mut rows = NativeTraceHandler::new();
    for t in &traces {
        columnar.record(t.clone()).unwrap();
        rows.record(json_trace_to_span(t.clone()));
    }
    let batch = &columnar.resource_events.instrumentation_library_events[0].batches[0];
    assert_eq!(trace_digest(batch), 0 + 2 + 4 + 2 * 4);
    assert_eq!(native_digest(&rows), trace_digest(batch));
    let span = &rows.resource_spans.instrumentation_library_spans[0].spans[0];
    assert_eq!(span.trace_id, b"t0".to_vec());
    assert_eq!(span.attributes.len(), 1);
}

fn synthetic_trace(i: i64) -> JsonTrace {
    JsonTrace {
        evt: Evt {
            trace_id: format!("trace-{}", i / 7),
            span_id: format!("span-{}", i),
            trace_state: if i % 5 == 0 { Some("s".to_string()) } else { None },
            parent_span_id: if i % 2 == 0 { Some(format!("span-{}", i - 1)) } else { None },
            name: "GET /".to_string(),
            kind: if i % 4 == 0 { None } else { Some(i % 3) },
            start_time_unix_nano: 1_000 + i as u64,
            end_time_unix_nano: 2_000 + i as u64,
            status: Status { message: None, code: if i % 6 == 0 { None } else { Some(i % 2) } },
            attributes: Some(vec![
                ("http.method".to_string(), Some("GET".to_string())),
                ("http.status".to_string(), if i % 3 == 0 { None } else { Some("200".to_string()) }),
            ]),
        },
    }
}

#[test]
fn implementations_agree_at_every_batch_size() {
    let dataset: Vec<JsonTrace> = (0..2000).map(synthetic_trace).collect();
    for &batch_size in &[10usize, 100, 1000] {
        let mut columnar_results = vec![];
        let mut row_results = vec![];
        for _ in 0..2 {
            let mut columnar: EventBatchHandler<JsonTrace> = EventBatchHandler::new(BatchPolicy::new(batch_size as u32, 0));
            let mut rows = NativeTraceHandler::new();
            let mut start = 0;
            while start + batch_size <= dataset.len() {
                for t in &dataset[start..start + batch_size] {
                    columnar.record(t.clone()).unwrap();
                    rows.record(json_trace_to_span(t.clone()));
                }
                let batch = &columnar.resource_events.instrumentation_library_events[0].batches[0];
                columnar_results.push(format!("{}", trace_digest(batch)));
                row_results.push(format!("{}", native_digest(&rows)));
                let buf = columnar.serialize().unwrap();
                columnar.deserialize(buf).unwrap();
                let buf = rows.serialize().unwrap();
                rows.deserialize(buf).unwrap();
                columnar.reset_batch_event();
                rows.clear();
                start += batch_size;
            }
        }
        assert_eq!(columnar_results.len(), 2 * 2000 / batch_size);
        assert_eq!(first_divergence(&vec![columnar_results, row_results]), None);
    }
}
