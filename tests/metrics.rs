use otel_multivariate_time_series::metrics_decode::decode_resource_metrics_bytes;
use otel_multivariate_time_series::metrics::{gen_columnar_metrics, gen_standard_metrics, Event, Fields, MultivariateDataPoint, Tags};
use otel_multivariate_time_series::metrics_codec::encode_resource_metrics;

fn point(i: i64) -> MultivariateDataPoint {
    MultivariateDataPoint {
        ts_unix_nano: 1_000 + i,
        source_id: "src".to_string(),
        evt: Event {
            fields: Fields {
                dns_lookup_ms: i,
                server_processing_ms: 2 * i,
                health_status: 1,
                tcp_connection_ms: 3,
                tls_handshake_ms: 4,
                failure_count: 0,
                size: 100 + i,
                content_transfer_ms: 5,
            },
            tags: Tags {
                method: "GET".to_string(),
                dns_lookup_ms_label_class: "fast".to_string(),
                source: "s".to_string(),
                url: "http://x".to_string(),
                tls_handshake_ms_label_class: "fast".to_string(),
                remote_address: "1.2.3.4".to_string(),
                content_transfer_ms_label_class: "slow".to_string(),
                server_processing_ms_label_class: "fast".to_string(),
                tcp_connection_ms_label_class: "fast".to_string(),
            },
            timestamp_unix_nano: 1_000 + i,
        },
    }
}

#[test]
fn standard_metrics_have_one_point_per_observation() {
    let ts: Vec<_> = (0..5).map(point).collect();
    let rm = gen_standard_metrics(&ts);
    let lib = &rm.instrumentation_library_metrics[0];
    assert_eq!(lib.metrics.len(), 8);
    assert_eq!(lib.metrics[1].name, "size");
    assert_eq!(lib.metrics[1].unit, "By");
    let points = &lib.metrics[1].gauge.as_ref().unwrap().data_points;
    assert_eq!(points.len(), 5);
    assert_eq!(points[3].as_int, 103);
    assert_eq!(points[3].time_unix_nano, 1_003);
    assert_eq!(points[3].attributes.len(), 9);
    assert_eq!(points[3].attributes[1].key, "url");
}

#[test]
fn columnar_metrics_have_one_column_per_series() {
    let ts: Vec<_> = (0..5).map(point).collect();
    let rm = gen_columnar_metrics(&ts);
    let mm = &rm.instrumentation_library_metrics[0].multivariate_metrics[0];
    assert_eq!(mm.attributes.len(), 9);
    assert_eq!(mm.attributes[3].name, "url");
    assert_eq!(mm.attributes[3].values, vec!["http://x"; 5]);
    assert_eq!(mm.metrics.len(), 8);
    assert_eq!(mm.metrics[2].name, "server_processing_ms");
    assert_eq!(mm.metrics[2].int_values, vec![0, 2, 4, 6, 8]);
    assert_eq!(mm.time_unix_nano_column, vec![1_000, 1_001, 1_002, 1_003, 1_004]);
}

#[test]
fn columnar_encoding_is_smaller() {
    let ts: Vec<_> = (0..50).map(point).collect();
    let row = encode_resource_metrics(&gen_standard_metrics(&ts));
    let col = encode_resource_metrics(&gen_columnar_metrics(&ts));
    assert!(col.len() * 5 < row.len());
    assert_eq!(&row[row.len() - 5..], &[0x1a, 0x03, b't', b'b', b'd']);
}

#[test]
fn metrics_decode_back() {
    let ts: Vec<_> = (0..4).map(point).collect();
    let col = decode_resource_metrics_bytes(&encode_resource_metrics(&gen_columnar_metrics(&ts))).unwrap();
    assert_eq!(col.schema_url, "tbd");
    let mm = &col.instrumentation_library_metrics[0].multivariate_metrics[0];
    assert_eq!(mm.metrics[2].int_values, vec![0, 2, 4, 6]);
    assert_eq!(mm.attributes[3].values, vec!["http://x"; 4]);
    assert_eq!(mm.time_unix_nano_column, vec![1_000, 1_001, 1_002, 1_003]);
    let row = decode_resource_metrics_bytes(&encode_resource_metrics(&gen_standard_metrics(&ts))).unwrap();
    let p = &row.instrumentation_library_metrics[0].metrics[1].gauge.as_ref().unwrap().data_points[3];
    assert_eq!(p.as_int, 103);
    assert_eq!(p.attributes[1].key, "url");
    assert!(decode_resource_metrics_bytes(&[0x12, 0x05, 0x01]).is_none());
}
