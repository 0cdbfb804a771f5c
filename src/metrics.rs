//! Multivariate time series and the two metric messages built from them:
//! the row-oriented one (one data point per metric and time, each with all
//! its attributes) and the columnar one (one column per attribute and per
//! metric).
use crate::envelope::{AnyValue, AnyValueView, InstrumentationLibrary, KeyValue, KeyValueView, LibraryView, Resource, ResourceView};
use vstd::prelude::*;

verus! {

/// The labels of one observation.
#[derive(Debug, Clone)]
pub struct Tags {
    pub method: String,
    pub dns_lookup_ms_label_class: String,
    pub source: String,
    pub url: String,
    pub tls_handshake_ms_label_class: String,
    pub remote_address: String,
    pub content_transfer_ms_label_class: String,
    pub server_processing_ms_label_class: String,
    pub tcp_connection_ms_label_class: String,
}

/// The measurements of one observation.
#[derive(Debug, Clone)]
pub struct Fields {
    pub dns_lookup_ms: i64,
    pub server_processing_ms: i64,
    pub health_status: i64,
    pub tcp_connection_ms: i64,
    pub tls_handshake_ms: i64,
    pub failure_count: i64,
    pub size: i64,
    pub content_transfer_ms: i64,
}

/// One observation: its measurements, labels and time.
#[derive(Debug, Clone)]
pub struct Event {
    pub fields: Fields,
    pub tags: Tags,
    pub timestamp_unix_nano: i64,
}

/// One point of a multivariate time series.
#[derive(Debug, Clone)]
pub struct MultivariateDataPoint {
    pub ts_unix_nano: i64,
    pub source_id: String,
    pub evt: Event,
}

/// An integer gauge point with its attributes.
#[derive(Debug)]
pub struct NumberDataPoint {
    pub attributes: Vec<KeyValue>,
    pub start_time_unix_nano: u64,
    pub time_unix_nano: u64,
    pub as_int: i64,
}

#[derive(Debug)]
pub struct Gauge {
    pub data_points: Vec<NumberDataPoint>,
}

/// A named metric, with its gauge points.
#[derive(Debug)]
pub struct Metric {
    pub name: String,
    pub description: String,
    pub unit: String,
    pub gauge: Option<Gauge>,
}

/// One attribute as a column: its value at each time.
#[derive(Debug)]
pub struct ColumnarAttribute {
    pub name: String,
    pub values: Vec<String>,
}

/// One integer gauge as a column: its value at each time.
#[derive(Debug)]
pub struct ColumnarMetric {
    pub name: String,
    pub description: String,
    pub unit: String,
    pub int_values: Vec<i64>,
}

/// Metrics sharing attributes and times, as parallel columns.
#[derive(Debug)]
pub struct MultivariateMetric {
    pub attributes: Vec<ColumnarAttribute>,
    pub time_unix_nano_column: Vec<u64>,
    pub start_time_unix_nano_column: Vec<u64>,
    pub metrics: Vec<ColumnarMetric>,
}

#[derive(Debug)]
pub struct InstrumentationLibraryMetrics {
    pub instrumentation_library: Option<InstrumentationLibrary>,
    pub metrics: Vec<Metric>,
    pub multivariate_metrics: Vec<MultivariateMetric>,
    pub schema_url: String,
}

#[derive(Debug)]
pub struct ResourceMetrics {
    pub resource: Option<Resource>,
    pub instrumentation_library_metrics: Vec<InstrumentationLibraryMetrics>,
    pub schema_url: String,
}

/// The string attribute `key`: `value`.
pub open spec fn str_attr(key: Seq<char>, value: Seq<char>) -> KeyValueView {
    KeyValueView { key, value: Some(AnyValueView::StringValue(value)) }
}

pub open spec fn kv_views(v: Seq<KeyValue>) -> Seq<KeyValueView> {
    Seq::new(v.len(), |i: int| v[i]@)
}

/// The attributes of a row-oriented data point, in order.
pub open spec fn point_attributes(t: Tags) -> Seq<KeyValueView> {
    seq![str_attr("method"@, t.method@), str_attr("url"@, t.url@), str_attr("dns_lookup_ms_label_class"@, t.dns_lookup_ms_label_class@), str_attr("remote_address"@, t.remote_address@), str_attr("server_processing_ms_label_class"@, t.server_processing_ms_label_class@), str_attr("source"@, t.source@), str_attr("tcp_connection_ms_label_class"@, t.tcp_connection_ms_label_class@), str_attr("tls_handshake_ms_label_class"@, t.tls_handshake_ms_label_class@), str_attr("content_transfer_ms_label_class"@, t.content_transfer_ms_label_class@)]
}

fn string_attr(key: &str, value: &String) -> (r: KeyValue)
    ensures
        r@ == str_attr(key@, value@),
{
    KeyValue { key: key.to_owned(), value: Some(AnyValue::StringValue(value.clone())) }
}

fn attributes_of(t: &Tags) -> (r: Vec<KeyValue>)
    ensures
        kv_views(r@) == point_attributes(*t),
{
    let mut r: Vec<KeyValue> = Vec::new();
    r.push(string_attr("method", &t.method));
    r.push(string_attr("url", &t.url));
    r.push(string_attr("dns_lookup_ms_label_class", &t.dns_lookup_ms_label_class));
    r.push(string_attr("remote_address", &t.remote_address));
    r.push(string_attr("server_processing_ms_label_class", &t.server_processing_ms_label_class));
    r.push(string_attr("source", &t.source));
    r.push(string_attr("tcp_connection_ms_label_class", &t.tcp_connection_ms_label_class));
    r.push(string_attr("tls_handshake_ms_label_class", &t.tls_handshake_ms_label_class));
    r.push(string_attr("content_transfer_ms_label_class", &t.content_transfer_ms_label_class));
    assert(kv_views(r@) =~= point_attributes(*t));
    r
}

/// The measurement that metric `m` of the row-oriented message reports.
pub open spec fn row_metric_value(f: Fields, m: int) -> i64 {
    if m == 0 {
        f.dns_lookup_ms
    } else if m == 1 {
        f.size
    } else if m == 2 {
        f.content_transfer_ms
    } else if m == 3 {
        f.failure_count
    } else if m == 4 {
        f.health_status
    } else if m == 5 {
        f.server_processing_ms
    } else if m == 6 {
        f.tcp_connection_ms
    } else {
        f.tls_handshake_ms
    }
}

pub open spec fn row_metric_name(m: int) -> Seq<char> {
    if m == 0 {
        "dns_lookup_ms"@
    } else if m == 1 {
        "size"@
    } else if m == 2 {
        "content_transfer_ms"@
    } else if m == 3 {
        "failure_count"@
    } else if m == 4 {
        "health_status"@
    } else if m == 5 {
        "server_processing_ms"@
    } else if m == 6 {
        "tcp_connection_ms"@
    } else {
        "tls_handshake_ms"@
    }
}

pub open spec fn row_metric_unit(m: int) -> Seq<char> {
    if m == 0 {
        "ms"@
    } else if m == 1 {
        "By"@
    } else if m == 2 {
        "ms"@
    } else if m == 3 {
        ""@
    } else if m == 4 {
        ""@
    } else if m == 5 {
        ""@
    } else if m == 6 {
        "ms"@
    } else {
        "ms"@
    }
}

/// Point `i` of metric `m` reports the measurement of observation `i`,
/// at its time, with its labels.
pub open spec fn point_ok(p: NumberDataPoint, d: MultivariateDataPoint, m: int) -> bool {
    &&& kv_views(p.attributes@) == point_attributes(d.evt.tags)
    &&& p.start_time_unix_nano == d.ts_unix_nano as u64
    &&& p.time_unix_nano == d.ts_unix_nano as u64
    &&& p.as_int == row_metric_value(d.evt.fields, m)
}

fn points_of(time_series: &Vec<MultivariateDataPoint>, m: u64) -> (r: Vec<NumberDataPoint>)
    requires
        m < 8,
    ensures
        r@.len() == time_series@.len(),
        forall|i: int| 0 <= i < r@.len() ==> point_ok(#[trigger] r@[i], time_series@[i], m as int),
{
    let mut r: Vec<NumberDataPoint> = Vec::new();
    let mut i: usize = 0;
    while i < time_series.len()
        invariant
            i <= time_series@.len(),
            m < 8,
            r@.len() == i,
            forall|j: int| 0 <= j < i ==> point_ok(#[trigger] r@[j], time_series@[j], m as int),
        decreases time_series@.len() - i,
    {
        let d = &time_series[i];
        let f = &d.evt.fields;
        let v = if m == 0 {
            f.dns_lookup_ms
        } else if m == 1 {
            f.size
        } else if m == 2 {
            f.content_transfer_ms
        } else if m == 3 {
            f.failure_count
        } else if m == 4 {
            f.health_status
        } else if m == 5 {
            f.server_processing_ms
        } else if m == 6 {
            f.tcp_connection_ms
        } else {
            f.tls_handshake_ms
        };
        r.push(
            NumberDataPoint {
                attributes: attributes_of(&d.evt.tags),
                start_time_unix_nano: d.ts_unix_nano as u64,
                time_unix_nano: d.ts_unix_nano as u64,
                as_int: v,
            },
        );
        i += 1;
    }
    r
}

fn row_metric(time_series: &Vec<MultivariateDataPoint>, m: u64, name: &str, unit: &str) -> (r: Metric)
    requires
        m < 8,
    ensures
        r.name@ == name@,
        r.unit@ == unit@,
        r.description@.len() == 0,
        r.gauge matches Some(g) && g.data_points@.len() == time_series@.len() && forall|i: int|
            0 <= i < g.data_points@.len() ==> point_ok(#[trigger] g.data_points@[i], time_series@[i], m as int),
{
    Metric {
        name: name.to_owned(),
        description: String::new(),
        unit: unit.to_owned(),
        gauge: Some(Gauge { data_points: points_of(time_series, m) }),
    }
}

/// The fixed attributes of the resource that emits the metrics.
pub open spec fn metrics_resource() -> ResourceView {
    ResourceView {
        attributes: seq![str_attr("key_1"@, "val1"@), str_attr("key_2"@, "val2"@), str_attr("key_3"@, "val3"@)],
        dropped_attributes_count: 0,
    }
}

fn resource() -> (r: Resource)
    ensures
        r@ == metrics_resource(),
{
    let mut attributes: Vec<KeyValue> = Vec::new();
    attributes.push(KeyValue { key: "key_1".to_owned(), value: Some(AnyValue::StringValue("val1".to_owned())) });
    attributes.push(KeyValue { key: "key_2".to_owned(), value: Some(AnyValue::StringValue("val2".to_owned())) });
    attributes.push(KeyValue { key: "key_3".to_owned(), value: Some(AnyValue::StringValue("val3".to_owned())) });
    let r = Resource { attributes, dropped_attributes_count: 0 };
    assert(r@.attributes =~= metrics_resource().attributes);
    r
}

/// The row-oriented metrics of a time series: eight gauges (dns_lookup_ms,
/// size, content_transfer_ms, failure_count, health_status,
/// server_processing_ms, tcp_connection_ms, tls_handshake_ms), each with
/// one point per observation carrying all nine labels.
pub fn gen_standard_metrics(time_series: &Vec<MultivariateDataPoint>) -> (r: ResourceMetrics)
    ensures
        r.resource matches Some(res) && res@ == metrics_resource(),
        r.schema_url@ == "tbd"@,
        r.instrumentation_library_metrics@.len() == 1,
        ({
            let l = r.instrumentation_library_metrics@[0];
            &&& l.instrumentation_library matches Some(il) && il@ == LibraryView { name: "rust-std"@, version: "1.0"@ }
            &&& l.schema_url@ == "tbd"@
            &&& l.multivariate_metrics@.len() == 0
            &&& l.metrics@.len() == 8
            &&& forall|m: int| 0 <= m < 8 ==> {
                let x = #[trigger] l.metrics@[m];
                &&& x.name@ == row_metric_name(m)
                &&& x.unit@ == row_metric_unit(m)
                &&& x.description@.len() == 0
                &&& x.gauge matches Some(g) && g.data_points@.len() == time_series@.len() && forall|i: int|
                    0 <= i < g.data_points@.len() ==> point_ok(#[trigger] g.data_points@[i], time_series@[i], m)
            }
        }),
{
    let mut metrics: Vec<Metric> = Vec::new();
    metrics.push(row_metric(time_series, 0, "dns_lookup_ms", "ms"));
    metrics.push(row_metric(time_series, 1, "size", "By"));
    metrics.push(row_metric(time_series, 2, "content_transfer_ms", "ms"));
    metrics.push(row_metric(time_series, 3, "failure_count", ""));
    metrics.push(row_metric(time_series, 4, "health_status", ""));
    metrics.push(row_metric(time_series, 5, "server_processing_ms", ""));
    metrics.push(row_metric(time_series, 6, "tcp_connection_ms", "ms"));
    metrics.push(row_metric(time_series, 7, "tls_handshake_ms", "ms"));
    let mut libraries: Vec<InstrumentationLibraryMetrics> = Vec::new();
    libraries.push(
        InstrumentationLibraryMetrics {
            instrumentation_library: Some(
                InstrumentationLibrary { name: "rust-std".to_owned(), version: "1.0".to_owned() },
            ),
            metrics,
            multivariate_metrics: Vec::new(),
            schema_url: "tbd".to_owned(),
        },
    );
    ResourceMetrics { resource: Some(resource()), instrumentation_library_metrics: libraries, schema_url: "tbd".to_owned() }
}

pub open spec fn tag_name(k: int) -> Seq<char> {
    if k == 0 {
        "method"@
    } else if k == 1 {
        "dns_lookup_ms_label_class"@
    } else if k == 2 {
        "source"@
    } else if k == 3 {
        "url"@
    } else if k == 4 {
        "tls_handshake_ms_label_class"@
    } else if k == 5 {
        "remote_address"@
    } else if k == 6 {
        "content_transfer_ms_label_class"@
    } else if k == 7 {
        "server_processing_ms_label_class"@
    } else {
        "tcp_connection_ms_label_class"@
    }
}

/// Label `k` of the columnar message.
pub open spec fn tag_value(t: Tags, k: int) -> Seq<char> {
    if k == 0 {
        t.method@
    } else if k == 1 {
        t.dns_lookup_ms_label_class@
    } else if k == 2 {
        t.source@
    } else if k == 3 {
        t.url@
    } else if k == 4 {
        t.tls_handshake_ms_label_class@
    } else if k == 5 {
        t.remote_address@
    } else if k == 6 {
        t.content_transfer_ms_label_class@
    } else if k == 7 {
        t.server_processing_ms_label_class@
    } else {
        t.tcp_connection_ms_label_class@
    }
}

pub open spec fn col_metric_name(m: int) -> Seq<char> {
    if m == 0 {
        "tls_handshake_ms"@
    } else if m == 1 {
        "dns_lookup_ms"@
    } else if m == 2 {
        "server_processing_ms"@
    } else if m == 3 {
        "tcp_connection_ms"@
    } else if m == 4 {
        "content_transfer_ms"@
    } else if m == 5 {
        "health_status"@
    } else if m == 6 {
        "failure_count"@
    } else {
        "size"@
    }
}

pub open spec fn col_metric_unit(m: int) -> Seq<char> {
    if m == 0 {
        "ms"@
    } else if m == 1 {
        "ms"@
    } else if m == 2 {
        "ms"@
    } else if m == 3 {
        "ms"@
    } else if m == 4 {
        "ms"@
    } else if m == 5 {
        ""@
    } else if m == 6 {
        ""@
    } else {
        ""@
    }
}

/// Measurement `m` of the columnar message.
pub open spec fn col_metric_value(f: Fields, m: int) -> i64 {
    if m == 0 {
        f.tls_handshake_ms
    } else if m == 1 {
        f.dns_lookup_ms
    } else if m == 2 {
        f.server_processing_ms
    } else if m == 3 {
        f.tcp_connection_ms
    } else if m == 4 {
        f.content_transfer_ms
    } else if m == 5 {
        f.health_status
    } else if m == 6 {
        f.failure_count
    } else {
        f.size
    }
}

fn tag_column(time_series: &Vec<MultivariateDataPoint>, k: u64, name: &str) -> (r: ColumnarAttribute)
    requires
        k < 9,
    ensures
        r.name@ == name@,
        r.values@.len() == time_series@.len(),
        forall|i: int| 0 <= i < r.values@.len() ==> (#[trigger] r.values@[i])@ == tag_value(time_series@[i].evt.tags, k as int),
{
    let mut values: Vec<String> = Vec::new();
    let mut i: usize = 0;
    while i < time_series.len()
        invariant
            i <= time_series@.len(),
            k < 9,
            values@.len() == i,
            forall|j: int| 0 <= j < i ==> (#[trigger] values@[j])@ == tag_value(time_series@[j].evt.tags, k as int),
        decreases time_series@.len() - i,
    {
        let t = &time_series[i].evt.tags;
        let v = if k == 0 {
            t.method.clone()
        } else if k == 1 {
            t.dns_lookup_ms_label_class.clone()
        } else if k == 2 {
            t.source.clone()
        } else if k == 3 {
            t.url.clone()
        } else if k == 4 {
            t.tls_handshake_ms_label_class.clone()
        } else if k == 5 {
            t.remote_address.clone()
        } else if k == 6 {
            t.content_transfer_ms_label_class.clone()
        } else if k == 7 {
            t.server_processing_ms_label_class.clone()
        } else {
            t.tcp_connection_ms_label_class.clone()
        };
        values.push(v);
        i += 1;
    }
    ColumnarAttribute { name: name.to_owned(), values }
}

fn metric_column(time_series: &Vec<MultivariateDataPoint>, m: u64, name: &str, unit: &str) -> (r: ColumnarMetric)
    requires
        m < 8,
    ensures
        r.name@ == name@,
        r.unit@ == unit@,
        r.description@.len() == 0,
        r.int_values@.len() == time_series@.len(),
        forall|i: int| 0 <= i < r.int_values@.len() ==> #[trigger] r.int_values@[i] == col_metric_value(time_series@[i].evt.fields, m as int),
{
    let mut values: Vec<i64> = Vec::new();
    let mut i: usize = 0;
    while i < time_series.len()
        invariant
            i <= time_series@.len(),
            m < 8,
            values@.len() == i,
            forall|j: int| 0 <= j < i ==> #[trigger] values@[j] == col_metric_value(time_series@[j].evt.fields, m as int),
        decreases time_series@.len() - i,
    {
        let f = &time_series[i].evt.fields;
        let v = if m == 0 {
            f.tls_handshake_ms
        } else if m == 1 {
            f.dns_lookup_ms
        } else if m == 2 {
            f.server_processing_ms
        } else if m == 3 {
            f.tcp_connection_ms
        } else if m == 4 {
            f.content_transfer_ms
        } else if m == 5 {
            f.health_status
        } else if m == 6 {
            f.failure_count
        } else {
            f.size
        };
        values.push(v);
        i += 1;
    }
    ColumnarMetric { name: name.to_owned(), description: String::new(), unit: unit.to_owned(), int_values: values }
}

fn times_of(time_series: &Vec<MultivariateDataPoint>) -> (r: Vec<u64>)
    ensures
        r@.len() == time_series@.len(),
        forall|i: int| 0 <= i < r@.len() ==> #[trigger] r@[i] == time_series@[i].ts_unix_nano as u64,
{
    let mut r: Vec<u64> = Vec::new();
    let mut i: usize = 0;
    while i < time_series.len()
        invariant
            i <= time_series@.len(),
            r@.len() == i,
            forall|j: int| 0 <= j < i ==> #[trigger] r@[j] == time_series@[j].ts_unix_nano as u64,
        decreases time_series@.len() - i,
    {
        r.push(time_series[i].ts_unix_nano as u64);
        i += 1;
    }
    r
}

/// The columnar metrics of a time series: one multivariate metric whose
/// nine attribute columns and eight integer gauge columns hold, at row `i`,
/// the labels and measurements of observation `i`.
pub fn gen_columnar_metrics(time_series: &Vec<MultivariateDataPoint>) -> (r: ResourceMetrics)
    ensures
        r.resource matches Some(res) && res@ == metrics_resource(),
        r.schema_url@ == "tbd"@,
        r.instrumentation_library_metrics@.len() == 1,
        ({
            let l = r.instrumentation_library_metrics@[0];
            &&& l.instrumentation_library matches Some(il) && il@ == LibraryView { name: "rust-std"@, version: "1.0"@ }
            &&& l.schema_url@ == "tbd"@
            &&& l.metrics@.len() == 0
            &&& l.multivariate_metrics@.len() == 1
            &&& {
                let mm = l.multivariate_metrics@[0];
                &&& mm.time_unix_nano_column@.len() == time_series@.len()
                &&& mm.start_time_unix_nano_column@ == mm.time_unix_nano_column@
                &&& forall|i: int| 0 <= i < time_series@.len() ==> #[trigger] mm.time_unix_nano_column@[i]
                    == time_series@[i].ts_unix_nano as u64
                &&& mm.attributes@.len() == 9
                &&& forall|k: int| 0 <= k < 9 ==> {
                    let a = #[trigger] mm.attributes@[k];
                    &&& a.name@ == tag_name(k)
                    &&& a.values@.len() == time_series@.len()
                    &&& forall|i: int| 0 <= i < a.values@.len() ==> (#[trigger] a.values@[i])@ == tag_value(time_series@[i].evt.tags, k)
                }
                &&& mm.metrics@.len() == 8
                &&& forall|m: int| 0 <= m < 8 ==> {
                    let c = #[trigger] mm.metrics@[m];
                    &&& c.name@ == col_metric_name(m)
                    &&& c.unit@ == col_metric_unit(m)
                    &&& c.description@.len() == 0
                    &&& c.int_values@.len() == time_series@.len()
                    &&& forall|i: int| 0 <= i < c.int_values@.len() ==> #[trigger] c.int_values@[i] == col_metric_value(time_series@[i].evt.fields, m)
                }
            }
        }),
{
    let mut attributes: Vec<ColumnarAttribute> = Vec::new();
    attributes.push(tag_column(time_series, 0, "method"));
    attributes.push(tag_column(time_series, 1, "dns_lookup_ms_label_class"));
    attributes.push(tag_column(time_series, 2, "source"));
    attributes.push(tag_column(time_series, 3, "url"));
    attributes.push(tag_column(time_series, 4, "tls_handshake_ms_label_class"));
    attributes.push(tag_column(time_series, 5, "remote_address"));
    attributes.push(tag_column(time_series, 6, "content_transfer_ms_label_class"));
    attributes.push(tag_column(time_series, 7, "server_processing_ms_label_class"));
    attributes.push(tag_column(time_series, 8, "tcp_connection_ms_label_class"));
    let mut metrics: Vec<ColumnarMetric> = Vec::new();
    metrics.push(metric_column(time_series, 0, "tls_handshake_ms", "ms"));
    metrics.push(metric_column(time_series, 1, "dns_lookup_ms", "ms"));
    metrics.push(metric_column(time_series, 2, "server_processing_ms", "ms"));
    metrics.push(metric_column(time_series, 3, "tcp_connection_ms", "ms"));
    metrics.push(metric_column(time_series, 4, "content_transfer_ms", "ms"));
    metrics.push(metric_column(time_series, 5, "health_status", ""));
    metrics.push(metric_column(time_series, 6, "failure_count", ""));
    metrics.push(metric_column(time_series, 7, "size", ""));
    let times = times_of(time_series);
    let starts = times.clone();
    let mut multivariate: Vec<MultivariateMetric> = Vec::new();
    multivariate.push(
        MultivariateMetric { attributes, time_unix_nano_column: times, start_time_unix_nano_column: starts, metrics },
    );
    let mut libraries: Vec<InstrumentationLibraryMetrics> = Vec::new();
    libraries.push(
        InstrumentationLibraryMetrics {
            instrumentation_library: Some(
                InstrumentationLibrary { name: "rust-std".to_owned(), version: "1.0".to_owned() },
            ),
            metrics: Vec::new(),
            multivariate_metrics: multivariate,
            schema_url: "tbd".to_owned(),
        },
    );
    ResourceMetrics { resource: Some(resource()), instrumentation_library_metrics: libraries, schema_url: "tbd".to_owned() }
}

} // verus!

verus! {

/// The row-oriented metric that columnar metric `m` carries.
pub open spec fn row_metric_of(m: int) -> int {
    if m == 0 { 7 } else if m == 1 { 0 } else if m == 2 { 5 } else if m == 3 { 6 } else if m == 4 { 2 } else if m == 5 { 4 } else if m == 6 { 3 } else { 1 }
}

/// The row-oriented attribute that columnar attribute `k` carries.
pub open spec fn row_attribute_of(k: int) -> int {
    if k == 0 { 0 } else if k == 1 { 2 } else if k == 2 { 5 } else if k == 3 { 1 } else if k == 4 { 7 } else if k == 5 { 3 } else if k == 6 { 8 } else if k == 7 { 4 } else { 6 }
}

/// The two metric messages carry the same information: each columnar
/// metric has the name and, for every observation, the value of one
/// row-oriented metric, and each columnar attribute the name and value of
/// one attribute of the row-oriented points. So digests that sum or count
/// values agree between them.
pub proof fn lemma_representations_agree(f: Fields, t: Tags)
    ensures
        forall|m: int|
            0 <= m < 8 ==> 0 <= row_metric_of(m) < 8 && #[trigger] col_metric_name(m) == row_metric_name(row_metric_of(m))
                && col_metric_value(f, m) == row_metric_value(f, row_metric_of(m)),
        forall|k: int|
            0 <= k < 9 ==> 0 <= row_attribute_of(k) < 9 && #[trigger] point_attributes(t)[row_attribute_of(k)]
                == str_attr(tag_name(k), tag_value(t, k)),
{
}

} // verus!
