//! Reading back the bytes of a metric message gives the same message.
use crate::column_codec::{lemma_all_ok_concat, WireValue};
use crate::envelope::{KeyValueView, LibraryView};
use crate::envelope_codec::{key_value_bytes, library_bytes, resource_bytes};
use crate::envelope_decode::{lemma_kv_round_trip, lemma_library_round_trip, lemma_resource_round_trip};
use crate::fold_lemmas::{
    lemma_fields_bytes_part, lemma_fold_opt, lemma_fold_repeated, lemma_fold_repeated_view, lemma_len_fields_ok,
    lemma_len_fields_payload,
};
use crate::batch_codec::packed_field;
use crate::metrics::{
    kv_views, ColumnarAttribute, ColumnarMetric, Gauge, InstrumentationLibraryMetrics, Metric, MultivariateMetric,
    NumberDataPoint, ResourceMetrics,
};
use crate::metrics_codec::{
    attribute_column_bytes, gauge_bytes, library_metrics_bytes, metric_bytes, metric_column_bytes, multivariate_bytes,
    point_bytes, resource_metrics_bytes,
};
use crate::metrics_decode::{
    attribute_column_applier, decode_attribute_column, decode_gauge, decode_library_metrics, decode_metric,
    decode_metric_column, decode_multivariate, decode_point, decode_resource_metrics, gauge_applier,
    library_metrics_applier, metric_applier, metric_column_applier, multivariate_applier, point_applier,
    resource_metrics_applier, AttributeColumnView, LibraryMetricsView, MetricColumnView, MetricView, MultivariateView,
    PointView, ResourceMetricsView,
};
use crate::packed::lemma_packed_varints;
use crate::scalar::{lemma_i64_round_trip, message_field, str_field};
use crate::span_round_trip::lemma_str;
use crate::summary::fixed64_field;
use crate::values::len_fields;
use crate::wire::{fields_bytes, fold_fields, lemma_fields_bytes_one, lemma_fold_concat, lemma_fold_one, lemma_parse_fields, Field, Payload};
use vstd::prelude::*;
use vstd::utf8::{encode_utf8, encode_utf8_decode_utf8, encode_utf8_valid_utf8};

verus! {

proof fn lemma_point_round_trip(p: NumberDataPoint)
    requires
        point_bytes(p).len() <= u64::MAX,
    ensures
        decode_point(point_bytes(p)) == Some(p@),
{
    let ap = point_applier();
    let enc = |kv: KeyValueView| key_value_bytes(kv);
    let a1 = fixed64_field(2, p.start_time_unix_nano);
    let a2 = fixed64_field(3, p.time_unix_nano);
    let a3 = fixed64_field(6, p.as_int as u64);
    let a4 = len_fields(7, kv_views(p.attributes@).map_values(enc));
    lemma_len_fields_ok(7, kv_views(p.attributes@).map_values(enc));
    lemma_all_ok_concat(a1, a2);
    lemma_all_ok_concat(a1 + a2, a3);
    lemma_all_ok_concat(a1 + a2 + a3, a4);
    lemma_parse_fields(a1 + a2 + a3 + a4);
    lemma_fields_bytes_part(a1 + a2 + a3, a4);
    let s0 = PointView { attributes: Seq::empty(), start_time_unix_nano: 0, time_unix_nano: 0, as_int: 0 };
    let s1 = PointView { start_time_unix_nano: p.start_time_unix_nano, ..s0 };
    let s2 = PointView { time_unix_nano: p.time_unix_nano, ..s1 };
    let s3 = PointView { as_int: p.as_int, ..s2 };
    lemma_fold_opt(s0, a1, ap, s1);
    lemma_fold_opt(s1, a2, ap, s2);
    lemma_i64_round_trip(p.as_int);
    lemma_fold_opt(s2, a3, ap, s3);
    let items = kv_views(p.attributes@);
    let get = |x: PointView| x.attributes;
    let set = |x: PointView, q: Seq<KeyValueView>| PointView { attributes: q, ..x };
    assert forall|x: PointView, i: int| 0 <= i < items.len() implies #[trigger] ap(x, (7nat, Payload::Len(enc(items[i]))))
        == Some(set(x, get(x).push(items[i]))) by {
        lemma_len_fields_payload(7, items.map_values(enc), i);
        lemma_kv_round_trip(items[i]);
    }
    lemma_fold_repeated(s3, 7, items, enc, ap, get, set);
    assert(Seq::<KeyValueView>::empty() + items =~= p@.attributes);
    lemma_fold_concat(s0, a1, a2, ap);
    lemma_fold_concat(s0, a1 + a2, a3, ap);
    lemma_fold_concat(s0, a1 + a2 + a3, a4, ap);
}

proof fn lemma_gauge_round_trip(g: Gauge)
    requires
        gauge_bytes(g).len() <= u64::MAX,
    ensures
        decode_gauge(gauge_bytes(g)) == Some(g@),
{
    let ap = gauge_applier();
    let enc = |p: NumberDataPoint| point_bytes(p);
    let view = |p: NumberDataPoint| p@;
    let items = g.data_points@;
    lemma_len_fields_ok(1, items.map_values(enc));
    lemma_parse_fields(len_fields(1, items.map_values(enc)));
    let get = |x: Seq<PointView>| x;
    let set = |x: Seq<PointView>, q: Seq<PointView>| q;
    assert forall|x: Seq<PointView>, i: int| 0 <= i < items.len() implies #[trigger] ap(x, (1nat, Payload::Len(enc(items[i]))))
        == Some(set(x, get(x).push(view(items[i])))) by {
        lemma_len_fields_payload(1, items.map_values(enc), i);
        lemma_point_round_trip(items[i]);
    }
    lemma_fold_repeated_view(Seq::<PointView>::empty(), 1, items, enc, view, ap, get, set);
    assert(Seq::<PointView>::empty() + items.map_values(view) =~= g@);
}

proof fn lemma_metric_round_trip(m: Metric)
    requires
        metric_bytes(m).len() <= u64::MAX,
    ensures
        decode_metric(metric_bytes(m)) == Some(m@),
{
    let ap = metric_applier();
    let a1 = str_field(1, m.name@);
    let a2 = str_field(2, m.description@);
    let a3 = str_field(3, m.unit@);
    let a4 = message_field(5, match m.gauge { Some(x) => Some(gauge_bytes(x)), None => None });
    lemma_all_ok_concat(a1, a2);
    lemma_all_ok_concat(a1 + a2, a3);
    lemma_all_ok_concat(a1 + a2 + a3, a4);
    lemma_parse_fields(a1 + a2 + a3 + a4);
    lemma_fields_bytes_part(a1 + a2 + a3, a4);
    let s0 = MetricView { name: Seq::empty(), description: Seq::empty(), unit: Seq::empty(), gauge: None };
    let s1 = MetricView { name: m.name@, ..s0 };
    let s2 = MetricView { description: m.description@, ..s1 };
    let s3 = MetricView { unit: m.unit@, ..s2 };
    lemma_str(m.name@);
    lemma_fold_opt(s0, a1, ap, s1);
    lemma_str(m.description@);
    lemma_fold_opt(s1, a2, ap, s2);
    lemma_str(m.unit@);
    lemma_fold_opt(s2, a3, ap, s3);
    match m.gauge {
        Some(g) => {
            lemma_fields_bytes_one(a4[0]);
            lemma_gauge_round_trip(g);
        },
        None => {},
    }
    lemma_fold_opt(s3, a4, ap, m@);
    lemma_fold_concat(s0, a1, a2, ap);
    lemma_fold_concat(s0, a1 + a2, a3, ap);
    lemma_fold_concat(s0, a1 + a2 + a3, a4, ap);
}

proof fn lemma_attribute_column_round_trip(a: ColumnarAttribute)
    requires
        attribute_column_bytes(a).len() <= u64::MAX,
    ensures
        decode_attribute_column(attribute_column_bytes(a)) == Some(a@),
{
    let ap = attribute_column_applier();
    let vs = a.values.deep_view();
    let enc = |s: Seq<char>| encode_utf8(s);
    let a1 = str_field(1, a.name@);
    let a2 = String::value_fields(2, vs);
    assert(a2 == len_fields(2, vs.map_values(enc)));
    lemma_len_fields_ok(2, vs.map_values(enc));
    lemma_all_ok_concat(a1, a2);
    lemma_parse_fields(a1 + a2);
    let s0 = AttributeColumnView { name: Seq::empty(), values: Seq::empty() };
    let s1 = AttributeColumnView { name: a.name@, ..s0 };
    lemma_str(a.name@);
    lemma_fold_opt(s0, a1, ap, s1);
    let get = |x: AttributeColumnView| x.values;
    let set = |x: AttributeColumnView, q: Seq<Seq<char>>| AttributeColumnView { values: q, ..x };
    assert forall|x: AttributeColumnView, i: int| 0 <= i < vs.len() implies #[trigger] ap(x, (2nat, Payload::Len(enc(vs[i]))))
        == Some(set(x, get(x).push(vs[i]))) by {
        encode_utf8_valid_utf8(vs[i]);
        encode_utf8_decode_utf8(vs[i]);
    }
    lemma_fold_repeated(s1, 2, vs, enc, ap, get, set);
    assert(Seq::<Seq<char>>::empty() + vs =~= vs);
    lemma_fold_concat(s0, a1, a2, ap);
}

proof fn lemma_metric_column_round_trip(c: ColumnarMetric)
    requires
        metric_column_bytes(c).len() <= u64::MAX,
    ensures
        decode_metric_column(metric_column_bytes(c)) == Some(c@),
{
    let ap = metric_column_applier();
    let vs = c.int_values.deep_view();
    assert(vs =~= c.int_values@);
    let a1 = str_field(1, c.name@);
    let a2 = str_field(2, c.description@);
    let a3 = str_field(3, c.unit@);
    let a4 = i64::value_fields(4, vs);
    i64::lemma_values_round_trip(4, Seq::empty(), vs);
    lemma_all_ok_concat(a1, a2);
    lemma_all_ok_concat(a1 + a2, a3);
    lemma_all_ok_concat(a1 + a2 + a3, a4);
    lemma_parse_fields(a1 + a2 + a3 + a4);
    let s0 = MetricColumnView { name: Seq::empty(), description: Seq::empty(), unit: Seq::empty(), int_values: Seq::empty() };
    let s1 = MetricColumnView { name: c.name@, ..s0 };
    let s2 = MetricColumnView { description: c.description@, ..s1 };
    let s3 = MetricColumnView { unit: c.unit@, ..s2 };
    lemma_str(c.name@);
    lemma_fold_opt(s0, a1, ap, s1);
    lemma_str(c.description@);
    lemma_fold_opt(s1, a2, ap, s2);
    lemma_str(c.unit@);
    lemma_fold_opt(s2, a3, ap, s3);
    if vs.len() == 0 {
        assert(vs =~= Seq::<i64>::empty());
    } else {
        lemma_fold_one(Seq::<i64>::empty(), a4[0], |s: Seq<i64>, f: Field| i64::apply_values(s, f.1));
        assert(a4 =~= seq![a4[0]]);
        assert(Seq::<i64>::empty() + vs =~= vs);
    }
    lemma_fold_opt(s3, a4, ap, c@);
    lemma_fold_concat(s0, a1, a2, ap);
    lemma_fold_concat(s0, a1 + a2, a3, ap);
    lemma_fold_concat(s0, a1 + a2 + a3, a4, ap);
}

#[verifier::rlimit(50)]
proof fn lemma_multivariate_round_trip(mm: MultivariateMetric)
    requires
        multivariate_bytes(mm).len() <= u64::MAX,
    ensures
        decode_multivariate(multivariate_bytes(mm)) == Some(mm@),
{
    let ap = multivariate_applier();
    let enc1 = |a: ColumnarAttribute| attribute_column_bytes(a);
    let view1 = |a: ColumnarAttribute| a@;
    let enc4 = |c: ColumnarMetric| metric_column_bytes(c);
    let view4 = |c: ColumnarMetric| c@;
    let a1 = len_fields(1, mm.attributes@.map_values(enc1));
    let a2 = packed_field(2, mm.time_unix_nano_column@);
    let a3 = packed_field(3, mm.start_time_unix_nano_column@);
    let a4 = len_fields(4, mm.metrics@.map_values(enc4));
    lemma_len_fields_ok(1, mm.attributes@.map_values(enc1));
    lemma_len_fields_ok(4, mm.metrics@.map_values(enc4));
    lemma_all_ok_concat(a1, a2);
    lemma_all_ok_concat(a1 + a2, a3);
    lemma_all_ok_concat(a1 + a2 + a3, a4);
    lemma_parse_fields(a1 + a2 + a3 + a4);
    lemma_fields_bytes_part(a1 + a2 + a3, a4);
    lemma_fields_bytes_part(a1 + a2, a3);
    lemma_fields_bytes_part(a1, a2);
    let s0 = MultivariateView {
        attributes: Seq::empty(),
        time_unix_nano_column: Seq::empty(),
        start_time_unix_nano_column: Seq::empty(),
        metrics: Seq::empty(),
    };
    let s1 = MultivariateView { attributes: mm@.attributes, ..s0 };
    let s2 = MultivariateView { time_unix_nano_column: mm@.time_unix_nano_column, ..s1 };
    let s3 = MultivariateView { start_time_unix_nano_column: mm@.start_time_unix_nano_column, ..s2 };
    {
        let items = mm.attributes@;
        let get = |x: MultivariateView| x.attributes;
        let set = |x: MultivariateView, q: Seq<AttributeColumnView>| MultivariateView { attributes: q, ..x };
        assert forall|x: MultivariateView, i: int| 0 <= i < items.len() implies #[trigger] ap(x, (1nat, Payload::Len(enc1(items[i]))))
            == Some(set(x, get(x).push(view1(items[i])))) by {
            lemma_len_fields_payload(1, items.map_values(enc1), i);
            lemma_attribute_column_round_trip(items[i]);
        }
        lemma_fold_repeated_view(s0, 1, items, enc1, view1, ap, get, set);
        assert(Seq::<AttributeColumnView>::empty() + items.map_values(view1) =~= mm@.attributes);
    }
    let t = mm.time_unix_nano_column@;
    if t.len() == 0 {
        assert(t =~= Seq::<u64>::empty());
    } else {
        lemma_packed_varints(t);
        assert(Seq::<u64>::empty() + t =~= t);
    }
    lemma_fold_opt(s1, a2, ap, s2);
    let st = mm.start_time_unix_nano_column@;
    if st.len() == 0 {
        assert(st =~= Seq::<u64>::empty());
    } else {
        lemma_packed_varints(st);
        assert(Seq::<u64>::empty() + st =~= st);
    }
    lemma_fold_opt(s2, a3, ap, s3);
    {
        let items = mm.metrics@;
        let get = |x: MultivariateView| x.metrics;
        let set = |x: MultivariateView, q: Seq<MetricColumnView>| MultivariateView { metrics: q, ..x };
        assert forall|x: MultivariateView, i: int| 0 <= i < items.len() implies #[trigger] ap(x, (4nat, Payload::Len(enc4(items[i]))))
            == Some(set(x, get(x).push(view4(items[i])))) by {
            lemma_len_fields_payload(4, items.map_values(enc4), i);
            lemma_metric_column_round_trip(items[i]);
        }
        lemma_fold_repeated_view(s3, 4, items, enc4, view4, ap, get, set);
        assert(Seq::<MetricColumnView>::empty() + items.map_values(view4) =~= mm@.metrics);
    }
    lemma_fold_concat(s0, a1, a2, ap);
    lemma_fold_concat(s0, a1 + a2, a3, ap);
    lemma_fold_concat(s0, a1 + a2 + a3, a4, ap);
}

#[verifier::rlimit(50)]
proof fn lemma_library_metrics_round_trip(l: InstrumentationLibraryMetrics)
    requires
        library_metrics_bytes(l).len() <= u64::MAX,
    ensures
        decode_library_metrics(library_metrics_bytes(l)) == Some(l@),
{
    let ap = library_metrics_applier();
    let enc2 = |m: Metric| metric_bytes(m);
    let view2 = |m: Metric| m@;
    let enc4 = |m: MultivariateMetric| multivariate_bytes(m);
    let view4 = |m: MultivariateMetric| m@;
    let a1 = message_field(1, match l.instrumentation_library { Some(x) => Some(library_bytes(x@)), None => None });
    let a2 = len_fields(2, l.metrics@.map_values(enc2));
    let a3 = str_field(3, l.schema_url@);
    let a4 = len_fields(4, l.multivariate_metrics@.map_values(enc4));
    lemma_len_fields_ok(2, l.metrics@.map_values(enc2));
    lemma_len_fields_ok(4, l.multivariate_metrics@.map_values(enc4));
    lemma_all_ok_concat(a1, a2);
    lemma_all_ok_concat(a1 + a2, a3);
    lemma_all_ok_concat(a1 + a2 + a3, a4);
    lemma_parse_fields(a1 + a2 + a3 + a4);
    lemma_fields_bytes_part(a1 + a2 + a3, a4);
    lemma_fields_bytes_part(a1 + a2, a3);
    lemma_fields_bytes_part(a1, a2);
    let s0 = LibraryMetricsView {
        instrumentation_library: None,
        metrics: Seq::empty(),
        multivariate_metrics: Seq::empty(),
        schema_url: Seq::empty(),
    };
    let s1 = LibraryMetricsView { instrumentation_library: l@.instrumentation_library, ..s0 };
    let s2 = LibraryMetricsView { metrics: l@.metrics, ..s1 };
    let s3 = LibraryMetricsView { schema_url: l@.schema_url, ..s2 };
    match &l.instrumentation_library {
        Some(x) => {
            lemma_fields_bytes_one(a1[0]);
            lemma_library_round_trip(x@);
        },
        None => {},
    }
    lemma_fold_opt(s0, a1, ap, s1);
    {
        let items = l.metrics@;
        let get = |x: LibraryMetricsView| x.metrics;
        let set = |x: LibraryMetricsView, q: Seq<MetricView>| LibraryMetricsView { metrics: q, ..x };
        assert forall|x: LibraryMetricsView, i: int| 0 <= i < items.len() implies #[trigger] ap(x, (2nat, Payload::Len(enc2(items[i]))))
            == Some(set(x, get(x).push(view2(items[i])))) by {
            lemma_len_fields_payload(2, items.map_values(enc2), i);
            lemma_metric_round_trip(items[i]);
        }
        lemma_fold_repeated_view(s1, 2, items, enc2, view2, ap, get, set);
        assert(Seq::<MetricView>::empty() + items.map_values(view2) =~= l@.metrics);
    }
    lemma_str(l.schema_url@);
    lemma_fold_opt(s2, a3, ap, s3);
    {
        let items = l.multivariate_metrics@;
        let get = |x: LibraryMetricsView| x.multivariate_metrics;
        let set = |x: LibraryMetricsView, q: Seq<MultivariateView>| LibraryMetricsView { multivariate_metrics: q, ..x };
        assert forall|x: LibraryMetricsView, i: int| 0 <= i < items.len() implies #[trigger] ap(x, (4nat, Payload::Len(enc4(items[i]))))
            == Some(set(x, get(x).push(view4(items[i])))) by {
            lemma_len_fields_payload(4, items.map_values(enc4), i);
            lemma_multivariate_round_trip(items[i]);
        }
        lemma_fold_repeated_view(s3, 4, items, enc4, view4, ap, get, set);
        assert(Seq::<MultivariateView>::empty() + items.map_values(view4) =~= l@.multivariate_metrics);
    }
    lemma_fold_concat(s0, a1, a2, ap);
    lemma_fold_concat(s0, a1 + a2, a3, ap);
    lemma_fold_concat(s0, a1 + a2 + a3, a4, ap);
}

/// Reading back the bytes of a `ResourceMetrics` message gives the same
/// message, where those bytes number fewer than 2^64.
pub proof fn lemma_resource_metrics_round_trip(r: ResourceMetrics)
    requires
        resource_metrics_bytes(r).len() <= u64::MAX,
    ensures
        decode_resource_metrics(resource_metrics_bytes(r)) == Some(r@),
{
    let ap = resource_metrics_applier();
    let enc = |l: InstrumentationLibraryMetrics| library_metrics_bytes(l);
    let view = |l: InstrumentationLibraryMetrics| l@;
    let a1 = message_field(1, match r.resource { Some(x) => Some(resource_bytes(x@)), None => None });
    let a2 = len_fields(2, r.instrumentation_library_metrics@.map_values(enc));
    let a3 = str_field(3, r.schema_url@);
    lemma_len_fields_ok(2, r.instrumentation_library_metrics@.map_values(enc));
    lemma_all_ok_concat(a1, a2);
    lemma_all_ok_concat(a1 + a2, a3);
    lemma_parse_fields(a1 + a2 + a3);
    lemma_fields_bytes_part(a1 + a2, a3);
    lemma_fields_bytes_part(a1, a2);
    let s0 = ResourceMetricsView { resource: None, instrumentation_library_metrics: Seq::empty(), schema_url: Seq::empty() };
    let s1 = ResourceMetricsView { resource: r@.resource, ..s0 };
    let s2 = ResourceMetricsView { instrumentation_library_metrics: r@.instrumentation_library_metrics, ..s1 };
    match &r.resource {
        Some(x) => {
            lemma_fields_bytes_one(a1[0]);
            lemma_resource_round_trip(x@);
        },
        None => {},
    }
    lemma_fold_opt(s0, a1, ap, s1);
    let items = r.instrumentation_library_metrics@;
    let get = |x: ResourceMetricsView| x.instrumentation_library_metrics;
    let set = |x: ResourceMetricsView, q: Seq<LibraryMetricsView>| ResourceMetricsView { instrumentation_library_metrics: q, ..x };
    assert forall|x: ResourceMetricsView, i: int| 0 <= i < items.len() implies #[trigger] ap(x, (2nat, Payload::Len(enc(items[i]))))
        == Some(set(x, get(x).push(view(items[i])))) by {
        lemma_len_fields_payload(2, items.map_values(enc), i);
        lemma_library_metrics_round_trip(items[i]);
    }
    lemma_fold_repeated_view(s1, 2, items, enc, view, ap, get, set);
    assert(Seq::<LibraryMetricsView>::empty() + items.map_values(view) =~= r@.instrumentation_library_metrics);
    lemma_str(r.schema_url@);
    lemma_fold_opt(s2, a3, ap, r@);
    lemma_fold_concat(s0, a1, a2, ap);
    lemma_fold_concat(s0, a1 + a2, a3, ap);
}

} // verus!
