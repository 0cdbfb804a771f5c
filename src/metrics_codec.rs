//! The wire form of the metric messages.
//!
//! NumberDataPoint: start (2) and point (3) times, value (6, fixed 64
//! bits), attributes (7). Gauge: points (1). Metric: name (1), description
//! (2), unit (3), gauge (5). ColumnarAttribute: name (1), values (2).
//! ColumnarMetric: name (1), description (2), unit (3), values (4, packed).
//! MultivariateMetric: attributes (1), times (2) and start times (3),
//! packed, metrics (4). InstrumentationLibraryMetrics: library (1), metrics
//! (2), schema URL (3), multivariate metrics (4). ResourceMetrics: resource
//! (1), library metrics (2), schema URL (3).
use crate::batch_codec::{lemma_concat7, lemma_fields_bytes7, packed_field};
use crate::column_codec::WireValue;
use crate::envelope::{KeyValueView, LibraryView, ResourceView};
use crate::envelope_codec::{encode_key_value, encode_library, encode_resource, key_value_bytes, library_bytes, resource_bytes};
use crate::metrics::{
    kv_views, ColumnarAttribute, ColumnarMetric, Gauge, InstrumentationLibraryMetrics, Metric, MultivariateMetric,
    NumberDataPoint, ResourceMetrics,
};
use crate::packed::put_packed_varints;
use crate::scalar::{message_field, put_message_field, put_str_field, str_field};
use crate::summary::fixed64_field;
use crate::values::{len_fields, lemma_len_fields_push};
use crate::wire::{fields_bytes, lemma_fields_bytes_one, put_fixed64_field, put_len_field, Field, Payload};
use vstd::prelude::*;

verus! {

proof fn lemma_four(s0: Seq<u8>, b1: Seq<u8>, b2: Seq<u8>, b3: Seq<u8>, b4: Seq<u8>, a1: Seq<Field>, a2: Seq<Field>, a3: Seq<Field>, a4: Seq<Field>)
    requires
        b1 == s0 + fields_bytes(a1),
        b2 == b1 + fields_bytes(a2),
        b3 == b2 + fields_bytes(a3),
        b4 == b3 + fields_bytes(a4),
    ensures
        b4 == s0 + fields_bytes(a1 + a2 + a3 + a4),
{
    let e = Seq::<Field>::empty();
    lemma_fields_bytes7(a1, a2, a3, a4, e, e, e);
    assert(a1 + a2 + a3 + a4 + e + e + e =~= a1 + a2 + a3 + a4);
    assert(fields_bytes(e) =~= Seq::<u8>::empty());
    lemma_concat7(s0, b1, b2, b3, b4, b4, b4, b4, fields_bytes(a1), fields_bytes(a2), fields_bytes(a3),
        fields_bytes(a4), Seq::empty(), Seq::empty(), Seq::empty());
}

fn put_fixed64_opt(buf: &mut Vec<u8>, num: u64, v: u64)
    requires
        1 <= num < 0x2000_0000,
    ensures
        final(buf)@ == old(buf)@ + fields_bytes(fixed64_field(num as nat, v)),
{
    if v == 0 {
        assert(fields_bytes(Seq::<Field>::empty()) =~= Seq::<u8>::empty());
        assert(final(buf)@ =~= old(buf)@ + Seq::<u8>::empty());
    } else {
        put_fixed64_field(buf, num, v);
        proof {
            lemma_fields_bytes_one((num as nat, Payload::Fixed64(v)));
        }
    }
}

fn put_packed_opt(buf: &mut Vec<u8>, num: u64, us: &Vec<u64>)
    requires
        1 <= num < 0x2000_0000,
    ensures
        final(buf)@ == old(buf)@ + fields_bytes(packed_field(num as nat, us@)),
{
    if us.len() == 0 {
        assert(fields_bytes(Seq::<Field>::empty()) =~= Seq::<u8>::empty());
        assert(final(buf)@ =~= old(buf)@ + Seq::<u8>::empty());
    } else {
        let mut payload: Vec<u8> = Vec::new();
        put_packed_varints(&mut payload, us);
        put_len_field(buf, num, payload.as_slice());
        proof {
            lemma_fields_bytes_one((num as nat, Payload::Len(payload@)));
        }
    }
}

fn put_opt_message(buf: &mut Vec<u8>, num: u64, m: Option<Vec<u8>>)
    requires
        1 <= num < 0x2000_0000,
    ensures
        final(buf)@ == old(buf)@ + fields_bytes(message_field(num as nat, match m { Some(v) => Some(v@), None => None })),
{
    match m {
        Some(v) => put_message_field(buf, num, v.as_slice()),
        None => {
            assert(fields_bytes(Seq::<Field>::empty()) =~= Seq::<u8>::empty());
            assert(final(buf)@ =~= old(buf)@ + Seq::<u8>::empty());
        },
    }
}

pub open spec fn point_bytes(p: NumberDataPoint) -> Seq<u8> {
    fields_bytes(fixed64_field(2, p.start_time_unix_nano) + fixed64_field(3, p.time_unix_nano) + fixed64_field(
        6,
        p.as_int as u64,
    ) + len_fields(7, kv_views(p.attributes@).map_values(|kv: KeyValueView| key_value_bytes(kv))))
}

pub open spec fn gauge_bytes(g: Gauge) -> Seq<u8> {
    fields_bytes(len_fields(1, g.data_points@.map_values(|p: NumberDataPoint| point_bytes(p))))
}

pub open spec fn metric_bytes(m: Metric) -> Seq<u8> {
    fields_bytes(str_field(1, m.name@) + str_field(2, m.description@) + str_field(3, m.unit@) + message_field(
        5,
        match m.gauge {
            Some(g) => Some(gauge_bytes(g)),
            None => None,
        },
    ))
}

pub open spec fn attribute_column_bytes(a: ColumnarAttribute) -> Seq<u8> {
    fields_bytes(str_field(1, a.name@) + String::value_fields(2, a.values.deep_view()))
}

pub open spec fn metric_column_bytes(c: ColumnarMetric) -> Seq<u8> {
    fields_bytes(str_field(1, c.name@) + str_field(2, c.description@) + str_field(3, c.unit@) + i64::value_fields(
        4,
        c.int_values.deep_view(),
    ))
}

pub open spec fn multivariate_bytes(mm: MultivariateMetric) -> Seq<u8> {
    fields_bytes(len_fields(1, mm.attributes@.map_values(|a: ColumnarAttribute| attribute_column_bytes(a)))
        + packed_field(2, mm.time_unix_nano_column@) + packed_field(3, mm.start_time_unix_nano_column@)
        + len_fields(4, mm.metrics@.map_values(|c: ColumnarMetric| metric_column_bytes(c))))
}

pub open spec fn library_metrics_bytes(l: InstrumentationLibraryMetrics) -> Seq<u8> {
    fields_bytes(message_field(
        1,
        match l.instrumentation_library {
            Some(x) => Some(library_bytes(x@)),
            None => None,
        },
    ) + len_fields(2, l.metrics@.map_values(|m: Metric| metric_bytes(m))) + str_field(3, l.schema_url@)
        + len_fields(4, l.multivariate_metrics@.map_values(|mm: MultivariateMetric| multivariate_bytes(mm))))
}

/// The bytes of a whole `ResourceMetrics` message.
pub open spec fn resource_metrics_bytes(r: ResourceMetrics) -> Seq<u8> {
    fields_bytes(message_field(
        1,
        match r.resource {
            Some(x) => Some(resource_bytes(x@)),
            None => None,
        },
    ) + len_fields(
        2,
        r.instrumentation_library_metrics@.map_values(|l: InstrumentationLibraryMetrics| library_metrics_bytes(l)),
    ) + str_field(3, r.schema_url@))
}

fn encode_point(p: &NumberDataPoint) -> (r: Vec<u8>)
    ensures
        r@ == point_bytes(*p),
{
    let mut buf: Vec<u8> = Vec::new();
    put_fixed64_opt(&mut buf, 2, p.start_time_unix_nano);
    let ghost b1 = buf@;
    put_fixed64_opt(&mut buf, 3, p.time_unix_nano);
    let ghost b2 = buf@;
    put_fixed64_opt(&mut buf, 6, p.as_int as u64);
    let ghost b3 = buf@;
    let ghost av = kv_views(p.attributes@);
    let ghost at_s = kv_views(p.attributes@);
    let ghost at_f = |kv: KeyValueView| key_value_bytes(kv);
    let ghost at_b = buf@;
    assert(len_fields(7, at_s.take(0).map_values(at_f)) =~= Seq::<Field>::empty());
    assert(buf@ =~= at_b + fields_bytes(len_fields(7, at_s.take(0).map_values(at_f))));
    let mut i: usize = 0;
    while i < p.attributes.len()
        invariant
            i <= at_s.len(),
            at_s == kv_views(p.attributes@),
            at_f == |kv: KeyValueView| key_value_bytes(kv),
            buf@ == at_b + fields_bytes(len_fields(7, at_s.take(i as int).map_values(at_f))),
        decreases at_s.len() - i,
    {
        let m = encode_key_value(&p.attributes[i]);
        put_len_field(&mut buf, 7, m.as_slice());
        proof {
            assert(at_s.take(i + 1).map_values(at_f) =~= at_s.take(i as int).map_values(at_f).push(m@));
            lemma_len_fields_push(7, at_s.take(i as int).map_values(at_f), m@);
        }
        i += 1;
    }
    assert(at_s.take(at_s.len() as int) =~= at_s);
    proof {
        lemma_four(Seq::empty(), b1, b2, b3, buf@, fixed64_field(2, p.start_time_unix_nano), fixed64_field(3, p.time_unix_nano),
            fixed64_field(6, p.as_int as u64), len_fields(7, av.map_values(|kv: KeyValueView| key_value_bytes(kv))));
        assert(buf@ =~= point_bytes(*p));
    }
    buf
}

fn encode_gauge(g: &Gauge) -> (r: Vec<u8>)
    ensures
        r@ == gauge_bytes(*g),
{
    let mut buf: Vec<u8> = Vec::new();
    let ghost pt_s = g.data_points@;
    let ghost pt_f = |p: NumberDataPoint| point_bytes(p);
    let ghost pt_b = buf@;
    assert(len_fields(1, pt_s.take(0).map_values(pt_f)) =~= Seq::<Field>::empty());
    assert(buf@ =~= pt_b + fields_bytes(len_fields(1, pt_s.take(0).map_values(pt_f))));
    let mut i: usize = 0;
    while i < g.data_points.len()
        invariant
            i <= pt_s.len(),
            pt_s == g.data_points@,
            pt_f == |p: NumberDataPoint| point_bytes(p),
            buf@ == pt_b + fields_bytes(len_fields(1, pt_s.take(i as int).map_values(pt_f))),
        decreases pt_s.len() - i,
    {
        let m = encode_point(&g.data_points[i]);
        put_len_field(&mut buf, 1, m.as_slice());
        proof {
            assert(pt_s.take(i + 1).map_values(pt_f) =~= pt_s.take(i as int).map_values(pt_f).push(m@));
            lemma_len_fields_push(1, pt_s.take(i as int).map_values(pt_f), m@);
        }
        i += 1;
    }
    assert(pt_s.take(pt_s.len() as int) =~= pt_s);
    assert(buf@ =~= gauge_bytes(*g));
    buf
}

fn encode_metric(m: &Metric) -> (r: Vec<u8>)
    ensures
        r@ == metric_bytes(*m),
{
    let mut buf: Vec<u8> = Vec::new();
    put_str_field(&mut buf, 1, &m.name);
    let ghost b1 = buf@;
    put_str_field(&mut buf, 2, &m.description);
    let ghost b2 = buf@;
    put_str_field(&mut buf, 3, &m.unit);
    let ghost b3 = buf@;
    let g = match &m.gauge {
        Some(x) => Some(encode_gauge(x)),
        None => None,
    };
    put_opt_message(&mut buf, 5, g);
    proof {
        lemma_four(Seq::empty(), b1, b2, b3, buf@, str_field(1, m.name@), str_field(2, m.description@), str_field(3, m.unit@),
            message_field(5, match &m.gauge { Some(x) => Some(gauge_bytes(*x)), None => None }));
        assert(buf@ =~= metric_bytes(*m));
    }
    buf
}

fn encode_attribute_column(a: &ColumnarAttribute) -> (r: Vec<u8>)
    ensures
        r@ == attribute_column_bytes(*a),
{
    let mut buf: Vec<u8> = Vec::new();
    put_str_field(&mut buf, 1, &a.name);
    let ghost b1 = buf@;
    String::put_values(&mut buf, 2, &a.values);
    proof {
        let e = Seq::<Field>::empty();
        lemma_four(Seq::empty(), b1, buf@, buf@, buf@, str_field(1, a.name@), String::value_fields(2, a.values.deep_view()), e, e);
        assert(str_field(1, a.name@) + String::value_fields(2, a.values.deep_view()) + e + e =~= str_field(1, a.name@) + String::value_fields(2, a.values.deep_view()));
        assert(fields_bytes(e) =~= Seq::<u8>::empty());
        assert(buf@ =~= attribute_column_bytes(*a));
    }
    buf
}

fn encode_metric_column(c: &ColumnarMetric) -> (r: Vec<u8>)
    ensures
        r@ == metric_column_bytes(*c),
{
    let mut buf: Vec<u8> = Vec::new();
    put_str_field(&mut buf, 1, &c.name);
    let ghost b1 = buf@;
    put_str_field(&mut buf, 2, &c.description);
    let ghost b2 = buf@;
    put_str_field(&mut buf, 3, &c.unit);
    let ghost b3 = buf@;
    i64::put_values(&mut buf, 4, &c.int_values);
    proof {
        lemma_four(Seq::empty(), b1, b2, b3, buf@, str_field(1, c.name@), str_field(2, c.description@), str_field(3, c.unit@),
            i64::value_fields(4, c.int_values.deep_view()));
        assert(buf@ =~= metric_column_bytes(*c));
    }
    buf
}

fn encode_multivariate(mm: &MultivariateMetric) -> (r: Vec<u8>)
    ensures
        r@ == multivariate_bytes(*mm),
{
    let mut buf: Vec<u8> = Vec::new();
    let ghost at_s = mm.attributes@;
    let ghost at_f = |a: ColumnarAttribute| attribute_column_bytes(a);
    let ghost at_b = buf@;
    assert(len_fields(1, at_s.take(0).map_values(at_f)) =~= Seq::<Field>::empty());
    assert(buf@ =~= at_b + fields_bytes(len_fields(1, at_s.take(0).map_values(at_f))));
    let mut i: usize = 0;
    while i < mm.attributes.len()
        invariant
            i <= at_s.len(),
            at_s == mm.attributes@,
            at_f == |a: ColumnarAttribute| attribute_column_bytes(a),
            buf@ == at_b + fields_bytes(len_fields(1, at_s.take(i as int).map_values(at_f))),
        decreases at_s.len() - i,
    {
        let m = encode_attribute_column(&mm.attributes[i]);
        put_len_field(&mut buf, 1, m.as_slice());
        proof {
            assert(at_s.take(i + 1).map_values(at_f) =~= at_s.take(i as int).map_values(at_f).push(m@));
            lemma_len_fields_push(1, at_s.take(i as int).map_values(at_f), m@);
        }
        i += 1;
    }
    assert(at_s.take(at_s.len() as int) =~= at_s);
    let ghost b1 = buf@;
    put_packed_opt(&mut buf, 2, &mm.time_unix_nano_column);
    let ghost b2 = buf@;
    put_packed_opt(&mut buf, 3, &mm.start_time_unix_nano_column);
    let ghost b3 = buf@;
    let ghost mc_s = mm.metrics@;
    let ghost mc_f = |c: ColumnarMetric| metric_column_bytes(c);
    let ghost mc_b = buf@;
    assert(len_fields(4, mc_s.take(0).map_values(mc_f)) =~= Seq::<Field>::empty());
    assert(buf@ =~= mc_b + fields_bytes(len_fields(4, mc_s.take(0).map_values(mc_f))));
    i = 0;
    while i < mm.metrics.len()
        invariant
            i <= mc_s.len(),
            mc_s == mm.metrics@,
            mc_f == |c: ColumnarMetric| metric_column_bytes(c),
            buf@ == mc_b + fields_bytes(len_fields(4, mc_s.take(i as int).map_values(mc_f))),
        decreases mc_s.len() - i,
    {
        let m = encode_metric_column(&mm.metrics[i]);
        put_len_field(&mut buf, 4, m.as_slice());
        proof {
            assert(mc_s.take(i + 1).map_values(mc_f) =~= mc_s.take(i as int).map_values(mc_f).push(m@));
            lemma_len_fields_push(4, mc_s.take(i as int).map_values(mc_f), m@);
        }
        i += 1;
    }
    assert(mc_s.take(mc_s.len() as int) =~= mc_s);
    proof {
        assert(b1 =~= Seq::<u8>::empty() + fields_bytes(len_fields(1, mm.attributes@.map_values(|a: ColumnarAttribute| attribute_column_bytes(a)))));
        lemma_four(Seq::empty(), b1, b2, b3, buf@, len_fields(1, mm.attributes@.map_values(|a: ColumnarAttribute| attribute_column_bytes(a))),
            packed_field(2, mm.time_unix_nano_column@), packed_field(3, mm.start_time_unix_nano_column@),
            len_fields(4, mm.metrics@.map_values(|c: ColumnarMetric| metric_column_bytes(c))));
        assert(buf@ =~= multivariate_bytes(*mm));
    }
    buf
}

fn encode_library_metrics(l: &InstrumentationLibraryMetrics) -> (r: Vec<u8>)
    ensures
        r@ == library_metrics_bytes(*l),
{
    let mut buf: Vec<u8> = Vec::new();
    let lib = match &l.instrumentation_library {
        Some(x) => Some(encode_library(x)),
        None => None,
    };
    put_opt_message(&mut buf, 1, lib);
    let ghost b1 = buf@;
    let ghost me_s = l.metrics@;
    let ghost me_f = |m: Metric| metric_bytes(m);
    let ghost me_b = buf@;
    assert(len_fields(2, me_s.take(0).map_values(me_f)) =~= Seq::<Field>::empty());
    assert(buf@ =~= me_b + fields_bytes(len_fields(2, me_s.take(0).map_values(me_f))));
    let mut i: usize = 0;
    while i < l.metrics.len()
        invariant
            i <= me_s.len(),
            me_s == l.metrics@,
            me_f == |m: Metric| metric_bytes(m),
            buf@ == me_b + fields_bytes(len_fields(2, me_s.take(i as int).map_values(me_f))),
        decreases me_s.len() - i,
    {
        let m = encode_metric(&l.metrics[i]);
        put_len_field(&mut buf, 2, m.as_slice());
        proof {
            assert(me_s.take(i + 1).map_values(me_f) =~= me_s.take(i as int).map_values(me_f).push(m@));
            lemma_len_fields_push(2, me_s.take(i as int).map_values(me_f), m@);
        }
        i += 1;
    }
    assert(me_s.take(me_s.len() as int) =~= me_s);
    let ghost b2 = buf@;
    put_str_field(&mut buf, 3, &l.schema_url);
    let ghost b3 = buf@;
    let ghost mv_s = l.multivariate_metrics@;
    let ghost mv_f = |mm: MultivariateMetric| multivariate_bytes(mm);
    let ghost mv_b = buf@;
    assert(len_fields(4, mv_s.take(0).map_values(mv_f)) =~= Seq::<Field>::empty());
    assert(buf@ =~= mv_b + fields_bytes(len_fields(4, mv_s.take(0).map_values(mv_f))));
    i = 0;
    while i < l.multivariate_metrics.len()
        invariant
            i <= mv_s.len(),
            mv_s == l.multivariate_metrics@,
            mv_f == |mm: MultivariateMetric| multivariate_bytes(mm),
            buf@ == mv_b + fields_bytes(len_fields(4, mv_s.take(i as int).map_values(mv_f))),
        decreases mv_s.len() - i,
    {
        let m = encode_multivariate(&l.multivariate_metrics[i]);
        put_len_field(&mut buf, 4, m.as_slice());
        proof {
            assert(mv_s.take(i + 1).map_values(mv_f) =~= mv_s.take(i as int).map_values(mv_f).push(m@));
            lemma_len_fields_push(4, mv_s.take(i as int).map_values(mv_f), m@);
        }
        i += 1;
    }
    assert(mv_s.take(mv_s.len() as int) =~= mv_s);
    proof {
        lemma_four(Seq::empty(), b1, b2, b3, buf@,
            message_field(1, match &l.instrumentation_library { Some(x) => Some(library_bytes(x@)), None => None }),
            len_fields(2, l.metrics@.map_values(|m: Metric| metric_bytes(m))), str_field(3, l.schema_url@),
            len_fields(4, l.multivariate_metrics@.map_values(|mm: MultivariateMetric| multivariate_bytes(mm))));
        assert(buf@ =~= library_metrics_bytes(*l));
    }
    buf
}

/// The bytes of a `ResourceMetrics` message.
pub fn encode_resource_metrics(rm: &ResourceMetrics) -> (r: Vec<u8>)
    ensures
        r@ == resource_metrics_bytes(*rm),
{
    let mut buf: Vec<u8> = Vec::new();
    let res = match &rm.resource {
        Some(x) => Some(encode_resource(x)),
        None => None,
    };
    put_opt_message(&mut buf, 1, res);
    let ghost b1 = buf@;
    let ghost lm_s = rm.instrumentation_library_metrics@;
    let ghost lm_f = |l: InstrumentationLibraryMetrics| library_metrics_bytes(l);
    let ghost lm_b = buf@;
    assert(len_fields(2, lm_s.take(0).map_values(lm_f)) =~= Seq::<Field>::empty());
    assert(buf@ =~= lm_b + fields_bytes(len_fields(2, lm_s.take(0).map_values(lm_f))));
    let mut i: usize = 0;
    while i < rm.instrumentation_library_metrics.len()
        invariant
            i <= lm_s.len(),
            lm_s == rm.instrumentation_library_metrics@,
            lm_f == |l: InstrumentationLibraryMetrics| library_metrics_bytes(l),
            buf@ == lm_b + fields_bytes(len_fields(2, lm_s.take(i as int).map_values(lm_f))),
        decreases lm_s.len() - i,
    {
        let m = encode_library_metrics(&rm.instrumentation_library_metrics[i]);
        put_len_field(&mut buf, 2, m.as_slice());
        proof {
            assert(lm_s.take(i + 1).map_values(lm_f) =~= lm_s.take(i as int).map_values(lm_f).push(m@));
            lemma_len_fields_push(2, lm_s.take(i as int).map_values(lm_f), m@);
        }
        i += 1;
    }
    assert(lm_s.take(lm_s.len() as int) =~= lm_s);
    let ghost b2 = buf@;
    put_str_field(&mut buf, 3, &rm.schema_url);
    proof {
        let e = Seq::<Field>::empty();
        lemma_four(Seq::empty(), b1, b2, buf@, buf@,
            message_field(1, match &rm.resource { Some(x) => Some(resource_bytes(x@)), None => None }),
            len_fields(2, rm.instrumentation_library_metrics@.map_values(|l: InstrumentationLibraryMetrics| library_metrics_bytes(l))),
            str_field(3, rm.schema_url@), e);
        assert(fields_bytes(e) =~= Seq::<u8>::empty());
        assert(buf@ =~= resource_metrics_bytes(*rm));
    }
    buf
}

} // verus!
