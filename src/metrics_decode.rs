//! Reading the metric messages back from their bytes.
use crate::column_codec::{bytes_payload, read_string, utf8_payload, WireValue};
use crate::envelope::{KeyValueView, LibraryView, ResourceView};
use crate::envelope_decode::{decode_kv, decode_kv_bytes, decode_library, decode_library_bytes, decode_resource, decode_resource_bytes};
use crate::metrics::{
    ColumnarAttribute, ColumnarMetric, Gauge, InstrumentationLibraryMetrics, Metric, MultivariateMetric, NumberDataPoint,
    ResourceMetrics,
};
use crate::batch_decode::packed_payload;
use crate::wire::{fold_fields, lemma_parse_fields_step, next_field, parse_fields, payload_of, Field, FieldValue, Payload};
use vstd::prelude::*;
use vstd::slice::slice_subrange;

verus! {

pub ghost struct PointView {
    pub attributes: Seq<KeyValueView>,
    pub start_time_unix_nano: u64,
    pub time_unix_nano: u64,
    pub as_int: i64,
}

pub ghost struct MetricView {
    pub name: Seq<char>,
    pub description: Seq<char>,
    pub unit: Seq<char>,
    pub gauge: Option<Seq<PointView>>,
}

pub ghost struct AttributeColumnView {
    pub name: Seq<char>,
    pub values: Seq<Seq<char>>,
}

pub ghost struct MetricColumnView {
    pub name: Seq<char>,
    pub description: Seq<char>,
    pub unit: Seq<char>,
    pub int_values: Seq<i64>,
}

pub ghost struct MultivariateView {
    pub attributes: Seq<AttributeColumnView>,
    pub time_unix_nano_column: Seq<u64>,
    pub start_time_unix_nano_column: Seq<u64>,
    pub metrics: Seq<MetricColumnView>,
}

pub ghost struct LibraryMetricsView {
    pub instrumentation_library: Option<LibraryView>,
    pub metrics: Seq<MetricView>,
    pub multivariate_metrics: Seq<MultivariateView>,
    pub schema_url: Seq<char>,
}

pub ghost struct ResourceMetricsView {
    pub resource: Option<ResourceView>,
    pub instrumentation_library_metrics: Seq<LibraryMetricsView>,
    pub schema_url: Seq<char>,
}

impl View for NumberDataPoint {
    type V = PointView;

    open spec fn view(&self) -> PointView {
        PointView {
            attributes: Seq::new(self.attributes@.len(), |i: int| self.attributes@[i]@),
            start_time_unix_nano: self.start_time_unix_nano,
            time_unix_nano: self.time_unix_nano,
            as_int: self.as_int,
        }
    }
}

impl View for Gauge {
    type V = Seq<PointView>;

    open spec fn view(&self) -> Seq<PointView> {
        Seq::new(self.data_points@.len(), |i: int| self.data_points@[i]@)
    }
}

impl View for Metric {
    type V = MetricView;

    open spec fn view(&self) -> MetricView {
        MetricView {
            name: self.name@,
            description: self.description@,
            unit: self.unit@,
            gauge: match self.gauge {
                Some(g) => Some(g@),
                None => None,
            },
        }
    }
}

impl View for ColumnarAttribute {
    type V = AttributeColumnView;

    open spec fn view(&self) -> AttributeColumnView {
        AttributeColumnView { name: self.name@, values: self.values.deep_view() }
    }
}

impl View for ColumnarMetric {
    type V = MetricColumnView;

    open spec fn view(&self) -> MetricColumnView {
        MetricColumnView {
            name: self.name@,
            description: self.description@,
            unit: self.unit@,
            int_values: self.int_values@,
        }
    }
}

impl View for MultivariateMetric {
    type V = MultivariateView;

    open spec fn view(&self) -> MultivariateView {
        MultivariateView {
            attributes: Seq::new(self.attributes@.len(), |i: int| self.attributes@[i]@),
            time_unix_nano_column: self.time_unix_nano_column@,
            start_time_unix_nano_column: self.start_time_unix_nano_column@,
            metrics: Seq::new(self.metrics@.len(), |i: int| self.metrics@[i]@),
        }
    }
}

impl View for InstrumentationLibraryMetrics {
    type V = LibraryMetricsView;

    open spec fn view(&self) -> LibraryMetricsView {
        LibraryMetricsView {
            instrumentation_library: match self.instrumentation_library {
                Some(l) => Some(l@),
                None => None,
            },
            metrics: Seq::new(self.metrics@.len(), |i: int| self.metrics@[i]@),
            multivariate_metrics: Seq::new(self.multivariate_metrics@.len(), |i: int| self.multivariate_metrics@[i]@),
            schema_url: self.schema_url@,
        }
    }
}

impl View for ResourceMetrics {
    type V = ResourceMetricsView;

    open spec fn view(&self) -> ResourceMetricsView {
        ResourceMetricsView {
            resource: match self.resource {
                Some(r) => Some(r@),
                None => None,
            },
            instrumentation_library_metrics: Seq::new(
                self.instrumentation_library_metrics@.len(),
                |i: int| self.instrumentation_library_metrics@[i]@,
            ),
            schema_url: self.schema_url@,
        }
    }
}

pub open spec fn apply_point(p: PointView, f: Field) -> Option<PointView> {
    if f.0 == 2 || f.0 == 3 || f.0 == 6 {
        match f.1 {
            Payload::Fixed64(v) => Some(
                if f.0 == 2 {
                    PointView { start_time_unix_nano: v, ..p }
                } else if f.0 == 3 {
                    PointView { time_unix_nano: v, ..p }
                } else {
                    PointView { as_int: v as i64, ..p }
                },
            ),
            _ => None,
        }
    } else if f.0 == 7 {
        match bytes_payload(f.1) {
            Some(s) => match decode_kv(s) {
                Some(kv) => Some(PointView { attributes: p.attributes.push(kv), ..p }),
                None => None,
            },
            None => None,
        }
    } else {
        Some(p)
    }
}

pub open spec fn point_applier() -> spec_fn(PointView, Field) -> Option<PointView> {
    |p: PointView, f: Field| apply_point(p, f)
}

pub open spec fn decode_point(b: Seq<u8>) -> Option<PointView> {
    match parse_fields(b) {
        Some(fs) => fold_fields(
            PointView { attributes: Seq::empty(), start_time_unix_nano: 0, time_unix_nano: 0, as_int: 0 },
            fs,
            point_applier(),
        ),
        None => None,
    }
}

pub open spec fn apply_gauge(g: Seq<PointView>, f: Field) -> Option<Seq<PointView>> {
    if f.0 == 1 {
        match bytes_payload(f.1) {
            Some(s) => match decode_point(s) {
                Some(p) => Some(g.push(p)),
                None => None,
            },
            None => None,
        }
    } else {
        Some(g)
    }
}

pub open spec fn gauge_applier() -> spec_fn(Seq<PointView>, Field) -> Option<Seq<PointView>> {
    |g: Seq<PointView>, f: Field| apply_gauge(g, f)
}

pub open spec fn decode_gauge(b: Seq<u8>) -> Option<Seq<PointView>> {
    match parse_fields(b) {
        Some(fs) => fold_fields(Seq::empty(), fs, gauge_applier()),
        None => None,
    }
}

pub open spec fn apply_metric(m: MetricView, f: Field) -> Option<MetricView> {
    if f.0 == 1 || f.0 == 2 || f.0 == 3 {
        match utf8_payload(f.1) {
            Some(s) => Some(
                if f.0 == 1 {
                    MetricView { name: s, ..m }
                } else if f.0 == 2 {
                    MetricView { description: s, ..m }
                } else {
                    MetricView { unit: s, ..m }
                },
            ),
            None => None,
        }
    } else if f.0 == 5 {
        match bytes_payload(f.1) {
            Some(s) => match decode_gauge(s) {
                Some(g) => Some(MetricView { gauge: Some(g), ..m }),
                None => None,
            },
            None => None,
        }
    } else {
        Some(m)
    }
}

pub open spec fn metric_applier() -> spec_fn(MetricView, Field) -> Option<MetricView> {
    |m: MetricView, f: Field| apply_metric(m, f)
}

pub open spec fn decode_metric(b: Seq<u8>) -> Option<MetricView> {
    match parse_fields(b) {
        Some(fs) => fold_fields(
            MetricView { name: Seq::empty(), description: Seq::empty(), unit: Seq::empty(), gauge: None },
            fs,
            metric_applier(),
        ),
        None => None,
    }
}

pub open spec fn apply_attribute_column(a: AttributeColumnView, f: Field) -> Option<AttributeColumnView> {
    if f.0 == 1 {
        match utf8_payload(f.1) {
            Some(s) => Some(AttributeColumnView { name: s, ..a }),
            None => None,
        }
    } else if f.0 == 2 {
        match String::apply_values(a.values, f.1) {
            Some(vs) => Some(AttributeColumnView { values: vs, ..a }),
            None => None,
        }
    } else {
        Some(a)
    }
}

pub open spec fn attribute_column_applier() -> spec_fn(AttributeColumnView, Field) -> Option<AttributeColumnView> {
    |a: AttributeColumnView, f: Field| apply_attribute_column(a, f)
}

pub open spec fn decode_attribute_column(b: Seq<u8>) -> Option<AttributeColumnView> {
    match parse_fields(b) {
        Some(fs) => fold_fields(AttributeColumnView { name: Seq::empty(), values: Seq::empty() }, fs, attribute_column_applier()),
        None => None,
    }
}

pub open spec fn apply_metric_column(c: MetricColumnView, f: Field) -> Option<MetricColumnView> {
    if f.0 == 1 || f.0 == 2 || f.0 == 3 {
        match utf8_payload(f.1) {
            Some(s) => Some(
                if f.0 == 1 {
                    MetricColumnView { name: s, ..c }
                } else if f.0 == 2 {
                    MetricColumnView { description: s, ..c }
                } else {
                    MetricColumnView { unit: s, ..c }
                },
            ),
            None => None,
        }
    } else if f.0 == 4 {
        match i64::apply_values(c.int_values, f.1) {
            Some(vs) => Some(MetricColumnView { int_values: vs, ..c }),
            None => None,
        }
    } else {
        Some(c)
    }
}

pub open spec fn metric_column_applier() -> spec_fn(MetricColumnView, Field) -> Option<MetricColumnView> {
    |c: MetricColumnView, f: Field| apply_metric_column(c, f)
}

pub open spec fn decode_metric_column(b: Seq<u8>) -> Option<MetricColumnView> {
    match parse_fields(b) {
        Some(fs) => fold_fields(
            MetricColumnView { name: Seq::empty(), description: Seq::empty(), unit: Seq::empty(), int_values: Seq::empty() },
            fs,
            metric_column_applier(),
        ),
        None => None,
    }
}

pub open spec fn apply_multivariate(m: MultivariateView, f: Field) -> Option<MultivariateView> {
    if f.0 == 1 {
        match bytes_payload(f.1) {
            Some(s) => match decode_attribute_column(s) {
                Some(a) => Some(MultivariateView { attributes: m.attributes.push(a), ..m }),
                None => None,
            },
            None => None,
        }
    } else if f.0 == 2 || f.0 == 3 {
        match packed_payload(f.1) {
            Some(us) => Some(
                if f.0 == 2 {
                    MultivariateView { time_unix_nano_column: m.time_unix_nano_column + us, ..m }
                } else {
                    MultivariateView { start_time_unix_nano_column: m.start_time_unix_nano_column + us, ..m }
                },
            ),
            None => None,
        }
    } else if f.0 == 4 {
        match bytes_payload(f.1) {
            Some(s) => match decode_metric_column(s) {
                Some(c) => Some(MultivariateView { metrics: m.metrics.push(c), ..m }),
                None => None,
            },
            None => None,
        }
    } else {
        Some(m)
    }
}

pub open spec fn multivariate_applier() -> spec_fn(MultivariateView, Field) -> Option<MultivariateView> {
    |m: MultivariateView, f: Field| apply_multivariate(m, f)
}

pub open spec fn decode_multivariate(b: Seq<u8>) -> Option<MultivariateView> {
    match parse_fields(b) {
        Some(fs) => fold_fields(
            MultivariateView {
                attributes: Seq::empty(),
                time_unix_nano_column: Seq::empty(),
                start_time_unix_nano_column: Seq::empty(),
                metrics: Seq::empty(),
            },
            fs,
            multivariate_applier(),
        ),
        None => None,
    }
}

pub open spec fn apply_library_metrics(l: LibraryMetricsView, f: Field) -> Option<LibraryMetricsView> {
    if f.0 == 1 {
        match bytes_payload(f.1) {
            Some(s) => match decode_library(s) {
                Some(x) => Some(LibraryMetricsView { instrumentation_library: Some(x), ..l }),
                None => None,
            },
            None => None,
        }
    } else if f.0 == 2 {
        match bytes_payload(f.1) {
            Some(s) => match decode_metric(s) {
                Some(x) => Some(LibraryMetricsView { metrics: l.metrics.push(x), ..l }),
                None => None,
            },
            None => None,
        }
    } else if f.0 == 3 {
        match utf8_payload(f.1) {
            Some(s) => Some(LibraryMetricsView { schema_url: s, ..l }),
            None => None,
        }
    } else if f.0 == 4 {
        match bytes_payload(f.1) {
            Some(s) => match decode_multivariate(s) {
                Some(x) => Some(LibraryMetricsView { multivariate_metrics: l.multivariate_metrics.push(x), ..l }),
                None => None,
            },
            None => None,
        }
    } else {
        Some(l)
    }
}

pub open spec fn library_metrics_applier() -> spec_fn(LibraryMetricsView, Field) -> Option<LibraryMetricsView> {
    |l: LibraryMetricsView, f: Field| apply_library_metrics(l, f)
}

pub open spec fn decode_library_metrics(b: Seq<u8>) -> Option<LibraryMetricsView> {
    match parse_fields(b) {
        Some(fs) => fold_fields(
            LibraryMetricsView {
                instrumentation_library: None,
                metrics: Seq::empty(),
                multivariate_metrics: Seq::empty(),
                schema_url: Seq::empty(),
            },
            fs,
            library_metrics_applier(),
        ),
        None => None,
    }
}

pub open spec fn apply_resource_metrics(r: ResourceMetricsView, f: Field) -> Option<ResourceMetricsView> {
    if f.0 == 1 {
        match bytes_payload(f.1) {
            Some(s) => match decode_resource(s) {
                Some(x) => Some(ResourceMetricsView { resource: Some(x), ..r }),
                None => None,
            },
            None => None,
        }
    } else if f.0 == 2 {
        match bytes_payload(f.1) {
            Some(s) => match decode_library_metrics(s) {
                Some(x) => Some(
                    ResourceMetricsView {
                        instrumentation_library_metrics: r.instrumentation_library_metrics.push(x),
                        ..r
                    },
                ),
                None => None,
            },
            None => None,
        }
    } else if f.0 == 3 {
        match utf8_payload(f.1) {
            Some(s) => Some(ResourceMetricsView { schema_url: s, ..r }),
            None => None,
        }
    } else {
        Some(r)
    }
}

pub open spec fn resource_metrics_applier() -> spec_fn(ResourceMetricsView, Field) -> Option<ResourceMetricsView> {
    |r: ResourceMetricsView, f: Field| apply_resource_metrics(r, f)
}

/// Reads a whole `ResourceMetrics` message from its bytes.
pub open spec fn decode_resource_metrics(b: Seq<u8>) -> Option<ResourceMetricsView> {
    match parse_fields(b) {
        Some(fs) => fold_fields(
            ResourceMetricsView { resource: None, instrumentation_library_metrics: Seq::empty(), schema_url: Seq::empty() },
            fs,
            resource_metrics_applier(),
        ),
        None => None,
    }
}

fn apply_point_field(x: &mut NumberDataPoint, b: &[u8], num: u64, v: FieldValue) -> (ok: bool)
    requires
        v matches FieldValue::Len(s, e) ==> s <= e <= b@.len(),
    ensures
        match apply_point(old(x)@, (num as nat, payload_of(b@, v))) {
            Some(n) => ok && final(x)@ == n,
            None => !ok,
        },
{
    if num == 2 || num == 3 || num == 6 {
        match v {
            FieldValue::Fixed64(n) => {
                if num == 2 {
                    x.start_time_unix_nano = n;
                } else if num == 3 {
                    x.time_unix_nano = n;
                } else {
                    x.as_int = n as i64;
                }
                true
            },
            _ => false,
        }
    } else if num == 7 {
        match v {
            FieldValue::Len(s, e) => {
                let sub = slice_subrange(b, s, e);
                match decode_kv_bytes(sub) {
                    Some(y) => {
                        let ghost yv = y@;
                        x.attributes.push(y);
                        assert(x@.attributes =~= old(x)@.attributes.push(yv));
                        true
                    },
                    None => false,
                }
            },
            _ => false,
        }
    } else {
        true
    }
}

/// Reads a data point from its bytes.
fn decode_point_bytes(b: &[u8]) -> (r: Option<NumberDataPoint>)
    ensures
        match decode_point(b@) {
            Some(e) => r matches Some(x) && x@ == e,
            None => r is None,
        },
{
    let mut x = NumberDataPoint { attributes: Vec::new(), start_time_unix_nano: 0, time_unix_nano: 0, as_int: 0 };
    let ghost ap = point_applier();
    proof {
        assert(b@.skip(0) =~= b@);
        assert(x@.attributes =~= Seq::<KeyValueView>::empty());
    }
    let mut pos: usize = 0;
    while pos < b.len()
        invariant
            pos <= b@.len(),
            ap == point_applier(),
            decode_point(b@) == match parse_fields(b@.skip(pos as int)) {
                Some(r) => fold_fields(x@, r, ap),
                None => None,
            },
        decreases b@.len() - pos,
    {
        proof {
            lemma_parse_fields_step(b@, pos as int);
        }
        let (num, v, next) = match next_field(b, pos) {
            Some(t) => t,
            None => return None,
        };
        let ghost f = (num as nat, payload_of(b@, v));
        let ok = apply_point_field(&mut x, b, num, v);
        proof {
            match parse_fields(b@.skip(next as int)) {
                Some(r) => {
                    assert((seq![f] + r)[0] == f);
                    assert((seq![f] + r).drop_first() =~= r);
                },
                None => {},
            }
        }
        if !ok {
            return None;
        }
        pos = next;
    }
    assert(b@.skip(pos as int) =~= Seq::<u8>::empty());
    Some(x)
}

fn apply_gauge_field(x: &mut Gauge, b: &[u8], num: u64, v: FieldValue) -> (ok: bool)
    requires
        v matches FieldValue::Len(s, e) ==> s <= e <= b@.len(),
    ensures
        match apply_gauge(old(x)@, (num as nat, payload_of(b@, v))) {
            Some(n) => ok && final(x)@ == n,
            None => !ok,
        },
{
    if num == 1 {
        match v {
            FieldValue::Len(s, e) => {
                let sub = slice_subrange(b, s, e);
                match decode_point_bytes(sub) {
                    Some(y) => {
                        let ghost yv = y@;
                        x.data_points.push(y);
                        assert(x@ =~= old(x)@.push(yv));
                        true
                    },
                    None => false,
                }
            },
            _ => false,
        }
    } else {
        true
    }
}

/// Reads a gauge from its bytes.
fn decode_gauge_bytes(b: &[u8]) -> (r: Option<Gauge>)
    ensures
        match decode_gauge(b@) {
            Some(e) => r matches Some(x) && x@ == e,
            None => r is None,
        },
{
    let mut x = Gauge { data_points: Vec::new() };
    let ghost ap = gauge_applier();
    proof {
        assert(b@.skip(0) =~= b@);
        assert(x@ =~= Seq::<PointView>::empty());
    }
    let mut pos: usize = 0;
    while pos < b.len()
        invariant
            pos <= b@.len(),
            ap == gauge_applier(),
            decode_gauge(b@) == match parse_fields(b@.skip(pos as int)) {
                Some(r) => fold_fields(x@, r, ap),
                None => None,
            },
        decreases b@.len() - pos,
    {
        proof {
            lemma_parse_fields_step(b@, pos as int);
        }
        let (num, v, next) = match next_field(b, pos) {
            Some(t) => t,
            None => return None,
        };
        let ghost f = (num as nat, payload_of(b@, v));
        let ok = apply_gauge_field(&mut x, b, num, v);
        proof {
            match parse_fields(b@.skip(next as int)) {
                Some(r) => {
                    assert((seq![f] + r)[0] == f);
                    assert((seq![f] + r).drop_first() =~= r);
                },
                None => {},
            }
        }
        if !ok {
            return None;
        }
        pos = next;
    }
    assert(b@.skip(pos as int) =~= Seq::<u8>::empty());
    Some(x)
}

fn apply_metric_field(x: &mut Metric, b: &[u8], num: u64, v: FieldValue) -> (ok: bool)
    requires
        v matches FieldValue::Len(s, e) ==> s <= e <= b@.len(),
    ensures
        match apply_metric(old(x)@, (num as nat, payload_of(b@, v))) {
            Some(n) => ok && final(x)@ == n,
            None => !ok,
        },
{
    if num == 1 || num == 2 || num == 3 {
        match read_string(b, v) {
            Some(s) => {
                if num == 1 {
                    x.name = s;
                } else if num == 2 {
                    x.description = s;
                } else {
                    x.unit = s;
                }
                true
            },
            None => false,
        }
    } else if num == 5 {
        match v {
            FieldValue::Len(s, e) => {
                let sub = slice_subrange(b, s, e);
                match decode_gauge_bytes(sub) {
                    Some(g) => {
                        x.gauge = Some(g);
                        true
                    },
                    None => false,
                }
            },
            _ => false,
        }
    } else {
        true
    }
}

/// Reads a metric from its bytes.
fn decode_metric_bytes(b: &[u8]) -> (r: Option<Metric>)
    ensures
        match decode_metric(b@) {
            Some(e) => r matches Some(x) && x@ == e,
            None => r is None,
        },
{
    let mut x = Metric { name: String::new(), description: String::new(), unit: String::new(), gauge: None };
    let ghost ap = metric_applier();
    proof {
        assert(b@.skip(0) =~= b@);

    }
    let mut pos: usize = 0;
    while pos < b.len()
        invariant
            pos <= b@.len(),
            ap == metric_applier(),
            decode_metric(b@) == match parse_fields(b@.skip(pos as int)) {
                Some(r) => fold_fields(x@, r, ap),
                None => None,
            },
        decreases b@.len() - pos,
    {
        proof {
            lemma_parse_fields_step(b@, pos as int);
        }
        let (num, v, next) = match next_field(b, pos) {
            Some(t) => t,
            None => return None,
        };
        let ghost f = (num as nat, payload_of(b@, v));
        let ok = apply_metric_field(&mut x, b, num, v);
        proof {
            match parse_fields(b@.skip(next as int)) {
                Some(r) => {
                    assert((seq![f] + r)[0] == f);
                    assert((seq![f] + r).drop_first() =~= r);
                },
                None => {},
            }
        }
        if !ok {
            return None;
        }
        pos = next;
    }
    assert(b@.skip(pos as int) =~= Seq::<u8>::empty());
    Some(x)
}

fn apply_attribute_column_field(x: &mut ColumnarAttribute, b: &[u8], num: u64, v: FieldValue) -> (ok: bool)
    requires
        v matches FieldValue::Len(s, e) ==> s <= e <= b@.len(),
    ensures
        match apply_attribute_column(old(x)@, (num as nat, payload_of(b@, v))) {
            Some(n) => ok && final(x)@ == n,
            None => !ok,
        },
{
    if num == 1 {
        match read_string(b, v) {
            Some(s) => {
                x.name = s;
                true
            },
            None => false,
        }
    } else if num == 2 {
        String::read_values(&mut x.values, b, v)
    } else {
        true
    }
}

/// Reads an attribute column from its bytes.
fn decode_attribute_column_bytes(b: &[u8]) -> (r: Option<ColumnarAttribute>)
    ensures
        match decode_attribute_column(b@) {
            Some(e) => r matches Some(x) && x@ == e,
            None => r is None,
        },
{
    let mut x = ColumnarAttribute { name: String::new(), values: Vec::new() };
    let ghost ap = attribute_column_applier();
    proof {
        assert(b@.skip(0) =~= b@);
        assert(x@.values =~= Seq::<Seq<char>>::empty());
    }
    let mut pos: usize = 0;
    while pos < b.len()
        invariant
            pos <= b@.len(),
            ap == attribute_column_applier(),
            decode_attribute_column(b@) == match parse_fields(b@.skip(pos as int)) {
                Some(r) => fold_fields(x@, r, ap),
                None => None,
            },
        decreases b@.len() - pos,
    {
        proof {
            lemma_parse_fields_step(b@, pos as int);
        }
        let (num, v, next) = match next_field(b, pos) {
            Some(t) => t,
            None => return None,
        };
        let ghost f = (num as nat, payload_of(b@, v));
        let ok = apply_attribute_column_field(&mut x, b, num, v);
        proof {
            match parse_fields(b@.skip(next as int)) {
                Some(r) => {
                    assert((seq![f] + r)[0] == f);
                    assert((seq![f] + r).drop_first() =~= r);
                },
                None => {},
            }
        }
        if !ok {
            return None;
        }
        pos = next;
    }
    assert(b@.skip(pos as int) =~= Seq::<u8>::empty());
    Some(x)
}

fn apply_metric_column_field(x: &mut ColumnarMetric, b: &[u8], num: u64, v: FieldValue) -> (ok: bool)
    requires
        v matches FieldValue::Len(s, e) ==> s <= e <= b@.len(),
    ensures
        match apply_metric_column(old(x)@, (num as nat, payload_of(b@, v))) {
            Some(n) => ok && final(x)@ == n,
            None => !ok,
        },
{
    if num == 1 || num == 2 || num == 3 {
        match read_string(b, v) {
            Some(s) => {
                if num == 1 {
                    x.name = s;
                } else if num == 2 {
                    x.description = s;
                } else {
                    x.unit = s;
                }
                true
            },
            None => false,
        }
    } else if num == 4 {
        let ok = i64::read_values(&mut x.int_values, b, v);
        assert(x.int_values.deep_view() =~= x.int_values@);
        assert(old(x).int_values.deep_view() =~= old(x).int_values@);
        ok
    } else {
        true
    }
}

/// Reads a metric column from its bytes.
fn decode_metric_column_bytes(b: &[u8]) -> (r: Option<ColumnarMetric>)
    ensures
        match decode_metric_column(b@) {
            Some(e) => r matches Some(x) && x@ == e,
            None => r is None,
        },
{
    let mut x = ColumnarMetric { name: String::new(), description: String::new(), unit: String::new(), int_values: Vec::new() };
    let ghost ap = metric_column_applier();
    proof {
        assert(b@.skip(0) =~= b@);

    }
    let mut pos: usize = 0;
    while pos < b.len()
        invariant
            pos <= b@.len(),
            ap == metric_column_applier(),
            decode_metric_column(b@) == match parse_fields(b@.skip(pos as int)) {
                Some(r) => fold_fields(x@, r, ap),
                None => None,
            },
        decreases b@.len() - pos,
    {
        proof {
            lemma_parse_fields_step(b@, pos as int);
        }
        let (num, v, next) = match next_field(b, pos) {
            Some(t) => t,
            None => return None,
        };
        let ghost f = (num as nat, payload_of(b@, v));
        let ok = apply_metric_column_field(&mut x, b, num, v);
        proof {
            match parse_fields(b@.skip(next as int)) {
                Some(r) => {
                    assert((seq![f] + r)[0] == f);
                    assert((seq![f] + r).drop_first() =~= r);
                },
                None => {},
            }
        }
        if !ok {
            return None;
        }
        pos = next;
    }
    assert(b@.skip(pos as int) =~= Seq::<u8>::empty());
    Some(x)
}

fn apply_multivariate_field(x: &mut MultivariateMetric, b: &[u8], num: u64, v: FieldValue) -> (ok: bool)
    requires
        v matches FieldValue::Len(s, e) ==> s <= e <= b@.len(),
    ensures
        match apply_multivariate(old(x)@, (num as nat, payload_of(b@, v))) {
            Some(n) => ok && final(x)@ == n,
            None => !ok,
        },
{
    if num == 1 {
        match v {
            FieldValue::Len(s, e) => {
                let sub = slice_subrange(b, s, e);
                match decode_attribute_column_bytes(sub) {
                    Some(y) => {
                        let ghost yv = y@;
                        x.attributes.push(y);
                        assert(x@.attributes =~= old(x)@.attributes.push(yv));
                        true
                    },
                    None => false,
                }
            },
            _ => false,
        }
    } else if num == 2 || num == 3 {
        match v {
            FieldValue::Len(s, e) => match crate::packed::read_packed_varints(b, s, e) {
                Some(us) => {
                    let mut i: usize = 0;
                    let ghost before = if num == 2 { x.time_unix_nano_column@ } else { x.start_time_unix_nano_column@ };
                    while i < us.len()
                        invariant
                            i <= us@.len(),
                            num == 2 || num == 3,
                            x.attributes@ == old(x).attributes@,
                            x.metrics@ == old(x).metrics@,
                            num == 2 ==> x.start_time_unix_nano_column@ == old(x).start_time_unix_nano_column@
                                && x.time_unix_nano_column@ == old(x).time_unix_nano_column@ + us@.take(i as int),
                            num == 3 ==> x.time_unix_nano_column@ == old(x).time_unix_nano_column@
                                && x.start_time_unix_nano_column@ == old(x).start_time_unix_nano_column@ + us@.take(i as int),
                        decreases us@.len() - i,
                    {
                        if num == 2 {
                            x.time_unix_nano_column.push(us[i]);
                        } else {
                            x.start_time_unix_nano_column.push(us[i]);
                        }
                        assert(us@.take(i + 1) =~= us@.take(i as int).push(us@[i as int]));
                        i += 1;
                    }
                    assert(us@.take(us@.len() as int) =~= us@);
                    true
                },
                None => false,
            },
            _ => false,
        }
    } else if num == 4 {
        match v {
            FieldValue::Len(s, e) => {
                let sub = slice_subrange(b, s, e);
                match decode_metric_column_bytes(sub) {
                    Some(y) => {
                        let ghost yv = y@;
                        x.metrics.push(y);
                        assert(x@.metrics =~= old(x)@.metrics.push(yv));
                        true
                    },
                    None => false,
                }
            },
            _ => false,
        }
    } else {
        true
    }
}

/// Reads a multivariate metric from its bytes.
fn decode_multivariate_bytes(b: &[u8]) -> (r: Option<MultivariateMetric>)
    ensures
        match decode_multivariate(b@) {
            Some(e) => r matches Some(x) && x@ == e,
            None => r is None,
        },
{
    let mut x = MultivariateMetric { attributes: Vec::new(), time_unix_nano_column: Vec::new(), start_time_unix_nano_column: Vec::new(), metrics: Vec::new() };
    let ghost ap = multivariate_applier();
    proof {
        assert(b@.skip(0) =~= b@);
        assert(x@.attributes =~= Seq::<AttributeColumnView>::empty());
        assert(x@.metrics =~= Seq::<MetricColumnView>::empty());
    }
    let mut pos: usize = 0;
    while pos < b.len()
        invariant
            pos <= b@.len(),
            ap == multivariate_applier(),
            decode_multivariate(b@) == match parse_fields(b@.skip(pos as int)) {
                Some(r) => fold_fields(x@, r, ap),
                None => None,
            },
        decreases b@.len() - pos,
    {
        proof {
            lemma_parse_fields_step(b@, pos as int);
        }
        let (num, v, next) = match next_field(b, pos) {
            Some(t) => t,
            None => return None,
        };
        let ghost f = (num as nat, payload_of(b@, v));
        let ok = apply_multivariate_field(&mut x, b, num, v);
        proof {
            match parse_fields(b@.skip(next as int)) {
                Some(r) => {
                    assert((seq![f] + r)[0] == f);
                    assert((seq![f] + r).drop_first() =~= r);
                },
                None => {},
            }
        }
        if !ok {
            return None;
        }
        pos = next;
    }
    assert(b@.skip(pos as int) =~= Seq::<u8>::empty());
    Some(x)
}

fn apply_library_metrics_field(x: &mut InstrumentationLibraryMetrics, b: &[u8], num: u64, v: FieldValue) -> (ok: bool)
    requires
        v matches FieldValue::Len(s, e) ==> s <= e <= b@.len(),
    ensures
        match apply_library_metrics(old(x)@, (num as nat, payload_of(b@, v))) {
            Some(n) => ok && final(x)@ == n,
            None => !ok,
        },
{
    if num == 1 {
        match v {
            FieldValue::Len(s, e) => {
                let sub = slice_subrange(b, s, e);
                match decode_library_bytes(sub) {
                    Some(l) => {
                        x.instrumentation_library = Some(l);
                        true
                    },
                    None => false,
                }
            },
            _ => false,
        }
    } else if num == 2 {
        match v {
            FieldValue::Len(s, e) => {
                let sub = slice_subrange(b, s, e);
                match decode_metric_bytes(sub) {
                    Some(y) => {
                        let ghost yv = y@;
                        x.metrics.push(y);
                        assert(x@.metrics =~= old(x)@.metrics.push(yv));
                        true
                    },
                    None => false,
                }
            },
            _ => false,
        }
    } else if num == 3 {
        match read_string(b, v) {
            Some(s) => {
                x.schema_url = s;
                true
            },
            None => false,
        }
    } else if num == 4 {
        match v {
            FieldValue::Len(s, e) => {
                let sub = slice_subrange(b, s, e);
                match decode_multivariate_bytes(sub) {
                    Some(y) => {
                        let ghost yv = y@;
                        x.multivariate_metrics.push(y);
                        assert(x@.multivariate_metrics =~= old(x)@.multivariate_metrics.push(yv));
                        true
                    },
                    None => false,
                }
            },
            _ => false,
        }
    } else {
        true
    }
}

/// Reads the metrics of one library from their bytes.
fn decode_library_metrics_bytes(b: &[u8]) -> (r: Option<InstrumentationLibraryMetrics>)
    ensures
        match decode_library_metrics(b@) {
            Some(e) => r matches Some(x) && x@ == e,
            None => r is None,
        },
{
    let mut x = InstrumentationLibraryMetrics { instrumentation_library: None, metrics: Vec::new(), multivariate_metrics: Vec::new(), schema_url: String::new() };
    let ghost ap = library_metrics_applier();
    proof {
        assert(b@.skip(0) =~= b@);
        assert(x@.metrics =~= Seq::<MetricView>::empty());
        assert(x@.multivariate_metrics =~= Seq::<MultivariateView>::empty());
    }
    let mut pos: usize = 0;
    while pos < b.len()
        invariant
            pos <= b@.len(),
            ap == library_metrics_applier(),
            decode_library_metrics(b@) == match parse_fields(b@.skip(pos as int)) {
                Some(r) => fold_fields(x@, r, ap),
                None => None,
            },
        decreases b@.len() - pos,
    {
        proof {
            lemma_parse_fields_step(b@, pos as int);
        }
        let (num, v, next) = match next_field(b, pos) {
            Some(t) => t,
            None => return None,
        };
        let ghost f = (num as nat, payload_of(b@, v));
        let ok = apply_library_metrics_field(&mut x, b, num, v);
        proof {
            match parse_fields(b@.skip(next as int)) {
                Some(r) => {
                    assert((seq![f] + r)[0] == f);
                    assert((seq![f] + r).drop_first() =~= r);
                },
                None => {},
            }
        }
        if !ok {
            return None;
        }
        pos = next;
    }
    assert(b@.skip(pos as int) =~= Seq::<u8>::empty());
    Some(x)
}

fn apply_resource_metrics_field(x: &mut ResourceMetrics, b: &[u8], num: u64, v: FieldValue) -> (ok: bool)
    requires
        v matches FieldValue::Len(s, e) ==> s <= e <= b@.len(),
    ensures
        match apply_resource_metrics(old(x)@, (num as nat, payload_of(b@, v))) {
            Some(n) => ok && final(x)@ == n,
            None => !ok,
        },
{
    if num == 1 {
        match v {
            FieldValue::Len(s, e) => {
                let sub = slice_subrange(b, s, e);
                match decode_resource_bytes(sub) {
                    Some(r) => {
                        x.resource = Some(r);
                        true
                    },
                    None => false,
                }
            },
            _ => false,
        }
    } else if num == 2 {
        match v {
            FieldValue::Len(s, e) => {
                let sub = slice_subrange(b, s, e);
                match decode_library_metrics_bytes(sub) {
                    Some(y) => {
                        let ghost yv = y@;
                        x.instrumentation_library_metrics.push(y);
                        assert(x@.instrumentation_library_metrics =~= old(x)@.instrumentation_library_metrics.push(yv));
                        true
                    },
                    None => false,
                }
            },
            _ => false,
        }
    } else if num == 3 {
        match read_string(b, v) {
            Some(s) => {
                x.schema_url = s;
                true
            },
            None => false,
        }
    } else {
        true
    }
}

/// Reads a whole `ResourceMetrics` message from its bytes; unknown fields are skipped.
pub fn decode_resource_metrics_bytes(b: &[u8]) -> (r: Option<ResourceMetrics>)
    ensures
        match decode_resource_metrics(b@) {
            Some(e) => r matches Some(x) && x@ == e,
            None => r is None,
        },
{
    let mut x = ResourceMetrics { resource: None, instrumentation_library_metrics: Vec::new(), schema_url: String::new() };
    let ghost ap = resource_metrics_applier();
    proof {
        assert(b@.skip(0) =~= b@);
        assert(x@.instrumentation_library_metrics =~= Seq::<LibraryMetricsView>::empty());
    }
    let mut pos: usize = 0;
    while pos < b.len()
        invariant
            pos <= b@.len(),
            ap == resource_metrics_applier(),
            decode_resource_metrics(b@) == match parse_fields(b@.skip(pos as int)) {
                Some(r) => fold_fields(x@, r, ap),
                None => None,
            },
        decreases b@.len() - pos,
    {
        proof {
            lemma_parse_fields_step(b@, pos as int);
        }
        let (num, v, next) = match next_field(b, pos) {
            Some(t) => t,
            None => return None,
        };
        let ghost f = (num as nat, payload_of(b@, v));
        let ok = apply_resource_metrics_field(&mut x, b, num, v);
        proof {
            match parse_fields(b@.skip(next as int)) {
                Some(r) => {
                    assert((seq![f] + r)[0] == f);
                    assert((seq![f] + r).drop_first() =~= r);
                },
                None => {},
            }
        }
        if !ok {
            return None;
        }
        pos = next;
    }
    assert(b@.skip(pos as int) =~= Seq::<u8>::empty());
    Some(x)
}

} // verus!
