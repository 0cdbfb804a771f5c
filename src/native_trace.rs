//! The row-oriented representation of traces: one message per span, each
//! carrying its own attributes. Kept to compare sizes and query results
//! with the columnar batches.
//!
//! Span: trace id (1), span id (2), trace state (3), parent span id (4),
//! name (5), kind (6), start (7) and end (8) times, attributes (9), dropped
//! attribute count (10), status (15). Status: message (2), code (3).
//! InstrumentationLibrarySpans: library (1), spans (2), schema URL (3).
//! ResourceSpans: resource (1), library spans (2), schema URL (3).
use crate::batch_codec::{lemma_concat7, lemma_fields_bytes7};
use crate::envelope::{AnyValue, InstrumentationLibrary, KeyValue, KeyValueView, LibraryView, Resource, ResourceView};
use crate::envelope_codec::{encode_key_value, encode_library, encode_resource, key_value_bytes, library_bytes, resource_bytes};
use crate::scalar::{
    bytes_field, i32_field, message_field, put_bytes_field, put_i32_field, put_message_field, put_opt_varint_field,
    put_str_field, str_field, varint_field,
};
use crate::summary::fixed64_field;
use crate::values::{len_fields, lemma_len_fields_push};
use crate::wire::{fields_bytes, lemma_fields_bytes_one, put_fixed64_field, put_len_field, Field, Payload};
use vstd::prelude::*;

verus! {

/// The outcome of a span.
#[derive(Debug)]
pub struct SpanStatus {
    pub message: String,
    pub code: i32,
}

/// One span with its attributes.
#[derive(Debug)]
pub struct Span {
    pub trace_id: Vec<u8>,
    pub span_id: Vec<u8>,
    pub trace_state: String,
    pub parent_span_id: Vec<u8>,
    pub name: String,
    pub kind: i32,
    pub start_time_unix_nano: u64,
    pub end_time_unix_nano: u64,
    pub attributes: Vec<KeyValue>,
    pub dropped_attributes_count: u32,
    pub status: Option<SpanStatus>,
}

/// The spans that one library produced.
#[derive(Debug)]
pub struct InstrumentationLibrarySpans {
    pub instrumentation_library: Option<InstrumentationLibrary>,
    pub spans: Vec<Span>,
    pub schema_url: String,
}

/// The spans of one resource.
#[derive(Debug)]
pub struct ResourceSpans {
    pub resource: Option<Resource>,
    pub instrumentation_library_spans: Vec<InstrumentationLibrarySpans>,
    pub schema_url: String,
}

pub ghost struct StatusView {
    pub message: Seq<char>,
    pub code: i32,
}

pub ghost struct SpanView {
    pub trace_id: Seq<u8>,
    pub span_id: Seq<u8>,
    pub trace_state: Seq<char>,
    pub parent_span_id: Seq<u8>,
    pub name: Seq<char>,
    pub kind: i32,
    pub start_time_unix_nano: u64,
    pub end_time_unix_nano: u64,
    pub attributes: Seq<KeyValueView>,
    pub dropped_attributes_count: u32,
    pub status: Option<StatusView>,
}

pub ghost struct LibrarySpansView {
    pub instrumentation_library: Option<LibraryView>,
    pub spans: Seq<SpanView>,
    pub schema_url: Seq<char>,
}

pub ghost struct ResourceSpansView {
    pub resource: Option<ResourceView>,
    pub instrumentation_library_spans: Seq<LibrarySpansView>,
    pub schema_url: Seq<char>,
}

impl View for Span {
    type V = SpanView;

    open spec fn view(&self) -> SpanView {
        SpanView {
            trace_id: self.trace_id@,
            span_id: self.span_id@,
            trace_state: self.trace_state@,
            parent_span_id: self.parent_span_id@,
            name: self.name@,
            kind: self.kind,
            start_time_unix_nano: self.start_time_unix_nano,
            end_time_unix_nano: self.end_time_unix_nano,
            attributes: Seq::new(self.attributes@.len(), |i: int| self.attributes@[i]@),
            dropped_attributes_count: self.dropped_attributes_count,
            status: match self.status {
                Some(s) => Some(StatusView { message: s.message@, code: s.code }),
                None => None,
            },
        }
    }
}

impl View for InstrumentationLibrarySpans {
    type V = LibrarySpansView;

    open spec fn view(&self) -> LibrarySpansView {
        LibrarySpansView {
            instrumentation_library: match self.instrumentation_library {
                Some(l) => Some(l@),
                None => None,
            },
            spans: Seq::new(self.spans@.len(), |i: int| self.spans@[i]@),
            schema_url: self.schema_url@,
        }
    }
}

impl View for ResourceSpans {
    type V = ResourceSpansView;

    open spec fn view(&self) -> ResourceSpansView {
        ResourceSpansView {
            resource: match self.resource {
                Some(r) => Some(r@),
                None => None,
            },
            instrumentation_library_spans: Seq::new(
                self.instrumentation_library_spans@.len(),
                |i: int| self.instrumentation_library_spans@[i]@,
            ),
            schema_url: self.schema_url@,
        }
    }
}

pub open spec fn status_bytes(s: StatusView) -> Seq<u8> {
    fields_bytes(str_field(2, s.message) + i32_field(3, s.code))
}

pub open spec fn span_fields(s: SpanView) -> Seq<Field> {
    bytes_field(1, s.trace_id) + bytes_field(2, s.span_id) + str_field(3, s.trace_state) + bytes_field(
        4,
        s.parent_span_id,
    ) + str_field(5, s.name) + i32_field(6, s.kind) + (fixed64_field(7, s.start_time_unix_nano)
        + fixed64_field(8, s.end_time_unix_nano) + len_fields(
        9,
        s.attributes.map_values(|kv: KeyValueView| key_value_bytes(kv)),
    ) + varint_field(10, s.dropped_attributes_count as u64) + message_field(
        15,
        match s.status {
            Some(st) => Some(status_bytes(st)),
            None => None,
        },
    ))
}

/// The bytes of a span.
pub open spec fn span_bytes(s: SpanView) -> Seq<u8> {
    fields_bytes(span_fields(s))
}

pub open spec fn library_spans_bytes(l: LibrarySpansView) -> Seq<u8> {
    fields_bytes(
        message_field(
            1,
            match l.instrumentation_library {
                Some(x) => Some(library_bytes(x)),
                None => None,
            },
        ) + len_fields(2, l.spans.map_values(|s: SpanView| span_bytes(s))) + str_field(3, l.schema_url),
    )
}

/// The bytes of a whole `ResourceSpans` message.
pub open spec fn resource_spans_bytes(r: ResourceSpansView) -> Seq<u8> {
    fields_bytes(
        message_field(
            1,
            match r.resource {
                Some(x) => Some(resource_bytes(x)),
                None => None,
            },
        ) + len_fields(
            2,
            r.instrumentation_library_spans.map_values(|l: LibrarySpansView| library_spans_bytes(l)),
        ) + str_field(3, r.schema_url),
    )
}

fn put_fixed64_opt(buf: &mut Vec<u8>, num: u64, v: u64)
    requires
        1 <= num < 0x2000_0000,
    ensures
        final(buf)@ == old(buf)@ + fields_bytes(fixed64_field(num as nat, v)),
{
    if v == 0 {
        assert(fields_bytes(Seq::<Field>::empty()) =~= Seq::<u8>::empty());
        assert(final(buf)@ =~= old(buf)@ + Seq::<u8>::empty());
    } else {
        put_fixed64_field(buf, num, v);
        proof {
            lemma_fields_bytes_one((num as nat, Payload::Fixed64(v)));
        }
    }
}

fn put_opt_message(buf: &mut Vec<u8>, num: u64, m: Option<Vec<u8>>)
    requires
        1 <= num < 0x2000_0000,
    ensures
        final(buf)@ == old(buf)@ + fields_bytes(message_field(num as nat, match m { Some(v) => Some(v@), None => None })),
{
    match m {
        Some(v) => put_message_field(buf, num, v.as_slice()),
        None => {
            assert(fields_bytes(Seq::<Field>::empty()) =~= Seq::<u8>::empty());
            assert(final(buf)@ =~= old(buf)@ + Seq::<u8>::empty());
        },
    }
}

fn encode_status(s: &SpanStatus) -> (r: Vec<u8>)
    ensures
        r@ == status_bytes(StatusView { message: s.message@, code: s.code }),
{
    let mut r: Vec<u8> = Vec::new();
    put_str_field(&mut r, 2, &s.message);
    let ghost mid = r@;
    put_i32_field(&mut r, 3, s.code);
    proof {
        let e = Seq::<Field>::empty();
        let (a1, a2) = (str_field(2, s.message@), i32_field(3, s.code));
        lemma_fields_bytes7(a1, a2, e, e, e, e, e);
        assert(a1 + a2 + e + e + e + e + e =~= a1 + a2);
        assert(fields_bytes(e) =~= Seq::<u8>::empty());
        assert(r@ =~= fields_bytes(a1) + fields_bytes(a2) + fields_bytes(e) + fields_bytes(e) + fields_bytes(e)
            + fields_bytes(e) + fields_bytes(e));
    }
    r
}

/// Appends one field per attribute.
fn put_attributes(buf: &mut Vec<u8>, num: u64, attrs: &Vec<KeyValue>)
    requires
        1 <= num < 0x2000_0000,
    ensures
        final(buf)@ == old(buf)@ + fields_bytes(
            len_fields(
                num as nat,
                Seq::new(attrs@.len(), |i: int| attrs@[i]@).map_values(|kv: KeyValueView| key_value_bytes(kv)),
            ),
        ),
{
    let ghost av = Seq::new(attrs@.len(), |i: int| attrs@[i]@);
    let ghost f = |kv: KeyValueView| key_value_bytes(kv);
    assert(len_fields(num as nat, av.take(0).map_values(f)) =~= Seq::<Field>::empty());
    assert(buf@ =~= old(buf)@ + fields_bytes(len_fields(num as nat, av.take(0).map_values(f))));
    let mut i: usize = 0;
    while i < attrs.len()
        invariant
            i <= attrs@.len(),
            1 <= num < 0x2000_0000,
            av == Seq::new(attrs@.len(), |i: int| attrs@[i]@),
            f == (|kv: KeyValueView| key_value_bytes(kv)),
            buf@ == old(buf)@ + fields_bytes(len_fields(num as nat, av.take(i as int).map_values(f))),
        decreases attrs@.len() - i,
    {
        let m = encode_key_value(&attrs[i]);
        put_len_field(buf, num, m.as_slice());
        proof {
            assert(av.take(i + 1).map_values(f) =~= av.take(i as int).map_values(f).push(m@));
            lemma_len_fields_push(num as nat, av.take(i as int).map_values(f), m@);
        }
        i += 1;
    }
    assert(av.take(av.len() as int) =~= av);
}

/// The bytes of a span.
pub fn encode_span(s: &Span) -> (r: Vec<u8>)
    ensures
        r@ == span_bytes(s@),
{
    let ghost v = s@;
    let mut r: Vec<u8> = Vec::new();
    put_bytes_field(&mut r, 1, s.trace_id.as_slice());
    let ghost b1 = r@;
    put_bytes_field(&mut r, 2, s.span_id.as_slice());
    let ghost b2 = r@;
    put_str_field(&mut r, 3, &s.trace_state);
    let ghost b3 = r@;
    put_bytes_field(&mut r, 4, s.parent_span_id.as_slice());
    let ghost b4 = r@;
    put_str_field(&mut r, 5, &s.name);
    let ghost b5 = r@;
    put_i32_field(&mut r, 6, s.kind);
    let ghost b6 = r@;
    put_fixed64_opt(&mut r, 7, s.start_time_unix_nano);
    let ghost c1 = r@;
    put_fixed64_opt(&mut r, 8, s.end_time_unix_nano);
    let ghost c2 = r@;
    put_attributes(&mut r, 9, &s.attributes);
    let ghost c3 = r@;
    put_opt_varint_field(&mut r, 10, s.dropped_attributes_count as u64);
    let ghost c4 = r@;
    let st = match &s.status {
        Some(x) => Some(encode_status(x)),
        None => None,
    };
    put_opt_message(&mut r, 15, st);
    proof {
        let e = Seq::<Field>::empty();
        let t1 = fixed64_field(7, v.start_time_unix_nano);
        let t2 = fixed64_field(8, v.end_time_unix_nano);
        let t3 = len_fields(9, v.attributes.map_values(|kv: KeyValueView| key_value_bytes(kv)));
        let t4 = varint_field(10, v.dropped_attributes_count as u64);
        let t5 = message_field(15, match v.status { Some(x) => Some(status_bytes(x)), None => None });
        lemma_fields_bytes7(t1, t2, t3, t4, t5, e, e);
        assert(t1 + t2 + t3 + t4 + t5 + e + e =~= t1 + t2 + t3 + t4 + t5);
        assert(fields_bytes(e) =~= Seq::<u8>::empty());
        lemma_concat7(b6, c1, c2, c3, c4, r@, r@, r@, fields_bytes(t1), fields_bytes(t2), fields_bytes(t3),
            fields_bytes(t4), fields_bytes(t5), Seq::empty(), Seq::empty());
        let tail = t1 + t2 + t3 + t4 + t5;
        let h = (bytes_field(1, v.trace_id), bytes_field(2, v.span_id), str_field(3, v.trace_state),
            bytes_field(4, v.parent_span_id), str_field(5, v.name), i32_field(6, v.kind));
        lemma_fields_bytes7(h.0, h.1, h.2, h.3, h.4, h.5, tail);
        lemma_concat7(Seq::empty(), b1, b2, b3, b4, b5, b6, r@, fields_bytes(h.0), fields_bytes(h.1),
            fields_bytes(h.2), fields_bytes(h.3), fields_bytes(h.4), fields_bytes(h.5), fields_bytes(tail));
        assert(r@ =~= span_bytes(v));
    }
    r
}

fn encode_library_spans(l: &InstrumentationLibrarySpans) -> (r: Vec<u8>)
    ensures
        r@ == library_spans_bytes(l@),
{
    let mut r: Vec<u8> = Vec::new();
    let lib = match &l.instrumentation_library {
        Some(x) => Some(encode_library(x)),
        None => None,
    };
    put_opt_message(&mut r, 1, lib);
    let ghost b1 = r@;
    let ghost sv = l@.spans;
    let ghost f = |s: SpanView| span_bytes(s);
    assert(len_fields(2, sv.take(0).map_values(f)) =~= Seq::<Field>::empty());
    assert(r@ =~= b1 + fields_bytes(len_fields(2, sv.take(0).map_values(f))));
    let mut i: usize = 0;
    while i < l.spans.len()
        invariant
            i <= l.spans@.len(),
            sv == l@.spans,
            f == (|s: SpanView| span_bytes(s)),
            r@ == b1 + fields_bytes(len_fields(2, sv.take(i as int).map_values(f))),
        decreases l.spans@.len() - i,
    {
        let m = encode_span(&l.spans[i]);
        put_len_field(&mut r, 2, m.as_slice());
        proof {
            assert(sv.take(i + 1).map_values(f) =~= sv.take(i as int).map_values(f).push(m@));
            lemma_len_fields_push(2, sv.take(i as int).map_values(f), m@);
        }
        i += 1;
    }
    assert(sv.take(sv.len() as int) =~= sv);
    let ghost b2 = r@;
    put_str_field(&mut r, 3, &l.schema_url);
    proof {
        let e = Seq::<Field>::empty();
        let a1 = message_field(1, match l@.instrumentation_library { Some(x) => Some(library_bytes(x)), None => None });
        let a2 = len_fields(2, sv.map_values(f));
        let a3 = str_field(3, l@.schema_url);
        lemma_fields_bytes7(a1, a2, a3, e, e, e, e);
        assert(a1 + a2 + a3 + e + e + e + e =~= a1 + a2 + a3);
        assert(fields_bytes(e) =~= Seq::<u8>::empty());
        assert(r@ =~= library_spans_bytes(l@));
    }
    r
}

/// The bytes of a `ResourceSpans` message.
pub fn encode_resource_spans(rs: &ResourceSpans) -> (r: Vec<u8>)
    ensures
        r@ == resource_spans_bytes(rs@),
{
    let mut r: Vec<u8> = Vec::new();
    let res = match &rs.resource {
        Some(x) => Some(encode_resource(x)),
        None => None,
    };
    put_opt_message(&mut r, 1, res);
    let ghost b1 = r@;
    let ghost lv = rs@.instrumentation_library_spans;
    let ghost f = |l: LibrarySpansView| library_spans_bytes(l);
    assert(len_fields(2, lv.take(0).map_values(f)) =~= Seq::<Field>::empty());
    assert(r@ =~= b1 + fields_bytes(len_fields(2, lv.take(0).map_values(f))));
    let mut i: usize = 0;
    while i < rs.instrumentation_library_spans.len()
        invariant
            i <= rs.instrumentation_library_spans@.len(),
            lv == rs@.instrumentation_library_spans,
            f == (|l: LibrarySpansView| library_spans_bytes(l)),
            r@ == b1 + fields_bytes(len_fields(2, lv.take(i as int).map_values(f))),
        decreases rs.instrumentation_library_spans@.len() - i,
    {
        let m = encode_library_spans(&rs.instrumentation_library_spans[i]);
        put_len_field(&mut r, 2, m.as_slice());
        proof {
            assert(lv.take(i + 1).map_values(f) =~= lv.take(i as int).map_values(f).push(m@));
            lemma_len_fields_push(2, lv.take(i as int).map_values(f), m@);
        }
        i += 1;
    }
    assert(lv.take(lv.len() as int) =~= lv);
    put_str_field(&mut r, 3, &rs.schema_url);
    proof {
        let e = Seq::<Field>::empty();
        let a1 = message_field(1, match rs@.resource { Some(x) => Some(resource_bytes(x)), None => None });
        let a2 = len_fields(2, lv.map_values(f));
        let a3 = str_field(3, rs@.schema_url);
        lemma_fields_bytes7(a1, a2, a3, e, e, e, e);
        assert(a1 + a2 + a3 + e + e + e + e =~= a1 + a2 + a3);
        assert(fields_bytes(e) =~= Seq::<u8>::empty());
        assert(r@ =~= resource_spans_bytes(rs@));
    }
    r
}

/// Records spans one message each, in a `ResourceSpans` of one library.
#[derive(Debug)]
pub struct NativeTraceHandler {
    pub resource_spans: ResourceSpans,
}

impl NativeTraceHandler {
    /// The library's span list exists.
    pub open spec fn wf(&self) -> bool {
        self.resource_spans.instrumentation_library_spans@.len() >= 1
    }

    /// `self` and `o` differ at most in the spans of the first library.
    pub open spec fn same_but_spans(&self, o: &NativeTraceHandler) -> bool {
        let a = self.resource_spans@;
        let b = o.resource_spans@;
        &&& a.resource == b.resource
        &&& a.schema_url == b.schema_url
        &&& a.instrumentation_library_spans.len() == b.instrumentation_library_spans.len()
        &&& a.instrumentation_library_spans[0].instrumentation_library
            == b.instrumentation_library_spans[0].instrumentation_library
        &&& a.instrumentation_library_spans[0].schema_url == b.instrumentation_library_spans[0].schema_url
        &&& forall|i: int|
            1 <= i < a.instrumentation_library_spans.len() ==> #[trigger] a.instrumentation_library_spans[i]
                == b.instrumentation_library_spans[i]
    }

    /// The spans recorded so far.
    pub open spec fn spans(&self) -> Seq<SpanView> {
        self.resource_spans@.instrumentation_library_spans[0].spans
    }

    /// A handler with an empty resource and one library without spans.
    pub fn new() -> (r: Self)
        ensures
            r.wf(),
            r.spans().len() == 0,
            r.resource_spans@.resource == Some(
                ResourceView { attributes: Seq::empty(), dropped_attributes_count: 0 },
            ),
            r.resource_spans@.instrumentation_library_spans.len() == 1,
            r.resource_spans@.instrumentation_library_spans[0].instrumentation_library == Some(
                LibraryView { name: "otel-rust"@, version: "1.0"@ },
            ),
            r.resource_spans@.instrumentation_library_spans[0].schema_url.len() == 0,
            r.resource_spans@.schema_url.len() == 0,
    {
        let mut libraries = Vec::new();
        libraries.push(
            InstrumentationLibrarySpans {
                instrumentation_library: Some(
                    InstrumentationLibrary { name: "otel-rust".to_owned(), version: "1.0".to_owned() },
                ),
                spans: Vec::new(),
                schema_url: String::new(),
            },
        );
        let r = Self {
            resource_spans: ResourceSpans {
                resource: Some(Resource { attributes: Vec::new(), dropped_attributes_count: 0 }),
                instrumentation_library_spans: libraries,
                schema_url: String::new(),
            },
        };
        proof {
            assert(r.resource_spans@.resource.unwrap().attributes =~= Seq::<KeyValueView>::empty());
            assert(r.spans() =~= Seq::<SpanView>::empty());
        }
        r
    }

    /// Appends a span.
    pub fn record(&mut self, span: Span)
        requires
            old(self).wf(),
        ensures
            final(self).wf(),
            final(self).spans() == old(self).spans().push(span@),
            final(self).same_but_spans(old(self)),
    {
        let ghost sv = span@;
        self.resource_spans.instrumentation_library_spans[0].spans.push(span);
        assert(self.spans() =~= old(self).spans().push(sv));
    }

    /// Drops every span.
    pub fn clear(&mut self)
        requires
            old(self).wf(),
        ensures
            final(self).wf(),
            final(self).spans().len() == 0,
            final(self).same_but_spans(old(self)),
    {
        self.resource_spans.instrumentation_library_spans[0].spans.clear();
    }

    /// Replaces the whole message by the one that `buf` holds. Fails with
    /// `DecodeError`, leaving the handler as it was, where `buf` is not a
    /// well-formed message or holds no library.
    pub fn deserialize(&mut self, buf: Vec<u8>) -> (r: Result<(), crate::event::Error>)
        requires
            old(self).wf(),
        ensures
            final(self).wf(),
            match crate::native_trace_decode::decode_resource_spans(buf@) {
                Some(v) => if v.instrumentation_library_spans.len() >= 1 {
                    r is Ok && final(self).resource_spans@ == v
                } else {
                    r == Err::<(), crate::event::Error>(crate::event::Error::DecodeError) && final(self).resource_spans == old(self).resource_spans
                },
                None => r == Err::<(), crate::event::Error>(crate::event::Error::DecodeError) && final(self).resource_spans == old(self).resource_spans,
            },
    {
        match crate::native_trace_decode::decode_resource_spans_bytes(buf.as_slice()) {
            Some(rs) => {
                if rs.instrumentation_library_spans.len() == 0 {
                    return Err(crate::event::Error::DecodeError);
                }
                self.resource_spans = rs;
                Ok(())
            },
            None => Err(crate::event::Error::DecodeError),
        }
    }

    /// The bytes of the whole `ResourceSpans` message. Encoding does not fail.
    pub fn serialize(&self) -> (r: Result<Vec<u8>, crate::event::Error>)
        ensures
            r matches Ok(v) && v@ == resource_spans_bytes(self.resource_spans@),
    {
        Ok(encode_resource_spans(&self.resource_spans))
    }
}


/// The row-oriented span of a JSON trace: strings become their UTF-8
/// bytes, missing fields their defaults, and each valued attribute a
/// string attribute, in order.
pub fn json_trace_to_span(t: crate::json_trace::JsonTrace) -> (r: Span)
    ensures
        r@.trace_id == vstd::utf8::encode_utf8(t.evt.trace_id@),
        r@.span_id == vstd::utf8::encode_utf8(t.evt.span_id@),
        r@.trace_state == crate::json_trace::or_empty(t.evt.trace_state),
        r@.parent_span_id == vstd::utf8::encode_utf8(crate::json_trace::or_empty(t.evt.parent_span_id)),
        r@.name == t.evt.name@,
        r@.kind == crate::json_trace::or_zero(t.evt.kind) as i32,
        r@.start_time_unix_nano == t.evt.start_time_unix_nano,
        r@.end_time_unix_nano == t.evt.end_time_unix_nano,
        r@.attributes.len() == crate::json_trace::attr_names(crate::json_trace::attributes_of(t.evt)).len(),
        forall|i: int|
            0 <= i < r@.attributes.len() ==> #[trigger] r@.attributes[i] == crate::metrics::str_attr(
                crate::json_trace::attr_names(crate::json_trace::attributes_of(t.evt))[i],
                crate::json_trace::attr_values(crate::json_trace::attributes_of(t.evt))[i],
            ),
        r@.dropped_attributes_count == 0,
        r@.status == Some(
            StatusView {
                message: crate::json_trace::or_empty(t.evt.status.message),
                code: crate::json_trace::or_zero(t.evt.status.code) as i32,
            },
        ),
{
    let e = t.evt;
    let ghost attrs = crate::json_trace::attributes_of(e);
    let mut attributes: Vec<KeyValue> = Vec::new();
    match &e.attributes {
        Some(a) => {
            let mut i: usize = 0;
            while i < a.len()
                invariant
                    i <= a@.len(),
                    attrs == a@,
                    attributes@.len() == crate::json_trace::attr_names(a@.take(i as int)).len(),
                    forall|j: int|
                        0 <= j < attributes@.len() ==> #[trigger] attributes@[j]@ == crate::metrics::str_attr(
                            crate::json_trace::attr_names(a@.take(i as int))[j],
                            crate::json_trace::attr_values(a@.take(i as int))[j],
                        ),
                decreases a@.len() - i,
            {
                proof {
                    crate::json_trace::lemma_attr_len(a@.take(i as int));
                    let tk = a@.take(i + 1);
                    assert(tk.drop_last() =~= a@.take(i as int));
                    assert(tk.last() == a@[i as int]);
                }
                match &a[i].1 {
                    Some(v) => {
                        let ghost pre = attributes@;
                        attributes.push(
                            KeyValue { key: a[i].0.clone(), value: Some(AnyValue::StringValue(v.clone())) },
                        );
                        proof {
                            crate::json_trace::lemma_attr_len(a@.take(i + 1));
                            let tk = a@.take(i + 1);
                            assert(tk.last().1 == Some(*v));
                            assert(crate::json_trace::attr_names(tk) == crate::json_trace::attr_names(a@.take(i as int)).push(a@[i as int].0@));
                            assert(crate::json_trace::attr_values(tk) == crate::json_trace::attr_values(a@.take(i as int)).push(v@));
                            assert(attributes@[pre.len() as int]@ == crate::metrics::str_attr(a@[i as int].0@, v@));
                            crate::json_trace::lemma_attr_len(a@.take(i as int));
                        }
                    },
                    None => {},
                }
                i += 1;
            }
            assert(a@.take(a@.len() as int) =~= a@);
        },
        None => {},
    }
    let trace_state = match e.trace_state {
        Some(s) => s,
        None => String::new(),
    };
    let parent = match e.parent_span_id {
        Some(s) => s,
        None => String::new(),
    };
    let message = match e.status.message {
        Some(s) => s,
        None => String::new(),
    };
    let kind: i64 = match e.kind {
        Some(k) => k,
        None => 0,
    };
    let code: i64 = match e.status.code {
        Some(c) => c,
        None => 0,
    };
    let r = Span {
        trace_id: vstd::slice::slice_to_vec(e.trace_id.as_str().as_bytes()),
        span_id: vstd::slice::slice_to_vec(e.span_id.as_str().as_bytes()),
        trace_state,
        parent_span_id: vstd::slice::slice_to_vec(parent.as_str().as_bytes()),
        name: e.name,
        kind: #[verifier::truncate] (kind as i32),
        start_time_unix_nano: e.start_time_unix_nano,
        end_time_unix_nano: e.end_time_unix_nano,
        attributes,
        dropped_attributes_count: 0,
        status: Some(SpanStatus { message, code: #[verifier::truncate] (code as i32) }),
    };
    r
}

} // verus!
