//! Reading row-oriented trace messages back from their bytes.
use crate::column_codec::{bytes_payload, read_bytes, read_string, utf8_payload, varint_payload};
use crate::envelope::{KeyValueView, LibraryView, ResourceView};
use crate::envelope_decode::{decode_kv, decode_kv_bytes, decode_library, decode_library_bytes, decode_resource, decode_resource_bytes};
use crate::native_trace::{
    InstrumentationLibrarySpans, LibrarySpansView, ResourceSpans, ResourceSpansView, Span, SpanStatus, SpanView,
    StatusView,
};
use crate::wire::{fold_fields, lemma_parse_fields_step, next_field, parse_fields, payload_of, Field, FieldValue, Payload};
use vstd::prelude::*;
use vstd::slice::slice_subrange;

verus! {

impl View for SpanStatus {
    type V = StatusView;

    open spec fn view(&self) -> StatusView {
        StatusView { message: self.message@, code: self.code }
    }
}

pub open spec fn apply_status(s: StatusView, f: Field) -> Option<StatusView> {
    if f.0 == 2 {
        match utf8_payload(f.1) {
            Some(m) => Some(StatusView { message: m, ..s }),
            None => None,
        }
    } else if f.0 == 3 {
        match varint_payload(f.1) {
            Some(v) => Some(StatusView { code: v as i32, ..s }),
            None => None,
        }
    } else {
        Some(s)
    }
}

pub open spec fn status_applier() -> spec_fn(StatusView, Field) -> Option<StatusView> {
    |s: StatusView, f: Field| apply_status(s, f)
}

pub open spec fn decode_status(b: Seq<u8>) -> Option<StatusView> {
    match parse_fields(b) {
        Some(fs) => fold_fields(StatusView { message: Seq::empty(), code: 0 }, fs, status_applier()),
        None => None,
    }
}

pub open spec fn apply_span(s: SpanView, f: Field) -> Option<SpanView> {
    if f.0 == 1 || f.0 == 2 || f.0 == 4 {
        match bytes_payload(f.1) {
            Some(b) => Some(
                if f.0 == 1 {
                    SpanView { trace_id: b, ..s }
                } else if f.0 == 2 {
                    SpanView { span_id: b, ..s }
                } else {
                    SpanView { parent_span_id: b, ..s }
                },
            ),
            None => None,
        }
    } else if f.0 == 3 || f.0 == 5 {
        match utf8_payload(f.1) {
            Some(t) => Some(
                if f.0 == 3 {
                    SpanView { trace_state: t, ..s }
                } else {
                    SpanView { name: t, ..s }
                },
            ),
            None => None,
        }
    } else if f.0 == 6 || f.0 == 10 {
        match varint_payload(f.1) {
            Some(v) => Some(
                if f.0 == 6 {
                    SpanView { kind: v as i32, ..s }
                } else {
                    SpanView { dropped_attributes_count: v as u32, ..s }
                },
            ),
            None => None,
        }
    } else if f.0 == 7 || f.0 == 8 {
        match f.1 {
            Payload::Fixed64(v) => Some(
                if f.0 == 7 {
                    SpanView { start_time_unix_nano: v, ..s }
                } else {
                    SpanView { end_time_unix_nano: v, ..s }
                },
            ),
            _ => None,
        }
    } else if f.0 == 9 {
        match bytes_payload(f.1) {
            Some(b) => match decode_kv(b) {
                Some(kv) => Some(SpanView { attributes: s.attributes.push(kv), ..s }),
                None => None,
            },
            None => None,
        }
    } else if f.0 == 15 {
        match bytes_payload(f.1) {
            Some(b) => match decode_status(b) {
                Some(st) => Some(SpanView { status: Some(st), ..s }),
                None => None,
            },
            None => None,
        }
    } else {
        Some(s)
    }
}

pub open spec fn span_applier() -> spec_fn(SpanView, Field) -> Option<SpanView> {
    |s: SpanView, f: Field| apply_span(s, f)
}

pub open spec fn empty_span() -> SpanView {
    SpanView {
        trace_id: Seq::empty(),
        span_id: Seq::empty(),
        trace_state: Seq::empty(),
        parent_span_id: Seq::empty(),
        name: Seq::empty(),
        kind: 0,
        start_time_unix_nano: 0,
        end_time_unix_nano: 0,
        attributes: Seq::empty(),
        dropped_attributes_count: 0,
        status: None,
    }
}

pub open spec fn decode_span(b: Seq<u8>) -> Option<SpanView> {
    match parse_fields(b) {
        Some(fs) => fold_fields(empty_span(), fs, span_applier()),
        None => None,
    }
}

pub open spec fn apply_library_spans(l: LibrarySpansView, f: Field) -> Option<LibrarySpansView> {
    if f.0 == 1 {
        match bytes_payload(f.1) {
            Some(b) => match decode_library(b) {
                Some(x) => Some(LibrarySpansView { instrumentation_library: Some(x), ..l }),
                None => None,
            },
            None => None,
        }
    } else if f.0 == 2 {
        match bytes_payload(f.1) {
            Some(b) => match decode_span(b) {
                Some(x) => Some(LibrarySpansView { spans: l.spans.push(x), ..l }),
                None => None,
            },
            None => None,
        }
    } else if f.0 == 3 {
        match utf8_payload(f.1) {
            Some(t) => Some(LibrarySpansView { schema_url: t, ..l }),
            None => None,
        }
    } else {
        Some(l)
    }
}

pub open spec fn library_spans_applier() -> spec_fn(LibrarySpansView, Field) -> Option<LibrarySpansView> {
    |l: LibrarySpansView, f: Field| apply_library_spans(l, f)
}

pub open spec fn decode_library_spans(b: Seq<u8>) -> Option<LibrarySpansView> {
    match parse_fields(b) {
        Some(fs) => fold_fields(
            LibrarySpansView { instrumentation_library: None, spans: Seq::empty(), schema_url: Seq::empty() },
            fs,
            library_spans_applier(),
        ),
        None => None,
    }
}

pub open spec fn apply_resource_spans(r: ResourceSpansView, f: Field) -> Option<ResourceSpansView> {
    if f.0 == 1 {
        match bytes_payload(f.1) {
            Some(b) => match decode_resource(b) {
                Some(x) => Some(ResourceSpansView { resource: Some(x), ..r }),
                None => None,
            },
            None => None,
        }
    } else if f.0 == 2 {
        match bytes_payload(f.1) {
            Some(b) => match decode_library_spans(b) {
                Some(x) => Some(
                    ResourceSpansView { instrumentation_library_spans: r.instrumentation_library_spans.push(x), ..r },
                ),
                None => None,
            },
            None => None,
        }
    } else if f.0 == 3 {
        match utf8_payload(f.1) {
            Some(t) => Some(ResourceSpansView { schema_url: t, ..r }),
            None => None,
        }
    } else {
        Some(r)
    }
}

pub open spec fn resource_spans_applier() -> spec_fn(ResourceSpansView, Field) -> Option<ResourceSpansView> {
    |r: ResourceSpansView, f: Field| apply_resource_spans(r, f)
}

/// Reads a whole `ResourceSpans` message from its bytes.
pub open spec fn decode_resource_spans(b: Seq<u8>) -> Option<ResourceSpansView> {
    match parse_fields(b) {
        Some(fs) => fold_fields(
            ResourceSpansView { resource: None, instrumentation_library_spans: Seq::empty(), schema_url: Seq::empty() },
            fs,
            resource_spans_applier(),
        ),
        None => None,
    }
}

fn apply_status_field(x: &mut SpanStatus, b: &[u8], num: u64, v: FieldValue) -> (ok: bool)
    requires
        v matches FieldValue::Len(s, e) ==> s <= e <= b@.len(),
    ensures
        match apply_status(old(x)@, (num as nat, payload_of(b@, v))) {
            Some(n) => ok && final(x)@ == n,
            None => !ok,
        },
{
    if num == 2 {
        match read_string(b, v) {
            Some(s) => {
                x.message = s;
                true
            },
            None => false,
        }
    } else if num == 3 {
        match v {
            FieldValue::Varint(n) => {
                x.code = n as i32;
                true
            },
            _ => false,
        }
    } else {
        true
    }
}

/// Reads a span status from its bytes.
fn decode_status_bytes(b: &[u8]) -> (r: Option<SpanStatus>)
    ensures
        match decode_status(b@) {
            Some(e) => r matches Some(x) && x@ == e,
            None => r is None,
        },
{
    let mut x = SpanStatus { message: String::new(), code: 0 };
    let ghost ap = status_applier();
    proof {
        assert(b@.skip(0) =~= b@);

    }
    let mut pos: usize = 0;
    while pos < b.len()
        invariant
            pos <= b@.len(),
            ap == status_applier(),
            decode_status(b@) == match parse_fields(b@.skip(pos as int)) {
                Some(r) => fold_fields(x@, r, ap),
                None => None,
            },
        decreases b@.len() - pos,
    {
        proof {
            lemma_parse_fields_step(b@, pos as int);
        }
        let (num, v, next) = match next_field(b, pos) {
            Some(t) => t,
            None => return None,
        };
        let ghost f = (num as nat, payload_of(b@, v));
        let ok = apply_status_field(&mut x, b, num, v);
        proof {
            match parse_fields(b@.skip(next as int)) {
                Some(r) => {
                    assert((seq![f] + r)[0] == f);
                    assert((seq![f] + r).drop_first() =~= r);
                },
                None => {},
            }
        }
        if !ok {
            return None;
        }
        pos = next;
    }
    assert(b@.skip(pos as int) =~= Seq::<u8>::empty());
    Some(x)
}

fn apply_span_field(x: &mut Span, b: &[u8], num: u64, v: FieldValue) -> (ok: bool)
    requires
        v matches FieldValue::Len(s, e) ==> s <= e <= b@.len(),
    ensures
        match apply_span(old(x)@, (num as nat, payload_of(b@, v))) {
            Some(n) => ok && final(x)@ == n,
            None => !ok,
        },
{
    if num == 1 || num == 2 || num == 4 {
        match read_bytes(b, v) {
            Some(t) => {
                if num == 1 {
                    x.trace_id = t;
                } else if num == 2 {
                    x.span_id = t;
                } else {
                    x.parent_span_id = t;
                }
                true
            },
            None => false,
        }
    } else if num == 3 || num == 5 {
        match read_string(b, v) {
            Some(t) => {
                if num == 3 {
                    x.trace_state = t;
                } else {
                    x.name = t;
                }
                true
            },
            None => false,
        }
    } else if num == 6 || num == 10 {
        match v {
            FieldValue::Varint(n) => {
                if num == 6 {
                    x.kind = n as i32;
                } else {
                    x.dropped_attributes_count = n as u32;
                }
                true
            },
            _ => false,
        }
    } else if num == 7 || num == 8 {
        match v {
            FieldValue::Fixed64(n) => {
                if num == 7 {
                    x.start_time_unix_nano = n;
                } else {
                    x.end_time_unix_nano = n;
                }
                true
            },
            _ => false,
        }
    } else if num == 9 || num == 15 {
        match v {
            FieldValue::Len(s, e) => {
                let sub = slice_subrange(b, s, e);
                if num == 9 {
                    match decode_kv_bytes(sub) {
                        Some(kv) => {
                            let ghost kvv = kv@;
                            x.attributes.push(kv);
                            assert(x@.attributes =~= old(x)@.attributes.push(kvv));
                            true
                        },
                        None => false,
                    }
                } else {
                    match decode_status_bytes(sub) {
                        Some(st) => {
                            x.status = Some(st);
                            true
                        },
                        None => false,
                    }
                }
            },
            _ => false,
        }
    } else {
        true
    }
}

/// Reads a span from its bytes.
pub fn decode_span_bytes(b: &[u8]) -> (r: Option<Span>)
    ensures
        match decode_span(b@) {
            Some(e) => r matches Some(x) && x@ == e,
            None => r is None,
        },
{
    let mut x = Span { trace_id: Vec::new(), span_id: Vec::new(), trace_state: String::new(), parent_span_id: Vec::new(), name: String::new(), kind: 0, start_time_unix_nano: 0, end_time_unix_nano: 0, attributes: Vec::new(), dropped_attributes_count: 0, status: None };
    let ghost ap = span_applier();
    proof {
        assert(b@.skip(0) =~= b@);
        assert(x@.attributes =~= Seq::<KeyValueView>::empty());
        assert(x@.trace_id =~= Seq::<u8>::empty());
        assert(x@.span_id =~= Seq::<u8>::empty());
        assert(x@.parent_span_id =~= Seq::<u8>::empty());
    }
    let mut pos: usize = 0;
    while pos < b.len()
        invariant
            pos <= b@.len(),
            ap == span_applier(),
            decode_span(b@) == match parse_fields(b@.skip(pos as int)) {
                Some(r) => fold_fields(x@, r, ap),
                None => None,
            },
        decreases b@.len() - pos,
    {
        proof {
            lemma_parse_fields_step(b@, pos as int);
        }
        let (num, v, next) = match next_field(b, pos) {
            Some(t) => t,
            None => return None,
        };
        let ghost f = (num as nat, payload_of(b@, v));
        let ok = apply_span_field(&mut x, b, num, v);
        proof {
            match parse_fields(b@.skip(next as int)) {
                Some(r) => {
                    assert((seq![f] + r)[0] == f);
                    assert((seq![f] + r).drop_first() =~= r);
                },
                None => {},
            }
        }
        if !ok {
            return None;
        }
        pos = next;
    }
    assert(b@.skip(pos as int) =~= Seq::<u8>::empty());
    Some(x)
}

fn apply_library_spans_field(x: &mut InstrumentationLibrarySpans, b: &[u8], num: u64, v: FieldValue) -> (ok: bool)
    requires
        v matches FieldValue::Len(s, e) ==> s <= e <= b@.len(),
    ensures
        match apply_library_spans(old(x)@, (num as nat, payload_of(b@, v))) {
            Some(n) => ok && final(x)@ == n,
            None => !ok,
        },
{
    if num == 1 || num == 2 {
        match v {
            FieldValue::Len(s, e) => {
                let sub = slice_subrange(b, s, e);
                if num == 1 {
                    match decode_library_bytes(sub) {
                        Some(l) => {
                            x.instrumentation_library = Some(l);
                            true
                        },
                        None => false,
                    }
                } else {
                    match decode_span_bytes(sub) {
                        Some(sp) => {
                            let ghost sv = sp@;
                            x.spans.push(sp);
                            assert(x@.spans =~= old(x)@.spans.push(sv));
                            true
                        },
                        None => false,
                    }
                }
            },
            _ => false,
        }
    } else if num == 3 {
        match read_string(b, v) {
            Some(t) => {
                x.schema_url = t;
                true
            },
            None => false,
        }
    } else {
        true
    }
}

/// Reads the spans of one library from their bytes.
fn decode_library_spans_bytes(b: &[u8]) -> (r: Option<InstrumentationLibrarySpans>)
    ensures
        match decode_library_spans(b@) {
            Some(e) => r matches Some(x) && x@ == e,
            None => r is None,
        },
{
    let mut x = InstrumentationLibrarySpans { instrumentation_library: None, spans: Vec::new(), schema_url: String::new() };
    let ghost ap = library_spans_applier();
    proof {
        assert(b@.skip(0) =~= b@);
        assert(x@.spans =~= Seq::<SpanView>::empty());
    }
    let mut pos: usize = 0;
    while pos < b.len()
        invariant
            pos <= b@.len(),
            ap == library_spans_applier(),
            decode_library_spans(b@) == match parse_fields(b@.skip(pos as int)) {
                Some(r) => fold_fields(x@, r, ap),
                None => None,
            },
        decreases b@.len() - pos,
    {
        proof {
            lemma_parse_fields_step(b@, pos as int);
        }
        let (num, v, next) = match next_field(b, pos) {
            Some(t) => t,
            None => return None,
        };
        let ghost f = (num as nat, payload_of(b@, v));
        let ok = apply_library_spans_field(&mut x, b, num, v);
        proof {
            match parse_fields(b@.skip(next as int)) {
                Some(r) => {
                    assert((seq![f] + r)[0] == f);
                    assert((seq![f] + r).drop_first() =~= r);
                },
                None => {},
            }
        }
        if !ok {
            return None;
        }
        pos = next;
    }
    assert(b@.skip(pos as int) =~= Seq::<u8>::empty());
    Some(x)
}

fn apply_resource_spans_field(x: &mut ResourceSpans, b: &[u8], num: u64, v: FieldValue) -> (ok: bool)
    requires
        v matches FieldValue::Len(s, e) ==> s <= e <= b@.len(),
    ensures
        match apply_resource_spans(old(x)@, (num as nat, payload_of(b@, v))) {
            Some(n) => ok && final(x)@ == n,
            None => !ok,
        },
{
    if num == 1 || num == 2 {
        match v {
            FieldValue::Len(s, e) => {
                let sub = slice_subrange(b, s, e);
                if num == 1 {
                    match decode_resource_bytes(sub) {
                        Some(r) => {
                            x.resource = Some(r);
                            true
                        },
                        None => false,
                    }
                } else {
                    match decode_library_spans_bytes(sub) {
                        Some(l) => {
                            let ghost lv = l@;
                            x.instrumentation_library_spans.push(l);
                            assert(x@.instrumentation_library_spans =~= old(x)@.instrumentation_library_spans.push(lv));
                            true
                        },
                        None => false,
                    }
                }
            },
            _ => false,
        }
    } else if num == 3 {
        match read_string(b, v) {
            Some(t) => {
                x.schema_url = t;
                true
            },
            None => false,
        }
    } else {
        true
    }
}

/// Reads a whole `ResourceSpans` message from its bytes; unknown fields are skipped.
pub fn decode_resource_spans_bytes(b: &[u8]) -> (r: Option<ResourceSpans>)
    ensures
        match decode_resource_spans(b@) {
            Some(e) => r matches Some(x) && x@ == e,
            None => r is None,
        },
{
    let mut x = ResourceSpans { resource: None, instrumentation_library_spans: Vec::new(), schema_url: String::new() };
    let ghost ap = resource_spans_applier();
    proof {
        assert(b@.skip(0) =~= b@);
        assert(x@.instrumentation_library_spans =~= Seq::<LibrarySpansView>::empty());
    }
    let mut pos: usize = 0;
    while pos < b.len()
        invariant
            pos <= b@.len(),
            ap == resource_spans_applier(),
            decode_resource_spans(b@) == match parse_fields(b@.skip(pos as int)) {
                Some(r) => fold_fields(x@, r, ap),
                None => None,
            },
        decreases b@.len() - pos,
    {
        proof {
            lemma_parse_fields_step(b@, pos as int);
        }
        let (num, v, next) = match next_field(b, pos) {
            Some(t) => t,
            None => return None,
        };
        let ghost f = (num as nat, payload_of(b@, v));
        let ok = apply_resource_spans_field(&mut x, b, num, v);
        proof {
            match parse_fields(b@.skip(next as int)) {
                Some(r) => {
                    assert((seq![f] + r)[0] == f);
                    assert((seq![f] + r).drop_first() =~= r);
                },
                None => {},
            }
        }
        if !ok {
            return None;
        }
        pos = next;
    }
    assert(b@.skip(pos as int) =~= Seq::<u8>::empty());
    Some(x)
}

} // verus!
