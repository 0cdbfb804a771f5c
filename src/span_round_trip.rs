//! Reading back the bytes of a row-oriented trace message gives the same
//! message.
use crate::column_codec::{all_ok, lemma_all_ok_concat};
use crate::envelope::{KeyValueView, LibraryView, ResourceView};
use crate::envelope_codec::{key_value_bytes, library_bytes, resource_bytes};
use crate::envelope_decode::{lemma_kv_round_trip, lemma_library_round_trip, lemma_resource_round_trip};
use crate::fold_lemmas::{lemma_fields_bytes_part, lemma_fold_opt, lemma_fold_repeated, lemma_len_fields_ok, lemma_len_fields_payload};
use crate::native_trace::{library_spans_bytes, resource_spans_bytes, span_bytes, span_fields, status_bytes, LibrarySpansView, ResourceSpansView, SpanView, StatusView};
use crate::native_trace_decode::{
    decode_library_spans, decode_resource_spans, decode_span, decode_status, empty_span, library_spans_applier,
    resource_spans_applier, span_applier, status_applier,
};
use crate::scalar::{bytes_field, i32_field, lemma_i32_round_trip, message_field, str_field, varint_field};
use crate::summary::fixed64_field;
use crate::values::len_fields;
use crate::wire::{fold_fields, fields_bytes, lemma_fields_bytes_one, lemma_fold_concat, lemma_parse_fields, Field, Payload};
use vstd::prelude::*;
use vstd::utf8::{encode_utf8_decode_utf8, encode_utf8_valid_utf8};

verus! {

pub proof fn lemma_str(s: Seq<char>)
    ensures
        s.len() == 0 ==> s == Seq::<char>::empty(),
        s.len() > 0 ==> vstd::utf8::valid_utf8(vstd::utf8::encode_utf8(s)) && vstd::utf8::decode_utf8(
            vstd::utf8::encode_utf8(s),
        ) == s,
{
    if s.len() == 0 {
        assert(s =~= Seq::<char>::empty());
    } else {
        encode_utf8_valid_utf8(s);
        encode_utf8_decode_utf8(s);
    }
}

pub proof fn lemma_bytes(s: Seq<u8>)
    ensures
        s.len() == 0 ==> s == Seq::<u8>::empty(),
{
    if s.len() == 0 {
        assert(s =~= Seq::<u8>::empty());
    }
}

proof fn lemma_status_round_trip(st: StatusView)
    requires
        status_bytes(st).len() <= u64::MAX,
    ensures
        decode_status(status_bytes(st)) == Some(st),
{
    let ap = status_applier();
    let a1 = str_field(2, st.message);
    let a2 = i32_field(3, st.code);
    lemma_all_ok_concat(a1, a2);
    lemma_parse_fields(a1 + a2);
    let s0 = StatusView { message: Seq::empty(), code: 0 };
    let s1 = StatusView { message: st.message, code: 0 };
    lemma_str(st.message);
    lemma_fold_opt(s0, a1, ap, s1);
    lemma_i32_round_trip(st.code);
    lemma_fold_opt(s1, a2, ap, st);
    lemma_fold_concat(s0, a1, a2, ap);
}


/// The fields of a span after its kind, read into a span that holds the
/// others already.
#[verifier::rlimit(50)]
proof fn lemma_span_tail(s: SpanView)
    requires
        fields_bytes(span_tail(s)).len() <= u64::MAX,
    ensures
        fold_fields(span_head_state(s), span_tail(s), span_applier()) == Some(s),
{
    let ap = span_applier();
    let enc = |kv: KeyValueView| key_value_bytes(kv);
    let t1 = fixed64_field(7, s.start_time_unix_nano);
    let t2 = fixed64_field(8, s.end_time_unix_nano);
    let t3 = len_fields(9, s.attributes.map_values(enc));
    let t4 = varint_field(10, s.dropped_attributes_count as u64);
    let t5 = message_field(15, match s.status { Some(x) => Some(status_bytes(x)), None => None });
    lemma_fields_bytes_part(t1 + t2 + t3 + t4, t5);
    lemma_fields_bytes_part(t1 + t2 + t3, t4);
    lemma_fields_bytes_part(t1 + t2, t3);
    let s6 = span_head_state(s);
    let s7 = SpanView { start_time_unix_nano: s.start_time_unix_nano, ..s6 };
    let s8 = SpanView { end_time_unix_nano: s.end_time_unix_nano, ..s7 };
    let s9 = SpanView { attributes: s.attributes, ..s8 };
    let s10 = SpanView { dropped_attributes_count: s.dropped_attributes_count, ..s9 };
    lemma_fold_opt(s6, t1, ap, s7);
    lemma_fold_opt(s7, t2, ap, s8);
    let items = s.attributes;
    let get = |x: SpanView| x.attributes;
    let set = |x: SpanView, q: Seq<KeyValueView>| SpanView { attributes: q, ..x };
    assert forall|x: SpanView, i: int| 0 <= i < items.len() implies #[trigger] ap(x, (9nat, Payload::Len(enc(items[i]))))
        == Some(set(x, get(x).push(items[i]))) by {
        lemma_len_fields_payload(9, items.map_values(enc), i);
        lemma_kv_round_trip(items[i]);
    }
    lemma_fold_repeated(s8, 9, items, enc, ap, get, set);
    assert(Seq::<KeyValueView>::empty() + items =~= items);
    lemma_fold_opt(s9, t4, ap, s10);
    match s.status {
        Some(x) => {
            lemma_fields_bytes_one(t5[0]);
            lemma_status_round_trip(x);
        },
        None => {},
    }
    lemma_fold_opt(s10, t5, ap, s);
    lemma_fold_concat(s6, t1, t2, ap);
    lemma_fold_concat(s6, t1 + t2, t3, ap);
    lemma_fold_concat(s6, t1 + t2 + t3, t4, ap);
    lemma_fold_concat(s6, t1 + t2 + t3 + t4, t5, ap);
}

pub open spec fn span_tail(s: SpanView) -> Seq<Field> {
    fixed64_field(7, s.start_time_unix_nano) + fixed64_field(8, s.end_time_unix_nano) + len_fields(
        9,
        s.attributes.map_values(|kv: KeyValueView| key_value_bytes(kv)),
    ) + varint_field(10, s.dropped_attributes_count as u64) + message_field(
        15,
        match s.status {
            Some(x) => Some(status_bytes(x)),
            None => None,
        },
    )
}

/// A span holding the fields of `s` up to its kind, the others empty.
pub open spec fn span_head_state(s: SpanView) -> SpanView {
    SpanView {
        trace_id: s.trace_id,
        span_id: s.span_id,
        trace_state: s.trace_state,
        parent_span_id: s.parent_span_id,
        name: s.name,
        kind: s.kind,
        ..empty_span()
    }
}

/// Reading back the bytes of a span gives the same span, where those bytes
/// number fewer than 2^64.
#[verifier::rlimit(50)]
pub proof fn lemma_span_round_trip(s: SpanView)
    requires
        span_bytes(s).len() <= u64::MAX,
    ensures
        decode_span(span_bytes(s)) == Some(s),
{
    let ap = span_applier();
    let enc = |kv: KeyValueView| key_value_bytes(kv);
    let h1 = bytes_field(1, s.trace_id);
    let h2 = bytes_field(2, s.span_id);
    let h3 = str_field(3, s.trace_state);
    let h4 = bytes_field(4, s.parent_span_id);
    let h5 = str_field(5, s.name);
    let h6 = i32_field(6, s.kind);
    let t1 = fixed64_field(7, s.start_time_unix_nano);
    let t2 = fixed64_field(8, s.end_time_unix_nano);
    let t3 = len_fields(9, s.attributes.map_values(enc));
    let t4 = varint_field(10, s.dropped_attributes_count as u64);
    let t5 = message_field(15, match s.status { Some(x) => Some(status_bytes(x)), None => None });
    let tail = span_tail(s);
    assert(tail == t1 + t2 + t3 + t4 + t5);
    assert(span_fields(s) == h1 + h2 + h3 + h4 + h5 + h6 + tail);
    lemma_len_fields_ok(9, s.attributes.map_values(enc));
    lemma_all_ok_concat(t1, t2);
    lemma_all_ok_concat(t1 + t2, t3);
    lemma_all_ok_concat(t1 + t2 + t3, t4);
    lemma_all_ok_concat(t1 + t2 + t3 + t4, t5);
    lemma_all_ok_concat(h1, h2);
    lemma_all_ok_concat(h1 + h2, h3);
    lemma_all_ok_concat(h1 + h2 + h3, h4);
    lemma_all_ok_concat(h1 + h2 + h3 + h4, h5);
    lemma_all_ok_concat(h1 + h2 + h3 + h4 + h5, h6);
    lemma_all_ok_concat(h1 + h2 + h3 + h4 + h5 + h6, tail);
    lemma_parse_fields(span_fields(s));
    lemma_fields_bytes_part(h1 + h2 + h3 + h4 + h5 + h6, tail);
    let s0 = empty_span();
    let s1 = SpanView { trace_id: s.trace_id, ..s0 };
    let s2 = SpanView { span_id: s.span_id, ..s1 };
    let s3 = SpanView { trace_state: s.trace_state, ..s2 };
    let s4 = SpanView { parent_span_id: s.parent_span_id, ..s3 };
    let s5 = SpanView { name: s.name, ..s4 };
    let s6 = SpanView { kind: s.kind, ..s5 };
    assert(s6 == span_head_state(s));
    lemma_bytes(s.trace_id);
    lemma_fold_opt(s0, h1, ap, s1);
    lemma_bytes(s.span_id);
    lemma_fold_opt(s1, h2, ap, s2);
    lemma_str(s.trace_state);
    lemma_fold_opt(s2, h3, ap, s3);
    lemma_bytes(s.parent_span_id);
    lemma_fold_opt(s3, h4, ap, s4);
    lemma_str(s.name);
    lemma_fold_opt(s4, h5, ap, s5);
    lemma_i32_round_trip(s.kind);
    lemma_fold_opt(s5, h6, ap, s6);
    lemma_span_tail(s);
    lemma_fold_concat(s0, h1, h2, ap);
    lemma_fold_concat(s0, h1 + h2, h3, ap);
    lemma_fold_concat(s0, h1 + h2 + h3, h4, ap);
    lemma_fold_concat(s0, h1 + h2 + h3 + h4, h5, ap);
    lemma_fold_concat(s0, h1 + h2 + h3 + h4 + h5, h6, ap);
    lemma_fold_concat(s0, h1 + h2 + h3 + h4 + h5 + h6, tail, ap);
}

proof fn lemma_library_spans_round_trip(l: LibrarySpansView)
    requires
        library_spans_bytes(l).len() <= u64::MAX,
    ensures
        decode_library_spans(library_spans_bytes(l)) == Some(l),
{
    let ap = library_spans_applier();
    let enc = |x: SpanView| span_bytes(x);
    let a1 = message_field(1, match l.instrumentation_library { Some(x) => Some(library_bytes(x)), None => None });
    let a2 = len_fields(2, l.spans.map_values(enc));
    let a3 = str_field(3, l.schema_url);
    lemma_len_fields_ok(2, l.spans.map_values(enc));
    lemma_all_ok_concat(a1, a2);
    lemma_all_ok_concat(a1 + a2, a3);
    lemma_parse_fields(a1 + a2 + a3);
    lemma_fields_bytes_part(a1 + a2, a3);
    lemma_fields_bytes_part(a1, a2);
    let s0 = LibrarySpansView { instrumentation_library: None, spans: Seq::empty(), schema_url: Seq::empty() };
    let s1 = LibrarySpansView { instrumentation_library: l.instrumentation_library, ..s0 };
    let s2 = LibrarySpansView { spans: l.spans, ..s1 };
    match l.instrumentation_library {
        Some(x) => {
            lemma_fields_bytes_one(a1[0]);
            lemma_library_round_trip(x);
        },
        None => {},
    }
    lemma_fold_opt(s0, a1, ap, s1);
    let items = l.spans;
    let get = |x: LibrarySpansView| x.spans;
    let set = |x: LibrarySpansView, q: Seq<SpanView>| LibrarySpansView { spans: q, ..x };
    assert forall|x: LibrarySpansView, i: int| 0 <= i < items.len() implies #[trigger] ap(x, (2nat, Payload::Len(enc(items[i]))))
        == Some(set(x, get(x).push(items[i]))) by {
        lemma_len_fields_payload(2, items.map_values(enc), i);
        lemma_span_round_trip(items[i]);
    }
    lemma_fold_repeated(s1, 2, items, enc, ap, get, set);
    assert(Seq::<SpanView>::empty() + items =~= items);
    lemma_str(l.schema_url);
    lemma_fold_opt(s2, a3, ap, l);
    lemma_fold_concat(s0, a1, a2, ap);
    lemma_fold_concat(s0, a1 + a2, a3, ap);
}

/// Reading back the bytes of a `ResourceSpans` message gives the same
/// message, where those bytes number fewer than 2^64.
pub proof fn lemma_resource_spans_round_trip(r: ResourceSpansView)
    requires
        resource_spans_bytes(r).len() <= u64::MAX,
    ensures
        decode_resource_spans(resource_spans_bytes(r)) == Some(r),
{
    let ap = resource_spans_applier();
    let enc = |x: LibrarySpansView| library_spans_bytes(x);
    let a1 = message_field(1, match r.resource { Some(x) => Some(resource_bytes(x)), None => None });
    let a2 = len_fields(2, r.instrumentation_library_spans.map_values(enc));
    let a3 = str_field(3, r.schema_url);
    lemma_len_fields_ok(2, r.instrumentation_library_spans.map_values(enc));
    lemma_all_ok_concat(a1, a2);
    lemma_all_ok_concat(a1 + a2, a3);
    lemma_parse_fields(a1 + a2 + a3);
    lemma_fields_bytes_part(a1 + a2, a3);
    lemma_fields_bytes_part(a1, a2);
    let s0 = ResourceSpansView { resource: None, instrumentation_library_spans: Seq::empty(), schema_url: Seq::empty() };
    let s1 = ResourceSpansView { resource: r.resource, ..s0 };
    let s2 = ResourceSpansView { instrumentation_library_spans: r.instrumentation_library_spans, ..s1 };
    match r.resource {
        Some(x) => {
            lemma_fields_bytes_one(a1[0]);
            lemma_resource_round_trip(x);
        },
        None => {},
    }
    lemma_fold_opt(s0, a1, ap, s1);
    let items = r.instrumentation_library_spans;
    let get = |x: ResourceSpansView| x.instrumentation_library_spans;
    let set = |x: ResourceSpansView, q: Seq<LibrarySpansView>| ResourceSpansView { instrumentation_library_spans: q, ..x };
    assert forall|x: ResourceSpansView, i: int| 0 <= i < items.len() implies #[trigger] ap(x, (2nat, Payload::Len(enc(items[i]))))
        == Some(set(x, get(x).push(items[i]))) by {
        lemma_len_fields_payload(2, items.map_values(enc), i);
        lemma_library_spans_round_trip(items[i]);
    }
    lemma_fold_repeated(s1, 2, items, enc, ap, get, set);
    assert(Seq::<LibrarySpansView>::empty() + items =~= items);
    lemma_str(r.schema_url);
    lemma_fold_opt(s2, a3, ap, r);
    lemma_fold_concat(s0, a1, a2, ap);
    lemma_fold_concat(s0, a1 + a2, a3, ap);
}

} // verus!
