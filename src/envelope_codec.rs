//! The wire form of the envelope.
//!
//! AnyValue: one of string (1), bool (2), int (3), double (4), bytes (7).
//! KeyValue: key (1), value (2). Resource: attributes (1), dropped
//! attribute count (2). InstrumentationLibrary: name (1), version (2).
//! InstrumentationLibraryEvents: library (1), batches (2), dropped event
//! count (3). ResourceEvents: resource (1), library events (2), schema URL (3).
use crate::batch_codec::{batch_bytes, encode_batch, lemma_concat7, lemma_fields_bytes7};
use crate::envelope::{
    AnyValue, AnyValueView, InstrumentationLibrary, InstrumentationLibraryEvents, KeyValue, KeyValueView,
    LibraryEventsView, LibraryView, Resource, ResourceEvents, ResourceEventsView, ResourceView,
};
use crate::batch::BatchView;
use crate::scalar::{message_field, put_message_field, put_opt_varint_field, put_str_field, str_field, varint_field};
use crate::values::{len_fields, lemma_len_fields_push};
use crate::wire::{
    fields_bytes, lemma_fields_bytes_one, put_fixed64_field, put_len_field, put_varint_field, Field, Payload,
};
use vstd::prelude::*;
use vstd::utf8::encode_utf8;

verus! {

pub open spec fn any_value_fields(a: AnyValueView) -> Seq<Field> {
    match a {
        AnyValueView::StringValue(s) => seq![(1nat, Payload::Len(encode_utf8(s)))],
        AnyValueView::BoolValue(b) => seq![(2nat, Payload::Varint(if b { 1 } else { 0 }))],
        AnyValueView::IntValue(i) => seq![(3nat, Payload::Varint(i as u64))],
        AnyValueView::DoubleValue(d) => seq![(4nat, Payload::Fixed64(d))],
        AnyValueView::BytesValue(b) => seq![(7nat, Payload::Len(b))],
    }
}

pub open spec fn any_value_bytes(a: AnyValueView) -> Seq<u8> {
    fields_bytes(any_value_fields(a))
}

pub open spec fn key_value_fields(kv: KeyValueView) -> Seq<Field> {
    str_field(1, kv.key) + message_field(
        2,
        match kv.value {
            Some(a) => Some(any_value_bytes(a)),
            None => None,
        },
    )
}

pub open spec fn key_value_bytes(kv: KeyValueView) -> Seq<u8> {
    fields_bytes(key_value_fields(kv))
}

pub open spec fn resource_fields(r: ResourceView) -> Seq<Field> {
    len_fields(1, r.attributes.map_values(|kv: KeyValueView| key_value_bytes(kv))) + varint_field(
        2,
        r.dropped_attributes_count as u64,
    )
}

pub open spec fn resource_bytes(r: ResourceView) -> Seq<u8> {
    fields_bytes(resource_fields(r))
}

pub open spec fn library_fields(l: LibraryView) -> Seq<Field> {
    str_field(1, l.name) + str_field(2, l.version)
}

pub open spec fn library_bytes(l: LibraryView) -> Seq<u8> {
    fields_bytes(library_fields(l))
}

pub open spec fn library_events_fields(e: LibraryEventsView) -> Seq<Field> {
    message_field(
        1,
        match e.instrumentation_library {
            Some(l) => Some(library_bytes(l)),
            None => None,
        },
    ) + len_fields(2, e.batches.map_values(|b: BatchView| batch_bytes(b))) + varint_field(
        3,
        e.dropped_events_count as u64,
    )
}

pub open spec fn library_events_bytes(e: LibraryEventsView) -> Seq<u8> {
    fields_bytes(library_events_fields(e))
}

pub open spec fn resource_events_fields(r: ResourceEventsView) -> Seq<Field> {
    message_field(
        1,
        match r.resource {
            Some(x) => Some(resource_bytes(x)),
            None => None,
        },
    ) + len_fields(
        2,
        r.instrumentation_library_events.map_values(|e: LibraryEventsView| library_events_bytes(e)),
    ) + str_field(3, r.schema_url)
}

/// The bytes of a whole `ResourceEvents` message.
pub open spec fn resource_events_bytes(r: ResourceEventsView) -> Seq<u8> {
    fields_bytes(resource_events_fields(r))
}

proof fn lemma_three(s0: Seq<u8>, b1: Seq<u8>, b2: Seq<u8>, b3: Seq<u8>, a1: Seq<Field>, a2: Seq<Field>, a3: Seq<Field>)
    requires
        b1 == s0 + fields_bytes(a1),
        b2 == b1 + fields_bytes(a2),
        b3 == b2 + fields_bytes(a3),
    ensures
        b3 == s0 + fields_bytes(a1 + a2 + a3),
{
    let e = Seq::<Field>::empty();
    lemma_fields_bytes7(a1, a2, a3, e, e, e, e);
    assert(a1 + a2 + a3 + e + e + e + e =~= a1 + a2 + a3);
    assert(fields_bytes(e) =~= Seq::<u8>::empty());
    lemma_concat7(s0, b1, b2, b3, b3, b3, b3, b3, fields_bytes(a1), fields_bytes(a2), fields_bytes(a3),
        Seq::empty(), Seq::empty(), Seq::empty(), Seq::empty());
}

pub fn encode_any_value(a: &AnyValue) -> (r: Vec<u8>)
    ensures
        r@ == any_value_bytes(a@),
{
    let mut r: Vec<u8> = Vec::new();
    match a {
        AnyValue::StringValue(s) => put_len_field(&mut r, 1, s.as_str().as_bytes()),
        AnyValue::BoolValue(b) => put_varint_field(&mut r, 2, if *b { 1 } else { 0 }),
        AnyValue::IntValue(i) => put_varint_field(&mut r, 3, *i as u64),
        AnyValue::DoubleValue(d) => put_fixed64_field(&mut r, 4, d.0),
        AnyValue::BytesValue(b) => put_len_field(&mut r, 7, b.as_slice()),
    }
    proof {
        lemma_fields_bytes_one(any_value_fields(a@)[0]);
        assert(any_value_fields(a@) =~= seq![any_value_fields(a@)[0]]);
        assert(r@ =~= Seq::<u8>::empty() + any_value_bytes(a@));
    }
    r
}

pub fn encode_key_value(kv: &KeyValue) -> (r: Vec<u8>)
    ensures
        r@ == key_value_bytes(kv@),
{
    let mut r: Vec<u8> = Vec::new();
    put_str_field(&mut r, 1, &kv.key);
    let ghost mid = r@;
    match &kv.value {
        Some(a) => {
            let m = encode_any_value(a);
            put_message_field(&mut r, 2, m.as_slice());
        },
        None => {
            assert(r@ =~= mid + fields_bytes(Seq::<Field>::empty()));
        },
    }
    proof {
        let e = Seq::<Field>::empty();
        let a2 = message_field(2, match kv@.value { Some(a) => Some(any_value_bytes(a)), None => None });
        lemma_three(Seq::empty(), mid, r@, r@, str_field(1, kv@.key), a2, e);
        assert(str_field(1, kv@.key) + a2 + e =~= key_value_fields(kv@));
        assert(fields_bytes(e) =~= Seq::<u8>::empty());
        assert(r@ =~= Seq::<u8>::empty() + fields_bytes(key_value_fields(kv@)));
    }
    r
}

pub fn encode_resource(res: &Resource) -> (r: Vec<u8>)
    ensures
        r@ == resource_bytes(res@),
{
    let mut r: Vec<u8> = Vec::new();
    let ghost av = res@.attributes;
    let ghost f = |kv: KeyValueView| key_value_bytes(kv);
    assert(len_fields(1, av.take(0).map_values(f)) =~= Seq::<Field>::empty());
    let mut i: usize = 0;
    while i < res.attributes.len()
        invariant
            i <= res.attributes@.len(),
            av == res@.attributes,
            f == (|kv: KeyValueView| key_value_bytes(kv)),
            r@ == fields_bytes(len_fields(1, av.take(i as int).map_values(f))),
        decreases res.attributes@.len() - i,
    {
        let m = encode_key_value(&res.attributes[i]);
        put_len_field(&mut r, 1, m.as_slice());
        proof {
            assert(av.take(i + 1).map_values(f) =~= av.take(i as int).map_values(f).push(m@));
            lemma_len_fields_push(1, av.take(i as int).map_values(f), m@);
        }
        i += 1;
    }
    assert(av.take(av.len() as int) =~= av);
    let ghost mid = r@;
    put_opt_varint_field(&mut r, 2, res.dropped_attributes_count as u64);
    proof {
        let e = Seq::<Field>::empty();
        let a1 = len_fields(1, av.map_values(f));
        let a2 = varint_field(2, res.dropped_attributes_count as u64);
        assert(fields_bytes(a1) =~= Seq::<u8>::empty() + fields_bytes(a1));
        lemma_three(Seq::empty(), mid, r@, r@, a1, a2, e);
        assert(a1 + a2 + e =~= resource_fields(res@));
        assert(fields_bytes(e) =~= Seq::<u8>::empty());
        assert(r@ =~= Seq::<u8>::empty() + resource_bytes(res@));
    }
    r
}

pub fn encode_library(l: &InstrumentationLibrary) -> (r: Vec<u8>)
    ensures
        r@ == library_bytes(l@),
{
    let mut r: Vec<u8> = Vec::new();
    put_str_field(&mut r, 1, &l.name);
    let ghost mid = r@;
    put_str_field(&mut r, 2, &l.version);
    proof {
        let e = Seq::<Field>::empty();
        lemma_three(Seq::empty(), mid, r@, r@, str_field(1, l@.name), str_field(2, l@.version), e);
        assert(str_field(1, l@.name) + str_field(2, l@.version) + e =~= library_fields(l@));
        assert(fields_bytes(e) =~= Seq::<u8>::empty());
        assert(r@ =~= Seq::<u8>::empty() + library_bytes(l@));
    }
    r
}

/// Appends an optional message field.
fn put_opt_message(buf: &mut Vec<u8>, num: u64, m: Option<Vec<u8>>)
    requires
        1 <= num < 0x2000_0000,
    ensures
        final(buf)@ == old(buf)@ + fields_bytes(message_field(num as nat, match m { Some(v) => Some(v@), None => None })),
{
    match m {
        Some(v) => put_message_field(buf, num, v.as_slice()),
        None => {
            assert(fields_bytes(Seq::<Field>::empty()) =~= Seq::<u8>::empty());
            assert(final(buf)@ =~= old(buf)@ + Seq::<u8>::empty());
        },
    }
}

pub fn encode_library_events(e: &InstrumentationLibraryEvents) -> (r: Vec<u8>)
    ensures
        r@ == library_events_bytes(e@),
{
    let mut r: Vec<u8> = Vec::new();
    let lib = match &e.instrumentation_library {
        Some(l) => Some(encode_library(l)),
        None => None,
    };
    put_opt_message(&mut r, 1, lib);
    let ghost b1 = r@;
    let ghost bv = e@.batches;
    let ghost f = |b: BatchView| batch_bytes(b);
    assert(len_fields(2, bv.take(0).map_values(f)) =~= Seq::<Field>::empty());
    assert(r@ =~= b1 + fields_bytes(len_fields(2, bv.take(0).map_values(f))));
    let mut i: usize = 0;
    while i < e.batches.len()
        invariant
            i <= e.batches@.len(),
            bv == e@.batches,
            f == (|b: BatchView| batch_bytes(b)),
            r@ == b1 + fields_bytes(len_fields(2, bv.take(i as int).map_values(f))),
        decreases e.batches@.len() - i,
    {
        let mut m: Vec<u8> = Vec::new();
        encode_batch(&e.batches[i], &mut m);
        put_len_field(&mut r, 2, m.as_slice());
        proof {
            assert(bv.take(i + 1).map_values(f) =~= bv.take(i as int).map_values(f).push(m@));
            lemma_len_fields_push(2, bv.take(i as int).map_values(f), m@);
        }
        i += 1;
    }
    assert(bv.take(bv.len() as int) =~= bv);
    let ghost b2 = r@;
    put_opt_varint_field(&mut r, 3, e.dropped_events_count as u64);
    proof {
        let a1 = message_field(1, match e@.instrumentation_library { Some(l) => Some(library_bytes(l)), None => None });
        lemma_three(Seq::empty(), b1, b2, r@, a1, len_fields(2, bv.map_values(f)), varint_field(3, e.dropped_events_count as u64));
        assert(r@ =~= library_events_bytes(e@));
    }
    r
}

/// The bytes of a `ResourceEvents` message.
pub fn encode_resource_events(re: &ResourceEvents) -> (r: Vec<u8>)
    ensures
        r@ == resource_events_bytes(re@),
{
    let mut r: Vec<u8> = Vec::new();
    let res = match &re.resource {
        Some(x) => Some(encode_resource(x)),
        None => None,
    };
    put_opt_message(&mut r, 1, res);
    let ghost b1 = r@;
    let ghost lv = re@.instrumentation_library_events;
    let ghost f = |e: LibraryEventsView| library_events_bytes(e);
    assert(len_fields(2, lv.take(0).map_values(f)) =~= Seq::<Field>::empty());
    assert(r@ =~= b1 + fields_bytes(len_fields(2, lv.take(0).map_values(f))));
    let mut i: usize = 0;
    while i < re.instrumentation_library_events.len()
        invariant
            i <= re.instrumentation_library_events@.len(),
            lv == re@.instrumentation_library_events,
            f == (|e: LibraryEventsView| library_events_bytes(e)),
            r@ == b1 + fields_bytes(len_fields(2, lv.take(i as int).map_values(f))),
        decreases re.instrumentation_library_events@.len() - i,
    {
        let m = encode_library_events(&re.instrumentation_library_events[i]);
        put_len_field(&mut r, 2, m.as_slice());
        proof {
            assert(lv.take(i + 1).map_values(f) =~= lv.take(i as int).map_values(f).push(m@));
            lemma_len_fields_push(2, lv.take(i as int).map_values(f), m@);
        }
        i += 1;
    }
    assert(lv.take(lv.len() as int) =~= lv);
    let ghost b2 = r@;
    put_str_field(&mut r, 3, &re.schema_url);
    proof {
        let a1 = message_field(1, match re@.resource { Some(x) => Some(resource_bytes(x)), None => None });
        lemma_three(Seq::empty(), b1, b2, r@, a1, len_fields(2, lv.map_values(f)), str_field(3, re@.schema_url));
        assert(r@ =~= resource_events_bytes(re@));
    }
    r
}

} // verus!
