//! Reading the envelope back from its bytes.
use crate::batch::BatchView;
use crate::batch_decode::{decode_batch, decode_batch_bytes, lemma_batch_round_trip};
use crate::batch_codec::batch_bytes;
use crate::column::F64Bits;
use crate::column_codec::{all_ok, bytes_payload, lemma_all_ok_concat, read_bytes, read_string, utf8_payload, varint_payload};
use crate::envelope::{
    AnyValue, AnyValueView, InstrumentationLibrary, InstrumentationLibraryEvents, KeyValue, KeyValueView,
    LibraryEventsView, LibraryView, Resource, ResourceEvents, ResourceEventsView, ResourceView,
};
use crate::envelope_codec::{
    any_value_bytes, any_value_fields, key_value_bytes, key_value_fields, library_bytes, library_events_bytes,
    library_events_fields, library_fields, resource_bytes, resource_events_bytes, resource_events_fields,
    resource_fields,
};
use crate::fold_lemmas::{lemma_fields_bytes_part, lemma_fold_opt, lemma_fold_repeated, lemma_len_fields_ok, lemma_len_fields_payload};
use crate::scalar::{lemma_i64_round_trip, message_field, str_field, varint_field};
use crate::values::len_fields;
use crate::wire::{
    fields_bytes, fold_fields, lemma_fields_bytes_one, lemma_fold_concat, lemma_fold_one, lemma_parse_fields,
    lemma_parse_fields_step, next_field, parse_fields, payload_of, Field, FieldValue, Payload,
};
use vstd::prelude::*;
use vstd::slice::slice_subrange;
use vstd::utf8::{encode_utf8, encode_utf8_decode_utf8, encode_utf8_valid_utf8};

verus! {

pub open spec fn apply_any(a: Option<AnyValueView>, f: Field) -> Option<Option<AnyValueView>> {
    if f.0 == 1 {
        match utf8_payload(f.1) {
            Some(s) => Some(Some(AnyValueView::StringValue(s))),
            None => None,
        }
    } else if f.0 == 2 {
        match varint_payload(f.1) {
            Some(v) => Some(Some(AnyValueView::BoolValue(v != 0))),
            None => None,
        }
    } else if f.0 == 3 {
        match varint_payload(f.1) {
            Some(v) => Some(Some(AnyValueView::IntValue(v as i64))),
            None => None,
        }
    } else if f.0 == 4 {
        match f.1 {
            Payload::Fixed64(v) => Some(Some(AnyValueView::DoubleValue(v))),
            _ => None,
        }
    } else if f.0 == 7 {
        match bytes_payload(f.1) {
            Some(s) => Some(Some(AnyValueView::BytesValue(s))),
            None => None,
        }
    } else {
        Some(a)
    }
}

pub open spec fn any_applier() -> spec_fn(Option<AnyValueView>, Field) -> Option<Option<AnyValueView>> {
    |a: Option<AnyValueView>, f: Field| apply_any(a, f)
}

/// Reads an attribute value; `Some(None)` where the message sets none.
pub open spec fn decode_any(b: Seq<u8>) -> Option<Option<AnyValueView>> {
    match parse_fields(b) {
        Some(fs) => fold_fields(None, fs, any_applier()),
        None => None,
    }
}

pub open spec fn apply_kv(kv: KeyValueView, f: Field) -> Option<KeyValueView> {
    if f.0 == 1 {
        match utf8_payload(f.1) {
            Some(s) => Some(KeyValueView { key: s, ..kv }),
            None => None,
        }
    } else if f.0 == 2 {
        match bytes_payload(f.1) {
            Some(s) => match decode_any(s) {
                Some(a) => Some(KeyValueView { value: a, ..kv }),
                None => None,
            },
            None => None,
        }
    } else {
        Some(kv)
    }
}

pub open spec fn kv_applier() -> spec_fn(KeyValueView, Field) -> Option<KeyValueView> {
    |kv: KeyValueView, f: Field| apply_kv(kv, f)
}

pub open spec fn decode_kv(b: Seq<u8>) -> Option<KeyValueView> {
    match parse_fields(b) {
        Some(fs) => fold_fields(KeyValueView { key: Seq::empty(), value: None }, fs, kv_applier()),
        None => None,
    }
}

pub open spec fn apply_resource(r: ResourceView, f: Field) -> Option<ResourceView> {
    if f.0 == 1 {
        match bytes_payload(f.1) {
            Some(s) => match decode_kv(s) {
                Some(kv) => Some(ResourceView { attributes: r.attributes.push(kv), ..r }),
                None => None,
            },
            None => None,
        }
    } else if f.0 == 2 {
        match varint_payload(f.1) {
            Some(v) => Some(ResourceView { dropped_attributes_count: v as u32, ..r }),
            None => None,
        }
    } else {
        Some(r)
    }
}

pub open spec fn resource_applier() -> spec_fn(ResourceView, Field) -> Option<ResourceView> {
    |r: ResourceView, f: Field| apply_resource(r, f)
}

pub open spec fn decode_resource(b: Seq<u8>) -> Option<ResourceView> {
    match parse_fields(b) {
        Some(fs) => fold_fields(ResourceView { attributes: Seq::empty(), dropped_attributes_count: 0 }, fs, resource_applier()),
        None => None,
    }
}

pub open spec fn apply_library(l: LibraryView, f: Field) -> Option<LibraryView> {
    if f.0 == 1 {
        match utf8_payload(f.1) {
            Some(s) => Some(LibraryView { name: s, ..l }),
            None => None,
        }
    } else if f.0 == 2 {
        match utf8_payload(f.1) {
            Some(s) => Some(LibraryView { version: s, ..l }),
            None => None,
        }
    } else {
        Some(l)
    }
}

pub open spec fn library_applier() -> spec_fn(LibraryView, Field) -> Option<LibraryView> {
    |l: LibraryView, f: Field| apply_library(l, f)
}

pub open spec fn decode_library(b: Seq<u8>) -> Option<LibraryView> {
    match parse_fields(b) {
        Some(fs) => fold_fields(LibraryView { name: Seq::empty(), version: Seq::empty() }, fs, library_applier()),
        None => None,
    }
}

pub open spec fn apply_library_events(e: LibraryEventsView, f: Field) -> Option<LibraryEventsView> {
    if f.0 == 1 {
        match bytes_payload(f.1) {
            Some(s) => match decode_library(s) {
                Some(l) => Some(LibraryEventsView { instrumentation_library: Some(l), ..e }),
                None => None,
            },
            None => None,
        }
    } else if f.0 == 2 {
        match bytes_payload(f.1) {
            Some(s) => match decode_batch(s) {
                Some(b) => Some(LibraryEventsView { batches: e.batches.push(b), ..e }),
                None => None,
            },
            None => None,
        }
    } else if f.0 == 3 {
        match varint_payload(f.1) {
            Some(v) => Some(LibraryEventsView { dropped_events_count: v as u32, ..e }),
            None => None,
        }
    } else {
        Some(e)
    }
}

pub open spec fn library_events_applier() -> spec_fn(LibraryEventsView, Field) -> Option<LibraryEventsView> {
    |e: LibraryEventsView, f: Field| apply_library_events(e, f)
}

pub open spec fn empty_library_events() -> LibraryEventsView {
    LibraryEventsView { instrumentation_library: None, batches: Seq::empty(), dropped_events_count: 0 }
}

pub open spec fn decode_library_events(b: Seq<u8>) -> Option<LibraryEventsView> {
    match parse_fields(b) {
        Some(fs) => fold_fields(empty_library_events(), fs, library_events_applier()),
        None => None,
    }
}

pub open spec fn apply_resource_events(r: ResourceEventsView, f: Field) -> Option<ResourceEventsView> {
    if f.0 == 1 {
        match bytes_payload(f.1) {
            Some(s) => match decode_resource(s) {
                Some(x) => Some(ResourceEventsView { resource: Some(x), ..r }),
                None => None,
            },
            None => None,
        }
    } else if f.0 == 2 {
        match bytes_payload(f.1) {
            Some(s) => match decode_library_events(s) {
                Some(e) => Some(
                    ResourceEventsView {
                        instrumentation_library_events: r.instrumentation_library_events.push(e),
                        ..r
                    },
                ),
                None => None,
            },
            None => None,
        }
    } else if f.0 == 3 {
        match utf8_payload(f.1) {
            Some(s) => Some(ResourceEventsView { schema_url: s, ..r }),
            None => None,
        }
    } else {
        Some(r)
    }
}

pub open spec fn resource_events_applier() -> spec_fn(ResourceEventsView, Field) -> Option<ResourceEventsView> {
    |r: ResourceEventsView, f: Field| apply_resource_events(r, f)
}

pub open spec fn empty_resource_events() -> ResourceEventsView {
    ResourceEventsView { resource: None, instrumentation_library_events: Seq::empty(), schema_url: Seq::empty() }
}

/// Reads a whole `ResourceEvents` message from its bytes.
pub open spec fn decode_resource_events(b: Seq<u8>) -> Option<ResourceEventsView> {
    match parse_fields(b) {
        Some(fs) => fold_fields(empty_resource_events(), fs, resource_events_applier()),
        None => None,
    }
}

proof fn lemma_any_round_trip(a: AnyValueView)
    requires
        any_value_bytes(a).len() <= u64::MAX,
    ensures
        decode_any(any_value_bytes(a)) == Some(Some(a)),
{
    let fs = any_value_fields(a);
    assert(all_ok(fs));
    lemma_parse_fields(fs);
    assert(fs =~= seq![fs[0]]);
    lemma_fold_one(None, fs[0], any_applier());
    match a {
        AnyValueView::StringValue(s) => {
            encode_utf8_valid_utf8(s);
            encode_utf8_decode_utf8(s);
        },
        AnyValueView::IntValue(i) => {
            lemma_i64_round_trip(i);
        },
        _ => {},
    }
}

pub proof fn lemma_kv_round_trip(kv: KeyValueView)
    requires
        key_value_bytes(kv).len() <= u64::MAX,
    ensures
        decode_kv(key_value_bytes(kv)) == Some(kv),
{
    let ap = kv_applier();
    let a1 = str_field(1, kv.key);
    let a2 = message_field(2, match kv.value { Some(a) => Some(any_value_bytes(a)), None => None });
    lemma_all_ok_concat(a1, a2);
    lemma_parse_fields(a1 + a2);
    lemma_fields_bytes_part(a1, a2);
    let s0 = KeyValueView { key: Seq::empty(), value: None };
    let s1 = KeyValueView { key: kv.key, value: None };
    if kv.key.len() == 0 {
        assert(kv.key =~= Seq::<char>::empty());
    } else {
        encode_utf8_valid_utf8(kv.key);
        encode_utf8_decode_utf8(kv.key);
    }
    lemma_fold_opt(s0, a1, ap, s1);
    match kv.value {
        Some(a) => {
            lemma_fields_bytes_one(a2[0]);
            lemma_any_round_trip(a);
        },
        None => {},
    }
    lemma_fold_opt(s1, a2, ap, kv);
    lemma_fold_concat(s0, a1, a2, ap);
}

pub proof fn lemma_resource_round_trip(r: ResourceView)
    requires
        resource_bytes(r).len() <= u64::MAX,
    ensures
        decode_resource(resource_bytes(r)) == Some(r),
{
    let ap = resource_applier();
    let enc = |kv: KeyValueView| key_value_bytes(kv);
    let a1 = len_fields(1, r.attributes.map_values(enc));
    let a2 = varint_field(2, r.dropped_attributes_count as u64);
    lemma_len_fields_ok(1, r.attributes.map_values(enc));
    lemma_all_ok_concat(a1, a2);
    lemma_parse_fields(a1 + a2);
    lemma_fields_bytes_part(a1, a2);
    let s0 = ResourceView { attributes: Seq::empty(), dropped_attributes_count: 0 };
    let s1 = ResourceView { attributes: r.attributes, dropped_attributes_count: 0 };
    let items = r.attributes;
    let get = |x: ResourceView| x.attributes;
    let set = |x: ResourceView, q: Seq<KeyValueView>| ResourceView { attributes: q, ..x };
    assert forall|s: ResourceView, i: int| 0 <= i < items.len() implies #[trigger] ap(s, (1nat, Payload::Len(enc(items[i]))))
        == Some(set(s, get(s).push(items[i]))) by {
        lemma_len_fields_payload(1, items.map_values(enc), i);
        lemma_kv_round_trip(items[i]);
    }
    lemma_fold_repeated(s0, 1, items, enc, ap, get, set);
    assert(Seq::<KeyValueView>::empty() + items =~= items);
    lemma_fold_opt(s1, a2, ap, r);
    lemma_fold_concat(s0, a1, a2, ap);
}

pub proof fn lemma_library_round_trip(l: LibraryView)
    requires
        library_bytes(l).len() <= u64::MAX,
    ensures
        decode_library(library_bytes(l)) == Some(l),
{
    let ap = library_applier();
    let a1 = str_field(1, l.name);
    let a2 = str_field(2, l.version);
    lemma_all_ok_concat(a1, a2);
    lemma_parse_fields(a1 + a2);
    let s0 = LibraryView { name: Seq::empty(), version: Seq::empty() };
    let s1 = LibraryView { name: l.name, version: Seq::empty() };
    if l.name.len() == 0 {
        assert(l.name =~= Seq::<char>::empty());
    } else {
        encode_utf8_valid_utf8(l.name);
        encode_utf8_decode_utf8(l.name);
    }
    lemma_fold_opt(s0, a1, ap, s1);
    if l.version.len() == 0 {
        assert(l.version =~= Seq::<char>::empty());
    } else {
        encode_utf8_valid_utf8(l.version);
        encode_utf8_decode_utf8(l.version);
    }
    lemma_fold_opt(s1, a2, ap, l);
    lemma_fold_concat(s0, a1, a2, ap);
}

proof fn lemma_library_events_round_trip(e: LibraryEventsView)
    requires
        library_events_bytes(e).len() <= u64::MAX,
    ensures
        decode_library_events(library_events_bytes(e)) == Some(e),
{
    let ap = library_events_applier();
    let enc = |b: BatchView| batch_bytes(b);
    let a1 = message_field(1, match e.instrumentation_library { Some(l) => Some(library_bytes(l)), None => None });
    let a2 = len_fields(2, e.batches.map_values(enc));
    let a3 = varint_field(3, e.dropped_events_count as u64);
    lemma_len_fields_ok(2, e.batches.map_values(enc));
    lemma_all_ok_concat(a1, a2);
    lemma_all_ok_concat(a1 + a2, a3);
    lemma_parse_fields(library_events_fields(e));
    lemma_fields_bytes_part(a1 + a2, a3);
    lemma_fields_bytes_part(a1, a2);
    let s0 = empty_library_events();
    let s1 = LibraryEventsView { instrumentation_library: e.instrumentation_library, ..s0 };
    let s2 = LibraryEventsView { batches: e.batches, ..s1 };
    match e.instrumentation_library {
        Some(l) => {
            lemma_fields_bytes_one(a1[0]);
            lemma_library_round_trip(l);
        },
        None => {},
    }
    lemma_fold_opt(s0, a1, ap, s1);
    let items = e.batches;
    let get = |x: LibraryEventsView| x.batches;
    let set = |x: LibraryEventsView, q: Seq<BatchView>| LibraryEventsView { batches: q, ..x };
    assert forall|s: LibraryEventsView, i: int| 0 <= i < items.len() implies #[trigger] ap(s, (2nat, Payload::Len(enc(items[i]))))
        == Some(set(s, get(s).push(items[i]))) by {
        lemma_len_fields_payload(2, items.map_values(enc), i);
        lemma_batch_round_trip(items[i]);
    }
    lemma_fold_repeated(s1, 2, items, enc, ap, get, set);
    assert(Seq::<BatchView>::empty() + items =~= items);
    lemma_fold_opt(s2, a3, ap, e);
    lemma_fold_concat(s0, a1, a2, ap);
    lemma_fold_concat(s0, a1 + a2, a3, ap);
}

/// Reading back the bytes of a `ResourceEvents` message gives the same
/// message, column for column and bitmap for bitmap, where those bytes
/// number fewer than 2^64.
pub proof fn lemma_resource_events_round_trip(r: ResourceEventsView)
    requires
        resource_events_bytes(r).len() <= u64::MAX,
    ensures
        decode_resource_events(resource_events_bytes(r)) == Some(r),
{
    let ap = resource_events_applier();
    let enc = |e: LibraryEventsView| library_events_bytes(e);
    let a1 = message_field(1, match r.resource { Some(x) => Some(resource_bytes(x)), None => None });
    let a2 = len_fields(2, r.instrumentation_library_events.map_values(enc));
    let a3 = str_field(3, r.schema_url);
    lemma_len_fields_ok(2, r.instrumentation_library_events.map_values(enc));
    lemma_all_ok_concat(a1, a2);
    lemma_all_ok_concat(a1 + a2, a3);
    lemma_parse_fields(resource_events_fields(r));
    lemma_fields_bytes_part(a1 + a2, a3);
    lemma_fields_bytes_part(a1, a2);
    let s0 = empty_resource_events();
    let s1 = ResourceEventsView { resource: r.resource, ..s0 };
    let s2 = ResourceEventsView { instrumentation_library_events: r.instrumentation_library_events, ..s1 };
    match r.resource {
        Some(x) => {
            lemma_fields_bytes_one(a1[0]);
            lemma_resource_round_trip(x);
        },
        None => {},
    }
    lemma_fold_opt(s0, a1, ap, s1);
    let items = r.instrumentation_library_events;
    let get = |x: ResourceEventsView| x.instrumentation_library_events;
    let set = |x: ResourceEventsView, q: Seq<LibraryEventsView>| ResourceEventsView { instrumentation_library_events: q, ..x };
    assert forall|s: ResourceEventsView, i: int| 0 <= i < items.len() implies #[trigger] ap(s, (2nat, Payload::Len(enc(items[i]))))
        == Some(set(s, get(s).push(items[i]))) by {
        lemma_len_fields_payload(2, items.map_values(enc), i);
        lemma_library_events_round_trip(items[i]);
    }
    lemma_fold_repeated(s1, 2, items, enc, ap, get, set);
    assert(Seq::<LibraryEventsView>::empty() + items =~= items);
    if r.schema_url.len() == 0 {
        assert(r.schema_url =~= Seq::<char>::empty());
    } else {
        encode_utf8_valid_utf8(r.schema_url);
        encode_utf8_decode_utf8(r.schema_url);
    }
    lemma_fold_opt(s2, a3, ap, r);
    lemma_fold_concat(s0, a1, a2, ap);
    lemma_fold_concat(s0, a1 + a2, a3, ap);
}


/// An attribute value being read: `None` until a field sets one.
pub struct AnyValueSlot {
    pub value: Option<AnyValue>,
}

impl View for AnyValueSlot {
    type V = Option<AnyValueView>;

    open spec fn view(&self) -> Option<AnyValueView> {
        match self.value {
            Some(v) => Some(v@),
            None => None,
        }
    }
}

fn apply_any_field(x: &mut AnyValueSlot, b: &[u8], num: u64, v: FieldValue) -> (ok: bool)
    requires
        v matches FieldValue::Len(s, e) ==> s <= e <= b@.len(),
    ensures
        match apply_any(old(x)@, (num as nat, payload_of(b@, v))) {
            Some(n) => ok && final(x)@ == n,
            None => !ok,
        },
{
    if num == 1 {
        match read_string(b, v) {
            Some(s) => {
                x.value = Some(AnyValue::StringValue(s));
                true
            },
            None => false,
        }
    } else if num == 2 || num == 3 {
        match v {
            FieldValue::Varint(n) => {
                if num == 2 {
                    x.value = Some(AnyValue::BoolValue(n != 0));
                } else {
                    x.value = Some(AnyValue::IntValue(n as i64));
                }
                true
            },
            _ => false,
        }
    } else if num == 4 {
        match v {
            FieldValue::Fixed64(n) => {
                x.value = Some(AnyValue::DoubleValue(F64Bits(n)));
                true
            },
            _ => false,
        }
    } else if num == 7 {
        match read_bytes(b, v) {
            Some(s) => {
                x.value = Some(AnyValue::BytesValue(s));
                true
            },
            None => false,
        }
    } else {
        true
    }
}

/// Reads an attribute value from its bytes.
pub fn decode_any_bytes(b: &[u8]) -> (r: Option<AnyValueSlot>)
    ensures
        match decode_any(b@) {
            Some(e) => r matches Some(x) && x@ == e,
            None => r is None,
        },
{
    let mut x = AnyValueSlot { value: None };
    let ghost ap = any_applier();
    proof {
        assert(b@.skip(0) =~= b@);

    }
    let mut pos: usize = 0;
    while pos < b.len()
        invariant
            pos <= b@.len(),
            ap == any_applier(),
            decode_any(b@) == match parse_fields(b@.skip(pos as int)) {
                Some(r) => fold_fields(x@, r, ap),
                None => None,
            },
        decreases b@.len() - pos,
    {
        proof {
            lemma_parse_fields_step(b@, pos as int);
        }
        let (num, v, next) = match next_field(b, pos) {
            Some(t) => t,
            None => return None,
        };
        let ghost f = (num as nat, payload_of(b@, v));
        let ok = apply_any_field(&mut x, b, num, v);
        proof {
            match parse_fields(b@.skip(next as int)) {
                Some(r) => {
                    assert((seq![f] + r)[0] == f);
                    assert((seq![f] + r).drop_first() =~= r);
                },
                None => {},
            }
        }
        if !ok {
            return None;
        }
        pos = next;
    }
    assert(b@.skip(pos as int) =~= Seq::<u8>::empty());
    Some(x)
}

fn apply_kv_field(x: &mut KeyValue, b: &[u8], num: u64, v: FieldValue) -> (ok: bool)
    requires
        v matches FieldValue::Len(s, e) ==> s <= e <= b@.len(),
    ensures
        match apply_kv(old(x)@, (num as nat, payload_of(b@, v))) {
            Some(n) => ok && final(x)@ == n,
            None => !ok,
        },
{
    if num == 1 {
        match read_string(b, v) {
            Some(s) => {
                x.key = s;
                true
            },
            None => false,
        }
    } else if num == 2 {
        match v {
            FieldValue::Len(s, e) => {
                let sub = slice_subrange(b, s, e);
                match decode_any_bytes(sub) {
                    Some(a) => {
                        x.value = a.value;
                        true
                    },
                    None => false,
                }
            },
            _ => false,
        }
    } else {
        true
    }
}

/// Reads an attribute from its bytes.
pub fn decode_kv_bytes(b: &[u8]) -> (r: Option<KeyValue>)
    ensures
        match decode_kv(b@) {
            Some(e) => r matches Some(x) && x@ == e,
            None => r is None,
        },
{
    let mut x = KeyValue { key: String::new(), value: None };
    let ghost ap = kv_applier();
    proof {
        assert(b@.skip(0) =~= b@);

    }
    let mut pos: usize = 0;
    while pos < b.len()
        invariant
            pos <= b@.len(),
            ap == kv_applier(),
            decode_kv(b@) == match parse_fields(b@.skip(pos as int)) {
                Some(r) => fold_fields(x@, r, ap),
                None => None,
            },
        decreases b@.len() - pos,
    {
        proof {
            lemma_parse_fields_step(b@, pos as int);
        }
        let (num, v, next) = match next_field(b, pos) {
            Some(t) => t,
            None => return None,
        };
        let ghost f = (num as nat, payload_of(b@, v));
        let ok = apply_kv_field(&mut x, b, num, v);
        proof {
            match parse_fields(b@.skip(next as int)) {
                Some(r) => {
                    assert((seq![f] + r)[0] == f);
                    assert((seq![f] + r).drop_first() =~= r);
                },
                None => {},
            }
        }
        if !ok {
            return None;
        }
        pos = next;
    }
    assert(b@.skip(pos as int) =~= Seq::<u8>::empty());
    Some(x)
}

fn apply_resource_field(x: &mut Resource, b: &[u8], num: u64, v: FieldValue) -> (ok: bool)
    requires
        v matches FieldValue::Len(s, e) ==> s <= e <= b@.len(),
    ensures
        match apply_resource(old(x)@, (num as nat, payload_of(b@, v))) {
            Some(n) => ok && final(x)@ == n,
            None => !ok,
        },
{
    if num == 1 {
        match v {
            FieldValue::Len(s, e) => {
                let sub = slice_subrange(b, s, e);
                match decode_kv_bytes(sub) {
                    Some(kv) => {
                        let ghost kvv = kv@;
                        x.attributes.push(kv);
                        assert(x@.attributes =~= old(x)@.attributes.push(kvv));
                        true
                    },
                    None => false,
                }
            },
            _ => false,
        }
    } else if num == 2 {
        match v {
            FieldValue::Varint(n) => {
                x.dropped_attributes_count = n as u32;
                true
            },
            _ => false,
        }
    } else {
        true
    }
}

/// Reads a resource from its bytes.
pub fn decode_resource_bytes(b: &[u8]) -> (r: Option<Resource>)
    ensures
        match decode_resource(b@) {
            Some(e) => r matches Some(x) && x@ == e,
            None => r is None,
        },
{
    let mut x = Resource { attributes: Vec::new(), dropped_attributes_count: 0 };
    let ghost ap = resource_applier();
    proof {
        assert(b@.skip(0) =~= b@);
        assert(x@.attributes =~= Seq::<KeyValueView>::empty());
    }
    let mut pos: usize = 0;
    while pos < b.len()
        invariant
            pos <= b@.len(),
            ap == resource_applier(),
            decode_resource(b@) == match parse_fields(b@.skip(pos as int)) {
                Some(r) => fold_fields(x@, r, ap),
                None => None,
            },
        decreases b@.len() - pos,
    {
        proof {
            lemma_parse_fields_step(b@, pos as int);
        }
        let (num, v, next) = match next_field(b, pos) {
            Some(t) => t,
            None => return None,
        };
        let ghost f = (num as nat, payload_of(b@, v));
        let ok = apply_resource_field(&mut x, b, num, v);
        proof {
            match parse_fields(b@.skip(next as int)) {
                Some(r) => {
                    assert((seq![f] + r)[0] == f);
                    assert((seq![f] + r).drop_first() =~= r);
                },
                None => {},
            }
        }
        if !ok {
            return None;
        }
        pos = next;
    }
    assert(b@.skip(pos as int) =~= Seq::<u8>::empty());
    Some(x)
}

fn apply_library_field(x: &mut InstrumentationLibrary, b: &[u8], num: u64, v: FieldValue) -> (ok: bool)
    requires
        v matches FieldValue::Len(s, e) ==> s <= e <= b@.len(),
    ensures
        match apply_library(old(x)@, (num as nat, payload_of(b@, v))) {
            Some(n) => ok && final(x)@ == n,
            None => !ok,
        },
{
    if num == 1 || num == 2 {
        match read_string(b, v) {
            Some(s) => {
                if num == 1 {
                    x.name = s;
                } else {
                    x.version = s;
                }
                true
            },
            None => false,
        }
    } else {
        true
    }
}

/// Reads an instrumentation library from its bytes.
pub fn decode_library_bytes(b: &[u8]) -> (r: Option<InstrumentationLibrary>)
    ensures
        match decode_library(b@) {
            Some(e) => r matches Some(x) && x@ == e,
            None => r is None,
        },
{
    let mut x = InstrumentationLibrary { name: String::new(), version: String::new() };
    let ghost ap = library_applier();
    proof {
        assert(b@.skip(0) =~= b@);

    }
    let mut pos: usize = 0;
    while pos < b.len()
        invariant
            pos <= b@.len(),
            ap == library_applier(),
            decode_library(b@) == match parse_fields(b@.skip(pos as int)) {
                Some(r) => fold_fields(x@, r, ap),
                None => None,
            },
        decreases b@.len() - pos,
    {
        proof {
            lemma_parse_fields_step(b@, pos as int);
        }
        let (num, v, next) = match next_field(b, pos) {
            Some(t) => t,
            None => return None,
        };
        let ghost f = (num as nat, payload_of(b@, v));
        let ok = apply_library_field(&mut x, b, num, v);
        proof {
            match parse_fields(b@.skip(next as int)) {
                Some(r) => {
                    assert((seq![f] + r)[0] == f);
                    assert((seq![f] + r).drop_first() =~= r);
                },
                None => {},
            }
        }
        if !ok {
            return None;
        }
        pos = next;
    }
    assert(b@.skip(pos as int) =~= Seq::<u8>::empty());
    Some(x)
}

fn apply_library_events_field(x: &mut InstrumentationLibraryEvents, b: &[u8], num: u64, v: FieldValue) -> (ok: bool)
    requires
        v matches FieldValue::Len(s, e) ==> s <= e <= b@.len(),
    ensures
        match apply_library_events(old(x)@, (num as nat, payload_of(b@, v))) {
            Some(n) => ok && final(x)@ == n,
            None => !ok,
        },
{
    if num == 1 || num == 2 {
        match v {
            FieldValue::Len(s, e) => {
                let sub = slice_subrange(b, s, e);
                if num == 1 {
                    match decode_library_bytes(sub) {
                        Some(l) => {
                            x.instrumentation_library = Some(l);
                            true
                        },
                        None => false,
                    }
                } else {
                    match decode_batch_bytes(sub) {
                        Some(bt) => {
                            let ghost bv = bt@;
                            x.batches.push(bt);
                            assert(x@.batches =~= old(x)@.batches.push(bv));
                            true
                        },
                        None => false,
                    }
                }
            },
            _ => false,
        }
    } else if num == 3 {
        match v {
            FieldValue::Varint(n) => {
                x.dropped_events_count = n as u32;
                true
            },
            _ => false,
        }
    } else {
        true
    }
}

/// Reads the batches of one library from their bytes.
pub fn decode_library_events_bytes(b: &[u8]) -> (r: Option<InstrumentationLibraryEvents>)
    ensures
        match decode_library_events(b@) {
            Some(e) => r matches Some(x) && x@ == e,
            None => r is None,
        },
{
    let mut x = InstrumentationLibraryEvents { instrumentation_library: None, batches: Vec::new(), dropped_events_count: 0 };
    let ghost ap = library_events_applier();
    proof {
        assert(b@.skip(0) =~= b@);
        assert(x@.batches =~= Seq::<BatchView>::empty());
    }
    let mut pos: usize = 0;
    while pos < b.len()
        invariant
            pos <= b@.len(),
            ap == library_events_applier(),
            decode_library_events(b@) == match parse_fields(b@.skip(pos as int)) {
                Some(r) => fold_fields(x@, r, ap),
                None => None,
            },
        decreases b@.len() - pos,
    {
        proof {
            lemma_parse_fields_step(b@, pos as int);
        }
        let (num, v, next) = match next_field(b, pos) {
            Some(t) => t,
            None => return None,
        };
        let ghost f = (num as nat, payload_of(b@, v));
        let ok = apply_library_events_field(&mut x, b, num, v);
        proof {
            match parse_fields(b@.skip(next as int)) {
                Some(r) => {
                    assert((seq![f] + r)[0] == f);
                    assert((seq![f] + r).drop_first() =~= r);
                },
                None => {},
            }
        }
        if !ok {
            return None;
        }
        pos = next;
    }
    assert(b@.skip(pos as int) =~= Seq::<u8>::empty());
    Some(x)
}

fn apply_resource_events_field(x: &mut ResourceEvents, b: &[u8], num: u64, v: FieldValue) -> (ok: bool)
    requires
        v matches FieldValue::Len(s, e) ==> s <= e <= b@.len(),
    ensures
        match apply_resource_events(old(x)@, (num as nat, payload_of(b@, v))) {
            Some(n) => ok && final(x)@ == n,
            None => !ok,
        },
{
    if num == 1 || num == 2 {
        match v {
            FieldValue::Len(s, e) => {
                let sub = slice_subrange(b, s, e);
                if num == 1 {
                    match decode_resource_bytes(sub) {
                        Some(r) => {
                            x.resource = Some(r);
                            true
                        },
                        None => false,
                    }
                } else {
                    match decode_library_events_bytes(sub) {
                        Some(le) => {
                            let ghost lv = le@;
                            x.instrumentation_library_events.push(le);
                            assert(x@.instrumentation_library_events =~= old(x)@.instrumentation_library_events.push(lv));
                            true
                        },
                        None => false,
                    }
                }
            },
            _ => false,
        }
    } else if num == 3 {
        match read_string(b, v) {
            Some(s) => {
                x.schema_url = s;
                true
            },
            None => false,
        }
    } else {
        true
    }
}

/// Reads a whole `ResourceEvents` message from its bytes; unknown fields are skipped.
pub fn decode_resource_events_bytes(b: &[u8]) -> (r: Option<ResourceEvents>)
    ensures
        match decode_resource_events(b@) {
            Some(e) => r matches Some(x) && x@ == e,
            None => r is None,
        },
{
    let mut x = ResourceEvents { resource: None, instrumentation_library_events: Vec::new(), schema_url: String::new() };
    let ghost ap = resource_events_applier();
    proof {
        assert(b@.skip(0) =~= b@);
        assert(x@.instrumentation_library_events =~= Seq::<LibraryEventsView>::empty());
    }
    let mut pos: usize = 0;
    while pos < b.len()
        invariant
            pos <= b@.len(),
            ap == resource_events_applier(),
            decode_resource_events(b@) == match parse_fields(b@.skip(pos as int)) {
                Some(r) => fold_fields(x@, r, ap),
                None => None,
            },
        decreases b@.len() - pos,
    {
        proof {
            lemma_parse_fields_step(b@, pos as int);
        }
        let (num, v, next) = match next_field(b, pos) {
            Some(t) => t,
            None => return None,
        };
        let ghost f = (num as nat, payload_of(b@, v));
        let ok = apply_resource_events_field(&mut x, b, num, v);
        proof {
            match parse_fields(b@.skip(next as int)) {
                Some(r) => {
                    assert((seq![f] + r)[0] == f);
                    assert((seq![f] + r).drop_first() =~= r);
                },
                None => {},
            }
        }
        if !ok {
            return None;
        }
        pos = next;
    }
    assert(b@.skip(pos as int) =~= Seq::<u8>::empty());
    Some(x)
}

} // verus!
