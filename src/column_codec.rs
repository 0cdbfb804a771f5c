//! The wire form of a column: name (1), logical type (2), description (3),
//! unit (4), aggregation temporality (5), monotonicity (6), values (7) and
//! validity bitmap (8).
use crate::column::{Column, ColumnView};
use crate::packed::{packed_varints, parse_packed_varints, put_packed_varints, read_packed_varints, lemma_packed_varints};
use crate::scalar::{
    bool_field, bytes_field, i32_field, lemma_i32_round_trip, lemma_i64_round_trip, put_bool_field,
    put_bytes_field, put_i32_field, put_str_field, str_field, varint_field,
};
use crate::wire::{
    field_ok, fields_bytes, fold_fields, lemma_fields_bytes_concat, lemma_fields_bytes_one, lemma_fold_concat,
    lemma_fold_one, lemma_parse_fields_step, next_field, parse_field, parse_fields, payload_of, put_len_field,
    utf8_str, Field, FieldValue, Payload,
};
use vstd::prelude::*;
use vstd::slice::slice_subrange;
use vstd::utf8::{decode_utf8, encode_utf8, encode_utf8_decode_utf8, encode_utf8_valid_utf8, valid_utf8};

verus! {

/// How the values of a column travel on the wire.
pub trait WireValue: DeepView + Sized {
    /// The fields, numbered `num`, that carry `vs`.
    spec fn value_fields(num: nat, vs: Seq<Self::V>) -> Seq<Field>;

    /// Reads one field of values, appending them to `vs`.
    spec fn apply_values(vs: Seq<Self::V>, p: Payload) -> Option<Seq<Self::V>>;

    proof fn lemma_values_round_trip(num: nat, pre: Seq<Self::V>, vs: Seq<Self::V>)
        requires
            1 <= num < 0x2000_0000,
        ensures
            forall|i: int|
                0 <= i < Self::value_fields(num, vs).len() ==> field_ok(
                    #[trigger] Self::value_fields(num, vs)[i],
                ) && Self::value_fields(num, vs)[i].0 == num,
            fold_fields(pre, Self::value_fields(num, vs), |s: Seq<Self::V>, f: Field| Self::apply_values(s, f.1))
                == Some(pre + vs),
    ;

    fn put_values(buf: &mut Vec<u8>, num: u64, vs: &Vec<Self>)
        requires
            1 <= num < 0x2000_0000,
        ensures
            final(buf)@ == old(buf)@ + fields_bytes(Self::value_fields(num as nat, vs.deep_view())),
    ;

    fn read_values(vs: &mut Vec<Self>, b: &[u8], v: FieldValue) -> (ok: bool)
        requires
            v matches FieldValue::Len(s, e) ==> s <= e <= b@.len(),
        ensures
            match Self::apply_values(old(vs).deep_view(), payload_of(b@, v)) {
                Some(n) => ok && final(vs).deep_view() == n,
                None => !ok,
            },
    ;
}

/// `apply_values` as a function of the values read so far and a field.
pub open spec fn values_applier<V: WireValue>() -> spec_fn(Seq<V::V>, Field) -> Option<Seq<V::V>> {
    |s: Seq<V::V>, f: Field| V::apply_values(s, f.1)
}

impl WireValue for i64 {
    /// Packed varints of the two's complement bits.
    open spec fn value_fields(num: nat, vs: Seq<i64>) -> Seq<Field> {
        if vs.len() == 0 {
            seq![]
        } else {
            seq![(num, Payload::Len(packed_varints(vs.map_values(|x: i64| x as u64))))]
        }
    }

    open spec fn apply_values(vs: Seq<i64>, p: Payload) -> Option<Seq<i64>> {
        match p {
            Payload::Len(s) => match parse_packed_varints(s) {
                Some(us) => Some(vs + us.map_values(|u: u64| u as i64)),
                None => None,
            },
            _ => None,
        }
    }

    proof fn lemma_values_round_trip(num: nat, pre: Seq<i64>, vs: Seq<i64>) {
        let ap = |s: Seq<i64>, f: Field| Self::apply_values(s, f.1);
        assert forall|i: int| 0 <= i < Self::value_fields(num, vs).len() implies field_ok(
            #[trigger] Self::value_fields(num, vs)[i]) && Self::value_fields(num, vs)[i].0 == num by {
        }
        if vs.len() == 0 {
            assert(pre + vs =~= pre);
        } else {
            let us = vs.map_values(|x: i64| x as u64);
            lemma_packed_varints(us);
            lemma_fold_one(pre, (num, Payload::Len(packed_varints(us))), ap);
            assert forall|i: int| 0 <= i < vs.len() implies us.map_values(|u: u64| u as i64)[i] == vs[i] by {
                lemma_i64_round_trip(vs[i]);
            }
            assert(us.map_values(|u: u64| u as i64) =~= vs);
        }
    }

    fn put_values(buf: &mut Vec<u8>, num: u64, vs: &Vec<i64>) {
        assert(vs.deep_view() =~= vs@);
        if vs.len() == 0 {
            assert(fields_bytes(Self::value_fields(num as nat, vs.deep_view())) =~= Seq::<u8>::empty());
            assert(final(buf)@ =~= old(buf)@ + Seq::<u8>::empty());
            return;
        }
        let mut us: Vec<u64> = Vec::with_capacity(vs.len());
        let mut i: usize = 0;
        while i < vs.len()
            invariant
                i <= vs@.len(),
                us@ =~= vs@.take(i as int).map_values(|x: i64| x as u64),
            decreases vs@.len() - i,
        {
            us.push(vs[i] as u64);
            i += 1;
        }
        assert(vs@.take(vs@.len() as int) =~= vs@);
        let mut payload: Vec<u8> = Vec::new();
        put_packed_varints(&mut payload, &us);
        put_len_field(buf, num, payload.as_slice());
        proof {
            lemma_fields_bytes_one((num as nat, Payload::Len(payload@)));
        }
    }

    fn read_values(vs: &mut Vec<i64>, b: &[u8], v: FieldValue) -> (ok: bool) {
        assert(old(vs).deep_view() =~= old(vs)@);
        match v {
            FieldValue::Len(s, e) => match read_packed_varints(b, s, e) {
                Some(us) => {
                    let mut i: usize = 0;
                    while i < us.len()
                        invariant
                            i <= us@.len(),
                            vs@ =~= old(vs)@ + us@.take(i as int).map_values(|u: u64| u as i64),
                        decreases us@.len() - i,
                    {
                        vs.push(us[i] as i64);
                        i += 1;
                    }
                    assert(us@.take(us@.len() as int) =~= us@);
                    assert(vs.deep_view() =~= vs@);
                    true
                },
                None => false,
            },
            _ => false,
        }
    }
}

/// The fields of a column, in field-number order.
pub open spec fn column_fields<V: WireValue>(c: ColumnView<V::V>) -> Seq<Field> {
    str_field(1, c.name) + i32_field(2, c.logical_type) + str_field(3, c.description) + str_field(
        4,
        c.unit,
    ) + i32_field(5, c.aggregation_temporality) + bool_field(6, c.is_monotonic) + V::value_fields(
        7,
        c.values,
    ) + bytes_field(8, c.validity_bitmap)
}

/// The bytes of a column.
pub open spec fn column_bytes<V: WireValue>(c: ColumnView<V::V>) -> Seq<u8> {
    fields_bytes(column_fields::<V>(c))
}

/// A string payload, read as UTF-8.
pub open spec fn utf8_payload(p: Payload) -> Option<Seq<char>> {
    match p {
        Payload::Len(s) => if valid_utf8(s) {
            Some(decode_utf8(s))
        } else {
            None
        },
        _ => None,
    }
}

pub open spec fn varint_payload(p: Payload) -> Option<u64> {
    match p {
        Payload::Varint(v) => Some(v),
        _ => None,
    }
}

pub open spec fn bytes_payload(p: Payload) -> Option<Seq<u8>> {
    match p {
        Payload::Len(s) => Some(s),
        _ => None,
    }
}

/// What one field does to a column being read. Unknown field numbers are
/// skipped; a known one with the wrong wire type fails.
pub open spec fn apply_column<V: WireValue>(c: ColumnView<V::V>, f: Field) -> Option<ColumnView<V::V>> {
    if f.0 == 1 {
        match utf8_payload(f.1) {
            Some(s) => Some(ColumnView { name: s, ..c }),
            None => None,
        }
    } else if f.0 == 2 {
        match varint_payload(f.1) {
            Some(v) => Some(ColumnView { logical_type: v as i32, ..c }),
            None => None,
        }
    } else if f.0 == 3 {
        match utf8_payload(f.1) {
            Some(s) => Some(ColumnView { description: s, ..c }),
            None => None,
        }
    } else if f.0 == 4 {
        match utf8_payload(f.1) {
            Some(s) => Some(ColumnView { unit: s, ..c }),
            None => None,
        }
    } else if f.0 == 5 {
        match varint_payload(f.1) {
            Some(v) => Some(ColumnView { aggregation_temporality: v as i32, ..c }),
            None => None,
        }
    } else if f.0 == 6 {
        match varint_payload(f.1) {
            Some(v) => Some(ColumnView { is_monotonic: v != 0, ..c }),
            None => None,
        }
    } else if f.0 == 7 {
        match V::apply_values(c.values, f.1) {
            Some(vs) => Some(ColumnView { values: vs, ..c }),
            None => None,
        }
    } else if f.0 == 8 {
        match bytes_payload(f.1) {
            Some(s) => Some(ColumnView { validity_bitmap: s, ..c }),
            None => None,
        }
    } else {
        Some(c)
    }
}

pub open spec fn column_applier<V: WireValue>() -> spec_fn(ColumnView<V::V>, Field) -> Option<ColumnView<V::V>> {
    |c: ColumnView<V::V>, f: Field| apply_column::<V>(c, f)
}

pub open spec fn empty_column<W>() -> ColumnView<W> {
    ColumnView {
        name: Seq::empty(),
        logical_type: 0,
        description: Seq::empty(),
        unit: Seq::empty(),
        aggregation_temporality: 0,
        is_monotonic: false,
        values: Seq::empty(),
        validity_bitmap: Seq::empty(),
    }
}

/// Reads a column from its bytes.
pub open spec fn decode_column<V: WireValue>(b: Seq<u8>) -> Option<ColumnView<V::V>> {
    match parse_fields(b) {
        Some(fs) => fold_fields(empty_column(), fs, column_applier::<V>()),
        None => None,
    }
}

/// Appends the bytes of a column.
pub fn encode_column<V: WireValue>(c: &Column<V>, buf: &mut Vec<u8>)
    ensures
        final(buf)@ == old(buf)@ + column_bytes::<V>(c@),
{
    let ghost v = c@;
    let ghost s0 = old(buf)@;
    put_str_field(buf, 1, &c.name);
    let ghost b1 = buf@;
    put_i32_field(buf, 2, c.logical_type);
    let ghost b2 = buf@;
    put_str_field(buf, 3, &c.description);
    let ghost b3 = buf@;
    put_str_field(buf, 4, &c.unit);
    let ghost b4 = buf@;
    put_i32_field(buf, 5, c.aggregation_temporality);
    let ghost b5 = buf@;
    put_bool_field(buf, 6, c.is_monotonic);
    let ghost b6 = buf@;
    V::put_values(buf, 7, &c.values);
    let ghost b7 = buf@;
    put_bytes_field(buf, 8, c.validity_bitmap.as_slice());
    proof {
        lemma_column_bytes_split::<V>(v);
        lemma_concat8(s0, b1, b2, b3, b4, b5, b6, b7, buf@,
            fields_bytes(str_field(1, v.name)), fields_bytes(i32_field(2, v.logical_type)),
            fields_bytes(str_field(3, v.description)), fields_bytes(str_field(4, v.unit)),
            fields_bytes(i32_field(5, v.aggregation_temporality)), fields_bytes(bool_field(6, v.is_monotonic)),
            fields_bytes(V::value_fields(7, v.values)), fields_bytes(bytes_field(8, v.validity_bitmap)));
    }
}

/// Eight appends in a row append the eight pieces, in order.
pub proof fn lemma_concat8(
    s0: Seq<u8>, b1: Seq<u8>, b2: Seq<u8>, b3: Seq<u8>, b4: Seq<u8>, b5: Seq<u8>, b6: Seq<u8>,
    b7: Seq<u8>, b8: Seq<u8>, f1: Seq<u8>, f2: Seq<u8>, f3: Seq<u8>, f4: Seq<u8>, f5: Seq<u8>,
    f6: Seq<u8>, f7: Seq<u8>, f8: Seq<u8>,
)
    requires
        b1 == s0 + f1,
        b2 == b1 + f2,
        b3 == b2 + f3,
        b4 == b3 + f4,
        b5 == b4 + f5,
        b6 == b5 + f6,
        b7 == b6 + f7,
        b8 == b7 + f8,
    ensures
        b8 == s0 + (f1 + f2 + f3 + f4 + f5 + f6 + f7 + f8),
{
    assert(b8 =~= s0 + (f1 + f2 + f3 + f4 + f5 + f6 + f7 + f8));
}

proof fn lemma_column_bytes_split<V: WireValue>(v: ColumnView<V::V>)
    ensures
        column_bytes::<V>(v) == fields_bytes(str_field(1, v.name)) + fields_bytes(i32_field(2, v.logical_type))
            + fields_bytes(str_field(3, v.description)) + fields_bytes(str_field(4, v.unit))
            + fields_bytes(i32_field(5, v.aggregation_temporality)) + fields_bytes(bool_field(6, v.is_monotonic))
            + fields_bytes(V::value_fields(7, v.values)) + fields_bytes(bytes_field(8, v.validity_bitmap)),
{
    {
        let a1 = str_field(1, v.name);
        let a2 = i32_field(2, v.logical_type);
        let a3 = str_field(3, v.description);
        let a4 = str_field(4, v.unit);
        let a5 = i32_field(5, v.aggregation_temporality);
        let a6 = bool_field(6, v.is_monotonic);
        let a7 = V::value_fields(7, v.values);
        let a8 = bytes_field(8, v.validity_bitmap);
        lemma_fields_bytes_concat(a1, a2);
        lemma_fields_bytes_concat(a1 + a2, a3);
        lemma_fields_bytes_concat(a1 + a2 + a3, a4);
        lemma_fields_bytes_concat(a1 + a2 + a3 + a4, a5);
        lemma_fields_bytes_concat(a1 + a2 + a3 + a4 + a5, a6);
        lemma_fields_bytes_concat(a1 + a2 + a3 + a4 + a5 + a6, a7);
        lemma_fields_bytes_concat(a1 + a2 + a3 + a4 + a5 + a6 + a7, a8);
    }
}


/// Every field of `fs` is one that the encoders write.
pub open spec fn all_ok(fs: Seq<Field>) -> bool {
    forall|i: int| 0 <= i < fs.len() ==> field_ok(#[trigger] fs[i])
}

pub proof fn lemma_all_ok_concat(a: Seq<Field>, b: Seq<Field>)
    requires
        all_ok(a),
        all_ok(b),
    ensures
        all_ok(a + b),
{
    assert forall|i: int| 0 <= i < (a + b).len() implies field_ok(#[trigger] (a + b)[i]) by {
        if i < a.len() {
            assert((a + b)[i] == a[i]);
        } else {
            assert((a + b)[i] == b[i - a.len()]);
        }
    }
}

/// Reads a string payload.
pub fn read_string(b: &[u8], v: FieldValue) -> (r: Option<String>)
    requires
        v matches FieldValue::Len(s, e) ==> s <= e <= b@.len(),
    ensures
        match utf8_payload(payload_of(b@, v)) {
            Some(s) => r matches Some(x) && x@ == s,
            None => r is None,
        },
{
    match v {
        FieldValue::Len(s, e) => {
            let sub = slice_subrange(b, s, e);
            match utf8_str(sub) {
                Some(t) => Some(t.to_owned()),
                None => None,
            }
        },
        _ => None,
    }
}

/// Reads a bytes payload.
pub fn read_bytes(b: &[u8], v: FieldValue) -> (r: Option<Vec<u8>>)
    requires
        v matches FieldValue::Len(s, e) ==> s <= e <= b@.len(),
    ensures
        match bytes_payload(payload_of(b@, v)) {
            Some(s) => r matches Some(x) && x@ == s,
            None => r is None,
        },
{
    match v {
        FieldValue::Len(s, e) => {
            let sub = slice_subrange(b, s, e);
            Some(vstd::slice::slice_to_vec(sub))
        },
        _ => None,
    }
}

/// Applies one field to a column being read.
fn apply_column_field<V: WireValue>(c: &mut Column<V>, b: &[u8], num: u64, v: FieldValue) -> (ok: bool)
    requires
        v matches FieldValue::Len(s, e) ==> s <= e <= b@.len(),
    ensures
        match apply_column::<V>(old(c)@, (num as nat, payload_of(b@, v))) {
            Some(n) => ok && final(c)@ == n,
            None => !ok,
        },
{
    if num == 1 || num == 3 || num == 4 {
        match read_string(b, v) {
            Some(s) => {
                if num == 1 {
                    c.name = s;
                } else if num == 3 {
                    c.description = s;
                } else {
                    c.unit = s;
                }
                true
            },
            None => false,
        }
    } else if num == 2 || num == 5 || num == 6 {
        match v {
            FieldValue::Varint(x) => {
                if num == 2 {
                    c.logical_type = x as i32;
                } else if num == 5 {
                    c.aggregation_temporality = x as i32;
                } else {
                    c.is_monotonic = x != 0;
                }
                true
            },
            _ => false,
        }
    } else if num == 7 {
        V::read_values(&mut c.values, b, v)
    } else if num == 8 {
        match read_bytes(b, v) {
            Some(s) => {
                c.validity_bitmap = s;
                true
            },
            None => false,
        }
    } else {
        true
    }
}

/// Reads a column from its bytes; unknown fields are skipped.
pub fn decode_column_bytes<V: WireValue>(b: &[u8]) -> (r: Option<Column<V>>)
    ensures
        match decode_column::<V>(b@) {
            Some(c) => r matches Some(x) && x@ == c,
            None => r is None,
        },
{
    let mut c: Column<V> = Column {
        name: String::new(),
        logical_type: 0,
        description: String::new(),
        unit: String::new(),
        aggregation_temporality: 0,
        is_monotonic: false,
        values: Vec::new(),
        validity_bitmap: Vec::new(),
    };
    let ghost ap = column_applier::<V>();
    proof {
        assert(b@.skip(0) =~= b@);
        assert(c@.values =~= Seq::<V::V>::empty());
        assert(c@ == empty_column::<V::V>());
    }
    let mut pos: usize = 0;
    while pos < b.len()
        invariant
            pos <= b@.len(),
            ap == column_applier::<V>(),
            decode_column::<V>(b@) == match parse_fields(b@.skip(pos as int)) {
                Some(r) => fold_fields(c@, r, ap),
                None => None,
            },
        decreases b@.len() - pos,
    {
        proof {
            lemma_parse_fields_step(b@, pos as int);
        }
        let (num, v, next) = match next_field(b, pos) {
            Some(x) => x,
            None => return None,
        };
        let ghost f = (num as nat, payload_of(b@, v));
        let ghost before = c@;
        if !apply_column_field(&mut c, b, num, v) {
            proof {
                match parse_fields(b@.skip(next as int)) {
                    Some(r) => assert((seq![f] + r)[0] == f),
                    None => {},
                }
            }
            return None;
        }
        proof {
            match parse_fields(b@.skip(next as int)) {
                Some(r) => {
                    assert((seq![f] + r)[0] == f);
                    assert((seq![f] + r).drop_first() =~= r);
                },
                None => {},
            }
        }
        pos = next;
    }
    proof {
        assert(b@.skip(pos as int) =~= Seq::<u8>::empty());
    }
    Some(c)
}

proof fn lemma_fold_values<V: WireValue>(c: ColumnView<V::V>, fs: Seq<Field>)
    requires
        forall|i: int| 0 <= i < fs.len() ==> (#[trigger] fs[i]).0 == 7,
    ensures
        fold_fields(c, fs, column_applier::<V>()) == match fold_fields(c.values, fs, values_applier::<V>()) {
            Some(vs) => Some(ColumnView { values: vs, ..c }),
            None => None,
        },
    decreases fs.len(),
{
    if fs.len() > 0 {
        assert(fs[0].0 == 7);
        match V::apply_values(c.values, fs[0].1) {
            Some(vs) => {
                assert forall|i: int| 0 <= i < fs.drop_first().len() implies (#[trigger] fs.drop_first()[i]).0 == 7 by {
                    assert(fs[i + 1].0 == 7);
                }
                lemma_fold_values::<V>(ColumnView { values: vs, ..c }, fs.drop_first());
            },
            None => {},
        }
    }
}

/// Reading back the bytes of a column gives the same column, where those
/// bytes number fewer than 2^64.
pub proof fn lemma_column_round_trip<V: WireValue>(c: ColumnView<V::V>)
    requires
        column_bytes::<V>(c).len() <= u64::MAX,
    ensures
        decode_column::<V>(column_bytes::<V>(c)) == Some(c),
{
    let ap = column_applier::<V>();
    let a1 = str_field(1, c.name);
    let a2 = i32_field(2, c.logical_type);
    let a3 = str_field(3, c.description);
    let a4 = str_field(4, c.unit);
    let a5 = i32_field(5, c.aggregation_temporality);
    let a6 = bool_field(6, c.is_monotonic);
    let a7 = V::value_fields(7, c.values);
    let a8 = bytes_field(8, c.validity_bitmap);
    V::lemma_values_round_trip(7, Seq::empty(), c.values);
    assert(values_applier::<V>() =~= |s: Seq<V::V>, f: Field| V::apply_values(s, f.1));
    assert(all_ok(a7));
    lemma_all_ok_concat(a1, a2);
    lemma_all_ok_concat(a1 + a2, a3);
    lemma_all_ok_concat(a1 + a2 + a3, a4);
    lemma_all_ok_concat(a1 + a2 + a3 + a4, a5);
    lemma_all_ok_concat(a1 + a2 + a3 + a4 + a5, a6);
    lemma_all_ok_concat(a1 + a2 + a3 + a4 + a5 + a6, a7);
    lemma_all_ok_concat(a1 + a2 + a3 + a4 + a5 + a6 + a7, a8);
    crate::wire::lemma_parse_fields(column_fields::<V>(c));
    let s0 = empty_column::<V::V>();
    let s1 = ColumnView { name: c.name, ..s0 };
    let s2 = ColumnView { logical_type: c.logical_type, ..s1 };
    let s3 = ColumnView { description: c.description, ..s2 };
    let s4 = ColumnView { unit: c.unit, ..s3 };
    let s5 = ColumnView { aggregation_temporality: c.aggregation_temporality, ..s4 };
    let s6 = ColumnView { is_monotonic: c.is_monotonic, ..s5 };
    let s7 = ColumnView { values: c.values, ..s6 };
    lemma_str_step::<V>(s0, 1, c.name);
    assert(fold_fields(s0, a1, ap) == Some(s1));
    lemma_i32_step::<V>(s1, 2, c.logical_type);
    assert(fold_fields(s1, a2, ap) == Some(s2));
    lemma_str_step::<V>(s2, 3, c.description);
    assert(fold_fields(s2, a3, ap) == Some(s3));
    lemma_str_step::<V>(s3, 4, c.unit);
    assert(fold_fields(s3, a4, ap) == Some(s4));
    lemma_i32_step::<V>(s4, 5, c.aggregation_temporality);
    assert(fold_fields(s4, a5, ap) == Some(s5));
    if c.is_monotonic {
        lemma_fold_one(s5, (6nat, Payload::Varint(1)), ap);
    } else {
        assert(s6 == s5);
    }
    assert(fold_fields(s5, a6, ap) == Some(s6));
    lemma_fold_values::<V>(s6, a7);
    assert(Seq::<V::V>::empty() + c.values =~= c.values);
    assert(fold_fields(s6, a7, ap) == Some(s7));
    if c.validity_bitmap.len() == 0 {
        assert(c.validity_bitmap =~= Seq::<u8>::empty());
        assert(s7 == c);
    } else {
        lemma_fold_one(s7, (8nat, Payload::Len(c.validity_bitmap)), ap);
    }
    assert(fold_fields(s7, a8, ap) == Some(c));
    lemma_fold_concat(s0, a1, a2, ap);
    lemma_fold_concat(s0, a1 + a2, a3, ap);
    lemma_fold_concat(s0, a1 + a2 + a3, a4, ap);
    lemma_fold_concat(s0, a1 + a2 + a3 + a4, a5, ap);
    lemma_fold_concat(s0, a1 + a2 + a3 + a4 + a5, a6, ap);
    lemma_fold_concat(s0, a1 + a2 + a3 + a4 + a5 + a6, a7, ap);
    lemma_fold_concat(s0, a1 + a2 + a3 + a4 + a5 + a6 + a7, a8, ap);
}

/// A string field read into a column whose string there is still empty.
proof fn lemma_str_step<V: WireValue>(st: ColumnView<V::V>, num: nat, s: Seq<char>)
    requires
        num == 1 || num == 3 || num == 4,
        num == 1 ==> st.name.len() == 0,
        num == 3 ==> st.description.len() == 0,
        num == 4 ==> st.unit.len() == 0,
    ensures
        fold_fields(st, str_field(num, s), column_applier::<V>()) == Some(
            if num == 1 {
                ColumnView { name: s, ..st }
            } else if num == 3 {
                ColumnView { description: s, ..st }
            } else {
                ColumnView { unit: s, ..st }
            },
        ),
{
    if s.len() == 0 {
        assert(s =~= Seq::<char>::empty());
        assert(st.name =~= Seq::<char>::empty() || num != 1);
        assert(st.description =~= Seq::<char>::empty() || num != 3);
        assert(st.unit =~= Seq::<char>::empty() || num != 4);
    } else {
        encode_utf8_valid_utf8(s);
        encode_utf8_decode_utf8(s);
        lemma_fold_one(st, (num, Payload::Len(encode_utf8(s))), column_applier::<V>());
    }
}

/// A 32-bit field read into a column whose value there is still 0.
proof fn lemma_i32_step<V: WireValue>(st: ColumnView<V::V>, num: nat, v: i32)
    requires
        num == 2 || num == 5,
        num == 2 ==> st.logical_type == 0,
        num == 5 ==> st.aggregation_temporality == 0,
    ensures
        fold_fields(st, i32_field(num, v), column_applier::<V>()) == Some(
            if num == 2 {
                ColumnView { logical_type: v, ..st }
            } else {
                ColumnView { aggregation_temporality: v, ..st }
            },
        ),
{
    lemma_i32_round_trip(v);
    if (v as i64) as u64 != 0 {
        lemma_fold_one(st, (num, Payload::Varint((v as i64) as u64)), column_applier::<V>());
    }
}

} // verus!
