//! The wire form of summaries: count (1) and sum (2), one message per value
//! of a summary column.
use crate::column::{DoubleSummary, F64Bits, Int64Summary};
use crate::column_codec::WireValue;
use crate::scalar::{lemma_i64_round_trip, put_opt_varint_field, varint_field};
use crate::values::len_fields;
use crate::varint::{lemma_varint_len_u64, le64_bytes, varint_bytes};
use crate::wire::{
    field_bytes, fields_bytes, fold_fields, lemma_fields_bytes_concat, lemma_fields_bytes_one, lemma_fold_concat,
    lemma_fold_one, lemma_parse_fields, lemma_parse_fields_step, next_field, parse_fields, payload_of, put_fixed64_field,
    put_len_field, Field, FieldValue, Payload,
};
use vstd::prelude::*;
use vstd::slice::slice_subrange;

verus! {

/// A fixed 64-bit field, absent when 0.
pub open spec fn fixed64_field(num: nat, v: u64) -> Seq<Field> {
    if v == 0 {
        seq![]
    } else {
        seq![(num, Payload::Fixed64(v))]
    }
}

pub open spec fn i64_summary_fields(x: Int64Summary) -> Seq<Field> {
    varint_field(1, x.count) + varint_field(2, x.sum as u64)
}

pub open spec fn f64_summary_fields(x: DoubleSummary) -> Seq<Field> {
    varint_field(1, x.count) + fixed64_field(2, x.sum.0)
}

pub open spec fn apply_i64_summary(x: Int64Summary, f: Field) -> Option<Int64Summary> {
    if f.0 == 1 {
        match f.1 {
            Payload::Varint(v) => Some(Int64Summary { count: v, ..x }),
            _ => None,
        }
    } else if f.0 == 2 {
        match f.1 {
            Payload::Varint(v) => Some(Int64Summary { sum: v as i64, ..x }),
            _ => None,
        }
    } else {
        Some(x)
    }
}

pub open spec fn apply_f64_summary(x: DoubleSummary, f: Field) -> Option<DoubleSummary> {
    if f.0 == 1 {
        match f.1 {
            Payload::Varint(v) => Some(DoubleSummary { count: v, ..x }),
            _ => None,
        }
    } else if f.0 == 2 {
        match f.1 {
            Payload::Fixed64(v) => Some(DoubleSummary { sum: F64Bits(v), ..x }),
            _ => None,
        }
    } else {
        Some(x)
    }
}

pub open spec fn i64_summary_applier() -> spec_fn(Int64Summary, Field) -> Option<Int64Summary> {
    |x: Int64Summary, f: Field| apply_i64_summary(x, f)
}

pub open spec fn f64_summary_applier() -> spec_fn(DoubleSummary, Field) -> Option<DoubleSummary> {
    |x: DoubleSummary, f: Field| apply_f64_summary(x, f)
}

pub open spec fn decode_i64_summary(b: Seq<u8>) -> Option<Int64Summary> {
    match parse_fields(b) {
        Some(fs) => fold_fields(Int64Summary { count: 0, sum: 0 }, fs, i64_summary_applier()),
        None => None,
    }
}

pub open spec fn decode_f64_summary(b: Seq<u8>) -> Option<DoubleSummary> {
    match parse_fields(b) {
        Some(fs) => fold_fields(DoubleSummary { count: 0, sum: F64Bits(0) }, fs, f64_summary_applier()),
        None => None,
    }
}

proof fn lemma_varint_field_len(num: nat, v: u64)
    requires
        1 <= num < 16,
    ensures
        fields_bytes(varint_field(num, v)).len() <= 11,
{
    if v != 0 {
        lemma_fields_bytes_one((num, Payload::Varint(v)));
        lemma_varint_len_u64(v);
        assert(varint_bytes(num * 8) =~= seq![(num * 8) as u8]);
    }
}

proof fn lemma_fixed64_field_len(num: nat, v: u64)
    requires
        1 <= num < 16,
    ensures
        fields_bytes(fixed64_field(num, v)).len() <= 9,
{
    if v != 0 {
        lemma_fields_bytes_one((num, Payload::Fixed64(v)));
        assert(varint_bytes(num * 8 + 1) =~= seq![(num * 8 + 1) as u8]);
    }
}

/// Reading back the bytes of an integer summary gives the same summary.
pub proof fn lemma_i64_summary_round_trip(x: Int64Summary)
    ensures
        decode_i64_summary(fields_bytes(i64_summary_fields(x))) == Some(x),
{
    let a1 = varint_field(1, x.count);
    let a2 = varint_field(2, x.sum as u64);
    lemma_fields_bytes_concat(a1, a2);
    lemma_varint_field_len(1, x.count);
    lemma_varint_field_len(2, x.sum as u64);
    lemma_parse_fields(a1 + a2);
    let ap = i64_summary_applier();
    let s0 = Int64Summary { count: 0, sum: 0 };
    let s1 = Int64Summary { count: x.count, sum: 0 };
    lemma_i64_round_trip(x.sum);
    if x.count != 0 {
        lemma_fold_one(s0, (1nat, Payload::Varint(x.count)), ap);
    }
    if x.sum as u64 != 0 {
        lemma_fold_one(s1, (2nat, Payload::Varint(x.sum as u64)), ap);
    }
    lemma_fold_concat(s0, a1, a2, ap);
}

/// Reading back the bytes of a double summary gives the same summary.
pub proof fn lemma_f64_summary_round_trip(x: DoubleSummary)
    ensures
        decode_f64_summary(fields_bytes(f64_summary_fields(x))) == Some(x),
{
    let a1 = varint_field(1, x.count);
    let a2 = fixed64_field(2, x.sum.0);
    lemma_fields_bytes_concat(a1, a2);
    lemma_varint_field_len(1, x.count);
    lemma_fixed64_field_len(2, x.sum.0);
    lemma_parse_fields(a1 + a2);
    let ap = f64_summary_applier();
    let s0 = DoubleSummary { count: 0, sum: F64Bits(0) };
    let s1 = DoubleSummary { count: x.count, sum: F64Bits(0) };
    if x.count != 0 {
        lemma_fold_one(s0, (1nat, Payload::Varint(x.count)), ap);
    }
    if x.sum.0 != 0 {
        lemma_fold_one(s1, (2nat, Payload::Fixed64(x.sum.0)), ap);
    }
    lemma_fold_concat(s0, a1, a2, ap);
}

fn encode_i64_summary(x: &Int64Summary) -> (r: Vec<u8>)
    ensures
        r@ == fields_bytes(i64_summary_fields(*x)),
{
    let mut r: Vec<u8> = Vec::new();
    put_opt_varint_field(&mut r, 1, x.count);
    put_opt_varint_field(&mut r, 2, x.sum as u64);
    proof {
        lemma_fields_bytes_concat(varint_field(1, x.count), varint_field(2, x.sum as u64));
        assert(r@ =~= fields_bytes(i64_summary_fields(*x)));
    }
    r
}

fn encode_f64_summary(x: &DoubleSummary) -> (r: Vec<u8>)
    ensures
        r@ == fields_bytes(f64_summary_fields(*x)),
{
    let mut r: Vec<u8> = Vec::new();
    put_opt_varint_field(&mut r, 1, x.count);
    let ghost mid = r@;
    if x.sum.0 != 0 {
        put_fixed64_field(&mut r, 2, x.sum.0);
        proof {
            lemma_fields_bytes_one((2nat, Payload::Fixed64(x.sum.0)));
        }
    } else {
        assert(fields_bytes(fixed64_field(2, x.sum.0)) =~= Seq::<u8>::empty());
        assert(r@ =~= mid + Seq::<u8>::empty());
    }
    proof {
        lemma_fields_bytes_concat(varint_field(1, x.count), fixed64_field(2, x.sum.0));
        assert(r@ =~= fields_bytes(f64_summary_fields(*x)));
    }
    r
}

fn decode_i64_summary_bytes(b: &[u8]) -> (r: Option<Int64Summary>)
    ensures
        r == decode_i64_summary(b@),
{
    let mut x = Int64Summary { count: 0, sum: 0 };
    let ghost ap = i64_summary_applier();
    assert(b@.skip(0) =~= b@);
    let mut pos: usize = 0;
    while pos < b.len()
        invariant
            pos <= b@.len(),
            ap == i64_summary_applier(),
            decode_i64_summary(b@) == match parse_fields(b@.skip(pos as int)) {
                Some(r) => fold_fields(x, r, ap),
                None => None,
            },
        decreases b@.len() - pos,
    {
        proof {
            lemma_parse_fields_step(b@, pos as int);
        }
        let (num, v, next) = match next_field(b, pos) {
            Some(t) => t,
            None => return None,
        };
        let ghost f = (num as nat, payload_of(b@, v));
        let ok = if num == 1 {
            match v {
                FieldValue::Varint(n) => {
                    x.count = n;
                    true
                },
                _ => false,
            }
        } else if num == 2 {
            match v {
                FieldValue::Varint(n) => {
                    x.sum = n as i64;
                    true
                },
                _ => false,
            }
        } else {
            true
        };
        proof {
            match parse_fields(b@.skip(next as int)) {
                Some(r) => {
                    assert((seq![f] + r)[0] == f);
                    assert((seq![f] + r).drop_first() =~= r);
                },
                None => {},
            }
        }
        if !ok {
            return None;
        }
        pos = next;
    }
    assert(b@.skip(pos as int) =~= Seq::<u8>::empty());
    Some(x)
}

fn decode_f64_summary_bytes(b: &[u8]) -> (r: Option<DoubleSummary>)
    ensures
        r == decode_f64_summary(b@),
{
    let mut x = DoubleSummary { count: 0, sum: F64Bits(0) };
    let ghost ap = f64_summary_applier();
    assert(b@.skip(0) =~= b@);
    let mut pos: usize = 0;
    while pos < b.len()
        invariant
            pos <= b@.len(),
            ap == f64_summary_applier(),
            decode_f64_summary(b@) == match parse_fields(b@.skip(pos as int)) {
                Some(r) => fold_fields(x, r, ap),
                None => None,
            },
        decreases b@.len() - pos,
    {
        proof {
            lemma_parse_fields_step(b@, pos as int);
        }
        let (num, v, next) = match next_field(b, pos) {
            Some(t) => t,
            None => return None,
        };
        let ghost f = (num as nat, payload_of(b@, v));
        let ok = if num == 1 {
            match v {
                FieldValue::Varint(n) => {
                    x.count = n;
                    true
                },
                _ => false,
            }
        } else if num == 2 {
            match v {
                FieldValue::Fixed64(n) => {
                    x.sum = F64Bits(n);
                    true
                },
                _ => false,
            }
        } else {
            true
        };
        proof {
            match parse_fields(b@.skip(next as int)) {
                Some(r) => {
                    assert((seq![f] + r)[0] == f);
                    assert((seq![f] + r).drop_first() =~= r);
                },
                None => {},
            }
        }
        if !ok {
            return None;
        }
        pos = next;
    }
    assert(b@.skip(pos as int) =~= Seq::<u8>::empty());
    Some(x)
}

impl WireValue for Int64Summary {
    /// One message per summary.
    open spec fn value_fields(num: nat, vs: Seq<Int64Summary>) -> Seq<Field> {
        len_fields(num, vs.map_values(|x: Int64Summary| fields_bytes(i64_summary_fields(x))))
    }

    open spec fn apply_values(vs: Seq<Int64Summary>, p: Payload) -> Option<Seq<Int64Summary>> {
        match p {
            Payload::Len(s) => match decode_i64_summary(s) {
                Some(x) => Some(vs.push(x)),
                None => None,
            },
            _ => None,
        }
    }

    proof fn lemma_values_round_trip(num: nat, pre: Seq<Int64Summary>, vs: Seq<Int64Summary>)
        decreases vs.len(),
    {
        let fs = Self::value_fields(num, vs);
        if vs.len() == 0 {
            assert(pre + vs =~= pre);
        } else {
            lemma_i64_summary_round_trip(vs[0]);
            assert(fs.drop_first() =~= Self::value_fields(num, vs.drop_first()));
            Self::lemma_values_round_trip(num, pre.push(vs[0]), vs.drop_first());
            assert(pre.push(vs[0]) + vs.drop_first() =~= pre + vs);
        }
    }

    fn put_values(buf: &mut Vec<u8>, num: u64, vs: &Vec<Int64Summary>) {
        let mut i: usize = 0;
        let ghost dv = vs.deep_view();
        assert(dv =~= vs@);
        while i < vs.len()
            invariant
                i <= vs@.len(),
                dv == vs@,
                1 <= num < 0x2000_0000,
                buf@ == old(buf)@ + fields_bytes(Self::value_fields(num as nat, dv.take(i as int))),
            decreases vs@.len() - i,
        {
            let m = encode_i64_summary(&vs[i]);
            put_len_field(buf, num, m.as_slice());
            proof {
                let f = |x: Int64Summary| fields_bytes(i64_summary_fields(x));
                assert(dv.take(i + 1).map_values(f) =~= dv.take(i as int).map_values(f).push(m@));
                crate::values::lemma_len_fields_push(num as nat, dv.take(i as int).map_values(f), m@);
            }
            i += 1;
        }
        assert(dv.take(vs@.len() as int) =~= dv);
    }

    fn read_values(vs: &mut Vec<Int64Summary>, b: &[u8], v: FieldValue) -> (ok: bool) {
        assert(old(vs).deep_view() =~= old(vs)@);
        match v {
            FieldValue::Len(s, e) => {
                let sub = slice_subrange(b, s, e);
                match decode_i64_summary_bytes(sub) {
                    Some(x) => {
                        vs.push(x);
                        assert(vs.deep_view() =~= vs@);
                        true
                    },
                    None => false,
                }
            },
            _ => false,
        }
    }
}

impl WireValue for DoubleSummary {
    /// One message per summary.
    open spec fn value_fields(num: nat, vs: Seq<DoubleSummary>) -> Seq<Field> {
        len_fields(num, vs.map_values(|x: DoubleSummary| fields_bytes(f64_summary_fields(x))))
    }

    open spec fn apply_values(vs: Seq<DoubleSummary>, p: Payload) -> Option<Seq<DoubleSummary>> {
        match p {
            Payload::Len(s) => match decode_f64_summary(s) {
                Some(x) => Some(vs.push(x)),
                None => None,
            },
            _ => None,
        }
    }

    proof fn lemma_values_round_trip(num: nat, pre: Seq<DoubleSummary>, vs: Seq<DoubleSummary>)
        decreases vs.len(),
    {
        let fs = Self::value_fields(num, vs);
        if vs.len() == 0 {
            assert(pre + vs =~= pre);
        } else {
            lemma_f64_summary_round_trip(vs[0]);
            assert(fs.drop_first() =~= Self::value_fields(num, vs.drop_first()));
            Self::lemma_values_round_trip(num, pre.push(vs[0]), vs.drop_first());
            assert(pre.push(vs[0]) + vs.drop_first() =~= pre + vs);
        }
    }

    fn put_values(buf: &mut Vec<u8>, num: u64, vs: &Vec<DoubleSummary>) {
        let mut i: usize = 0;
        let ghost dv = vs.deep_view();
        assert(dv =~= vs@);
        while i < vs.len()
            invariant
                i <= vs@.len(),
                dv == vs@,
                1 <= num < 0x2000_0000,
                buf@ == old(buf)@ + fields_bytes(Self::value_fields(num as nat, dv.take(i as int))),
            decreases vs@.len() - i,
        {
            let m = encode_f64_summary(&vs[i]);
            put_len_field(buf, num, m.as_slice());
            proof {
                let f = |x: DoubleSummary| fields_bytes(f64_summary_fields(x));
                assert(dv.take(i + 1).map_values(f) =~= dv.take(i as int).map_values(f).push(m@));
                crate::values::lemma_len_fields_push(num as nat, dv.take(i as int).map_values(f), m@);
            }
            i += 1;
        }
        assert(dv.take(vs@.len() as int) =~= dv);
    }

    fn read_values(vs: &mut Vec<DoubleSummary>, b: &[u8], v: FieldValue) -> (ok: bool) {
        assert(old(vs).deep_view() =~= old(vs)@);
        match v {
            FieldValue::Len(s, e) => {
                let sub = slice_subrange(b, s, e);
                match decode_f64_summary_bytes(sub) {
                    Some(x) => {
                        vs.push(x);
                        assert(vs.deep_view() =~= vs@);
                        true
                    },
                    None => false,
                }
            },
            _ => false,
        }
    }
}

} // verus!
