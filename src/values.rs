//! How each kind of column value travels: booleans as packed varints,
//! doubles as packed little-endian words, strings and bytes one field per
//! value, summaries one message per value.
use crate::column::{DoubleSummary, F64Bits, Int64Summary};
use crate::column_codec::{bytes_payload, read_bytes, read_string, utf8_payload, varint_payload, WireValue};
use crate::packed::{
    lemma_packed_fixed64, lemma_packed_varints, packed_fixed64, packed_varints, parse_packed_fixed64,
    parse_packed_varints, put_packed_fixed64, put_packed_varints, read_packed_fixed64, read_packed_varints,
};
use crate::scalar::{lemma_i64_round_trip, put_opt_varint_field, varint_field};
use crate::wire::{
    field_bytes, field_ok, fields_bytes, fold_fields, lemma_fields_bytes_concat, lemma_fields_bytes_one, lemma_fold_concat,
    lemma_fold_one, lemma_parse_fields, lemma_parse_fields_step, next_field, parse_fields, payload_of, put_fixed64_field,
    put_len_field, Field, FieldValue, Payload,
};
use vstd::prelude::*;
use vstd::slice::slice_subrange;
use vstd::utf8::{decode_utf8, encode_utf8, encode_utf8_decode_utf8, encode_utf8_valid_utf8, valid_utf8};

verus! {

impl WireValue for bool {
    /// Packed varints, 1 for true and 0 for false.
    open spec fn value_fields(num: nat, vs: Seq<bool>) -> Seq<Field> {
        if vs.len() == 0 {
            seq![]
        } else {
            seq![(num, Payload::Len(packed_varints(vs.map_values(|x: bool| if x { 1u64 } else { 0u64 }))))]
        }
    }

    open spec fn apply_values(vs: Seq<bool>, p: Payload) -> Option<Seq<bool>> {
        match p {
            Payload::Len(s) => match parse_packed_varints(s) {
                Some(us) => Some(vs + us.map_values(|u: u64| u != 0)),
                None => None,
            },
            _ => None,
        }
    }

    proof fn lemma_values_round_trip(num: nat, pre: Seq<bool>, vs: Seq<bool>) {
        let ap = |s: Seq<bool>, f: Field| Self::apply_values(s, f.1);
        if vs.len() == 0 {
            assert(pre + vs =~= pre);
        } else {
            let us = vs.map_values(|x: bool| if x { 1u64 } else { 0u64 });
            lemma_packed_varints(us);
            lemma_fold_one(pre, (num, Payload::Len(packed_varints(us))), ap);
            assert(us.map_values(|u: u64| u != 0) =~= vs);
        }
    }

    fn put_values(buf: &mut Vec<u8>, num: u64, vs: &Vec<bool>) {
        assert(vs.deep_view() =~= vs@);
        if vs.len() == 0 {
            assert(fields_bytes(Self::value_fields(num as nat, vs.deep_view())) =~= Seq::<u8>::empty());
            assert(final(buf)@ =~= old(buf)@ + Seq::<u8>::empty());
            return;
        }
        let mut us: Vec<u64> = Vec::with_capacity(vs.len());
        let mut i: usize = 0;
        while i < vs.len()
            invariant
                i <= vs@.len(),
                us@ =~= vs@.take(i as int).map_values(|x: bool| if x { 1u64 } else { 0u64 }),
            decreases vs@.len() - i,
        {
            us.push(if vs[i] { 1u64 } else { 0u64 });
            i += 1;
        }
        assert(vs@.take(vs@.len() as int) =~= vs@);
        let mut payload: Vec<u8> = Vec::new();
        put_packed_varints(&mut payload, &us);
        put_len_field(buf, num, payload.as_slice());
        proof {
            lemma_fields_bytes_one((num as nat, Payload::Len(payload@)));
        }
    }

    fn read_values(vs: &mut Vec<bool>, b: &[u8], v: FieldValue) -> (ok: bool) {
        assert(old(vs).deep_view() =~= old(vs)@);
        match v {
            FieldValue::Len(s, e) => match read_packed_varints(b, s, e) {
                Some(us) => {
                    let mut i: usize = 0;
                    while i < us.len()
                        invariant
                            i <= us@.len(),
                            vs@ =~= old(vs)@ + us@.take(i as int).map_values(|u: u64| u != 0),
                        decreases us@.len() - i,
                    {
                        vs.push(us[i] != 0);
                        i += 1;
                    }
                    assert(us@.take(us@.len() as int) =~= us@);
                    assert(vs.deep_view() =~= vs@);
                    true
                },
                None => false,
            },
            _ => false,
        }
    }
}

impl WireValue for F64Bits {
    /// Packed little-endian words of the bit patterns.
    open spec fn value_fields(num: nat, vs: Seq<u64>) -> Seq<Field> {
        if vs.len() == 0 {
            seq![]
        } else {
            seq![(num, Payload::Len(packed_fixed64(vs)))]
        }
    }

    open spec fn apply_values(vs: Seq<u64>, p: Payload) -> Option<Seq<u64>> {
        match p {
            Payload::Len(s) => match parse_packed_fixed64(s) {
                Some(us) => Some(vs + us),
                None => None,
            },
            _ => None,
        }
    }

    proof fn lemma_values_round_trip(num: nat, pre: Seq<u64>, vs: Seq<u64>) {
        let ap = |s: Seq<u64>, f: Field| Self::apply_values(s, f.1);
        if vs.len() == 0 {
            assert(pre + vs =~= pre);
        } else {
            lemma_packed_fixed64(vs);
            lemma_fold_one(pre, (num, Payload::Len(packed_fixed64(vs))), ap);
        }
    }

    fn put_values(buf: &mut Vec<u8>, num: u64, vs: &Vec<F64Bits>) {
        if vs.len() == 0 {
            assert(fields_bytes(Self::value_fields(num as nat, vs.deep_view())) =~= Seq::<u8>::empty());
            assert(final(buf)@ =~= old(buf)@ + Seq::<u8>::empty());
            return;
        }
        let mut us: Vec<u64> = Vec::with_capacity(vs.len());
        let mut i: usize = 0;
        while i < vs.len()
            invariant
                i <= vs@.len(),
                us@ =~= vs.deep_view().take(i as int),
            decreases vs@.len() - i,
        {
            us.push(vs[i].0);
            i += 1;
        }
        assert(vs.deep_view().take(vs@.len() as int) =~= vs.deep_view());
        let mut payload: Vec<u8> = Vec::new();
        put_packed_fixed64(&mut payload, &us);
        put_len_field(buf, num, payload.as_slice());
        proof {
            lemma_fields_bytes_one((num as nat, Payload::Len(payload@)));
        }
    }

    fn read_values(vs: &mut Vec<F64Bits>, b: &[u8], v: FieldValue) -> (ok: bool) {
        match v {
            FieldValue::Len(s, e) => match read_packed_fixed64(b, s, e) {
                Some(us) => {
                    let mut i: usize = 0;
                    while i < us.len()
                        invariant
                            i <= us@.len(),
                            vs.deep_view() =~= old(vs).deep_view() + us@.take(i as int),
                        decreases us@.len() - i,
                    {
                        let ghost pre = vs.deep_view();
                        vs.push(F64Bits(us[i]));
                        assert(vs.deep_view() =~= pre.push(us@[i as int]));
                        assert(us@.take(i + 1) =~= us@.take(i as int).push(us@[i as int]));
                        i += 1;
                    }
                    assert(us@.take(us@.len() as int) =~= us@);
                    true
                },
                None => false,
            },
            _ => false,
        }
    }
}

/// One length-delimited field per payload of `ps`, all numbered `num`.
pub open spec fn len_fields(num: nat, ps: Seq<Seq<u8>>) -> Seq<Field> {
    Seq::new(ps.len(), |i: int| (num, Payload::Len(ps[i])))
}

pub proof fn lemma_len_fields_push(num: nat, ps: Seq<Seq<u8>>, p: Seq<u8>)
    ensures
        fields_bytes(len_fields(num, ps.push(p))) == fields_bytes(len_fields(num, ps)) + field_bytes(
            (num, Payload::Len(p)),
        ),
{
    assert(len_fields(num, ps.push(p)) =~= len_fields(num, ps) + seq![(num, Payload::Len(p))]);
    lemma_fields_bytes_concat(len_fields(num, ps), seq![(num, Payload::Len(p))]);
    lemma_fields_bytes_one((num, Payload::Len(p)));
}

impl WireValue for String {
    /// One UTF-8 field per string.
    open spec fn value_fields(num: nat, vs: Seq<Seq<char>>) -> Seq<Field> {
        len_fields(num, vs.map_values(|s: Seq<char>| encode_utf8(s)))
    }

    open spec fn apply_values(vs: Seq<Seq<char>>, p: Payload) -> Option<Seq<Seq<char>>> {
        match utf8_payload(p) {
            Some(s) => Some(vs.push(s)),
            None => None,
        }
    }

    proof fn lemma_values_round_trip(num: nat, pre: Seq<Seq<char>>, vs: Seq<Seq<char>>)
        decreases vs.len(),
    {
        let ap = |s: Seq<Seq<char>>, f: Field| Self::apply_values(s, f.1);
        let fs = Self::value_fields(num, vs);
        if vs.len() == 0 {
            assert(pre + vs =~= pre);
            assert(fs.len() == 0);
        } else {
            encode_utf8_valid_utf8(vs[0]);
            encode_utf8_decode_utf8(vs[0]);
            assert(fs.drop_first() =~= Self::value_fields(num, vs.drop_first()));
            Self::lemma_values_round_trip(num, pre.push(vs[0]), vs.drop_first());
            assert(pre.push(vs[0]) + vs.drop_first() =~= pre + vs);
        }
    }

    fn put_values(buf: &mut Vec<u8>, num: u64, vs: &Vec<String>) {
        let mut i: usize = 0;
        let ghost dv = vs.deep_view();
        while i < vs.len()
            invariant
                i <= vs@.len(),
                dv == vs.deep_view(),
                1 <= num < 0x2000_0000,
                buf@ == old(buf)@ + fields_bytes(Self::value_fields(num as nat, dv.take(i as int))),
            decreases vs@.len() - i,
        {
            let ghost pre = buf@;
            put_len_field(buf, num, vs[i].as_str().as_bytes());
            proof {
                assert(dv.take(i + 1) =~= dv.take(i as int).push(vs@[i as int]@));
                assert(dv.take(i + 1).map_values(|s: Seq<char>| encode_utf8(s)) =~= dv.take(i as int).map_values(
                    |s: Seq<char>| encode_utf8(s),
                ).push(encode_utf8(vs@[i as int]@)));
                lemma_len_fields_push(
                    num as nat,
                    dv.take(i as int).map_values(|s: Seq<char>| encode_utf8(s)),
                    encode_utf8(vs@[i as int]@),
                );
            }
            i += 1;
        }
        assert(dv.take(vs@.len() as int) =~= dv);
    }

    fn read_values(vs: &mut Vec<String>, b: &[u8], v: FieldValue) -> (ok: bool) {
        match read_string(b, v) {
            Some(s) => {
                vs.push(s);
                assert(vs.deep_view() =~= old(vs).deep_view().push(s@));
                true
            },
            None => false,
        }
    }
}

impl WireValue for Vec<u8> {
    /// One field per byte string.
    open spec fn value_fields(num: nat, vs: Seq<Seq<u8>>) -> Seq<Field> {
        len_fields(num, vs)
    }

    open spec fn apply_values(vs: Seq<Seq<u8>>, p: Payload) -> Option<Seq<Seq<u8>>> {
        match bytes_payload(p) {
            Some(s) => Some(vs.push(s)),
            None => None,
        }
    }

    proof fn lemma_values_round_trip(num: nat, pre: Seq<Seq<u8>>, vs: Seq<Seq<u8>>)
        decreases vs.len(),
    {
        let fs = Self::value_fields(num, vs);
        if vs.len() == 0 {
            assert(pre + vs =~= pre);
        } else {
            assert(fs.drop_first() =~= Self::value_fields(num, vs.drop_first()));
            Self::lemma_values_round_trip(num, pre.push(vs[0]), vs.drop_first());
            assert(pre.push(vs[0]) + vs.drop_first() =~= pre + vs);
        }
    }

    fn put_values(buf: &mut Vec<u8>, num: u64, vs: &Vec<Vec<u8>>) {
        let mut i: usize = 0;
        let ghost dv = vs.deep_view();
        while i < vs.len()
            invariant
                i <= vs@.len(),
                dv == vs.deep_view(),
                1 <= num < 0x2000_0000,
                buf@ == old(buf)@ + fields_bytes(Self::value_fields(num as nat, dv.take(i as int))),
            decreases vs@.len() - i,
        {
            put_len_field(buf, num, vs[i].as_slice());
            proof {
                assert(vs@[i as int].deep_view() =~= vs@[i as int]@);
                assert(dv.take(i + 1) =~= dv.take(i as int).push(vs@[i as int]@));
                lemma_len_fields_push(num as nat, dv.take(i as int), vs@[i as int]@);
            }
            i += 1;
        }
        assert(dv.take(vs@.len() as int) =~= dv);
    }

    fn read_values(vs: &mut Vec<Vec<u8>>, b: &[u8], v: FieldValue) -> (ok: bool) {
        match read_bytes(b, v) {
            Some(s) => {
                let ghost sv = s@;
                assert(s.deep_view() =~= sv);
                vs.push(s);
                assert(vs.deep_view() =~= old(vs).deep_view().push(sv));
                true
            },
            None => false,
        }
    }
}

} // verus!
