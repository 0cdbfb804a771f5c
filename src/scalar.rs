//! Scalar fields of a message, left out when they hold the default value.
use crate::wire::{field_bytes, fields_bytes, lemma_fields_bytes_one, put_len_field, put_varint_field, Field, Payload};
use vstd::prelude::*;
use vstd::utf8::encode_utf8;

verus! {

/// A string field, absent when empty.
pub open spec fn str_field(num: nat, s: Seq<char>) -> Seq<Field> {
    if s.len() == 0 {
        seq![]
    } else {
        seq![(num, Payload::Len(encode_utf8(s)))]
    }
}

/// A bytes field, absent when empty.
pub open spec fn bytes_field(num: nat, s: Seq<u8>) -> Seq<Field> {
    if s.len() == 0 {
        seq![]
    } else {
        seq![(num, Payload::Len(s))]
    }
}

/// A varint field, absent when 0.
pub open spec fn varint_field(num: nat, v: u64) -> Seq<Field> {
    if v == 0 {
        seq![]
    } else {
        seq![(num, Payload::Varint(v))]
    }
}

/// A 32-bit signed field (an enum), sign-extended to 64 bits.
pub open spec fn i32_field(num: nat, v: i32) -> Seq<Field> {
    varint_field(num, (v as i64) as u64)
}

pub open spec fn bool_field(num: nat, v: bool) -> Seq<Field> {
    varint_field(num, if v { 1 } else { 0 })
}

/// A message field: absent for `None`, else the message's bytes.
pub open spec fn message_field(num: nat, m: Option<Seq<u8>>) -> Seq<Field> {
    match m {
        Some(b) => seq![(num, Payload::Len(b))],
        None => seq![],
    }
}

pub proof fn lemma_i32_round_trip(v: i32)
    ensures
        (((v as i64) as u64) as i32) == v,
        ((v as i64) as u64 == 0) == (v == 0),
{
    assert((((v as i64) as u64) as i32) == v) by (bit_vector);
    assert(((v as i64) as u64 == 0) == (v == 0)) by (bit_vector);
}

pub proof fn lemma_i64_round_trip(v: i64)
    ensures
        ((v as u64) as i64) == v,
{
    assert(((v as u64) as i64) == v) by (bit_vector);
}

/// Appends a string field, unless the string is empty.
pub fn put_str_field(buf: &mut Vec<u8>, num: u64, s: &String)
    requires
        1 <= num < 0x2000_0000,
    ensures
        final(buf)@ == old(buf)@ + fields_bytes(str_field(num as nat, s@)),
{
    let t = s.as_str();
    if t.is_empty() {
        assert(fields_bytes(str_field(num as nat, s@)) =~= Seq::<u8>::empty());
        assert(final(buf)@ =~= old(buf)@ + Seq::<u8>::empty());
    } else {
        put_len_field(buf, num, t.as_bytes());
        proof {
            lemma_fields_bytes_one((num as nat, Payload::Len(encode_utf8(s@))));
        }
    }
}

/// Appends a bytes field, unless the bytes are empty.
pub fn put_bytes_field(buf: &mut Vec<u8>, num: u64, s: &[u8])
    requires
        1 <= num < 0x2000_0000,
    ensures
        final(buf)@ == old(buf)@ + fields_bytes(bytes_field(num as nat, s@)),
{
    if s.len() == 0 {
        assert(fields_bytes(bytes_field(num as nat, s@)) =~= Seq::<u8>::empty());
        assert(final(buf)@ =~= old(buf)@ + Seq::<u8>::empty());
    } else {
        put_len_field(buf, num, s);
        proof {
            lemma_fields_bytes_one((num as nat, Payload::Len(s@)));
        }
    }
}

/// Appends a varint field, unless the value is 0.
pub fn put_opt_varint_field(buf: &mut Vec<u8>, num: u64, v: u64)
    requires
        1 <= num < 0x2000_0000,
    ensures
        final(buf)@ == old(buf)@ + fields_bytes(varint_field(num as nat, v)),
{
    if v == 0 {
        assert(fields_bytes(varint_field(num as nat, v)) =~= Seq::<u8>::empty());
        assert(final(buf)@ =~= old(buf)@ + Seq::<u8>::empty());
    } else {
        put_varint_field(buf, num, v);
        proof {
            lemma_fields_bytes_one((num as nat, Payload::Varint(v)));
        }
    }
}

pub fn put_i32_field(buf: &mut Vec<u8>, num: u64, v: i32)
    requires
        1 <= num < 0x2000_0000,
    ensures
        final(buf)@ == old(buf)@ + fields_bytes(i32_field(num as nat, v)),
{
    put_opt_varint_field(buf, num, (v as i64) as u64);
}

pub fn put_bool_field(buf: &mut Vec<u8>, num: u64, v: bool)
    requires
        1 <= num < 0x2000_0000,
    ensures
        final(buf)@ == old(buf)@ + fields_bytes(bool_field(num as nat, v)),
{
    put_opt_varint_field(buf, num, if v { 1 } else { 0 });
}

/// Appends a message field holding the bytes `m`.
pub fn put_message_field(buf: &mut Vec<u8>, num: u64, m: &[u8])
    requires
        1 <= num < 0x2000_0000,
    ensures
        final(buf)@ == old(buf)@ + fields_bytes(message_field(num as nat, Some(m@))),
{
    put_len_field(buf, num, m);
    proof {
        lemma_fields_bytes_one((num as nat, Payload::Len(m@)));
    }
}

} // verus!
