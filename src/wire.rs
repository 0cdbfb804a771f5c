//! Tag/value fields: a message is a sequence of fields, each a key
//! (field number and wire type) followed by its payload.
use crate::varint::{
    lemma_le64, lemma_parse_varint, lemma_parse_varint_len, lemma_varint_len_u64, le64_bytes, le64_value, parse_varint,
    put_fixed64, put_varint, read_fixed64, read_varint, varint_bytes,
};
use vstd::prelude::*;

verus! {

/// The payload of one field, by wire type.
pub ghost enum Payload {
    /// Wire type 0.
    Varint(u64),
    /// Wire type 1.
    Fixed64(u64),
    /// Wire type 2: length-delimited bytes.
    Len(Seq<u8>),
    /// Wire type 5, whose four bytes no message of this library reads.
    Fixed32,
}

/// One field: its number and its payload.
pub type Field = (nat, Payload);

pub open spec fn wire_type(p: Payload) -> nat {
    match p {
        Payload::Varint(_) => 0,
        Payload::Fixed64(_) => 1,
        Payload::Len(_) => 2,
        Payload::Fixed32 => 5,
    }
}

pub open spec fn key_bytes(num: nat, wt: nat) -> Seq<u8> {
    varint_bytes(num * 8 + wt)
}

/// The bytes of one field.
pub open spec fn field_bytes(f: Field) -> Seq<u8> {
    key_bytes(f.0, wire_type(f.1)) + match f.1 {
        Payload::Varint(v) => varint_bytes(v as nat),
        Payload::Fixed64(v) => le64_bytes(v),
        Payload::Len(s) => varint_bytes(s.len()) + s,
        Payload::Fixed32 => seq![0u8, 0u8, 0u8, 0u8],
    }
}

/// The bytes of a sequence of fields, one after the other.
pub open spec fn fields_bytes(fs: Seq<Field>) -> Seq<u8>
    decreases fs.len(),
{
    if fs.len() == 0 {
        seq![]
    } else {
        field_bytes(fs[0]) + fields_bytes(fs.drop_first())
    }
}

/// A field that the encoders of this library write: a number that fits a
/// key, and no four-byte payload.
pub open spec fn field_ok(f: Field) -> bool {
    1 <= f.0 < 0x2000_0000 && !(f.1 is Fixed32)
}

/// Reads one field from the front of `b`: its number, payload and length
/// in bytes. Keys over 32 bits, field number 0, wire types 3, 4, 6 and 7,
/// and truncated payloads are refused.
pub open spec fn parse_field(b: Seq<u8>) -> Option<(Field, nat)> {
    match parse_varint(b) {
        None => None,
        Some((key, n)) => {
            let rest = b.skip(n as int);
            let num = (key / 8) as nat;
            let wt = key % 8;
            if key > u32::MAX || num == 0 {
                None
            } else if wt == 0 {
                match parse_varint(rest) {
                    Some((v, m)) => Some(((num, Payload::Varint(v)), n + m)),
                    None => None,
                }
            } else if wt == 1 {
                if rest.len() >= 8 {
                    Some(((num, Payload::Fixed64(le64_value(rest))), n + 8))
                } else {
                    None
                }
            } else if wt == 2 {
                match parse_varint(rest) {
                    Some((l, m)) => if m + l <= rest.len() {
                        Some(((num, Payload::Len(rest.subrange(m as int, m + l))), (n + m + l) as nat))
                    } else {
                        None
                    },
                    None => None,
                }
            } else if wt == 5 {
                if rest.len() >= 4 {
                    Some(((num, Payload::Fixed32), n + 4))
                } else {
                    None
                }
            } else {
                None
            }
        },
    }
}

/// Reads `b` as a sequence of fields, to its end.
pub open spec fn parse_fields(b: Seq<u8>) -> Option<Seq<Field>>
    decreases b.len(),
{
    if b.len() == 0 {
        Some(seq![])
    } else {
        match parse_field(b) {
            Some((f, n)) => if 0 < n <= b.len() {
                match parse_fields(b.skip(n as int)) {
                    Some(r) => Some(seq![f] + r),
                    None => None,
                }
            } else {
                None
            },
            None => None,
        }
    }
}

#[verifier::rlimit(40)]
proof fn lemma_parse_field(f: Field, rest: Seq<u8>)
    requires
        field_ok(f),
        field_bytes(f).len() <= u64::MAX,
    ensures
        parse_field(field_bytes(f) + rest) == Some((f, field_bytes(f).len())),
{
    let wt = wire_type(f.1);
    let key = (f.0 * 8 + wt) as u64;
    let kb = key_bytes(f.0, wt);
    let b = field_bytes(f) + rest;
    let body = field_bytes(f).skip(kb.len() as int);
    assert(field_bytes(f) =~= kb + body);
    assert(b =~= kb + (body + rest));
    lemma_parse_varint(key, body + rest);
    assert(b.skip(kb.len() as int) =~= body + rest);
    assert((key / 8) as nat == f.0 && key % 8 == wt);
    match f.1 {
        Payload::Varint(v) => {
            assert(body =~= varint_bytes(v as nat));
            lemma_parse_varint(v, rest);
        },
        Payload::Fixed64(v) => {
            lemma_le64(v, rest);
        },
        Payload::Len(s) => {
            let l = s.len() as u64;
            lemma_parse_varint(l, s + rest);
            assert(body + rest =~= varint_bytes(l as nat) + (s + rest));
            let m = varint_bytes(l as nat).len();
            assert((body + rest).subrange(m as int, m + l) =~= s);
        },
        Payload::Fixed32 => {},
    }
}

/// Reading back the bytes of well-formed fields gives the same fields,
/// where those bytes number fewer than 2^64.
pub proof fn lemma_parse_fields(fs: Seq<Field>)
    requires
        forall|i: int| 0 <= i < fs.len() ==> field_ok(#[trigger] fs[i]),
        fields_bytes(fs).len() <= u64::MAX,
    ensures
        parse_fields(fields_bytes(fs)) == Some(fs),
    decreases fs.len(),
{
    if fs.len() > 0 {
        let b = fields_bytes(fs);
        let fb = field_bytes(fs[0]);
        assert(field_ok(fs[0]));
        assert forall|i: int| 0 <= i < fs.drop_first().len() implies field_ok(#[trigger] fs.drop_first()[i]) by {
            assert(field_ok(fs[i + 1]));
        }
        lemma_parse_field(fs[0], fields_bytes(fs.drop_first()));
        lemma_varint_len_u64((fs[0].0 * 8 + wire_type(fs[0].1)) as u64);
        assert(b.skip(fb.len() as int) =~= fields_bytes(fs.drop_first()));
        lemma_parse_fields(fs.drop_first());
        assert(seq![fs[0]] + fs.drop_first() =~= fs);
    }
}

/// The bytes of two runs of fields are the bytes of the first run followed
/// by those of the second.
pub proof fn lemma_fields_bytes_concat(a: Seq<Field>, b: Seq<Field>)
    ensures
        fields_bytes(a + b) == fields_bytes(a) + fields_bytes(b),
    decreases a.len(),
{
    if a.len() == 0 {
        assert(a + b =~= b);
    } else {
        assert((a + b).drop_first() =~= a.drop_first() + b);
        lemma_fields_bytes_concat(a.drop_first(), b);
    }
}

pub proof fn lemma_fields_bytes_one(f: Field)
    ensures
        fields_bytes(seq![f]) == field_bytes(f),
{
    assert(fields_bytes(seq![f].drop_first()) == Seq::<u8>::empty());
    assert(field_bytes(f) + Seq::<u8>::empty() =~= field_bytes(f));
}


/// Appends the key of field `num` with wire type `wt`.
fn put_key(buf: &mut Vec<u8>, num: u64, wt: u64)
    requires
        1 <= num < 0x2000_0000,
        wt < 8,
    ensures
        final(buf)@ == old(buf)@ + key_bytes(num as nat, wt as nat),
{
    put_varint(buf, num * 8 + wt);
}

/// Appends field `num` holding the varint `v`.
pub fn put_varint_field(buf: &mut Vec<u8>, num: u64, v: u64)
    requires
        1 <= num < 0x2000_0000,
    ensures
        final(buf)@ == old(buf)@ + field_bytes((num as nat, Payload::Varint(v))),
{
    put_key(buf, num, 0);
    put_varint(buf, v);
    assert(final(buf)@ =~= old(buf)@ + field_bytes((num as nat, Payload::Varint(v))));
}

/// Appends field `num` holding the fixed 64-bit `v`.
pub fn put_fixed64_field(buf: &mut Vec<u8>, num: u64, v: u64)
    requires
        1 <= num < 0x2000_0000,
    ensures
        final(buf)@ == old(buf)@ + field_bytes((num as nat, Payload::Fixed64(v))),
{
    put_key(buf, num, 1);
    put_fixed64(buf, v);
    assert(final(buf)@ =~= old(buf)@ + field_bytes((num as nat, Payload::Fixed64(v))));
}

/// Appends the bytes of `b`.
pub fn put_bytes(buf: &mut Vec<u8>, b: &[u8])
    ensures
        final(buf)@ == old(buf)@ + b@,
{
    let mut i: usize = 0;
    while i < b.len()
        invariant
            i <= b@.len(),
            buf@ == old(buf)@ + b@.take(i as int),
        decreases b@.len() - i,
    {
        buf.push(b[i]);
        i += 1;
        assert(buf@ =~= old(buf)@ + b@.take(i as int));
    }
    assert(b@.take(b@.len() as int) =~= b@);
}

/// Appends field `num` holding the bytes `b`, length first.
pub fn put_len_field(buf: &mut Vec<u8>, num: u64, b: &[u8])
    requires
        1 <= num < 0x2000_0000,
    ensures
        final(buf)@ == old(buf)@ + field_bytes((num as nat, Payload::Len(b@))),
{
    put_key(buf, num, 2);
    put_varint(buf, b.len() as u64);
    put_bytes(buf, b);
    assert(final(buf)@ =~= old(buf)@ + field_bytes((num as nat, Payload::Len(b@))));
}

/// A field's payload as read, length-delimited bytes given by their range
/// in the buffer.
#[derive(Clone, Copy)]
pub enum FieldValue {
    Varint(u64),
    Fixed64(u64),
    Len(usize, usize),
    Fixed32,
}

/// The payload that `v` stands for in `b`.
pub open spec fn payload_of(b: Seq<u8>, v: FieldValue) -> Payload {
    match v {
        FieldValue::Varint(x) => Payload::Varint(x),
        FieldValue::Fixed64(x) => Payload::Fixed64(x),
        FieldValue::Len(s, e) => Payload::Len(b.subrange(s as int, e as int)),
        FieldValue::Fixed32 => Payload::Fixed32,
    }
}

/// Reads the field of `b` at `pos`: its number, its payload, and where the
/// next field starts.
pub fn next_field(b: &[u8], pos: usize) -> (r: Option<(u64, FieldValue, usize)>)
    requires
        pos < b@.len(),
    ensures
        match parse_field(b@.skip(pos as int)) {
            Some((f, n)) => r matches Some((num, v, next)) && num == f.0 && payload_of(b@, v)
                == f.1 && next == pos + n && (v matches FieldValue::Len(s, e) ==> pos <= s <= e
                <= next),
            None => r is None,
        },
        r matches Some((num, v, next)) ==> pos < next <= b@.len() && (v matches FieldValue::Len(
            s,
            e,
        ) ==> s <= e <= b@.len()),
{
    let ghost rest0 = b@.skip(pos as int);
    proof {
        lemma_parse_varint_len(rest0);
    }
    let (key, left) = match read_varint(b, pos) {
        Some(x) => x,
        None => return None,
    };
    let after_key = b.len() - left;
    let num = key / 8;
    let wt = key % 8;
    if key > u32::MAX as u64 || num == 0 {
        return None;
    }
    proof {
        assert(rest0.skip((after_key - pos) as int) =~= b@.skip(after_key as int));
    }
    if wt == 0 {
        if after_key >= b.len() {
            assert(b@.skip(after_key as int).len() == 0);
            return None;
        }
        proof {
            lemma_parse_varint_len(b@.skip(after_key as int));
        }
        match read_varint(b, after_key) {
            Some((v, left2)) => Some((num, FieldValue::Varint(v), b.len() - left2)),
            None => None,
        }
    } else if wt == 1 {
        if b.len() - after_key < 8 {
            return None;
        }
        let v = read_fixed64(b, after_key);
        Some((num, FieldValue::Fixed64(v), after_key + 8))
    } else if wt == 2 {
        if after_key >= b.len() {
            assert(b@.skip(after_key as int).len() == 0);
            return None;
        }
        proof {
            lemma_parse_varint_len(b@.skip(after_key as int));
        }
        match read_varint(b, after_key) {
            Some((l, left2)) => {
                let after_len = b.len() - left2;
                if l > left2 as u64 {
                    return None;
                }
                let end = after_len + l as usize;
                proof {
                    let rest = b@.skip(after_key as int);
                    let m = (after_len - after_key) as int;
                    assert(rest.subrange(m, m + l) =~= b@.subrange(after_len as int, end as int));
                }
                Some((num, FieldValue::Len(after_len, end), end))
            },
            None => None,
        }
    } else if wt == 5 {
        if b.len() - after_key < 4 {
            return None;
        }
        Some((num, FieldValue::Fixed32, after_key + 4))
    } else {
        None
    }
}

/// Applies `apply` to `st` with each field of `fs` in turn, failing as
/// soon as one application fails.
pub open spec fn fold_fields<T>(st: T, fs: Seq<Field>, apply: spec_fn(T, Field) -> Option<T>) -> Option<T>
    decreases fs.len(),
{
    if fs.len() == 0 {
        Some(st)
    } else {
        match apply(st, fs[0]) {
            Some(s) => fold_fields(s, fs.drop_first(), apply),
            None => None,
        }
    }
}

pub proof fn lemma_fold_concat<T>(st: T, a: Seq<Field>, b: Seq<Field>, apply: spec_fn(T, Field) -> Option<T>)
    ensures
        fold_fields(st, a + b, apply) == match fold_fields(st, a, apply) {
            Some(s) => fold_fields(s, b, apply),
            None => None,
        },
    decreases a.len(),
{
    if a.len() == 0 {
        assert(a + b =~= b);
    } else {
        assert((a + b).drop_first() =~= a.drop_first() + b);
        match apply(st, a[0]) {
            Some(s) => lemma_fold_concat(s, a.drop_first(), b, apply),
            None => {},
        }
    }
}

pub proof fn lemma_fold_one<T>(st: T, f: Field, apply: spec_fn(T, Field) -> Option<T>)
    ensures
        fold_fields(st, seq![f], apply) == apply(st, f),
{
    assert(seq![f].drop_first() =~= Seq::<Field>::empty());
    match apply(st, f) {
        Some(s) => {
            assert(fold_fields(s, Seq::<Field>::empty(), apply) == Some(s));
        },
        None => {},
    }
}

/// Reading the fields of `b` from `pos` on: the field there, then the rest.
pub proof fn lemma_parse_fields_step(b: Seq<u8>, pos: int)
    requires
        0 <= pos < b.len(),
    ensures
        parse_fields(b.skip(pos)) == match parse_field(b.skip(pos)) {
            Some((f, n)) => if 0 < n <= b.len() - pos {
                match parse_fields(b.skip(pos + n)) {
                    Some(r) => Some(seq![f] + r),
                    None => None,
                }
            } else {
                None
            },
            None => None,
        },
{
    match parse_field(b.skip(pos)) {
        Some((f, n)) => {
            if 0 < n <= b.len() - pos {
                assert(b.skip(pos).skip(n as int) =~= b.skip(pos + n));
            }
        },
        None => {},
    }
}

/// Relies on std::str::from_utf8: the bytes are accepted exactly when they
/// are valid UTF-8, and the string then holds the characters they encode.
#[verifier::external_body]
pub(crate) fn utf8_str(b: &[u8]) -> (r: Option<&str>)
    ensures
        r is Some <==> vstd::utf8::valid_utf8(b@),
        r matches Some(s) ==> s@ == vstd::utf8::decode_utf8(b@),
{
    std::str::from_utf8(b).ok()
}

} // verus!
