//! Base-128 varints and little-endian fixed-width integers, the scalar
//! encodings of the tag/value wire format.
use vstd::prelude::*;

verus! {

/// The base-128 varint encoding of `v`: seven bits per byte, least
/// significant group first, the high bit set on every byte but the last.
pub open spec fn varint_bytes(v: nat) -> Seq<u8>
    decreases v,
{
    if v < 128 {
        seq![v as u8]
    } else {
        seq![((v % 128) + 128) as u8] + varint_bytes(v / 128)
    }
}

/// Reads a varint of at most `fuel` bytes from the front of `b`: its value
/// and the number of bytes it takes.
pub open spec fn varint_value(b: Seq<u8>, fuel: nat) -> Option<(int, nat)>
    decreases fuel,
{
    if fuel == 0 || b.len() == 0 {
        None
    } else if b[0] < 128 {
        Some((b[0] as int, 1nat))
    } else {
        match varint_value(b.drop_first(), (fuel - 1) as nat) {
            Some((v, n)) => Some(((b[0] - 128) + 128 * v, n + 1)),
            None => None,
        }
    }
}

/// A varint of at most ten bytes whose value fits in 64 bits, read from
/// the front of `b`.
pub open spec fn parse_varint(b: Seq<u8>) -> Option<(u64, nat)> {
    match varint_value(b, 10) {
        Some((v, n)) => if v <= u64::MAX {
            Some((v as u64, n))
        } else {
            None
        },
        None => None,
    }
}

pub open spec fn pow128(k: nat) -> nat
    decreases k,
{
    if k == 0 {
        1
    } else {
        128 * pow128((k - 1) as nat)
    }
}

proof fn lemma_varint_len(v: nat, k: nat)
    requires
        k >= 1,
        v < pow128(k),
    ensures
        varint_bytes(v).len() <= k,
        varint_bytes(v).len() >= 1,
    decreases k,
{
    if v >= 128 {
        let p = pow128((k - 1) as nat);
        if k == 1 {
            assert(pow128(0) == 1);
        }
        assert(v / 128 < p) by (nonlinear_arith)
            requires
                v < 128 * p,
        ;
        lemma_varint_len(v / 128, (k - 1) as nat);
    }
}

/// The encoding of a 64-bit value takes between one and ten bytes.
pub proof fn lemma_varint_len_u64(v: u64)
    ensures
        1 <= varint_bytes(v as nat).len() <= 10,
{
    reveal_with_fuel(pow128, 11);
    assert(pow128(1) == 128nat);
    assert(pow128(2) == 16384nat);
    assert(pow128(3) == 2097152nat);
    assert(pow128(4) == 268435456nat);
    assert(pow128(5) == 34359738368nat);
    assert(pow128(6) == 4398046511104nat);
    assert(pow128(7) == 562949953421312nat);
    assert(pow128(8) == 72057594037927936nat);
    assert(pow128(9) == 9223372036854775808nat);
    assert(pow128(10) == 1180591620717411303424nat);
    lemma_varint_len(v as nat, 10);
}

proof fn lemma_varint_value(v: nat, rest: Seq<u8>, fuel: nat)
    requires
        varint_bytes(v).len() <= fuel,
    ensures
        varint_value(varint_bytes(v) + rest, fuel) == Some((v as int, varint_bytes(v).len())),
    decreases v,
{
    let b = varint_bytes(v) + rest;
    if v >= 128 {
        let tail = varint_bytes(v / 128);
        assert(b.drop_first() =~= tail + rest);
        lemma_varint_value(v / 128, rest, (fuel - 1) as nat);
    }
}

/// Reading back the encoding of a 64-bit value gives the value and the
/// encoding's length, whatever follows it.
pub proof fn lemma_parse_varint(v: u64, rest: Seq<u8>)
    ensures
        parse_varint(varint_bytes(v as nat) + rest) == Some((v, varint_bytes(v as nat).len())),
{
    lemma_varint_len_u64(v);
    lemma_varint_value(v as nat, rest, 10);
}

proof fn lemma_varint_value_len(b: Seq<u8>, fuel: nat)
    ensures
        varint_value(b, fuel) matches Some((v, n)) ==> 1 <= n <= b.len() && n <= fuel,
    decreases fuel,
{
    if fuel > 0 && b.len() > 0 && b[0] >= 128 {
        lemma_varint_value_len(b.drop_first(), (fuel - 1) as nat);
    }
}

/// A varint read takes at least one byte and at most those there are.
pub proof fn lemma_parse_varint_len(b: Seq<u8>)
    ensures
        parse_varint(b) matches Some((v, n)) ==> 1 <= n <= b.len() && n <= 10,
{
    lemma_varint_value_len(b, 10);
}

/// Relies on prost::encoding::encode_varint: appends the base-128 varint
/// encoding of `v`.
#[verifier::external_body]
pub(crate) fn put_varint(buf: &mut Vec<u8>, v: u64)
    ensures
        final(buf)@ == old(buf)@ + varint_bytes(v as nat),
{
    prost::encoding::encode_varint(v, buf);
}

/// Relies on prost::encoding::decode_varint: reads one varint from `b` at
/// `pos`, failing on a truncated varint, on one of more than ten bytes and on
/// one whose value overflows 64 bits. Gives the value and the number of bytes
/// left after it.
#[verifier::external_body]
pub(crate) fn read_varint(b: &[u8], pos: usize) -> (r: Option<(u64, usize)>)
    requires
        pos <= b@.len(),
    ensures
        match parse_varint(b@.skip(pos as int)) {
            Some((v, n)) => r == Some((v, (b@.len() - pos - n) as usize)),
            None => r is None,
        },
{
    let mut rest = &b[pos..];
    match prost::encoding::decode_varint(&mut rest) {
        Ok(v) => Some((v, rest.len())),
        Err(_) => None,
    }
}

/// The eight little-endian bytes of `v`.
pub open spec fn le64_bytes(v: u64) -> Seq<u8> {
    seq![
        v as u8,
        (v >> 8u64) as u8,
        (v >> 16u64) as u8,
        (v >> 24u64) as u8,
        (v >> 32u64) as u8,
        (v >> 40u64) as u8,
        (v >> 48u64) as u8,
        (v >> 56u64) as u8,
    ]
}

/// The 64-bit value whose little-endian bytes are the first eight of `b`.
pub open spec fn le64_value(b: Seq<u8>) -> u64
    recommends
        b.len() >= 8,
{
    (b[0] as u64) | ((b[1] as u64) << 8u64) | ((b[2] as u64) << 16u64) | ((b[3] as u64) << 24u64)
        | ((b[4] as u64) << 32u64) | ((b[5] as u64) << 40u64) | ((b[6] as u64) << 48u64) | ((
    b[7] as u64) << 56u64)
}

/// Reading back the little-endian bytes of `v` gives `v`.
pub proof fn lemma_le64(v: u64, rest: Seq<u8>)
    ensures
        le64_value(le64_bytes(v) + rest) == v,
{
    let b = le64_bytes(v) + rest;
    let (b0, b1, b2, b3, b4, b5, b6, b7) = (b[0], b[1], b[2], b[3], b[4], b[5], b[6], b[7]);
    assert(b0 == v as u8 && b1 == (v >> 8u64) as u8 && b2 == (v >> 16u64) as u8 && b3 == (v
        >> 24u64) as u8 && b4 == (v >> 32u64) as u8 && b5 == (v >> 40u64) as u8 && b6 == (v
        >> 48u64) as u8 && b7 == (v >> 56u64) as u8);
    assert((b0 as u64) | ((b1 as u64) << 8u64) | ((b2 as u64) << 16u64) | ((b3 as u64) << 24u64)
        | ((b4 as u64) << 32u64) | ((b5 as u64) << 40u64) | ((b6 as u64) << 48u64) | ((
    b7 as u64) << 56u64) == v) by (bit_vector)
        requires
            b0 == v as u8,
            b1 == (v >> 8u64) as u8,
            b2 == (v >> 16u64) as u8,
            b3 == (v >> 24u64) as u8,
            b4 == (v >> 32u64) as u8,
            b5 == (v >> 40u64) as u8,
            b6 == (v >> 48u64) as u8,
            b7 == (v >> 56u64) as u8,
    ;
}

/// Appends the little-endian bytes of `v`.
pub fn put_fixed64(buf: &mut Vec<u8>, v: u64)
    ensures
        final(buf)@ == old(buf)@ + le64_bytes(v),
{
    let ghost start = buf@;
    buf.push(v as u8);
    buf.push((v >> 8u64) as u8);
    buf.push((v >> 16u64) as u8);
    buf.push((v >> 24u64) as u8);
    buf.push((v >> 32u64) as u8);
    buf.push((v >> 40u64) as u8);
    buf.push((v >> 48u64) as u8);
    buf.push((v >> 56u64) as u8);
    assert(buf@ =~= start + le64_bytes(v));
}

/// Reads eight little-endian bytes of `b` at `pos`.
pub fn read_fixed64(b: &[u8], pos: usize) -> (r: u64)
    requires
        pos + 8 <= b@.len(),
    ensures
        r == le64_value(b@.skip(pos as int)),
{
    let ghost s = b@.skip(pos as int);
    assert(s[0] == b@[pos as int] && s[7] == b@[pos + 7]);
    (b[pos] as u64) | ((b[pos + 1] as u64) << 8u64) | ((b[pos + 2] as u64) << 16u64) | ((b[pos
        + 3] as u64) << 24u64) | ((b[pos + 4] as u64) << 32u64) | ((b[pos + 5] as u64) << 40u64)
        | ((b[pos + 6] as u64) << 48u64) | ((b[pos + 7] as u64) << 56u64)
}

} // verus!
