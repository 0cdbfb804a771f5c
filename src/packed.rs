//! Packed repeated scalars: one length-delimited payload holding the
//! varints, or the fixed 64-bit words, one after the other.
use crate::varint::{
    le64_bytes, le64_value, lemma_le64, lemma_parse_varint, lemma_parse_varint_len, parse_varint,
    put_fixed64, put_varint, read_fixed64, read_varint, varint_bytes,
};
use vstd::prelude::*;
use vstd::slice::slice_subrange;

verus! {

/// The varints of `us`, one after the other.
pub open spec fn packed_varints(us: Seq<u64>) -> Seq<u8>
    decreases us.len(),
{
    if us.len() == 0 {
        seq![]
    } else {
        varint_bytes(us[0] as nat) + packed_varints(us.drop_first())
    }
}

/// Reads `s` as varints, to its end.
pub open spec fn parse_packed_varints(s: Seq<u8>) -> Option<Seq<u64>>
    decreases s.len(),
{
    if s.len() == 0 {
        Some(seq![])
    } else {
        match parse_varint(s) {
            Some((v, n)) => if 0 < n <= s.len() {
                match parse_packed_varints(s.skip(n as int)) {
                    Some(r) => Some(seq![v] + r),
                    None => None,
                }
            } else {
                None
            },
            None => None,
        }
    }
}

pub proof fn lemma_packed_varints(us: Seq<u64>)
    ensures
        parse_packed_varints(packed_varints(us)) == Some(us),
    decreases us.len(),
{
    if us.len() > 0 {
        let b = packed_varints(us);
        let rest = packed_varints(us.drop_first());
        lemma_parse_varint(us[0], rest);
        assert(b.skip(varint_bytes(us[0] as nat).len() as int) =~= rest);
        lemma_packed_varints(us.drop_first());
        assert(seq![us[0]] + us.drop_first() =~= us);
    }
}

/// The little-endian words of `us`, one after the other.
pub open spec fn packed_fixed64(us: Seq<u64>) -> Seq<u8>
    decreases us.len(),
{
    if us.len() == 0 {
        seq![]
    } else {
        le64_bytes(us[0]) + packed_fixed64(us.drop_first())
    }
}

/// Reads `s` as little-endian words; its length must be a multiple of 8.
pub open spec fn parse_packed_fixed64(s: Seq<u8>) -> Option<Seq<u64>>
    decreases s.len(),
{
    if s.len() == 0 {
        Some(seq![])
    } else if s.len() < 8 {
        None
    } else {
        match parse_packed_fixed64(s.skip(8)) {
            Some(r) => Some(seq![le64_value(s)] + r),
            None => None,
        }
    }
}

pub proof fn lemma_packed_fixed64(us: Seq<u64>)
    ensures
        parse_packed_fixed64(packed_fixed64(us)) == Some(us),
    decreases us.len(),
{
    if us.len() > 0 {
        let b = packed_fixed64(us);
        let rest = packed_fixed64(us.drop_first());
        lemma_le64(us[0], rest);
        assert(b.skip(8) =~= rest);
        lemma_packed_fixed64(us.drop_first());
        assert(seq![us[0]] + us.drop_first() =~= us);
    }
}

/// Appends the varints of `us`.
pub fn put_packed_varints(buf: &mut Vec<u8>, us: &Vec<u64>)
    ensures
        final(buf)@ == old(buf)@ + packed_varints(us@),
{
    let mut i: usize = 0;
    assert(us@.skip(0) =~= us@);
    while i < us.len()
        invariant
            i <= us@.len(),
            buf@ + packed_varints(us@.skip(i as int)) == old(buf)@ + packed_varints(us@),
        decreases us@.len() - i,
    {
        proof {
            assert(us@.skip(i as int).drop_first() =~= us@.skip(i + 1));
        }
        put_varint(buf, us[i]);
        i += 1;
    }
}

/// Appends the little-endian words of `us`.
pub fn put_packed_fixed64(buf: &mut Vec<u8>, us: &Vec<u64>)
    ensures
        final(buf)@ == old(buf)@ + packed_fixed64(us@),
{
    let mut i: usize = 0;
    assert(us@.skip(0) =~= us@);
    while i < us.len()
        invariant
            i <= us@.len(),
            buf@ + packed_fixed64(us@.skip(i as int)) == old(buf)@ + packed_fixed64(us@),
        decreases us@.len() - i,
    {
        proof {
            assert(us@.skip(i as int).drop_first() =~= us@.skip(i + 1));
        }
        put_fixed64(buf, us[i]);
        i += 1;
    }
}

/// Reads the bytes of `b` from `s` to `e` as varints.
pub fn read_packed_varints(b: &[u8], s: usize, e: usize) -> (r: Option<Vec<u64>>)
    requires
        s <= e <= b@.len(),
    ensures
        match parse_packed_varints(b@.subrange(s as int, e as int)) {
            Some(us) => r matches Some(v) && v@ == us,
            None => r is None,
        },
{
    let sub = slice_subrange(b, s, e);
    let mut out: Vec<u64> = Vec::new();
    let mut pos: usize = 0;
    proof {
        assert(sub@.skip(0) =~= sub@);
        match parse_packed_varints(sub@) {
            Some(r) => assert(out@ + r =~= r),
            None => {},
        }
    }
    while pos < sub.len()
        invariant
            pos <= sub@.len(),
            sub@ == b@.subrange(s as int, e as int),
            parse_packed_varints(sub@) == match parse_packed_varints(sub@.skip(pos as int)) {
                Some(r) => Some(out@ + r),
                None => None,
            },
        decreases sub@.len() - pos,
    {
        let ghost rest = sub@.skip(pos as int);
        proof {
            lemma_parse_varint_len(rest);
        }
        match read_varint(sub, pos) {
            Some((v, left)) => {
                let next = sub.len() - left;
                proof {
                    assert(rest.skip((next - pos) as int) =~= sub@.skip(next as int));
                    match parse_packed_varints(sub@.skip(next as int)) {
                        Some(r) => assert(out@.push(v) + r =~= out@ + (seq![v] + r)),
                        None => {},
                    }
                }
                out.push(v);
                pos = next;
            },
            None => return None,
        }
    }
    assert(sub@.skip(pos as int) =~= Seq::<u8>::empty());
    assert(out@ + Seq::<u64>::empty() =~= out@);
    Some(out)
}

/// Reads the bytes of `b` from `s` to `e` as little-endian words.
pub fn read_packed_fixed64(b: &[u8], s: usize, e: usize) -> (r: Option<Vec<u64>>)
    requires
        s <= e <= b@.len(),
    ensures
        match parse_packed_fixed64(b@.subrange(s as int, e as int)) {
            Some(us) => r matches Some(v) && v@ == us,
            None => r is None,
        },
{
    let sub = slice_subrange(b, s, e);
    let mut out: Vec<u64> = Vec::new();
    let mut pos: usize = 0;
    proof {
        assert(sub@.skip(0) =~= sub@);
        match parse_packed_fixed64(sub@) {
            Some(r) => assert(out@ + r =~= r),
            None => {},
        }
    }
    while pos < sub.len()
        invariant
            pos <= sub@.len(),
            sub@ == b@.subrange(s as int, e as int),
            parse_packed_fixed64(sub@) == match parse_packed_fixed64(sub@.skip(pos as int)) {
                Some(r) => Some(out@ + r),
                None => None,
            },
        decreases sub@.len() - pos,
    {
        let ghost rest = sub@.skip(pos as int);
        if sub.len() - pos < 8 {
            return None;
        }
        let v = read_fixed64(sub, pos);
        proof {
            assert(rest.skip(8) =~= sub@.skip(pos + 8));
            match parse_packed_fixed64(sub@.skip(pos + 8)) {
                Some(r) => assert(out@.push(v) + r =~= out@ + (seq![v] + r)),
                None => {},
            }
        }
        out.push(v);
        pos = pos + 8;
    }
    assert(sub@.skip(pos as int) =~= Seq::<u8>::empty());
    assert(out@ + Seq::<u64>::empty() =~= out@);
    Some(out)
}

} // verus!
