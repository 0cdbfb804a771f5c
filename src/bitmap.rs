//! Packed validity bitmaps: bit `i` (bit `i % 8` of byte `i / 8`) is set iff
//! slot `i` of a column holds a present value.
use vstd::prelude::*;

verus! {

/// Whether bit `k` (0 is the least significant) of `byte` is set.
pub open spec fn bit_of(byte: u8, k: int) -> bool {
    (byte >> (k as u8)) & 1u8 == 1u8
}

/// Whether slot `i` is marked present in the bitmap `bm`.
pub open spec fn is_set(bm: Seq<u8>, i: int) -> bool {
    0 <= i < bm.len() * 8 && bit_of(bm[i / 8], i % 8)
}

/// Number of bytes that a bitmap over `n` slots takes.
pub open spec fn bitmap_len(n: nat) -> nat {
    (n + 7) / 8
}

/// Every byte of the bitmap is zero.
pub open spec fn all_clear(bm: Seq<u8>) -> bool {
    forall|j: int| 0 <= j < bm.len() ==> #[trigger] bm[j] == 0u8
}

proof fn lemma_or_bit(x: u8, k: u8, j: u8)
    requires
        k < 8,
        j < 8,
    ensures
        ((x | (1u8 << k)) >> j) & 1u8 == 1u8 <==> (j == k || (x >> j) & 1u8 == 1u8),
{
    assert(((x | (1u8 << k)) >> j) & 1u8 == 1u8 <==> (j == k || (x >> j) & 1u8 == 1u8))
        by (bit_vector)
        requires
            k < 8,
            j < 8,
    ;
}

proof fn lemma_and_not_bit(x: u8, k: u8, j: u8)
    requires
        k < 8,
        j < 8,
    ensures
        ((x & !(1u8 << k)) >> j) & 1u8 == 1u8 <==> (j != k && (x >> j) & 1u8 == 1u8),
{
    assert(((x & !(1u8 << k)) >> j) & 1u8 == 1u8 <==> (j != k && (x >> j) & 1u8 == 1u8))
        by (bit_vector)
        requires
            k < 8,
            j < 8,
    ;
}

/// Marks slot `nth_bit` present.
pub fn set_nth_bit(validity_bitmap: &mut Vec<u8>, nth_bit: usize)
    requires
        nth_bit / 8 < old(validity_bitmap).len(),
    ensures
        final(validity_bitmap).len() == old(validity_bitmap).len(),
        forall|i: int|
            #[trigger] is_set(final(validity_bitmap)@, i) <==> (i == nth_bit || is_set(old(validity_bitmap)@, i)),
{
    let ghost before = validity_bitmap@;
    let idx = nth_bit / 8;
    let k = (nth_bit % 8) as u8;
    let byte = validity_bitmap[idx] | (1u8 << k);
    validity_bitmap.set(idx, byte);
    assert forall|i: int|
        #[trigger] is_set(validity_bitmap@, i) <==> (i == nth_bit || is_set(before, i)) by {
        if 0 <= i < before.len() * 8 && i / 8 == idx {
            lemma_or_bit(before[idx as int], k, (i % 8) as u8);
            assert(i == nth_bit <==> (i % 8) as u8 == k) by (nonlinear_arith)
                requires
                    i >= 0,
                    i / 8 == idx,
                    idx == nth_bit / 8,
                    k == nth_bit % 8,
            ;
        }
    }
}

/// Marks slot `nth_bit` absent.
pub fn clear_nth_bit(validity_bitmap: &mut Vec<u8>, nth_bit: usize)
    requires
        nth_bit / 8 < old(validity_bitmap).len(),
    ensures
        final(validity_bitmap).len() == old(validity_bitmap).len(),
        forall|i: int|
            #[trigger] is_set(final(validity_bitmap)@, i) <==> (i != nth_bit && is_set(old(validity_bitmap)@, i)),
{
    let ghost before = validity_bitmap@;
    let idx = nth_bit / 8;
    let k = (nth_bit % 8) as u8;
    let byte = validity_bitmap[idx] & !(1u8 << k);
    validity_bitmap.set(idx, byte);
    assert forall|i: int|
        #[trigger] is_set(validity_bitmap@, i) <==> (i != nth_bit && is_set(before, i)) by {
        if 0 <= i < before.len() * 8 && i / 8 == idx {
            lemma_and_not_bit(before[idx as int], k, (i % 8) as u8);
            assert(i == nth_bit <==> (i % 8) as u8 == k) by (nonlinear_arith)
                requires
                    i >= 0,
                    i / 8 == idx,
                    idx == nth_bit / 8,
                    k == nth_bit % 8,
            ;
        }
    }
}

/// Whether slot `nth_bit` is marked present.
pub fn is_valid_value(validity_bitmap: &Vec<u8>, nth_bit: usize) -> (r: bool)
    requires
        nth_bit / 8 < validity_bitmap.len(),
    ensures
        r == is_set(validity_bitmap@, nth_bit as int),
{
    let k = (nth_bit % 8) as u8;
    let byte = validity_bitmap[nth_bit / 8];
    assert((byte & (1u8 << k)) > 0 <==> (byte >> k) & 1u8 == 1u8) by (bit_vector)
        requires
            k < 8,
    ;
    (byte & (1u8 << k)) > 0
}

/// A bitmap over `size` slots with every slot absent.
pub fn validity_bitmap(size: usize) -> (r: Vec<u8>)
    ensures
        r.len() == bitmap_len(size as nat),
        all_clear(r@),
{
    let n: usize = size / 8 + if size % 8 > 0 { 1 } else { 0 };
    assert(n == bitmap_len(size as nat));
    let mut r: Vec<u8> = Vec::with_capacity(n);
    while r.len() < n
        invariant
            r.len() <= n,
            all_clear(r@),
        decreases n - r.len(),
    {
        r.push(0u8);
    }
    r
}

/// Zeroes every byte of the bitmap, keeping its length.
pub fn reset_validity_bitmap(validity_bitmap: &mut Vec<u8>)
    ensures
        final(validity_bitmap).len() == old(validity_bitmap).len(),
        all_clear(final(validity_bitmap)@),
{
    let n = validity_bitmap.len();
    let mut j: usize = 0;
    while j < n
        invariant
            validity_bitmap.len() == n,
            j <= n,
            forall|k: int| 0 <= k < j ==> #[trigger] validity_bitmap@[k] == 0u8,
        decreases n - j,
    {
        validity_bitmap.set(j, 0u8);
        j += 1;
    }
}

} // verus!
