//! The wire form of batches and auxiliary entities.
//!
//! An auxiliary entity: schema URL (1), logical type (2), size (3), parent
//! column (4), parent ranks (5, packed), then its typed columns from 6 on.
//! A batch: schema URL (1), size (2), start times (3, packed), end times
//! (4, packed), its typed columns from 5 on, and its auxiliary entities (12).
//! The typed columns take seven consecutive numbers from a base: i64, f64,
//! string, bool, bytes, i64 summary, f64 summary.
use crate::batch::{entity_views, AuxiliaryEntity, BatchEvent, BatchView, ColumnSet, ColumnSetView, EntityView};
use crate::column::{views, Column, ColumnView, DoubleSummary, F64Bits, Int64Summary};
use crate::column_codec::{column_bytes, encode_column, WireValue};
use crate::packed::{packed_varints, put_packed_varints};
use crate::scalar::{i32_field, put_i32_field, put_opt_varint_field, put_str_field, str_field, varint_field};
use crate::values::{len_fields, lemma_len_fields_push};
use crate::wire::{fields_bytes, lemma_fields_bytes_concat, lemma_fields_bytes_one, put_len_field, Field, Payload};
use vstd::prelude::*;

verus! {

/// One field per column, numbered `num`.
pub open spec fn columns_fields<V: WireValue>(num: nat, cols: Seq<ColumnView<V::V>>) -> Seq<Field> {
    len_fields(num, cols.map_values(|c: ColumnView<V::V>| column_bytes::<V>(c)))
}

/// The typed columns as fields numbered from `base`.
pub open spec fn colset_fields(base: nat, cs: ColumnSetView) -> Seq<Field> {
    columns_fields::<i64>(base, cs.i64_values) + columns_fields::<F64Bits>(base + 1, cs.f64_values)
        + columns_fields::<String>(base + 2, cs.string_values) + columns_fields::<bool>(
        base + 3,
        cs.bool_values,
    ) + columns_fields::<Vec<u8>>(base + 4, cs.bytes_values) + columns_fields::<Int64Summary>(
        base + 5,
        cs.i64_summary_values,
    ) + columns_fields::<DoubleSummary>(base + 6, cs.f64_summary_values)
}

/// A packed field of varints, absent when there is none.
pub open spec fn packed_field(num: nat, us: Seq<u64>) -> Seq<Field> {
    if us.len() == 0 {
        seq![]
    } else {
        seq![(num, Payload::Len(packed_varints(us)))]
    }
}

pub open spec fn ranks_as_u64(rs: Seq<u32>) -> Seq<u64> {
    rs.map_values(|r: u32| r as u64)
}

pub open spec fn entity_fields(e: EntityView) -> Seq<Field> {
    str_field(1, e.schema_url) + i32_field(2, e.logical_type) + varint_field(3, e.size as u64)
        + str_field(4, e.parent_column) + packed_field(5, ranks_as_u64(e.parent_ranks)) + colset_fields(
        6,
        e.columns,
    )
}

/// The bytes of an auxiliary entity.
pub open spec fn entity_bytes(e: EntityView) -> Seq<u8> {
    fields_bytes(entity_fields(e))
}

pub open spec fn batch_fields(b: BatchView) -> Seq<Field> {
    str_field(1, b.schema_url) + varint_field(2, b.size as u64) + packed_field(
        3,
        b.start_time_unix_nano_column,
    ) + packed_field(4, b.end_time_unix_nano_column) + colset_fields(5, b.columns) + len_fields(
        12,
        b.auxiliary_entities.map_values(|e: EntityView| entity_bytes(e)),
    )
}

/// The bytes of a batch.
pub open spec fn batch_bytes(b: BatchView) -> Seq<u8> {
    fields_bytes(batch_fields(b))
}

/// Appends one field per column.
fn encode_columns<V: WireValue>(buf: &mut Vec<u8>, num: u64, cols: &Vec<Column<V>>)
    requires
        1 <= num < 0x2000_0000,
    ensures
        final(buf)@ == old(buf)@ + fields_bytes(columns_fields::<V>(num as nat, views(cols@))),
{
    let ghost cv = views(cols@);
    let ghost f = |c: ColumnView<V::V>| column_bytes::<V>(c);
    let mut i: usize = 0;
    assert(cv.take(0).map_values(f) =~= Seq::<Seq<u8>>::empty());
    assert(fields_bytes(len_fields(num as nat, Seq::<Seq<u8>>::empty())) =~= Seq::<u8>::empty()) by {
        assert(len_fields(num as nat, Seq::<Seq<u8>>::empty()) =~= Seq::<Field>::empty());
    }
    assert(buf@ =~= old(buf)@ + Seq::<u8>::empty());
    while i < cols.len()
        invariant
            i <= cols@.len(),
            cv == views(cols@),
            f == (|c: ColumnView<V::V>| column_bytes::<V>(c)),
            1 <= num < 0x2000_0000,
            buf@ == old(buf)@ + fields_bytes(len_fields(num as nat, cv.take(i as int).map_values(f))),
        decreases cols@.len() - i,
    {
        let mut m: Vec<u8> = Vec::new();
        encode_column(&cols[i], &mut m);
        put_len_field(buf, num, m.as_slice());
        proof {
            assert(cv.take(i + 1).map_values(f) =~= cv.take(i as int).map_values(f).push(m@));
            lemma_len_fields_push(num as nat, cv.take(i as int).map_values(f), m@);
        }
        i += 1;
    }
    assert(cv.take(cols@.len() as int) =~= cv);
}

/// Seven appends in a row append the seven pieces, in order.
pub proof fn lemma_concat7(
    s0: Seq<u8>, b1: Seq<u8>, b2: Seq<u8>, b3: Seq<u8>, b4: Seq<u8>, b5: Seq<u8>, b6: Seq<u8>,
    b7: Seq<u8>, f1: Seq<u8>, f2: Seq<u8>, f3: Seq<u8>, f4: Seq<u8>, f5: Seq<u8>, f6: Seq<u8>,
    f7: Seq<u8>,
)
    requires
        b1 == s0 + f1,
        b2 == b1 + f2,
        b3 == b2 + f3,
        b4 == b3 + f4,
        b5 == b4 + f5,
        b6 == b5 + f6,
        b7 == b6 + f7,
    ensures
        b7 == s0 + (f1 + f2 + f3 + f4 + f5 + f6 + f7),
{
    assert(b7 =~= s0 + (f1 + f2 + f3 + f4 + f5 + f6 + f7));
}

/// The bytes of a run of field groups are the bytes of each group in turn.
pub proof fn lemma_fields_bytes7(a1: Seq<Field>, a2: Seq<Field>, a3: Seq<Field>, a4: Seq<Field>, a5: Seq<Field>, a6: Seq<Field>, a7: Seq<Field>)
    ensures
        fields_bytes(a1 + a2 + a3 + a4 + a5 + a6 + a7) == fields_bytes(a1) + fields_bytes(a2) + fields_bytes(a3)
            + fields_bytes(a4) + fields_bytes(a5) + fields_bytes(a6) + fields_bytes(a7),
{
    lemma_fields_bytes_concat(a1, a2);
    lemma_fields_bytes_concat(a1 + a2, a3);
    lemma_fields_bytes_concat(a1 + a2 + a3, a4);
    lemma_fields_bytes_concat(a1 + a2 + a3 + a4, a5);
    lemma_fields_bytes_concat(a1 + a2 + a3 + a4 + a5, a6);
    lemma_fields_bytes_concat(a1 + a2 + a3 + a4 + a5 + a6, a7);
}

/// Appends the typed columns as fields numbered from `base`.
fn encode_colset(buf: &mut Vec<u8>, base: u64, cs: &ColumnSet)
    requires
        1 <= base < 0x1000_0000,
    ensures
        final(buf)@ == old(buf)@ + fields_bytes(colset_fields(base as nat, cs@)),
{
    let ghost s0 = buf@;
    encode_columns(buf, base, &cs.i64_values);
    let ghost b1 = buf@;
    encode_columns(buf, base + 1, &cs.f64_values);
    let ghost b2 = buf@;
    encode_columns(buf, base + 2, &cs.string_values);
    let ghost b3 = buf@;
    encode_columns(buf, base + 3, &cs.bool_values);
    let ghost b4 = buf@;
    encode_columns(buf, base + 4, &cs.bytes_values);
    let ghost b5 = buf@;
    encode_columns(buf, base + 5, &cs.i64_summary_values);
    let ghost b6 = buf@;
    encode_columns(buf, base + 6, &cs.f64_summary_values);
    proof {
        let v = cs@;
        let n = base as nat;
        lemma_fields_bytes7(
            columns_fields::<i64>(n, v.i64_values),
            columns_fields::<F64Bits>(n + 1, v.f64_values),
            columns_fields::<String>(n + 2, v.string_values),
            columns_fields::<bool>(n + 3, v.bool_values),
            columns_fields::<Vec<u8>>(n + 4, v.bytes_values),
            columns_fields::<Int64Summary>(n + 5, v.i64_summary_values),
            columns_fields::<DoubleSummary>(n + 6, v.f64_summary_values),
        );
        lemma_concat7(s0, b1, b2, b3, b4, b5, b6, buf@,
            fields_bytes(columns_fields::<i64>(n, v.i64_values)),
            fields_bytes(columns_fields::<F64Bits>(n + 1, v.f64_values)),
            fields_bytes(columns_fields::<String>(n + 2, v.string_values)),
            fields_bytes(columns_fields::<bool>(n + 3, v.bool_values)),
            fields_bytes(columns_fields::<Vec<u8>>(n + 4, v.bytes_values)),
            fields_bytes(columns_fields::<Int64Summary>(n + 5, v.i64_summary_values)),
            fields_bytes(columns_fields::<DoubleSummary>(n + 6, v.f64_summary_values)));
    }
}

/// Appends a packed field of varints, unless there is none.
fn put_packed_field(buf: &mut Vec<u8>, num: u64, us: &Vec<u64>)
    requires
        1 <= num < 0x2000_0000,
    ensures
        final(buf)@ == old(buf)@ + fields_bytes(packed_field(num as nat, us@)),
{
    if us.len() == 0 {
        assert(fields_bytes(packed_field(num as nat, us@)) =~= Seq::<u8>::empty());
        assert(final(buf)@ =~= old(buf)@ + Seq::<u8>::empty());
    } else {
        let mut payload: Vec<u8> = Vec::new();
        put_packed_varints(&mut payload, us);
        put_len_field(buf, num, payload.as_slice());
        proof {
            lemma_fields_bytes_one((num as nat, Payload::Len(payload@)));
        }
    }
}

/// Appends the bytes of an auxiliary entity.
pub fn encode_entity(e: &AuxiliaryEntity, buf: &mut Vec<u8>)
    ensures
        final(buf)@ == old(buf)@ + entity_bytes(e@),
{
    let ghost v = e@;
    let ghost s0 = buf@;
    put_str_field(buf, 1, &e.schema_url);
    let ghost b1 = buf@;
    put_i32_field(buf, 2, e.logical_type);
    let ghost b2 = buf@;
    put_opt_varint_field(buf, 3, e.size as u64);
    let ghost b3 = buf@;
    put_str_field(buf, 4, &e.parent_column);
    let ghost b4 = buf@;
    let mut ranks: Vec<u64> = Vec::with_capacity(e.parent_ranks.len());
    let mut i: usize = 0;
    while i < e.parent_ranks.len()
        invariant
            i <= e.parent_ranks@.len(),
            ranks@ =~= ranks_as_u64(e.parent_ranks@.take(i as int)),
        decreases e.parent_ranks@.len() - i,
    {
        ranks.push(e.parent_ranks[i] as u64);
        i += 1;
    }
    assert(e.parent_ranks@.take(e.parent_ranks@.len() as int) =~= e.parent_ranks@);
    put_packed_field(buf, 5, &ranks);
    let ghost b5 = buf@;
    encode_colset(buf, 6, &e.columns);
    proof {
        let a1 = str_field(1, v.schema_url);
        let a2 = i32_field(2, v.logical_type);
        let a3 = varint_field(3, v.size as u64);
        let a4 = str_field(4, v.parent_column);
        let a5 = packed_field(5, ranks_as_u64(v.parent_ranks));
        let a6 = colset_fields(6, v.columns);
        lemma_fields_bytes7(a1, a2, a3, a4, a5, a6, Seq::empty());
        assert(a1 + a2 + a3 + a4 + a5 + a6 + Seq::<Field>::empty() =~= entity_fields(v));
        assert(fields_bytes(Seq::<Field>::empty()) =~= Seq::<u8>::empty());
        lemma_concat7(s0, b1, b2, b3, b4, b5, buf@, buf@,
            fields_bytes(a1), fields_bytes(a2), fields_bytes(a3), fields_bytes(a4), fields_bytes(a5),
            fields_bytes(a6), Seq::empty());
    }
}

/// Appends the bytes of a batch.
pub fn encode_batch(b: &BatchEvent, buf: &mut Vec<u8>)
    ensures
        final(buf)@ == old(buf)@ + batch_bytes(b@),
{
    let ghost v = b@;
    let ghost s0 = buf@;
    put_str_field(buf, 1, &b.schema_url);
    let ghost b1 = buf@;
    put_opt_varint_field(buf, 2, b.size as u64);
    let ghost b2 = buf@;
    put_packed_field(buf, 3, &b.start_time_unix_nano_column);
    let ghost b3 = buf@;
    put_packed_field(buf, 4, &b.end_time_unix_nano_column);
    let ghost b4 = buf@;
    encode_colset(buf, 5, &b.columns);
    let ghost b5 = buf@;
    let ghost ev = entity_views(b.auxiliary_entities@);
    let ghost f = |e: EntityView| entity_bytes(e);
    assert(ev.take(0).map_values(f) =~= Seq::<Seq<u8>>::empty());
    assert(len_fields(12, Seq::<Seq<u8>>::empty()) =~= Seq::<Field>::empty());
    assert(buf@ =~= b5 + fields_bytes(len_fields(12, ev.take(0).map_values(f))));
    let mut i: usize = 0;
    while i < b.auxiliary_entities.len()
        invariant
            i <= b.auxiliary_entities@.len(),
            ev == entity_views(b.auxiliary_entities@),
            f == (|e: EntityView| entity_bytes(e)),
            buf@ == b5 + fields_bytes(len_fields(12, ev.take(i as int).map_values(f))),
        decreases b.auxiliary_entities@.len() - i,
    {
        let mut m: Vec<u8> = Vec::new();
        encode_entity(&b.auxiliary_entities[i], &mut m);
        put_len_field(buf, 12, m.as_slice());
        proof {
            assert(ev.take(i + 1).map_values(f) =~= ev.take(i as int).map_values(f).push(m@));
            lemma_len_fields_push(12, ev.take(i as int).map_values(f), m@);
        }
        i += 1;
    }
    proof {
        assert(ev.take(ev.len() as int) =~= ev);
        let a1 = str_field(1, v.schema_url);
        let a2 = varint_field(2, v.size as u64);
        let a3 = packed_field(3, v.start_time_unix_nano_column);
        let a4 = packed_field(4, v.end_time_unix_nano_column);
        let a5 = colset_fields(5, v.columns);
        let a6 = len_fields(12, v.auxiliary_entities.map_values(f));
        lemma_fields_bytes7(a1, a2, a3, a4, a5, a6, Seq::empty());
        assert(a1 + a2 + a3 + a4 + a5 + a6 + Seq::<Field>::empty() =~= batch_fields(v));
        assert(fields_bytes(Seq::<Field>::empty()) =~= Seq::<u8>::empty());
        lemma_concat7(s0, b1, b2, b3, b4, b5, buf@, buf@,
            fields_bytes(a1), fields_bytes(a2), fields_bytes(a3), fields_bytes(a4), fields_bytes(a5),
            fields_bytes(a6), Seq::empty());
    }
}

} // verus!
