//! Reading batches and auxiliary entities back from their bytes.
use crate::batch::{entity_views, AuxiliaryEntity, BatchEvent, BatchView, ColumnSet, ColumnSetView, EntityView};
use crate::batch_codec::{
    batch_bytes, batch_fields, colset_fields, columns_fields, entity_bytes, entity_fields, packed_field, ranks_as_u64,
};
use crate::column::{views, ColumnView, DoubleSummary, F64Bits, Int64Summary};
use crate::column_codec::{
    all_ok, bytes_payload, column_bytes, decode_column, decode_column_bytes, lemma_all_ok_concat, lemma_column_round_trip,
    read_string, utf8_payload, varint_payload, WireValue,
};
use crate::fold_lemmas::{lemma_fields_bytes_part, lemma_fold_opt, lemma_fold_repeated, lemma_len_fields_ok, lemma_len_fields_payload};
use crate::packed::{lemma_packed_varints, packed_varints, parse_packed_varints, read_packed_varints};
use crate::scalar::{i32_field, lemma_i32_round_trip, str_field, varint_field};
use crate::values::len_fields;
use crate::wire::{
    field_ok, fields_bytes, fold_fields, lemma_fold_concat, lemma_parse_fields, lemma_parse_fields_step, next_field,
    parse_fields, payload_of, Field, FieldValue, Payload,
};
use vstd::prelude::*;
use vstd::slice::slice_subrange;
use vstd::utf8::{encode_utf8, encode_utf8_decode_utf8, encode_utf8_valid_utf8};

verus! {

/// Columns without any column.
pub open spec fn empty_colset() -> ColumnSetView {
    ColumnSetView {
        i64_values: Seq::empty(),
        f64_values: Seq::empty(),
        string_values: Seq::empty(),
        bool_values: Seq::empty(),
        bytes_values: Seq::empty(),
        i64_summary_values: Seq::empty(),
        f64_summary_values: Seq::empty(),
    }
}

/// Reads one column of kind `k` (0 for i64 up to 6 for f64 summary).
pub open spec fn apply_colset(cs: ColumnSetView, k: nat, p: Payload) -> Option<ColumnSetView> {
    match p {
        Payload::Len(s) => if k == 0 {
            match decode_column::<i64>(s) {
                Some(c) => Some(ColumnSetView { i64_values: cs.i64_values.push(c), ..cs }),
                None => None,
            }
        } else if k == 1 {
            match decode_column::<F64Bits>(s) {
                Some(c) => Some(ColumnSetView { f64_values: cs.f64_values.push(c), ..cs }),
                None => None,
            }
        } else if k == 2 {
            match decode_column::<String>(s) {
                Some(c) => Some(ColumnSetView { string_values: cs.string_values.push(c), ..cs }),
                None => None,
            }
        } else if k == 3 {
            match decode_column::<bool>(s) {
                Some(c) => Some(ColumnSetView { bool_values: cs.bool_values.push(c), ..cs }),
                None => None,
            }
        } else if k == 4 {
            match decode_column::<Vec<u8>>(s) {
                Some(c) => Some(ColumnSetView { bytes_values: cs.bytes_values.push(c), ..cs }),
                None => None,
            }
        } else if k == 5 {
            match decode_column::<Int64Summary>(s) {
                Some(c) => Some(ColumnSetView { i64_summary_values: cs.i64_summary_values.push(c), ..cs }),
                None => None,
            }
        } else {
            match decode_column::<DoubleSummary>(s) {
                Some(c) => Some(ColumnSetView { f64_summary_values: cs.f64_summary_values.push(c), ..cs }),
                None => None,
            }
        },
        _ => None,
    }
}

/// Packed varints read from a payload.
pub open spec fn packed_payload(p: Payload) -> Option<Seq<u64>> {
    match p {
        Payload::Len(s) => parse_packed_varints(s),
        _ => None,
    }
}

pub open spec fn apply_entity(e: EntityView, f: Field) -> Option<EntityView> {
    if f.0 == 1 {
        match utf8_payload(f.1) {
            Some(s) => Some(EntityView { schema_url: s, ..e }),
            None => None,
        }
    } else if f.0 == 2 {
        match varint_payload(f.1) {
            Some(v) => Some(EntityView { logical_type: v as i32, ..e }),
            None => None,
        }
    } else if f.0 == 3 {
        match varint_payload(f.1) {
            Some(v) => Some(EntityView { size: v as u32, ..e }),
            None => None,
        }
    } else if f.0 == 4 {
        match utf8_payload(f.1) {
            Some(s) => Some(EntityView { parent_column: s, ..e }),
            None => None,
        }
    } else if f.0 == 5 {
        match packed_payload(f.1) {
            Some(us) => Some(
                EntityView { parent_ranks: e.parent_ranks + us.map_values(|u: u64| u as u32), ..e },
            ),
            None => None,
        }
    } else if 6 <= f.0 < 13 {
        match apply_colset(e.columns, (f.0 - 6) as nat, f.1) {
            Some(c) => Some(EntityView { columns: c, ..e }),
            None => None,
        }
    } else {
        Some(e)
    }
}

pub open spec fn entity_applier() -> spec_fn(EntityView, Field) -> Option<EntityView> {
    |e: EntityView, f: Field| apply_entity(e, f)
}

pub open spec fn empty_entity() -> EntityView {
    EntityView {
        schema_url: Seq::empty(),
        logical_type: 0,
        size: 0,
        parent_column: Seq::empty(),
        parent_ranks: Seq::empty(),
        columns: empty_colset(),
    }
}

/// Reads an auxiliary entity from its bytes.
pub open spec fn decode_entity(b: Seq<u8>) -> Option<EntityView> {
    match parse_fields(b) {
        Some(fs) => fold_fields(empty_entity(), fs, entity_applier()),
        None => None,
    }
}

pub open spec fn apply_batch(b: BatchView, f: Field) -> Option<BatchView> {
    if f.0 == 1 {
        match utf8_payload(f.1) {
            Some(s) => Some(BatchView { schema_url: s, ..b }),
            None => None,
        }
    } else if f.0 == 2 {
        match varint_payload(f.1) {
            Some(v) => Some(BatchView { size: v as u32, ..b }),
            None => None,
        }
    } else if f.0 == 3 {
        match packed_payload(f.1) {
            Some(us) => Some(BatchView { start_time_unix_nano_column: b.start_time_unix_nano_column + us, ..b }),
            None => None,
        }
    } else if f.0 == 4 {
        match packed_payload(f.1) {
            Some(us) => Some(BatchView { end_time_unix_nano_column: b.end_time_unix_nano_column + us, ..b }),
            None => None,
        }
    } else if 5 <= f.0 < 12 {
        match apply_colset(b.columns, (f.0 - 5) as nat, f.1) {
            Some(c) => Some(BatchView { columns: c, ..b }),
            None => None,
        }
    } else if f.0 == 12 {
        match bytes_payload(f.1) {
            Some(s) => match decode_entity(s) {
                Some(e) => Some(BatchView { auxiliary_entities: b.auxiliary_entities.push(e), ..b }),
                None => None,
            },
            None => None,
        }
    } else {
        Some(b)
    }
}

pub open spec fn batch_applier() -> spec_fn(BatchView, Field) -> Option<BatchView> {
    |b: BatchView, f: Field| apply_batch(b, f)
}

pub open spec fn empty_batch() -> BatchView {
    BatchView {
        schema_url: Seq::empty(),
        size: 0,
        start_time_unix_nano_column: Seq::empty(),
        end_time_unix_nano_column: Seq::empty(),
        columns: empty_colset(),
        auxiliary_entities: Seq::empty(),
    }
}

/// Reads a batch from its bytes.
pub open spec fn decode_batch(b: Seq<u8>) -> Option<BatchView> {
    match parse_fields(b) {
        Some(fs) => fold_fields(empty_batch(), fs, batch_applier()),
        None => None,
    }
}

/// Reading the typed columns back, in a message whose reader hands the
/// fields from `base` on to `apply_colset`.
proof fn lemma_colset_round_trip<T>(
    st: T,
    base: nat,
    cs: ColumnSetView,
    ap: spec_fn(T, Field) -> Option<T>,
    getc: spec_fn(T) -> ColumnSetView,
    setc: spec_fn(T, ColumnSetView) -> T,
)
    requires
        fields_bytes(colset_fields(base, cs)).len() <= u64::MAX,
        getc(st) == empty_colset(),
        forall|s: T, f: Field|
            base <= f.0 < base + 7 ==> #[trigger] ap(s, f) == match apply_colset(getc(s), (f.0 - base) as nat, f.1) {
                Some(c) => Some(setc(s, c)),
                None => None,
            },
        forall|s: T, c: ColumnSetView| #[trigger] getc(setc(s, c)) == c,
        forall|s: T, c1: ColumnSetView, c2: ColumnSetView| #[trigger] setc(setc(s, c1), c2) == setc(s, c2),
        forall|s: T| #[trigger] setc(s, getc(s)) == s,
    ensures
        fold_fields(st, colset_fields(base, cs), ap) == Some(setc(st, cs)),
{
    let a0 = columns_fields::<i64>(base, cs.i64_values);
    let a1 = columns_fields::<F64Bits>(base + 1, cs.f64_values);
    let a2 = columns_fields::<String>(base + 2, cs.string_values);
    let a3 = columns_fields::<bool>(base + 3, cs.bool_values);
    let a4 = columns_fields::<Vec<u8>>(base + 4, cs.bytes_values);
    let a5 = columns_fields::<Int64Summary>(base + 5, cs.i64_summary_values);
    let a6 = columns_fields::<DoubleSummary>(base + 6, cs.f64_summary_values);
    let total = fields_bytes(colset_fields(base, cs)).len();
    lemma_fields_bytes_part(a0 + a1 + a2 + a3 + a4 + a5, a6);
    lemma_fields_bytes_part(a0 + a1 + a2 + a3 + a4, a5);
    lemma_fields_bytes_part(a0 + a1 + a2 + a3, a4);
    lemma_fields_bytes_part(a0 + a1 + a2, a3);
    lemma_fields_bytes_part(a0 + a1, a2);
    lemma_fields_bytes_part(a0, a1);
    let e = empty_colset();
    let c1 = ColumnSetView { i64_values: cs.i64_values, ..e };
    let c2 = ColumnSetView { f64_values: cs.f64_values, ..c1 };
    let c3 = ColumnSetView { string_values: cs.string_values, ..c2 };
    let c4 = ColumnSetView { bool_values: cs.bool_values, ..c3 };
    let c5 = ColumnSetView { bytes_values: cs.bytes_values, ..c4 };
    let c6 = ColumnSetView { i64_summary_values: cs.i64_summary_values, ..c5 };
    // i64
    {
        let items = cs.i64_values;
        let enc = |c: ColumnView<i64>| column_bytes::<i64>(c);
        let get = |s: T| getc(s).i64_values;
        let set = |s: T, q: Seq<ColumnView<i64>>| setc(s, ColumnSetView { i64_values: q, ..getc(s) });
        assert forall|s: T, i: int| 0 <= i < items.len() implies #[trigger] ap(s, (base, Payload::Len(enc(items[i]))))
            == Some(set(s, get(s).push(items[i]))) by {
            lemma_len_fields_payload(base, items.map_values(enc), i);
            lemma_column_round_trip::<i64>(items[i]);
            assert(ap(s, (base, Payload::Len(enc(items[i])))) == match apply_colset(getc(s), 0, Payload::Len(enc(items[i]))) {
                Some(c) => Some(setc(s, c)),
                None => None,
            });
        }
        lemma_fold_repeated(st, base, items, enc, ap, get, set);
        assert(Seq::<ColumnView<i64>>::empty() + items =~= items);
        assert(set(st, get(st) + items) == setc(st, c1));
    }
    // f64
    let st1 = setc(st, c1);
    {
        let items = cs.f64_values;
        let enc = |c: ColumnView<u64>| column_bytes::<F64Bits>(c);
        let get = |s: T| getc(s).f64_values;
        let set = |s: T, q: Seq<ColumnView<u64>>| setc(s, ColumnSetView { f64_values: q, ..getc(s) });
        assert forall|s: T, i: int| 0 <= i < items.len() implies #[trigger] ap(s, (base + 1, Payload::Len(enc(items[i]))))
            == Some(set(s, get(s).push(items[i]))) by {
            lemma_len_fields_payload(base + 1, items.map_values(enc), i);
            lemma_column_round_trip::<F64Bits>(items[i]);
            assert(ap(s, (base + 1, Payload::Len(enc(items[i])))) == match apply_colset(getc(s), 1, Payload::Len(enc(items[i]))) {
                Some(c) => Some(setc(s, c)),
                None => None,
            });
        }
        lemma_fold_repeated(st1, base + 1, items, enc, ap, get, set);
        assert(Seq::<ColumnView<u64>>::empty() + items =~= items);
        assert(set(st1, get(st1) + items) == setc(st, c2));
    }
    let st2 = setc(st, c2);
    {
        let items = cs.string_values;
        let enc = |c: ColumnView<Seq<char>>| column_bytes::<String>(c);
        let get = |s: T| getc(s).string_values;
        let set = |s: T, q: Seq<ColumnView<Seq<char>>>| setc(s, ColumnSetView { string_values: q, ..getc(s) });
        assert forall|s: T, i: int| 0 <= i < items.len() implies #[trigger] ap(s, (base + 2, Payload::Len(enc(items[i]))))
            == Some(set(s, get(s).push(items[i]))) by {
            lemma_len_fields_payload(base + 2, items.map_values(enc), i);
            lemma_column_round_trip::<String>(items[i]);
            assert(ap(s, (base + 2, Payload::Len(enc(items[i])))) == match apply_colset(getc(s), 2, Payload::Len(enc(items[i]))) {
                Some(c) => Some(setc(s, c)),
                None => None,
            });
        }
        lemma_fold_repeated(st2, base + 2, items, enc, ap, get, set);
        assert(Seq::<ColumnView<Seq<char>>>::empty() + items =~= items);
        assert(set(st2, get(st2) + items) == setc(st, c3));
    }
    let st3 = setc(st, c3);
    {
        let items = cs.bool_values;
        let enc = |c: ColumnView<bool>| column_bytes::<bool>(c);
        let get = |s: T| getc(s).bool_values;
        let set = |s: T, q: Seq<ColumnView<bool>>| setc(s, ColumnSetView { bool_values: q, ..getc(s) });
        assert forall|s: T, i: int| 0 <= i < items.len() implies #[trigger] ap(s, (base + 3, Payload::Len(enc(items[i]))))
            == Some(set(s, get(s).push(items[i]))) by {
            lemma_len_fields_payload(base + 3, items.map_values(enc), i);
            lemma_column_round_trip::<bool>(items[i]);
            assert(ap(s, (base + 3, Payload::Len(enc(items[i])))) == match apply_colset(getc(s), 3, Payload::Len(enc(items[i]))) {
                Some(c) => Some(setc(s, c)),
                None => None,
            });
        }
        lemma_fold_repeated(st3, base + 3, items, enc, ap, get, set);
        assert(Seq::<ColumnView<bool>>::empty() + items =~= items);
        assert(set(st3, get(st3) + items) == setc(st, c4));
    }
    let st4 = setc(st, c4);
    {
        let items = cs.bytes_values;
        let enc = |c: ColumnView<Seq<u8>>| column_bytes::<Vec<u8>>(c);
        let get = |s: T| getc(s).bytes_values;
        let set = |s: T, q: Seq<ColumnView<Seq<u8>>>| setc(s, ColumnSetView { bytes_values: q, ..getc(s) });
        assert forall|s: T, i: int| 0 <= i < items.len() implies #[trigger] ap(s, (base + 4, Payload::Len(enc(items[i]))))
            == Some(set(s, get(s).push(items[i]))) by {
            lemma_len_fields_payload(base + 4, items.map_values(enc), i);
            lemma_column_round_trip::<Vec<u8>>(items[i]);
            assert(ap(s, (base + 4, Payload::Len(enc(items[i])))) == match apply_colset(getc(s), 4, Payload::Len(enc(items[i]))) {
                Some(c) => Some(setc(s, c)),
                None => None,
            });
        }
        lemma_fold_repeated(st4, base + 4, items, enc, ap, get, set);
        assert(Seq::<ColumnView<Seq<u8>>>::empty() + items =~= items);
        assert(set(st4, get(st4) + items) == setc(st, c5));
    }
    let st5 = setc(st, c5);
    {
        let items = cs.i64_summary_values;
        let enc = |c: ColumnView<Int64Summary>| column_bytes::<Int64Summary>(c);
        let get = |s: T| getc(s).i64_summary_values;
        let set = |s: T, q: Seq<ColumnView<Int64Summary>>| setc(s, ColumnSetView { i64_summary_values: q, ..getc(s) });
        assert forall|s: T, i: int| 0 <= i < items.len() implies #[trigger] ap(s, (base + 5, Payload::Len(enc(items[i]))))
            == Some(set(s, get(s).push(items[i]))) by {
            lemma_len_fields_payload(base + 5, items.map_values(enc), i);
            lemma_column_round_trip::<Int64Summary>(items[i]);
            assert(ap(s, (base + 5, Payload::Len(enc(items[i])))) == match apply_colset(getc(s), 5, Payload::Len(enc(items[i]))) {
                Some(c) => Some(setc(s, c)),
                None => None,
            });
        }
        lemma_fold_repeated(st5, base + 5, items, enc, ap, get, set);
        assert(Seq::<ColumnView<Int64Summary>>::empty() + items =~= items);
        assert(set(st5, get(st5) + items) == setc(st, c6));
    }
    let st6 = setc(st, c6);
    {
        let items = cs.f64_summary_values;
        let enc = |c: ColumnView<DoubleSummary>| column_bytes::<DoubleSummary>(c);
        let get = |s: T| getc(s).f64_summary_values;
        let set = |s: T, q: Seq<ColumnView<DoubleSummary>>| setc(s, ColumnSetView { f64_summary_values: q, ..getc(s) });
        assert forall|s: T, i: int| 0 <= i < items.len() implies #[trigger] ap(s, (base + 6, Payload::Len(enc(items[i]))))
            == Some(set(s, get(s).push(items[i]))) by {
            lemma_len_fields_payload(base + 6, items.map_values(enc), i);
            lemma_column_round_trip::<DoubleSummary>(items[i]);
            assert(ap(s, (base + 6, Payload::Len(enc(items[i])))) == match apply_colset(getc(s), 6, Payload::Len(enc(items[i]))) {
                Some(c) => Some(setc(s, c)),
                None => None,
            });
        }
        lemma_fold_repeated(st6, base + 6, items, enc, ap, get, set);
        assert(Seq::<ColumnView<DoubleSummary>>::empty() + items =~= items);
        assert(set(st6, get(st6) + items) == setc(st, cs));
    }
    lemma_fold_concat(st, a0, a1, ap);
    lemma_fold_concat(st, a0 + a1, a2, ap);
    lemma_fold_concat(st, a0 + a1 + a2, a3, ap);
    lemma_fold_concat(st, a0 + a1 + a2 + a3, a4, ap);
    lemma_fold_concat(st, a0 + a1 + a2 + a3 + a4, a5, ap);
    lemma_fold_concat(st, a0 + a1 + a2 + a3 + a4 + a5, a6, ap);
}


proof fn lemma_colset_ok(base: nat, cs: ColumnSetView)
    requires
        1 <= base < 0x1000_0000,
    ensures
        all_ok(colset_fields(base, cs)),
{
    let a0 = columns_fields::<i64>(base, cs.i64_values);
    let a1 = columns_fields::<F64Bits>(base + 1, cs.f64_values);
    let a2 = columns_fields::<String>(base + 2, cs.string_values);
    let a3 = columns_fields::<bool>(base + 3, cs.bool_values);
    let a4 = columns_fields::<Vec<u8>>(base + 4, cs.bytes_values);
    let a5 = columns_fields::<Int64Summary>(base + 5, cs.i64_summary_values);
    let a6 = columns_fields::<DoubleSummary>(base + 6, cs.f64_summary_values);
    lemma_all_ok_concat(a0, a1);
    lemma_all_ok_concat(a0 + a1, a2);
    lemma_all_ok_concat(a0 + a1 + a2, a3);
    lemma_all_ok_concat(a0 + a1 + a2 + a3, a4);
    lemma_all_ok_concat(a0 + a1 + a2 + a3 + a4, a5);
    lemma_all_ok_concat(a0 + a1 + a2 + a3 + a4 + a5, a6);
}

proof fn lemma_str_opt<T>(st: T, num: nat, s: Seq<char>, ap: spec_fn(T, Field) -> Option<T>, st2: T)
    requires
        s.len() == 0 ==> st2 == st,
        s.len() > 0 ==> ap(st, (num, Payload::Len(encode_utf8(s)))) == Some(st2),
    ensures
        fold_fields(st, str_field(num, s), ap) == Some(st2),
{
    lemma_fold_opt(st, str_field(num, s), ap, st2);
}

/// Reading back the bytes of an auxiliary entity gives the same entity,
/// where those bytes number fewer than 2^64.
pub proof fn lemma_entity_round_trip(e: EntityView)
    requires
        entity_bytes(e).len() <= u64::MAX,
    ensures
        decode_entity(entity_bytes(e)) == Some(e),
{
    let ap = entity_applier();
    let a1 = str_field(1, e.schema_url);
    let a2 = i32_field(2, e.logical_type);
    let a3 = varint_field(3, e.size as u64);
    let a4 = str_field(4, e.parent_column);
    let a5 = packed_field(5, ranks_as_u64(e.parent_ranks));
    let a6 = colset_fields(6, e.columns);
    lemma_colset_ok(6, e.columns);
    lemma_all_ok_concat(a1, a2);
    lemma_all_ok_concat(a1 + a2, a3);
    lemma_all_ok_concat(a1 + a2 + a3, a4);
    lemma_all_ok_concat(a1 + a2 + a3 + a4, a5);
    lemma_all_ok_concat(a1 + a2 + a3 + a4 + a5, a6);
    lemma_parse_fields(entity_fields(e));
    lemma_fields_bytes_part(a1 + a2 + a3 + a4 + a5, a6);
    let s0 = empty_entity();
    let s1 = EntityView { schema_url: e.schema_url, ..s0 };
    let s2 = EntityView { logical_type: e.logical_type, ..s1 };
    let s3 = EntityView { size: e.size, ..s2 };
    let s4 = EntityView { parent_column: e.parent_column, ..s3 };
    let s5 = EntityView { parent_ranks: e.parent_ranks, ..s4 };
    if e.schema_url.len() == 0 {
        assert(e.schema_url =~= Seq::<char>::empty());
    } else {
        encode_utf8_valid_utf8(e.schema_url);
        encode_utf8_decode_utf8(e.schema_url);
    }
    lemma_str_opt(s0, 1, e.schema_url, ap, s1);
    lemma_i32_round_trip(e.logical_type);
    lemma_fold_opt(s1, a2, ap, s2);
    lemma_fold_opt(s2, a3, ap, s3);
    if e.parent_column.len() == 0 {
        assert(e.parent_column =~= Seq::<char>::empty());
    } else {
        encode_utf8_valid_utf8(e.parent_column);
        encode_utf8_decode_utf8(e.parent_column);
    }
    lemma_str_opt(s3, 4, e.parent_column, ap, s4);
    if e.parent_ranks.len() == 0 {
        assert(e.parent_ranks =~= Seq::<u32>::empty());
    } else {
        lemma_packed_varints(ranks_as_u64(e.parent_ranks));
        assert(Seq::<u32>::empty() + ranks_as_u64(e.parent_ranks).map_values(|u: u64| u as u32) =~= e.parent_ranks);
    }
    lemma_fold_opt(s4, a5, ap, s5);
    let getc = |x: EntityView| x.columns;
    let setc = |x: EntityView, c: ColumnSetView| EntityView { columns: c, ..x };
    lemma_colset_round_trip(s5, 6, e.columns, ap, getc, setc);
    assert(setc(s5, e.columns) == e);
    lemma_fold_concat(s0, a1, a2, ap);
    lemma_fold_concat(s0, a1 + a2, a3, ap);
    lemma_fold_concat(s0, a1 + a2 + a3, a4, ap);
    lemma_fold_concat(s0, a1 + a2 + a3 + a4, a5, ap);
    lemma_fold_concat(s0, a1 + a2 + a3 + a4 + a5, a6, ap);
}

/// Reading back the bytes of a batch gives the same batch, where those
/// bytes number fewer than 2^64.
pub proof fn lemma_batch_round_trip(b: BatchView)
    requires
        batch_bytes(b).len() <= u64::MAX,
    ensures
        decode_batch(batch_bytes(b)) == Some(b),
{
    let ap = batch_applier();
    let a1 = str_field(1, b.schema_url);
    let a2 = varint_field(2, b.size as u64);
    let a3 = packed_field(3, b.start_time_unix_nano_column);
    let a4 = packed_field(4, b.end_time_unix_nano_column);
    let a5 = colset_fields(5, b.columns);
    let enc = |e: EntityView| entity_bytes(e);
    let a6 = len_fields(12, b.auxiliary_entities.map_values(enc));
    lemma_colset_ok(5, b.columns);
    lemma_len_fields_ok(12, b.auxiliary_entities.map_values(enc));
    lemma_all_ok_concat(a1, a2);
    lemma_all_ok_concat(a1 + a2, a3);
    lemma_all_ok_concat(a1 + a2 + a3, a4);
    lemma_all_ok_concat(a1 + a2 + a3 + a4, a5);
    lemma_all_ok_concat(a1 + a2 + a3 + a4 + a5, a6);
    lemma_parse_fields(batch_fields(b));
    lemma_fields_bytes_part(a1 + a2 + a3 + a4 + a5, a6);
    lemma_fields_bytes_part(a1 + a2 + a3 + a4, a5);
    let s0 = empty_batch();
    let s1 = BatchView { schema_url: b.schema_url, ..s0 };
    let s2 = BatchView { size: b.size, ..s1 };
    let s3 = BatchView { start_time_unix_nano_column: b.start_time_unix_nano_column, ..s2 };
    let s4 = BatchView { end_time_unix_nano_column: b.end_time_unix_nano_column, ..s3 };
    let s5 = BatchView { columns: b.columns, ..s4 };
    if b.schema_url.len() == 0 {
        assert(b.schema_url =~= Seq::<char>::empty());
    } else {
        encode_utf8_valid_utf8(b.schema_url);
        encode_utf8_decode_utf8(b.schema_url);
    }
    lemma_str_opt(s0, 1, b.schema_url, ap, s1);
    lemma_fold_opt(s1, a2, ap, s2);
    if b.start_time_unix_nano_column.len() == 0 {
        assert(b.start_time_unix_nano_column =~= Seq::<u64>::empty());
    } else {
        lemma_packed_varints(b.start_time_unix_nano_column);
        assert(Seq::<u64>::empty() + b.start_time_unix_nano_column =~= b.start_time_unix_nano_column);
    }
    lemma_fold_opt(s2, a3, ap, s3);
    if b.end_time_unix_nano_column.len() == 0 {
        assert(b.end_time_unix_nano_column =~= Seq::<u64>::empty());
    } else {
        lemma_packed_varints(b.end_time_unix_nano_column);
        assert(Seq::<u64>::empty() + b.end_time_unix_nano_column =~= b.end_time_unix_nano_column);
    }
    lemma_fold_opt(s3, a4, ap, s4);
    let getc = |x: BatchView| x.columns;
    let setc = |x: BatchView, c: ColumnSetView| BatchView { columns: c, ..x };
    lemma_colset_round_trip(s4, 5, b.columns, ap, getc, setc);
    assert(setc(s4, b.columns) == s5);
    let items = b.auxiliary_entities;
    let get = |x: BatchView| x.auxiliary_entities;
    let set = |x: BatchView, q: Seq<EntityView>| BatchView { auxiliary_entities: q, ..x };
    assert forall|s: BatchView, i: int| 0 <= i < items.len() implies #[trigger] ap(s, (12nat, Payload::Len(enc(items[i]))))
        == Some(set(s, get(s).push(items[i]))) by {
        lemma_len_fields_payload(12, items.map_values(enc), i);
        lemma_entity_round_trip(items[i]);
    }
    lemma_fold_repeated(s5, 12, items, enc, ap, get, set);
    assert(Seq::<EntityView>::empty() + items =~= items);
    assert(set(s5, get(s5) + items) == b);
    lemma_fold_concat(s0, a1, a2, ap);
    lemma_fold_concat(s0, a1 + a2, a3, ap);
    lemma_fold_concat(s0, a1 + a2 + a3, a4, ap);
    lemma_fold_concat(s0, a1 + a2 + a3 + a4, a5, ap);
    lemma_fold_concat(s0, a1 + a2 + a3 + a4 + a5, a6, ap);
}


/// Reads one column of kind `k` into the set.
fn apply_colset_field(cs: &mut ColumnSet, k: u64, b: &[u8], v: FieldValue) -> (ok: bool)
    requires
        k < 7,
        v matches FieldValue::Len(s, e) ==> s <= e <= b@.len(),
    ensures
        match apply_colset(old(cs)@, k as nat, payload_of(b@, v)) {
            Some(n) => ok && final(cs)@ == n,
            None => !ok,
        },
{
    match v {
        FieldValue::Len(s, e) => {
            let sub = slice_subrange(b, s, e);
            if k == 0 {
                match decode_column_bytes::<i64>(sub) {
                    Some(c) => {
                        let ghost cv = c@;
                        cs.i64_values.push(c);
                        assert(views(cs.i64_values@) =~= views(old(cs).i64_values@).push(cv));
                        true
                    },
                    None => false,
                }
            } else if k == 1 {
                match decode_column_bytes::<F64Bits>(sub) {
                    Some(c) => {
                        let ghost cv = c@;
                        cs.f64_values.push(c);
                        assert(views(cs.f64_values@) =~= views(old(cs).f64_values@).push(cv));
                        true
                    },
                    None => false,
                }
            } else if k == 2 {
                match decode_column_bytes::<String>(sub) {
                    Some(c) => {
                        let ghost cv = c@;
                        cs.string_values.push(c);
                        assert(views(cs.string_values@) =~= views(old(cs).string_values@).push(cv));
                        true
                    },
                    None => false,
                }
            } else if k == 3 {
                match decode_column_bytes::<bool>(sub) {
                    Some(c) => {
                        let ghost cv = c@;
                        cs.bool_values.push(c);
                        assert(views(cs.bool_values@) =~= views(old(cs).bool_values@).push(cv));
                        true
                    },
                    None => false,
                }
            } else if k == 4 {
                match decode_column_bytes::<Vec<u8>>(sub) {
                    Some(c) => {
                        let ghost cv = c@;
                        cs.bytes_values.push(c);
                        assert(views(cs.bytes_values@) =~= views(old(cs).bytes_values@).push(cv));
                        true
                    },
                    None => false,
                }
            } else if k == 5 {
                match decode_column_bytes::<Int64Summary>(sub) {
                    Some(c) => {
                        let ghost cv = c@;
                        cs.i64_summary_values.push(c);
                        assert(views(cs.i64_summary_values@) =~= views(old(cs).i64_summary_values@).push(cv));
                        true
                    },
                    None => false,
                }
            } else {
                match decode_column_bytes::<DoubleSummary>(sub) {
                    Some(c) => {
                        let ghost cv = c@;
                        cs.f64_summary_values.push(c);
                        assert(views(cs.f64_summary_values@) =~= views(old(cs).f64_summary_values@).push(cv));
                        true
                    },
                    None => false,
                }
            }
        },
        _ => false,
    }
}

/// Appends packed varints, each as a `u32`.
fn read_ranks(ranks: &mut Vec<u32>, b: &[u8], v: FieldValue) -> (ok: bool)
    requires
        v matches FieldValue::Len(s, e) ==> s <= e <= b@.len(),
    ensures
        match packed_payload(payload_of(b@, v)) {
            Some(us) => ok && final(ranks)@ == old(ranks)@ + us.map_values(|u: u64| u as u32),
            None => !ok,
        },
{
    match v {
        FieldValue::Len(s, e) => match read_packed_varints(b, s, e) {
            Some(us) => {
                let mut i: usize = 0;
                while i < us.len()
                    invariant
                        i <= us@.len(),
                        ranks@ =~= old(ranks)@ + us@.take(i as int).map_values(|u: u64| u as u32),
                    decreases us@.len() - i,
                {
                    ranks.push(us[i] as u32);
                    i += 1;
                }
                assert(us@.take(us@.len() as int) =~= us@);
                true
            },
            None => false,
        },
        _ => false,
    }
}

/// Appends packed varints.
fn read_times(times: &mut Vec<u64>, b: &[u8], v: FieldValue) -> (ok: bool)
    requires
        v matches FieldValue::Len(s, e) ==> s <= e <= b@.len(),
    ensures
        match packed_payload(payload_of(b@, v)) {
            Some(us) => ok && final(times)@ == old(times)@ + us,
            None => !ok,
        },
{
    match v {
        FieldValue::Len(s, e) => match read_packed_varints(b, s, e) {
            Some(us) => {
                let mut i: usize = 0;
                while i < us.len()
                    invariant
                        i <= us@.len(),
                        times@ =~= old(times)@ + us@.take(i as int),
                    decreases us@.len() - i,
                {
                    times.push(us[i]);
                    i += 1;
                }
                assert(us@.take(us@.len() as int) =~= us@);
                true
            },
            None => false,
        },
        _ => false,
    }
}

fn apply_entity_field(x: &mut AuxiliaryEntity, b: &[u8], num: u64, v: FieldValue) -> (ok: bool)
    requires
        v matches FieldValue::Len(s, e) ==> s <= e <= b@.len(),
    ensures
        match apply_entity(old(x)@, (num as nat, payload_of(b@, v))) {
            Some(n) => ok && final(x)@ == n,
            None => !ok,
        },
{
    if num == 1 || num == 4 {
        match read_string(b, v) {
            Some(s) => {
                if num == 1 {
                    x.schema_url = s;
                } else {
                    x.parent_column = s;
                }
                true
            },
            None => false,
        }
    } else if num == 2 || num == 3 {
        match v {
            FieldValue::Varint(n) => {
                if num == 2 {
                    x.logical_type = n as i32;
                } else {
                    x.size = n as u32;
                }
                true
            },
            _ => false,
        }
    } else if num == 5 {
        read_ranks(&mut x.parent_ranks, b, v)
    } else if 6 <= num && num < 13 {
        apply_colset_field(&mut x.columns, num - 6, b, v)
    } else {
        true
    }
}

/// Reads an auxiliary entity from its bytes; unknown fields are skipped.
pub fn decode_entity_bytes(b: &[u8]) -> (r: Option<AuxiliaryEntity>)
    ensures
        match decode_entity(b@) {
            Some(e) => r matches Some(x) && x@ == e,
            None => r is None,
        },
{
    let mut x = AuxiliaryEntity {
        schema_url: String::new(),
        logical_type: 0,
        size: 0,
        parent_column: String::new(),
        parent_ranks: Vec::new(),
        columns: ColumnSet::empty(),
    };
    let ghost ap = entity_applier();
    proof {
        assert(b@.skip(0) =~= b@);
        assert(x@.columns =~= empty_colset());
        assert(x@ == empty_entity());
    }
    let mut pos: usize = 0;
    while pos < b.len()
        invariant
            pos <= b@.len(),
            ap == entity_applier(),
            decode_entity(b@) == match parse_fields(b@.skip(pos as int)) {
                Some(r) => fold_fields(x@, r, ap),
                None => None,
            },
        decreases b@.len() - pos,
    {
        proof {
            lemma_parse_fields_step(b@, pos as int);
        }
        let (num, v, next) = match next_field(b, pos) {
            Some(t) => t,
            None => return None,
        };
        let ghost f = (num as nat, payload_of(b@, v));
        let ok = apply_entity_field(&mut x, b, num, v);
        proof {
            match parse_fields(b@.skip(next as int)) {
                Some(r) => {
                    assert((seq![f] + r)[0] == f);
                    assert((seq![f] + r).drop_first() =~= r);
                },
                None => {},
            }
        }
        if !ok {
            return None;
        }
        pos = next;
    }
    assert(b@.skip(pos as int) =~= Seq::<u8>::empty());
    Some(x)
}

fn apply_batch_field(x: &mut BatchEvent, b: &[u8], num: u64, v: FieldValue) -> (ok: bool)
    requires
        v matches FieldValue::Len(s, e) ==> s <= e <= b@.len(),
    ensures
        match apply_batch(old(x)@, (num as nat, payload_of(b@, v))) {
            Some(n) => ok && final(x)@ == n,
            None => !ok,
        },
{
    if num == 1 {
        match read_string(b, v) {
            Some(s) => {
                x.schema_url = s;
                true
            },
            None => false,
        }
    } else if num == 2 {
        match v {
            FieldValue::Varint(n) => {
                x.size = n as u32;
                true
            },
            _ => false,
        }
    } else if num == 3 {
        read_times(&mut x.start_time_unix_nano_column, b, v)
    } else if num == 4 {
        read_times(&mut x.end_time_unix_nano_column, b, v)
    } else if 5 <= num && num < 12 {
        apply_colset_field(&mut x.columns, num - 5, b, v)
    } else if num == 12 {
        match v {
            FieldValue::Len(s, e) => {
                let sub = slice_subrange(b, s, e);
                match decode_entity_bytes(sub) {
                    Some(ent) => {
                        let ghost ev = ent@;
                        x.auxiliary_entities.push(ent);
                        assert(entity_views(x.auxiliary_entities@) =~= entity_views(
                            old(x).auxiliary_entities@,
                        ).push(ev));
                        true
                    },
                    None => false,
                }
            },
            _ => false,
        }
    } else {
        true
    }
}

/// Reads a batch from its bytes; unknown fields are skipped.
pub fn decode_batch_bytes(b: &[u8]) -> (r: Option<BatchEvent>)
    ensures
        match decode_batch(b@) {
            Some(e) => r matches Some(x) && x@ == e,
            None => r is None,
        },
{
    let mut x = BatchEvent {
        schema_url: String::new(),
        size: 0,
        start_time_unix_nano_column: Vec::new(),
        end_time_unix_nano_column: Vec::new(),
        columns: ColumnSet::empty(),
        auxiliary_entities: Vec::new(),
    };
    let ghost ap = batch_applier();
    proof {
        assert(b@.skip(0) =~= b@);
        assert(x@.columns =~= empty_colset());
        assert(x@.auxiliary_entities =~= Seq::<EntityView>::empty());
        assert(x@ == empty_batch());
    }
    let mut pos: usize = 0;
    while pos < b.len()
        invariant
            pos <= b@.len(),
            ap == batch_applier(),
            decode_batch(b@) == match parse_fields(b@.skip(pos as int)) {
                Some(r) => fold_fields(x@, r, ap),
                None => None,
            },
        decreases b@.len() - pos,
    {
        proof {
            lemma_parse_fields_step(b@, pos as int);
        }
        let (num, v, next) = match next_field(b, pos) {
            Some(t) => t,
            None => return None,
        };
        let ghost f = (num as nat, payload_of(b@, v));
        let ok = apply_batch_field(&mut x, b, num, v);
        proof {
            match parse_fields(b@.skip(next as int)) {
                Some(r) => {
                    assert((seq![f] + r)[0] == f);
                    assert((seq![f] + r).drop_first() =~= r);
                },
                None => {},
            }
        }
        if !ok {
            return None;
        }
        pos = next;
    }
    assert(b@.skip(pos as int) =~= Seq::<u8>::empty());
    Some(x)
}

} // verus!
