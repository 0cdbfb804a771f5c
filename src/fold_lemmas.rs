//! Facts about reading runs of fields into a message.
use crate::values::len_fields;
use crate::wire::{field_bytes, field_ok, fields_bytes, fold_fields, lemma_fields_bytes_concat, lemma_fold_one, Field, Payload};
use vstd::prelude::*;

verus! {

/// A run of at most one field that takes `st` to `st2`.
pub proof fn lemma_fold_opt<T>(st: T, seg: Seq<Field>, ap: spec_fn(T, Field) -> Option<T>, st2: T)
    requires
        (seg.len() == 0 && st2 == st) || (seg.len() == 1 && ap(st, seg[0]) == Some(st2)),
    ensures
        fold_fields(st, seg, ap) == Some(st2),
{
    if seg.len() == 1 {
        assert(seg =~= seq![seg[0]]);
        lemma_fold_one(st, seg[0], ap);
    }
}

/// Reading one field per item, each appending the item to the part of the
/// state that `get` and `set` reach, appends all the items.
pub proof fn lemma_fold_repeated<T, E>(
    st: T,
    num: nat,
    items: Seq<E>,
    enc: spec_fn(E) -> Seq<u8>,
    ap: spec_fn(T, Field) -> Option<T>,
    get: spec_fn(T) -> Seq<E>,
    set: spec_fn(T, Seq<E>) -> T,
)
    requires
        forall|s: T, i: int|
            0 <= i < items.len() ==> #[trigger] ap(s, (num, Payload::Len(enc(items[i])))) == Some(
                set(s, get(s).push(items[i])),
            ),
        forall|s: T, q: Seq<E>| #[trigger] get(set(s, q)) == q,
        forall|s: T, q1: Seq<E>, q2: Seq<E>| #[trigger] set(set(s, q1), q2) == set(s, q2),
        forall|s: T| #[trigger] set(s, get(s)) == s,
    ensures
        fold_fields(st, len_fields(num, items.map_values(enc)), ap) == Some(set(st, get(st) + items)),
    decreases items.len(),
{
    let fs = len_fields(num, items.map_values(enc));
    if items.len() == 0 {
        assert(get(st) + items =~= get(st));
    } else {
        let st1 = set(st, get(st).push(items[0]));
        assert(fs[0] == (num, Payload::Len(enc(items[0]))));
        assert(ap(st, fs[0]) == Some(st1));
        assert(fs.drop_first() =~= len_fields(num, items.drop_first().map_values(enc)));
        assert forall|s: T, i: int| 0 <= i < items.drop_first().len() implies #[trigger] ap(
            s,
            (num, Payload::Len(enc(items.drop_first()[i]))),
        ) == Some(set(s, get(s).push(items.drop_first()[i]))) by {
            assert(items.drop_first()[i] == items[i + 1]);
        }
        lemma_fold_repeated(st1, num, items.drop_first(), enc, ap, get, set);
        assert(get(st1) + items.drop_first() =~= get(st) + items);
    }
}

/// Every field of a run numbered `num` holds a payload the encoders write.
pub proof fn lemma_len_fields_ok(num: nat, ps: Seq<Seq<u8>>)
    requires
        1 <= num < 0x2000_0000,
    ensures
        forall|i: int| 0 <= i < len_fields(num, ps).len() ==> field_ok(#[trigger] len_fields(num, ps)[i]),
{
}

/// Each payload of a run is no longer than the run's bytes.
pub proof fn lemma_len_fields_payload(num: nat, ps: Seq<Seq<u8>>, i: int)
    requires
        0 <= i < ps.len(),
    ensures
        ps[i].len() <= fields_bytes(len_fields(num, ps)).len(),
    decreases ps.len(),
{
    let fs = len_fields(num, ps);
    assert(fields_bytes(fs) == field_bytes(fs[0]) + fields_bytes(fs.drop_first()));
    if i > 0 {
        assert(fs.drop_first() =~= len_fields(num, ps.drop_first()));
        lemma_len_fields_payload(num, ps.drop_first(), i - 1);
    }
}

/// A part of a run of fields is no longer than the whole.
pub proof fn lemma_fields_bytes_part(a: Seq<Field>, b: Seq<Field>)
    ensures
        fields_bytes(a).len() <= fields_bytes(a + b).len(),
        fields_bytes(b).len() <= fields_bytes(a + b).len(),
{
    lemma_fields_bytes_concat(a, b);
}

/// As `lemma_fold_repeated`, where reading an item's field appends the
/// item's view.
pub proof fn lemma_fold_repeated_view<T, E, V>(
    st: T,
    num: nat,
    items: Seq<E>,
    enc: spec_fn(E) -> Seq<u8>,
    view: spec_fn(E) -> V,
    ap: spec_fn(T, Field) -> Option<T>,
    get: spec_fn(T) -> Seq<V>,
    set: spec_fn(T, Seq<V>) -> T,
)
    requires
        forall|s: T, i: int|
            0 <= i < items.len() ==> #[trigger] ap(s, (num, Payload::Len(enc(items[i])))) == Some(
                set(s, get(s).push(view(items[i]))),
            ),
        forall|s: T, q: Seq<V>| #[trigger] get(set(s, q)) == q,
        forall|s: T, q1: Seq<V>, q2: Seq<V>| #[trigger] set(set(s, q1), q2) == set(s, q2),
        forall|s: T| #[trigger] set(s, get(s)) == s,
    ensures
        fold_fields(st, len_fields(num, items.map_values(enc)), ap) == Some(set(st, get(st) + items.map_values(view))),
    decreases items.len(),
{
    let fs = len_fields(num, items.map_values(enc));
    if items.len() == 0 {
        assert(get(st) + items.map_values(view) =~= get(st));
    } else {
        let st1 = set(st, get(st).push(view(items[0])));
        assert(fs[0] == (num, Payload::Len(enc(items[0]))));
        assert(ap(st, fs[0]) == Some(st1));
        assert(fs.drop_first() =~= len_fields(num, items.drop_first().map_values(enc)));
        assert forall|s: T, i: int| 0 <= i < items.drop_first().len() implies #[trigger] ap(
            s,
            (num, Payload::Len(enc(items.drop_first()[i]))),
        ) == Some(set(s, get(s).push(view(items.drop_first()[i])))) by {
            assert(items.drop_first()[i] == items[i + 1]);
        }
        lemma_fold_repeated_view(st1, num, items.drop_first(), enc, view, ap, get, set);
        assert(get(st1) + items.drop_first().map_values(view) =~= get(st) + items.map_values(view));
    }
}

} // verus!
