//! The trace event read from JSON: one row per span, optional columns for
//! the fields that may be missing, and an auxiliary entity of attributes.
use crate::batch::{ColumnLayout, EntityLayout, entity_views, AuxiliaryEntity, BatchEvent, BatchView, ColumnSet, ColumnSetView, EntityView, ATTRIBUTE};
use crate::column::Column;
use crate::event::{BatchPolicy, OpenTelemetryEvent};
use crate::http_transaction::{all_required, check_all_required, only_i64_and_strings};
use vstd::prelude::*;

verus! {

/// A span as a trace exporter writes it.
#[derive(Debug, Clone)]
pub struct JsonTrace {
    pub evt: Evt,
}

/// The fields of a span. Attributes are kept in the order given; one
/// without a value is not recorded.
#[derive(Debug, Clone)]
pub struct Evt {
    pub trace_id: String,
    pub span_id: String,
    pub trace_state: Option<String>,
    pub parent_span_id: Option<String>,
    pub name: String,
    pub kind: Option<i64>,
    pub start_time_unix_nano: u64,
    pub end_time_unix_nano: u64,
    pub status: Status,
    pub attributes: Option<Vec<(String, Option<String>)>>,
}

/// The outcome of a span.
#[derive(Debug, Clone)]
pub struct Status {
    pub message: Option<String>,
    pub code: Option<i64>,
}

/// The names of the attributes that have a value, in order.
pub open spec fn attr_names(a: Seq<(String, Option<String>)>) -> Seq<Seq<char>>
    decreases a.len(),
{
    if a.len() == 0 {
        seq![]
    } else {
        let p = attr_names(a.drop_last());
        match a.last().1 {
            Some(_) => p.push(a.last().0@),
            None => p,
        }
    }
}

/// The values of the attributes that have one, in order.
pub open spec fn attr_values(a: Seq<(String, Option<String>)>) -> Seq<Seq<char>>
    decreases a.len(),
{
    if a.len() == 0 {
        seq![]
    } else {
        let p = attr_values(a.drop_last());
        match a.last().1 {
            Some(v) => p.push(v@),
            None => p,
        }
    }
}

pub proof fn lemma_attr_len(a: Seq<(String, Option<String>)>)
    ensures
        attr_names(a).len() == attr_values(a).len(),
        attr_names(a).len() <= a.len(),
    decreases a.len(),
{
    if a.len() > 0 {
        lemma_attr_len(a.drop_last());
    }
}

/// The attributes of a span, none where it has none.
pub open spec fn attributes_of(e: Evt) -> Seq<(String, Option<String>)> {
    match e.attributes {
        Some(a) => a@,
        None => seq![],
    }
}

/// What an optional string column holds for an optional field.
pub open spec fn or_empty(s: Option<String>) -> Seq<char> {
    match s {
        Some(x) => x@,
        None => Seq::empty(),
    }
}

/// What an optional integer column holds for an optional field.
pub open spec fn or_zero(v: Option<i64>) -> i64 {
    match v {
        Some(x) => x,
        None => 0,
    }
}

/// The attribute entity: two string columns, name and value, both
/// required, and no other column.
pub open spec fn attribute_columns(c: ColumnSetView) -> bool {
    &&& c.i64_values.len() == 0
    &&& c.string_values.len() == 2
    &&& all_required(c.string_values)
    &&& only_i64_and_strings(c)
}

impl OpenTelemetryEvent for JsonTrace {
    open spec fn urn_spec() -> Seq<char> {
        "urn:project_a:trace:service"@
    }

    fn urn() -> (r: String) {
        "urn:project_a:trace:service".to_owned()
    }

    open spec fn declared_columns() -> ColumnLayout {
        ColumnLayout {
            i64_values: seq![("kind"@, true), ("status.code"@, true)],
            f64_values: Seq::empty(),
            string_values: seq![("trace_id"@, false), ("span_id"@, false), ("trace_state"@, true), ("parent_span_id"@, true), ("name"@, false), ("status.message"@, true)],
            bool_values: Seq::empty(),
            bytes_values: Seq::empty(),
            i64_summary_values: Seq::empty(),
            f64_summary_values: Seq::empty(),
        }
    }

    /// One entity of attributes, with string columns name and value.
    open spec fn declared_entities() -> Seq<EntityLayout> {
        seq![
            EntityLayout {
                schema_url: Seq::empty(),
                logical_type: ATTRIBUTE,
                parent_column: "attributes"@,
                columns: ColumnLayout {
            i64_values: Seq::empty(),
            f64_values: Seq::empty(),
            string_values: seq![("name"@, false), ("value"@, false)],
            bool_values: Seq::empty(),
            bytes_values: Seq::empty(),
            i64_summary_values: Seq::empty(),
            f64_summary_values: Seq::empty(),
        },
            },
        ]
    }

    /// Two optional integer columns (kind, status.code) and six string
    /// columns (trace_id, span_id, trace_state, parent_span_id, name,
    /// status.message) of which the third, fourth and sixth are optional.
    open spec fn fits_columns(c: ColumnSetView) -> bool {
        &&& c.i64_values.len() == 2
        &&& (c.i64_values[0].is_optional() || c.i64_values[0].values.len() == 0)
        &&& (c.i64_values[1].is_optional() || c.i64_values[1].values.len() == 0)
        &&& c.string_values.len() == 6
        &&& !c.string_values[0].is_optional()
        &&& !c.string_values[1].is_optional()
        &&& (c.string_values[2].is_optional() || c.string_values[2].values.len() == 0)
        &&& (c.string_values[3].is_optional() || c.string_values[3].values.len() == 0)
        &&& !c.string_values[4].is_optional()
        &&& (c.string_values[5].is_optional() || c.string_values[5].values.len() == 0)
        &&& only_i64_and_strings(c)
    }

    /// One entity, of attributes.
    open spec fn fits_entities(es: Seq<EntityView>) -> bool {
        es.len() == 1 && attribute_columns(es[0].columns)
    }

    fn columns(batch_policy: &BatchPolicy) -> (r: ColumnSet) {
        let n = batch_policy.max_size;
        let mut c = ColumnSet::empty();
        c.i64_values.push(Column::new_optional("kind", n));
        c.i64_values.push(Column::new_optional("status.code", n));
        c.string_values.push(Column::new_required("trace_id", n));
        c.string_values.push(Column::new_required("span_id", n));
        c.string_values.push(Column::new_optional("trace_state", n));
        c.string_values.push(Column::new_optional("parent_span_id", n));
        c.string_values.push(Column::new_required("name", n));
        c.string_values.push(Column::new_optional("status.message", n));
        proof {
            let v = c@;
            assert(v.string_values[0].validity_bitmap =~= Seq::<u8>::empty());
            assert(v.string_values[1].validity_bitmap =~= Seq::<u8>::empty());
            assert(v.string_values[4].validity_bitmap =~= Seq::<u8>::empty());
        }
        c
    }

    fn auxiliary_entities(batch_policy: &BatchPolicy) -> (r: Vec<AuxiliaryEntity>) {
        let n = batch_policy.max_size;
        let mut columns = ColumnSet::empty();
        columns.string_values.push(Column::new_required("name", n));
        columns.string_values.push(Column::new_required("value", n));
        let mut r = Vec::new();
        r.push(
            AuxiliaryEntity {
                schema_url: String::new(),
                logical_type: ATTRIBUTE,
                size: 0,
                parent_column: "attributes".to_owned(),
                parent_ranks: Vec::with_capacity(n as usize),
                columns,
            },
        );
        proof {
            let v = r@[0]@.columns;
            assert(v.string_values[0].validity_bitmap =~= Seq::<u8>::empty());
            assert(v.string_values[1].validity_bitmap =~= Seq::<u8>::empty());
            assert(r@[0]@.is_clear());
        }
        r
    }

    fn fits(batch: &BatchEvent) -> (r: bool) {
        let c = &batch.columns;
        if !(c.i64_values.len() == 2 && c.string_values.len() == 6 && c.f64_values.len() == 0
            && c.bool_values.len() == 0 && c.bytes_values.len() == 0
            && c.i64_summary_values.len() == 0 && c.f64_summary_values.len() == 0
            && batch.auxiliary_entities.len() == 1) {
            return false;
        }
        let a = &batch.auxiliary_entities[0].columns;
        (c.i64_values[0].validity_bitmap.len() > 0 || c.i64_values[0].values.len() == 0)
            && (c.i64_values[1].validity_bitmap.len() > 0 || c.i64_values[1].values.len() == 0)
            && c.string_values[0].validity_bitmap.len() == 0
            && c.string_values[1].validity_bitmap.len() == 0
            && (c.string_values[2].validity_bitmap.len() > 0 || c.string_values[2].values.len() == 0)
            && (c.string_values[3].validity_bitmap.len() > 0 || c.string_values[3].values.len() == 0)
            && c.string_values[4].validity_bitmap.len() == 0
            && (c.string_values[5].validity_bitmap.len() > 0 || c.string_values[5].values.len() == 0)
            && a.i64_values.len() == 0
            && a.string_values.len() == 2 && check_all_required(&a.string_values)
            && a.f64_values.len() == 0 && a.bool_values.len() == 0 && a.bytes_values.len() == 0
            && a.i64_summary_values.len() == 0 && a.f64_summary_values.len() == 0
    }

    proof fn lemma_fits_same_shape(a: BatchView, b: BatchView) {
        let (ca, cb) = (a.columns, b.columns);
        assert(cb.i64_values[0].same_shape(ca.i64_values[0]));
        assert(cb.i64_values[1].same_shape(ca.i64_values[1]));
        assert(forall|i: int| 0 <= i < 6 ==> (#[trigger] cb.string_values[i]).same_shape(ca.string_values[i]));
        let (ea, eb) = (a.auxiliary_entities[0].columns, b.auxiliary_entities[0].columns);
        assert(b.auxiliary_entities[0].same_shape(a.auxiliary_entities[0]));
        assert forall|i: int| 0 <= i < eb.string_values.len() implies !(
        #[trigger] eb.string_values[i]).is_optional() by {
            assert(eb.string_values[i].same_shape(ea.string_values[i]));
        }
    }

    /// Room in the attribute entity for every attribute of the span.
    open spec fn fits_in(&self, batch: BatchView) -> bool {
        match self.evt.attributes {
            None => true,
            Some(a) => batch.auxiliary_entities.len() >= 1 && batch.auxiliary_entities[0].size
                + a@.len() <= u32::MAX,
        }
    }

    fn can_record(&self, batch: &BatchEvent) -> (r: bool) {
        match &self.evt.attributes {
            None => true,
            Some(a) => batch.auxiliary_entities.len() >= 1 && (a.len() as u64) <= (u32::MAX as u64)
                - (batch.auxiliary_entities[0].size as u64),
        }
    }

    /// The new row holds the span's fields, an absent optional field as an
    /// absent slot (0 or the empty string), and the attribute entity gains
    /// the span's valued attributes, in order.
    open spec fn row_written(&self, before: BatchView, after: BatchView) -> bool {
        let n = before.size as int;
        let e = self.evt;
        let i = after.columns.i64_values;
        let s = after.columns.string_values;
        let a0 = before.auxiliary_entities[0];
        let a1 = after.auxiliary_entities[0];
        let attrs = attributes_of(e);
        &&& after.start_time_unix_nano_column[n] == e.start_time_unix_nano
        &&& after.end_time_unix_nano_column[n] == e.end_time_unix_nano
        &&& i[0].values[n] == or_zero(e.kind) && i[0].present(n) == e.kind is Some
        &&& i[1].values[n] == or_zero(e.status.code) && i[1].present(n) == e.status.code is Some
        &&& s[0].values[n] == e.trace_id@
        &&& s[1].values[n] == e.span_id@
        &&& s[2].values[n] == or_empty(e.trace_state) && s[2].present(n) == e.trace_state is Some
        &&& s[3].values[n] == or_empty(e.parent_span_id) && s[3].present(n)
            == e.parent_span_id is Some
        &&& s[4].values[n] == e.name@
        &&& s[5].values[n] == or_empty(e.status.message) && s[5].present(n)
            == e.status.message is Some
        &&& a1.size == a0.size + attr_names(attrs).len()
        &&& a1.columns.string_values[0].values == a0.columns.string_values[0].values + attr_names(
            attrs,
        )
        &&& a1.columns.string_values[1].values == a0.columns.string_values[1].values
            + attr_values(attrs)
    }

    fn record_into(self, batch: &mut BatchEvent) {
        let ghost before = batch@;
        let evt = self.evt;
        proof {
            assert(before.columns.i64_values[0] == batch.columns.i64_values@[0]@);
            assert(before.columns.i64_values[1] == batch.columns.i64_values@[1]@);
            assert(forall|i: int|
                0 <= i < 6 ==> before.columns.string_values[i] == (
                #[trigger] batch.columns.string_values@[i])@);
        }
        batch.start_time_unix_nano_column.push(evt.start_time_unix_nano);
        batch.end_time_unix_nano_column.push(evt.end_time_unix_nano);
        batch.columns.i64_values[0].push_optional(evt.kind, 0);
        batch.columns.i64_values[1].push_optional(evt.status.code, 0);
        batch.columns.string_values[0].push_value(evt.trace_id);
        batch.columns.string_values[1].push_value(evt.span_id);
        batch.columns.string_values[2].push_optional(evt.trace_state, String::new());
        batch.columns.string_values[3].push_optional(evt.parent_span_id, String::new());
        batch.columns.string_values[4].push_value(evt.name);
        batch.columns.string_values[5].push_optional(evt.status.message, String::new());
        batch.size = batch.size + 1;
        proof {
            let after = batch@;
            assert(after.start_time_unix_nano_column.take(before.size as int)
                =~= before.start_time_unix_nano_column);
            assert(after.end_time_unix_nano_column.take(before.size as int)
                =~= before.end_time_unix_nano_column);
            assert(after.auxiliary_entities =~= before.auxiliary_entities);
        }
        match evt.attributes {
            None => {
                proof {
                    let a0 = before.auxiliary_entities[0];
                    assert(a0.parent_ranks.take(a0.size as int) =~= a0.parent_ranks);
                    a0.lemma_same_shape_refl();
                    assert(a0.columns.string_values[0].values + seq![] =~= a0.columns.string_values[0].values);
                    assert(a0.columns.string_values[1].values + seq![] =~= a0.columns.string_values[1].values);
                }
            },
            Some(attrs) => {
                let rank = batch.size - 1;
                let ghost mid = batch@;
                let mut aux = batch.auxiliary_entities.remove(0);
                let ghost a0 = aux@;
                proof {
                    assert(a0 == before.auxiliary_entities[0]);
                    assert(aux.columns.string_values@[0]@ == a0.columns.string_values[0]);
                    assert(aux.columns.string_values@[1]@ == a0.columns.string_values[1]);
                }
                let mut i: usize = 0;
                while i < attrs.len()
                    invariant
                        0 <= i <= attrs@.len(),
                        rank == before.size,
                        a0.wf(before.size as nat),
                        attribute_columns(a0.columns),
                        a0.size + attrs@.len() <= u32::MAX,
                        aux@.same_shape(a0),
                        aux@.wf((before.size + 1) as nat),
                        aux@.size == a0.size + attr_names(attrs@.take(i as int)).len(),
                        aux@.parent_ranks.take(a0.size as int) == a0.parent_ranks,
                        forall|j: int| a0.size <= j < aux@.size ==> #[trigger] aux@.parent_ranks[j] == rank,
                        aux@.columns.string_values[0].values == a0.columns.string_values[0].values
                            + attr_names(attrs@.take(i as int)),
                        aux@.columns.string_values[1].values == a0.columns.string_values[1].values
                            + attr_values(attrs@.take(i as int)),
                    decreases attrs@.len() - i,
                {
                    proof {
                        lemma_attr_len(attrs@.take(i as int));
                        let t = attrs@.take(i + 1);
                        assert(t.drop_last() =~= attrs@.take(i as int));
                        assert(t.last() == attrs@[i as int]);
                    }
                    match &attrs[i].1 {
                        Some(v) => {
                            let ghost pre = aux@;
                            proof {
                                assert(!pre.columns.string_values[0].is_optional());
                                assert(!pre.columns.string_values[1].is_optional());
                                assert(aux.columns.string_values@[0]@ == pre.columns.string_values[0]);
                                assert(aux.columns.string_values@[1]@ == pre.columns.string_values[1]);
                            }
                            aux.parent_ranks.push(rank);
                            aux.columns.string_values[0].push_value(attrs[i].0.clone());
                            aux.columns.string_values[1].push_value(v.clone());
                            aux.size = aux.size + 1;
                            proof {
                                let post = aux@;
                                let t = attrs@.take(i + 1);
                                assert(t.last().1 == Some(*v));
                                assert(attr_names(t) == attr_names(attrs@.take(i as int)).push(attrs@[i as int].0@));
                                assert(attr_values(t) == attr_values(attrs@.take(i as int)).push(v@));
                                assert(post.columns.string_values[0].values =~= pre.columns.string_values[0].values.push(attrs@[i as int].0@));
                                assert(post.columns.string_values[1].values =~= pre.columns.string_values[1].values.push(v@));
                                assert(post.parent_ranks.take(a0.size as int) =~= a0.parent_ranks);
                                assert(post.columns.string_values[0].values =~= a0.columns.string_values[0].values
                                    + attr_names(attrs@.take(i + 1)));
                                assert(post.columns.string_values[1].values =~= a0.columns.string_values[1].values
                                    + attr_values(attrs@.take(i + 1)));
                                assert forall|p: int, q: int| 0 <= p <= q < post.parent_ranks.len()
                                    implies post.parent_ranks[p] <= post.parent_ranks[q] by {
                                    if q >= pre.parent_ranks.len() {
                                        if p < a0.size {
                                            assert(a0.parent_ranks[p] < before.size);
                                        }
                                    }
                                }
                                assert(post.columns.wf(post.size as nat));
                            }
                        },
                        None => {},
                    }
                    i += 1;
                }
                proof {
                    assert(attrs@.take(attrs@.len() as int) =~= attrs@);
                }
                batch.auxiliary_entities.insert(0, aux);
                proof {
                    assert(batch@.auxiliary_entities =~= mid.auxiliary_entities.update(0, aux@));
                }
            },
        }
    }
}

} // verus!
