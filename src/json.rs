//! The JSON-shaped projection of a handler's batches, for inspection: one
//! row per batch row, with its present values and, under each parent
//! column, the child rows of each auxiliary entity that names it.
use crate::batch::{BatchEvent, BatchView, ColumnSet, ColumnSetView, EntityView, AuxiliaryEntity};
use crate::bitmap::{bitmap_len, is_valid_value};
use crate::column::{views, ColumnView, F64Bits};
use crate::envelope::{ResourceEvents, ResourceEventsView};
use crate::validate::batch_wf;
use vstd::prelude::*;

verus! {

/// A scalar JSON value.
#[derive(Debug, Clone, PartialEq)]
pub enum JsonScalar {
    Bool(bool),
    Int(i64),
    UInt(u64),
    /// A finite double, by its bit pattern.
    Double(F64Bits),
    Str(String),
}

/// A JSON object of scalar members, in order.
#[derive(Debug, Clone, PartialEq)]
pub struct JsonRecord {
    pub entries: Vec<(String, JsonScalar)>,
}

/// The JSON object of one batch row: its scalar members, then one array
/// of child objects per parent column that has children.
#[derive(Debug, Clone, PartialEq)]
pub struct JsonRow {
    pub entries: Vec<(String, JsonScalar)>,
    pub children: Vec<(String, Vec<JsonRecord>)>,
}

pub ghost enum ScalarView {
    Bool(bool),
    Int(i64),
    UInt(u64),
    Double(u64),
    Str(Seq<char>),
}

pub type EntryView = (Seq<char>, ScalarView);

pub ghost struct RowView {
    pub entries: Seq<EntryView>,
    pub children: Seq<(Seq<char>, Seq<Seq<EntryView>>)>,
}

impl View for JsonScalar {
    type V = ScalarView;

    open spec fn view(&self) -> ScalarView {
        match self {
            JsonScalar::Bool(b) => ScalarView::Bool(*b),
            JsonScalar::Int(i) => ScalarView::Int(*i),
            JsonScalar::UInt(u) => ScalarView::UInt(*u),
            JsonScalar::Double(d) => ScalarView::Double(d.0),
            JsonScalar::Str(s) => ScalarView::Str(s@),
        }
    }
}

pub open spec fn entries_view(v: Seq<(String, JsonScalar)>) -> Seq<EntryView> {
    Seq::new(v.len(), |i: int| (v[i].0@, v[i].1@))
}

impl View for JsonRecord {
    type V = Seq<EntryView>;

    open spec fn view(&self) -> Seq<EntryView> {
        entries_view(self.entries@)
    }
}

pub open spec fn records_view(v: Seq<JsonRecord>) -> Seq<Seq<EntryView>> {
    Seq::new(v.len(), |i: int| v[i]@)
}

impl View for JsonRow {
    type V = RowView;

    open spec fn view(&self) -> RowView {
        RowView {
            entries: entries_view(self.entries@),
            children: Seq::new(
                self.children@.len(),
                |i: int| (self.children@[i].0@, records_view(self.children@[i].1@)),
            ),
        }
    }
}

pub open spec fn rows_view(v: Seq<JsonRow>) -> Seq<RowView> {
    Seq::new(v.len(), |i: int| v[i]@)
}

/// A double whose exponent bits are not all set: neither infinite nor NaN.
pub open spec fn finite(bits: u64) -> bool {
    (bits >> 52u64) & 0x7ffu64 != 0x7ffu64
}

/// The members that the i64 columns give row `r`.
pub open spec fn i64_entries(cols: Seq<ColumnView<i64>>, r: int) -> Seq<EntryView>
    decreases cols.len(),
{
    if cols.len() == 0 {
        seq![]
    } else {
        let p = i64_entries(cols.drop_last(), r);
        let c = cols.last();
        if c.present(r) {
            p.push((c.name, ScalarView::Int(c.values[r])))
        } else {
            p
        }
    }
}

fn push_i64_entries(out: &mut Vec<(String, JsonScalar)>, cols: &Vec<crate::column::Column<i64>>, r: usize, n: Ghost<nat>)
    requires
        ColumnView::all_wf(views(cols@), n@),
        r < n@,
    ensures
        entries_view(final(out)@) == entries_view(old(out)@) + i64_entries(views(cols@), r as int),
{
    let ghost cv = views(cols@);
    assert(cv.take(0) =~= Seq::<ColumnView<i64>>::empty());
    assert(entries_view(out@) =~= entries_view(old(out)@) + i64_entries(cv.take(0), r as int));
    let mut i: usize = 0;
    while i < cols.len()
        invariant
            i <= cols@.len(),
            cv == views(cols@),
            ColumnView::all_wf(cv, n@),
            r < n@,
            entries_view(out@) == entries_view(old(out)@) + i64_entries(cv.take(i as int), r as int),
        decreases cols@.len() - i,
    {
        let c = &cols[i];
        proof {
            assert(cv[i as int].wf(n@));
            assert(cv.take(i + 1).drop_last() =~= cv.take(i as int));
            assert(cv.take(i + 1).last() == cv[i as int]);
            if c.validity_bitmap@.len() > 0 {
                assert(r / 8 < bitmap_len(n@)) by (nonlinear_arith)
                    requires
                        r < n@,
                ;
            }
        }
        if c.validity_bitmap.len() == 0 || is_valid_value(&c.validity_bitmap, r) {
            let ghost pre = out@;
            out.push((c.name.clone(), JsonScalar::Int(c.values[r])));
            assert(entries_view(out@) =~= entries_view(pre).push((c.name@, ScalarView::Int(cv[i as int].values[r as int]))));
        }
        i += 1;
    }
    assert(cv.take(cols@.len() as int) =~= cv);
}

/// The members that the f64 columns give row `r`.
pub open spec fn f64_entries(cols: Seq<ColumnView<u64>>, r: int) -> Seq<EntryView>
    decreases cols.len(),
{
    if cols.len() == 0 {
        seq![]
    } else {
        let p = f64_entries(cols.drop_last(), r);
        let c = cols.last();
        if c.present(r) && finite(c.values[r]) {
            p.push((c.name, ScalarView::Double(c.values[r])))
        } else {
            p
        }
    }
}

fn push_f64_entries(out: &mut Vec<(String, JsonScalar)>, cols: &Vec<crate::column::Column<F64Bits>>, r: usize, n: Ghost<nat>)
    requires
        ColumnView::all_wf(views(cols@), n@),
        r < n@,
    ensures
        entries_view(final(out)@) == entries_view(old(out)@) + f64_entries(views(cols@), r as int),
{
    let ghost cv = views(cols@);
    assert(cv.take(0) =~= Seq::<ColumnView<u64>>::empty());
    assert(entries_view(out@) =~= entries_view(old(out)@) + f64_entries(cv.take(0), r as int));
    let mut i: usize = 0;
    while i < cols.len()
        invariant
            i <= cols@.len(),
            cv == views(cols@),
            ColumnView::all_wf(cv, n@),
            r < n@,
            entries_view(out@) == entries_view(old(out)@) + f64_entries(cv.take(i as int), r as int),
        decreases cols@.len() - i,
    {
        let c = &cols[i];
        proof {
            assert(cv[i as int].wf(n@));
            assert(cv.take(i + 1).drop_last() =~= cv.take(i as int));
            assert(cv.take(i + 1).last() == cv[i as int]);
            if c.validity_bitmap@.len() > 0 {
                assert(r / 8 < bitmap_len(n@)) by (nonlinear_arith)
                    requires
                        r < n@,
                ;
            }
        }
        if (c.validity_bitmap.len() == 0 || is_valid_value(&c.validity_bitmap, r)) && (c.values[r].0 >> 52u64) & 0x7ffu64 != 0x7ffu64 {
            let ghost pre = out@;
            out.push((c.name.clone(), JsonScalar::Double(c.values[r])));
            assert(entries_view(out@) =~= entries_view(pre).push((c.name@, ScalarView::Double(cv[i as int].values[r as int]))));
        }
        i += 1;
    }
    assert(cv.take(cols@.len() as int) =~= cv);
}

/// The members that the string columns give row `r`.
pub open spec fn string_entries(cols: Seq<ColumnView<Seq<char>>>, r: int) -> Seq<EntryView>
    decreases cols.len(),
{
    if cols.len() == 0 {
        seq![]
    } else {
        let p = string_entries(cols.drop_last(), r);
        let c = cols.last();
        if c.present(r) {
            p.push((c.name, ScalarView::Str(c.values[r])))
        } else {
            p
        }
    }
}

fn push_string_entries(out: &mut Vec<(String, JsonScalar)>, cols: &Vec<crate::column::Column<String>>, r: usize, n: Ghost<nat>)
    requires
        ColumnView::all_wf(views(cols@), n@),
        r < n@,
    ensures
        entries_view(final(out)@) == entries_view(old(out)@) + string_entries(views(cols@), r as int),
{
    let ghost cv = views(cols@);
    assert(cv.take(0) =~= Seq::<ColumnView<Seq<char>>>::empty());
    assert(entries_view(out@) =~= entries_view(old(out)@) + string_entries(cv.take(0), r as int));
    let mut i: usize = 0;
    while i < cols.len()
        invariant
            i <= cols@.len(),
            cv == views(cols@),
            ColumnView::all_wf(cv, n@),
            r < n@,
            entries_view(out@) == entries_view(old(out)@) + string_entries(cv.take(i as int), r as int),
        decreases cols@.len() - i,
    {
        let c = &cols[i];
        proof {
            assert(cv[i as int].wf(n@));
            assert(cv.take(i + 1).drop_last() =~= cv.take(i as int));
            assert(cv.take(i + 1).last() == cv[i as int]);
            if c.validity_bitmap@.len() > 0 {
                assert(r / 8 < bitmap_len(n@)) by (nonlinear_arith)
                    requires
                        r < n@,
                ;
            }
        }
        if c.validity_bitmap.len() == 0 || is_valid_value(&c.validity_bitmap, r) {
            let ghost pre = out@;
            out.push((c.name.clone(), JsonScalar::Str(c.values[r].clone())));
            assert(entries_view(out@) =~= entries_view(pre).push((c.name@, ScalarView::Str(cv[i as int].values[r as int]))));
        }
        i += 1;
    }
    assert(cv.take(cols@.len() as int) =~= cv);
}

/// The members that the bool columns give row `r`.
pub open spec fn bool_entries(cols: Seq<ColumnView<bool>>, r: int) -> Seq<EntryView>
    decreases cols.len(),
{
    if cols.len() == 0 {
        seq![]
    } else {
        let p = bool_entries(cols.drop_last(), r);
        let c = cols.last();
        if c.present(r) {
            p.push((c.name, ScalarView::Bool(c.values[r])))
        } else {
            p
        }
    }
}

fn push_bool_entries(out: &mut Vec<(String, JsonScalar)>, cols: &Vec<crate::column::Column<bool>>, r: usize, n: Ghost<nat>)
    requires
        ColumnView::all_wf(views(cols@), n@),
        r < n@,
    ensures
        entries_view(final(out)@) == entries_view(old(out)@) + bool_entries(views(cols@), r as int),
{
    let ghost cv = views(cols@);
    assert(cv.take(0) =~= Seq::<ColumnView<bool>>::empty());
    assert(entries_view(out@) =~= entries_view(old(out)@) + bool_entries(cv.take(0), r as int));
    let mut i: usize = 0;
    while i < cols.len()
        invariant
            i <= cols@.len(),
            cv == views(cols@),
            ColumnView::all_wf(cv, n@),
            r < n@,
            entries_view(out@) == entries_view(old(out)@) + bool_entries(cv.take(i as int), r as int),
        decreases cols@.len() - i,
    {
        let c = &cols[i];
        proof {
            assert(cv[i as int].wf(n@));
            assert(cv.take(i + 1).drop_last() =~= cv.take(i as int));
            assert(cv.take(i + 1).last() == cv[i as int]);
            if c.validity_bitmap@.len() > 0 {
                assert(r / 8 < bitmap_len(n@)) by (nonlinear_arith)
                    requires
                        r < n@,
                ;
            }
        }
        if c.validity_bitmap.len() == 0 || is_valid_value(&c.validity_bitmap, r) {
            let ghost pre = out@;
            out.push((c.name.clone(), JsonScalar::Bool(c.values[r])));
            assert(entries_view(out@) =~= entries_view(pre).push((c.name@, ScalarView::Bool(cv[i as int].values[r as int]))));
        }
        i += 1;
    }
    assert(cv.take(cols@.len() as int) =~= cv);
}

/// The members that the columns give row `r`, by kind: integers, doubles
/// (finite ones only), strings, booleans; in each kind, column order.
pub open spec fn record_entries(cs: ColumnSetView, r: int) -> Seq<EntryView> {
    i64_entries(cs.i64_values, r) + f64_entries(cs.f64_values, r) + string_entries(cs.string_values, r)
        + bool_entries(cs.bool_values, r)
}

fn record_of(cs: &ColumnSet, r: usize, n: Ghost<nat>) -> (out: Vec<(String, JsonScalar)>)
    requires
        cs@.wf(n@),
        r < n@,
    ensures
        entries_view(out@) == record_entries(cs@, r as int),
{
    let mut out: Vec<(String, JsonScalar)> = Vec::new();
    assert(entries_view(out@) =~= Seq::<EntryView>::empty());
    push_i64_entries(&mut out, &cs.i64_values, r, n);
    push_f64_entries(&mut out, &cs.f64_values, r, n);
    push_string_entries(&mut out, &cs.string_values, r, n);
    push_bool_entries(&mut out, &cs.bool_values, r, n);
    assert(entries_view(out@) =~= record_entries(cs@, r as int));
    out
}

/// The child records of row `r` among the first `m` child rows of `e`.
pub open spec fn child_records(e: EntityView, r: int, m: nat) -> Seq<Seq<EntryView>>
    decreases m,
{
    if m == 0 {
        seq![]
    } else {
        let p = child_records(e, r, (m - 1) as nat);
        if e.parent_ranks[m - 1] == r {
            p.push(record_entries(e.columns, m - 1))
        } else {
            p
        }
    }
}

/// One array per entity, in entity order, for the entities that have
/// child rows of row `r`, under the entity's parent column.
pub open spec fn row_children(es: Seq<EntityView>, r: int) -> Seq<(Seq<char>, Seq<Seq<EntryView>>)>
    decreases es.len(),
{
    if es.len() == 0 {
        seq![]
    } else {
        let p = row_children(es.drop_last(), r);
        let e = es.last();
        let recs = child_records(e, r, e.size as nat);
        if recs.len() > 0 {
            p.push((e.parent_column, recs))
        } else {
            p
        }
    }
}

/// The object of row `r` of a batch.
pub open spec fn row_json(b: BatchView, r: int) -> RowView {
    RowView {
        entries: seq![
            ("@schema_url"@, ScalarView::Str(b.schema_url)),
            ("@start_time_unix_nano"@, ScalarView::UInt(b.start_time_unix_nano_column[r])),
            ("@end_time_unix_nano"@, ScalarView::UInt(b.end_time_unix_nano_column[r])),
        ] + record_entries(b.columns, r),
        children: row_children(b.auxiliary_entities, r),
    }
}

/// The objects of the rows of a batch; a malformed batch gives none.
pub open spec fn batch_json(b: BatchView) -> Seq<RowView> {
    if b.wf() {
        Seq::new(b.size as nat, |r: int| row_json(b, r))
    } else {
        seq![]
    }
}

/// The objects of the rows of the batches, in order.
pub open spec fn batches_json(bs: Seq<BatchView>) -> Seq<RowView>
    decreases bs.len(),
{
    if bs.len() == 0 {
        seq![]
    } else {
        batches_json(bs.drop_last()) + batch_json(bs.last())
    }
}

/// The projection of a whole message: the rows of every batch of every
/// library, in order.
pub open spec fn to_json(re: ResourceEventsView) -> Seq<RowView>
    decreases re.instrumentation_library_events.len(),
{
    if re.instrumentation_library_events.len() == 0 {
        seq![]
    } else {
        to_json(
            ResourceEventsView {
                instrumentation_library_events: re.instrumentation_library_events.drop_last(),
                ..re
            },
        ) + batches_json(re.instrumentation_library_events.last().batches)
    }
}

fn children_of(e: &AuxiliaryEntity, r: u32, parent_size: Ghost<nat>) -> (out: Vec<JsonRecord>)
    requires
        e@.wf(parent_size@),
    ensures
        records_view(out@) == child_records(e@, r as int, e@.size as nat),
{
    let mut out: Vec<JsonRecord> = Vec::new();
    let n = e.size as usize;
    assert(records_view(out@) =~= Seq::<Seq<EntryView>>::empty());
    let mut j: usize = 0;
    while j < n
        invariant
            j <= n,
            n == e@.size,
            e@.wf(parent_size@),
            records_view(out@) == child_records(e@, r as int, j as nat),
        decreases n - j,
    {
        if e.parent_ranks[j] == r {
            let entries = record_of(&e.columns, j, Ghost(e@.size as nat));
            let ghost pre = out@;
            out.push(JsonRecord { entries });
            assert(records_view(out@) =~= records_view(pre).push(record_entries(e@.columns, j as int)));
        }
        j += 1;
    }
    out
}

fn row_of(b: &BatchEvent, r: usize) -> (row: JsonRow)
    requires
        b@.wf(),
        r < b@.size,
    ensures
        row@ == row_json(b@, r as int),
{
    let mut entries: Vec<(String, JsonScalar)> = Vec::new();
    entries.push(("@schema_url".to_owned(), JsonScalar::Str(b.schema_url.clone())));
    entries.push(("@start_time_unix_nano".to_owned(), JsonScalar::UInt(b.start_time_unix_nano_column[r])));
    entries.push(("@end_time_unix_nano".to_owned(), JsonScalar::UInt(b.end_time_unix_nano_column[r])));
    let ghost head = entries@;
    let rest = record_of(&b.columns, r, Ghost(b@.size as nat));
    let mut all = entries;
    let mut rest = rest;
    all.append(&mut rest);
    assert(entries_view(all@) =~= entries_view(head) + record_entries(b@.columns, r as int));
    let mut children: Vec<(String, Vec<JsonRecord>)> = Vec::new();
    let ghost ev = b@.auxiliary_entities;
    let ghost cview = |v: Seq<(String, Vec<JsonRecord>)>| Seq::new(v.len(), |i: int| (v[i].0@, records_view(v[i].1@)));
    assert(ev.take(0) =~= Seq::<EntityView>::empty());
    assert(cview(children@) =~= row_children(ev.take(0), r as int));
    let mut k: usize = 0;
    while k < b.auxiliary_entities.len()
        invariant
            k <= ev.len(),
            ev == b@.auxiliary_entities,
            b@.wf(),
            r < b@.size,
            cview == (|v: Seq<(String, Vec<JsonRecord>)>| Seq::new(v.len(), |i: int| (v[i].0@, records_view(v[i].1@)))),
            cview(children@) == row_children(ev.take(k as int), r as int),
        decreases ev.len() - k,
    {
        let e = &b.auxiliary_entities[k];
        proof {
            assert(ev[k as int] == e@);
            assert(ev.take(k + 1).drop_last() =~= ev.take(k as int));
            assert(ev.take(k + 1).last() == e@);
        }
        let recs = children_of(e, r as u32, Ghost(b@.size as nat));
        if recs.len() > 0 {
            let ghost pre = children@;
            children.push((e.parent_column.clone(), recs));
            assert(cview(children@) =~= cview(pre).push((e@.parent_column, child_records(e@, r as int, e@.size as nat))));
        }
        k += 1;
    }
    assert(ev.take(ev.len() as int) =~= ev);
    let row = JsonRow { entries: all, children };
    assert(row@.entries == row_json(b@, r as int).entries) by {
        assert(entries_view(head) =~= row_json(b@, r as int).entries.take(3));
        assert(row_json(b@, r as int).entries =~= row_json(b@, r as int).entries.take(3) + record_entries(b@.columns, r as int));
    }
    assert(row@.children =~= cview(children@));
    row
}

/// Appends the objects of the rows of a batch; a malformed batch adds none.
fn push_batch_rows(out: &mut Vec<JsonRow>, b: &BatchEvent)
    ensures
        rows_view(final(out)@) == rows_view(old(out)@) + batch_json(b@),
{
    if !batch_wf(b) {
        assert(rows_view(out@) =~= rows_view(old(out)@) + batch_json(b@));
        return;
    }
    let n = b.size as usize;
    let mut r: usize = 0;
    assert(rows_view(out@) =~= rows_view(old(out)@) + batch_json(b@).take(0));
    while r < n
        invariant
            r <= n,
            n == b@.size,
            b@.wf(),
            batch_json(b@).len() == n,
            rows_view(out@) == rows_view(old(out)@) + batch_json(b@).take(r as int),
        decreases n - r,
    {
        let row = row_of(b, r);
        let ghost pre = out@;
        let ghost rv = row@;
        out.push(row);
        assert(batch_json(b@)[r as int] == row_json(b@, r as int));
        assert(rows_view(out@) =~= rows_view(pre).push(rv));
        assert(batch_json(b@).take(r + 1) =~= batch_json(b@).take(r as int).push(rv));
        assert(rows_view(out@) =~= rows_view(old(out)@) + batch_json(b@).take(r + 1));
        r += 1;
    }
    assert(batch_json(b@).take(n as int) =~= batch_json(b@));
}

/// The JSON-shaped projection of a message: one object per row of every
/// batch, in order.
pub fn json_rows(re: &ResourceEvents) -> (out: Vec<JsonRow>)
    ensures
        rows_view(out@) == to_json(re@),
{
    let mut out: Vec<JsonRow> = Vec::new();
    let ghost lv = re@.instrumentation_library_events;
    assert(rows_view(out@) =~= Seq::<RowView>::empty());
    assert(lv.take(0) =~= Seq::<crate::envelope::LibraryEventsView>::empty());
    assert(to_json(ResourceEventsView { instrumentation_library_events: lv.take(0), ..re@ }) == Seq::<RowView>::empty());
    let mut i: usize = 0;
    while i < re.instrumentation_library_events.len()
        invariant
            i <= lv.len(),
            lv == re@.instrumentation_library_events,
            rows_view(out@) == to_json(ResourceEventsView { instrumentation_library_events: lv.take(i as int), ..re@ }),
        decreases lv.len() - i,
    {
        let lib = &re.instrumentation_library_events[i];
        let ghost bv = lib@.batches;
        let ghost start = rows_view(out@);
        assert(bv.take(0) =~= Seq::<BatchView>::empty());
        assert(rows_view(out@) =~= start + batches_json(bv.take(0)));
        let mut j: usize = 0;
        while j < lib.batches.len()
            invariant
                j <= bv.len(),
                bv == lib@.batches,
                rows_view(out@) == start + batches_json(bv.take(j as int)),
            decreases bv.len() - j,
        {
            push_batch_rows(&mut out, &lib.batches[j]);
            proof {
                assert(bv.take(j + 1).drop_last() =~= bv.take(j as int));
                assert(bv.take(j + 1).last() == lib.batches@[j as int]@);
                assert(rows_view(out@) =~= start + batches_json(bv.take(j + 1)));
            }
            j += 1;
        }
        proof {
            assert(bv.take(bv.len() as int) =~= bv);
            let nxt = ResourceEventsView { instrumentation_library_events: lv.take(i + 1), ..re@ };
            assert(nxt.instrumentation_library_events.drop_last() =~= lv.take(i as int));
            assert(nxt.instrumentation_library_events.last() == lib@);
        }
        i += 1;
    }
    proof {
        assert(lv.take(lv.len() as int) =~= lv);
        assert(ResourceEventsView { instrumentation_library_events: lv, ..re@ } == re@);
    }
    out
}

} // verus!
