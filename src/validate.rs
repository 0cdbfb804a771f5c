//! Checks that a batch read from outside is well formed.
use crate::batch::{entity_views, non_decreasing, AuxiliaryEntity, BatchEvent, ColumnSet};
use crate::bitmap::bitmap_len;
use crate::column::{views, Column, ColumnView};
use crate::envelope::{ResourceEvents, ResourceEventsView};
use vstd::prelude::*;

verus! {

/// Whether every column holds `n` values and, if optional, a bitmap over
/// at least `n` slots.
pub fn columns_wf<V: DeepView>(cols: &Vec<Column<V>>, n: usize) -> (r: bool)
    ensures
        r == ColumnView::all_wf(views(cols@), n as nat),
{
    let need: usize = n / 8 + if n % 8 > 0 { 1 } else { 0 };
    assert(need == bitmap_len(n as nat));
    let mut i: usize = 0;
    while i < cols.len()
        invariant
            i <= cols@.len(),
            need == bitmap_len(n as nat),
            forall|j: int| 0 <= j < i ==> (#[trigger] views(cols@)[j]).wf(n as nat),
        decreases cols@.len() - i,
    {
        let c = &cols[i];
        if !(c.values.len() == n && (c.validity_bitmap.len() == 0 || c.validity_bitmap.len() >= need)) {
            assert(!views(cols@)[i as int].wf(n as nat));
            return false;
        }
        i += 1;
    }
    true
}

pub fn colset_wf(cs: &ColumnSet, n: usize) -> (r: bool)
    ensures
        r == cs@.wf(n as nat),
{
    columns_wf(&cs.i64_values, n) && columns_wf(&cs.f64_values, n) && columns_wf(&cs.string_values, n)
        && columns_wf(&cs.bool_values, n) && columns_wf(&cs.bytes_values, n) && columns_wf(
        &cs.i64_summary_values,
        n,
    ) && columns_wf(&cs.f64_summary_values, n)
}

/// Whether an entity is well formed against a parent of `parent_size` rows.
pub fn entity_wf(e: &AuxiliaryEntity, parent_size: u32) -> (r: bool)
    ensures
        r == e@.wf(parent_size as nat),
{
    if e.parent_ranks.len() != e.size as usize {
        return false;
    }
    if !colset_wf(&e.columns, e.size as usize) {
        return false;
    }
    let rs = &e.parent_ranks;
    let mut k: usize = 0;
    while k < rs.len()
        invariant
            k <= rs@.len(),
            rs@ == e@.parent_ranks,
            forall|p: int, q: int| 0 <= p <= q < k ==> rs@[p] <= rs@[q],
            forall|j: int| 0 <= j < k ==> #[trigger] rs@[j] < parent_size,
        decreases rs@.len() - k,
    {
        if rs[k] >= parent_size {
            assert(e@.parent_ranks[k as int] >= parent_size);
            return false;
        }
        if k > 0 && rs[k - 1] > rs[k] {
            assert(e@.parent_ranks[k - 1] > e@.parent_ranks[k as int]);
            assert(!non_decreasing(e@.parent_ranks));
            return false;
        }
        k += 1;
    }
    true
}

/// Whether a batch is well formed.
pub fn batch_wf(b: &BatchEvent) -> (r: bool)
    ensures
        r == b@.wf(),
{
    let n = b.size as usize;
    if b.start_time_unix_nano_column.len() != n || b.end_time_unix_nano_column.len() != n {
        return false;
    }
    if !colset_wf(&b.columns, n) {
        return false;
    }
    let mut k: usize = 0;
    while k < b.auxiliary_entities.len()
        invariant
            k <= b.auxiliary_entities@.len(),
            n == b.size,
            forall|j: int| 0 <= j < k ==> (#[trigger] entity_views(b.auxiliary_entities@)[j]).wf(n as nat),
        decreases b.auxiliary_entities@.len() - k,
    {
        if !entity_wf(&b.auxiliary_entities[k], b.size) {
            assert(!entity_views(b.auxiliary_entities@)[k as int].wf(n as nat));
            assert(b@.auxiliary_entities[k as int] == entity_views(b.auxiliary_entities@)[k as int]);
            assert(!b@.auxiliary_entities[k as int].wf(b@.size as nat));
            return false;
        }
        k += 1;
    }
    true
}


/// Every batch of every library is well formed.
pub open spec fn all_batches_wf(v: ResourceEventsView) -> bool {
    forall|i: int, j: int|
        0 <= i < v.instrumentation_library_events.len() && 0 <= j
            < v.instrumentation_library_events[i].batches.len()
            ==> (#[trigger] v.instrumentation_library_events[i].batches[j]).wf()
}

/// Whether every batch of every library is well formed.
pub fn check_all_batches(re: &ResourceEvents) -> (r: bool)
    ensures
        r == all_batches_wf(re@),
{
    let ghost v = re@;
    let mut i: usize = 0;
    while i < re.instrumentation_library_events.len()
        invariant
            i <= re.instrumentation_library_events@.len(),
            v == re@,
            forall|a: int, j: int|
                0 <= a < i && 0 <= j < v.instrumentation_library_events[a].batches.len()
                    ==> (#[trigger] v.instrumentation_library_events[a].batches[j]).wf(),
        decreases re.instrumentation_library_events@.len() - i,
    {
        let lib = &re.instrumentation_library_events[i];
        assert(v.instrumentation_library_events[i as int] == lib@);
        let mut j: usize = 0;
        while j < lib.batches.len()
            invariant
                j <= lib.batches@.len(),
                v == re@,
                v.instrumentation_library_events[i as int] == lib@,
                i < v.instrumentation_library_events.len(),
                forall|a: int, k: int|
                    0 <= a < i && 0 <= k < v.instrumentation_library_events[a].batches.len()
                        ==> (#[trigger] v.instrumentation_library_events[a].batches[k]).wf(),
                forall|k: int| 0 <= k < j ==> (#[trigger] v.instrumentation_library_events[i as int].batches[k]).wf(),
            decreases lib.batches@.len() - j,
        {
            assert(v.instrumentation_library_events[i as int].batches[j as int] == lib.batches@[j as int]@);
            if !batch_wf(&lib.batches[j]) {
                return false;
            }
            j += 1;
        }
        i += 1;
    }
    true
}

} // verus!
