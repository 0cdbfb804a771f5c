//! Properties of the handler that span several calls or every state.
use crate::batch::{non_decreasing, BatchView, ColumnSetView, EntityView};
use crate::bitmap::bitmap_len;
use crate::column::ColumnView;
use crate::event::{EventBatchHandler, OpenTelemetryEvent};
use vstd::prelude::*;

verus! {

/// In every state of a handler, each typed column of its batch holds
/// exactly `size` values, `size` is at most `max_size`, and an optional
/// column's bitmap has at least one bit per row.
pub proof fn lemma_columns_match_size<T: OpenTelemetryEvent>(h: &EventBatchHandler<T>)
    requires
        h.wf(),
    ensures
        ({
            let b = h.resource_events.batch()@;
            &&& b.size <= h.batch_policy.max_size
            &&& b.start_time_unix_nano_column.len() == b.size
            &&& b.end_time_unix_nano_column.len() == b.size
            &&& forall|i: int|
                0 <= i < b.columns.i64_values.len() ==> (#[trigger] b.columns.i64_values[i]).values.len()
                    == b.size && (b.columns.i64_values[i].is_optional()
                    ==> b.columns.i64_values[i].validity_bitmap.len() >= bitmap_len(b.size as nat))
            &&& forall|i: int|
                0 <= i < b.columns.f64_values.len() ==> (#[trigger] b.columns.f64_values[i]).values.len()
                    == b.size && (b.columns.f64_values[i].is_optional()
                    ==> b.columns.f64_values[i].validity_bitmap.len() >= bitmap_len(b.size as nat))
            &&& forall|i: int|
                0 <= i < b.columns.string_values.len() ==> (
                #[trigger] b.columns.string_values[i]).values.len() == b.size && (
                b.columns.string_values[i].is_optional()
                    ==> b.columns.string_values[i].validity_bitmap.len() >= bitmap_len(b.size as nat))
            &&& forall|i: int|
                0 <= i < b.columns.bool_values.len() ==> (#[trigger] b.columns.bool_values[i]).values.len()
                    == b.size && (b.columns.bool_values[i].is_optional()
                    ==> b.columns.bool_values[i].validity_bitmap.len() >= bitmap_len(b.size as nat))
            &&& forall|i: int|
                0 <= i < b.columns.bytes_values.len() ==> (
                #[trigger] b.columns.bytes_values[i]).values.len() == b.size && (
                b.columns.bytes_values[i].is_optional()
                    ==> b.columns.bytes_values[i].validity_bitmap.len() >= bitmap_len(b.size as nat))
            &&& forall|i: int|
                0 <= i < b.columns.i64_summary_values.len() ==> (
                #[trigger] b.columns.i64_summary_values[i]).values.len() == b.size && (
                b.columns.i64_summary_values[i].is_optional()
                    ==> b.columns.i64_summary_values[i].validity_bitmap.len() >= bitmap_len(
                    b.size as nat,
                ))
            &&& forall|i: int|
                0 <= i < b.columns.f64_summary_values.len() ==> (
                #[trigger] b.columns.f64_summary_values[i]).values.len() == b.size && (
                b.columns.f64_summary_values[i].is_optional()
                    ==> b.columns.f64_summary_values[i].validity_bitmap.len() >= bitmap_len(
                    b.size as nat,
                ))
        }),
{
    let b = h.resource_events.batch()@;
    assert(b.wf());
}

/// In every state of a handler, each auxiliary entity of its batch has
/// non-decreasing parent ranks, each naming a row of the batch, and
/// columns of exactly the entity's `size` values.
pub proof fn lemma_entities_follow_rows<T: OpenTelemetryEvent>(h: &EventBatchHandler<T>)
    requires
        h.wf(),
    ensures
        ({
            let b = h.resource_events.batch()@;
            forall|k: int|
                0 <= k < b.auxiliary_entities.len() ==> {
                    let e = #[trigger] b.auxiliary_entities[k];
                    &&& non_decreasing(e.parent_ranks)
                    &&& forall|j: int| 0 <= j < e.parent_ranks.len() ==> #[trigger] e.parent_ranks[j] < b.size
                    &&& e.parent_ranks.len() == e.size
                    &&& e.columns.wf(e.size as nat)
                }
        }),
{
    let b = h.resource_events.batch()@;
    assert(b.wf());
}

proof fn lemma_column_cleared_twice<W>(c: ColumnView<W>)
    ensures
        c.cleared().cleared() == c.cleared(),
{
    assert(c.cleared().cleared().validity_bitmap =~= c.cleared().validity_bitmap);
}

proof fn lemma_columns_cleared_twice<W>(cols: Seq<ColumnView<W>>)
    ensures
        ColumnView::all_cleared(ColumnView::all_cleared(cols)) == ColumnView::all_cleared(cols),
{
    assert forall|i: int| 0 <= i < cols.len() implies #[trigger] ColumnView::all_cleared(
        ColumnView::all_cleared(cols),
    )[i] == ColumnView::all_cleared(cols)[i] by {
        lemma_column_cleared_twice(cols[i]);
    }
    assert(ColumnView::all_cleared(ColumnView::all_cleared(cols)) =~= ColumnView::all_cleared(cols));
}

proof fn lemma_colset_cleared_twice(c: ColumnSetView)
    ensures
        c.cleared().cleared() == c.cleared(),
{
    lemma_columns_cleared_twice(c.i64_values);
    lemma_columns_cleared_twice(c.f64_values);
    lemma_columns_cleared_twice(c.string_values);
    lemma_columns_cleared_twice(c.bool_values);
    lemma_columns_cleared_twice(c.bytes_values);
    lemma_columns_cleared_twice(c.i64_summary_values);
    lemma_columns_cleared_twice(c.f64_summary_values);
}

/// Resetting is idempotent: a batch reset twice is the batch reset once.
/// (`reset_batch_event` leaves exactly `cleared()` of the batch it found.)
pub proof fn lemma_reset_idempotent(b: BatchView)
    ensures
        b.cleared().cleared() == b.cleared(),
{
    lemma_colset_cleared_twice(b.columns);
    assert forall|k: int| 0 <= k < b.auxiliary_entities.len() implies #[trigger] b.cleared().cleared().auxiliary_entities[k]
        == b.cleared().auxiliary_entities[k] by {
        let e = b.auxiliary_entities[k];
        lemma_colset_cleared_twice(e.columns);
        assert(e.cleared().cleared().parent_ranks =~= e.cleared().parent_ranks);
    }
    assert(b.cleared().cleared().auxiliary_entities =~= b.cleared().auxiliary_entities);
    assert(b.cleared().cleared().start_time_unix_nano_column =~= b.cleared().start_time_unix_nano_column);
    assert(b.cleared().cleared().end_time_unix_nano_column =~= b.cleared().end_time_unix_nano_column);
}

} // verus!
