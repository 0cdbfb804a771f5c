//! Batches of rows in parallel columns, their auxiliary entities, and the
//! envelope that carries them.
use crate::column::{
    reset_columns, views, BoolColumn, BytesColumn, ColumnView, DoubleColumn,
    DoubleSummary, DoubleSummaryColumn, F64Bits, Int64Column, Int64Summary, Int64SummaryColumn,
    StringColumn,
};
use crate::bitmap::bitmap_len;
use vstd::prelude::*;

verus! {

/// A declared column: its name, and whether its slots may be absent.
pub type ColumnDecl = (Seq<char>, bool);

/// The declared columns of a batch or of an auxiliary entity, by kind.
pub ghost struct ColumnLayout {
    pub i64_values: Seq<ColumnDecl>,
    pub f64_values: Seq<ColumnDecl>,
    pub string_values: Seq<ColumnDecl>,
    pub bool_values: Seq<ColumnDecl>,
    pub bytes_values: Seq<ColumnDecl>,
    pub i64_summary_values: Seq<ColumnDecl>,
    pub f64_summary_values: Seq<ColumnDecl>,
}

/// A declared auxiliary entity.
pub ghost struct EntityLayout {
    pub schema_url: Seq<char>,
    pub logical_type: i32,
    pub parent_column: Seq<char>,
    pub columns: ColumnLayout,
}

/// Logical type of an auxiliary entity holding attributes.
pub const ATTRIBUTE: i32 = 0;

/// Logical type of an auxiliary entity holding span events.
pub const TRACE_EVENT: i32 = 1;

/// Logical type of an auxiliary entity holding span links.
pub const TRACE_LINK: i32 = 2;

/// The typed columns of a batch or of an auxiliary entity.
#[derive(Debug)]
pub struct ColumnSet {
    pub i64_values: Vec<Int64Column>,
    pub f64_values: Vec<DoubleColumn>,
    pub string_values: Vec<StringColumn>,
    pub bool_values: Vec<BoolColumn>,
    pub bytes_values: Vec<BytesColumn>,
    pub i64_summary_values: Vec<Int64SummaryColumn>,
    pub f64_summary_values: Vec<DoubleSummaryColumn>,
}

#[verifier::ext_equal]
pub ghost struct ColumnSetView {
    pub i64_values: Seq<ColumnView<i64>>,
    pub f64_values: Seq<ColumnView<u64>>,
    pub string_values: Seq<ColumnView<Seq<char>>>,
    pub bool_values: Seq<ColumnView<bool>>,
    pub bytes_values: Seq<ColumnView<Seq<u8>>>,
    pub i64_summary_values: Seq<ColumnView<Int64Summary>>,
    pub f64_summary_values: Seq<ColumnView<DoubleSummary>>,
}

impl View for ColumnSet {
    type V = ColumnSetView;

    open spec fn view(&self) -> ColumnSetView {
        ColumnSetView {
            i64_values: views(self.i64_values@),
            f64_values: views(self.f64_values@),
            string_values: views(self.string_values@),
            bool_values: views(self.bool_values@),
            bytes_values: views(self.bytes_values@),
            i64_summary_values: views(self.i64_summary_values@),
            f64_summary_values: views(self.f64_summary_values@),
        }
    }
}

impl ColumnSetView {
    /// Every column holds `n` values.
    pub open spec fn wf(self, n: nat) -> bool {
        &&& ColumnView::all_wf(self.i64_values, n)
        &&& ColumnView::all_wf(self.f64_values, n)
        &&& ColumnView::all_wf(self.string_values, n)
        &&& ColumnView::all_wf(self.bool_values, n)
        &&& ColumnView::all_wf(self.bytes_values, n)
        &&& ColumnView::all_wf(self.i64_summary_values, n)
        &&& ColumnView::all_wf(self.f64_summary_values, n)
    }

    pub open spec fn same_shape(self, o: ColumnSetView) -> bool {
        &&& ColumnView::all_same_shape(self.i64_values, o.i64_values)
        &&& ColumnView::all_same_shape(self.f64_values, o.f64_values)
        &&& ColumnView::all_same_shape(self.string_values, o.string_values)
        &&& ColumnView::all_same_shape(self.bool_values, o.bool_values)
        &&& ColumnView::all_same_shape(self.bytes_values, o.bytes_values)
        &&& ColumnView::all_same_shape(self.i64_summary_values, o.i64_summary_values)
        &&& ColumnView::all_same_shape(self.f64_summary_values, o.f64_summary_values)
    }

    /// The columns are those of `l`, each with its name, no logical type,
    /// description or unit, and a bitmap over `max_size` rows where `l`
    /// declares it optional, none where it does not.
    pub open spec fn declares(self, l: ColumnLayout, max_size: u32) -> bool {
        &&& ColumnView::all_declared(self.i64_values, l.i64_values, max_size)
        &&& ColumnView::all_declared(self.f64_values, l.f64_values, max_size)
        &&& ColumnView::all_declared(self.string_values, l.string_values, max_size)
        &&& ColumnView::all_declared(self.bool_values, l.bool_values, max_size)
        &&& ColumnView::all_declared(self.bytes_values, l.bytes_values, max_size)
        &&& ColumnView::all_declared(self.i64_summary_values, l.i64_summary_values, max_size)
        &&& ColumnView::all_declared(self.f64_summary_values, l.f64_summary_values, max_size)
    }

    pub open spec fn is_clear(self) -> bool {
        &&& ColumnView::all_clear(self.i64_values)
        &&& ColumnView::all_clear(self.f64_values)
        &&& ColumnView::all_clear(self.string_values)
        &&& ColumnView::all_clear(self.bool_values)
        &&& ColumnView::all_clear(self.bytes_values)
        &&& ColumnView::all_clear(self.i64_summary_values)
        &&& ColumnView::all_clear(self.f64_summary_values)
    }

    /// Every column with its values dropped and its bitmap zeroed.
    pub open spec fn cleared(self) -> ColumnSetView {
        ColumnSetView {
            i64_values: ColumnView::all_cleared(self.i64_values),
            f64_values: ColumnView::all_cleared(self.f64_values),
            string_values: ColumnView::all_cleared(self.string_values),
            bool_values: ColumnView::all_cleared(self.bool_values),
            bytes_values: ColumnView::all_cleared(self.bytes_values),
            i64_summary_values: ColumnView::all_cleared(self.i64_summary_values),
            f64_summary_values: ColumnView::all_cleared(self.f64_summary_values),
        }
    }

    pub proof fn lemma_cleared(self, o: ColumnSetView)
        requires
            self.same_shape(o),
            self.is_clear(),
        ensures
            self == o.cleared(),
    {
        ColumnView::lemma_all_cleared(self.i64_values, o.i64_values);
        ColumnView::lemma_all_cleared(self.f64_values, o.f64_values);
        ColumnView::lemma_all_cleared(self.string_values, o.string_values);
        ColumnView::lemma_all_cleared(self.bool_values, o.bool_values);
        ColumnView::lemma_all_cleared(self.bytes_values, o.bytes_values);
        ColumnView::lemma_all_cleared(self.i64_summary_values, o.i64_summary_values);
        ColumnView::lemma_all_cleared(self.f64_summary_values, o.f64_summary_values);
    }

    /// Each column of `self` is the matching column of `o` with one more
    /// value.
    pub open spec fn extends(self, o: ColumnSetView) -> bool {
        &&& ColumnView::all_extend(o.i64_values, self.i64_values)
        &&& ColumnView::all_extend(o.f64_values, self.f64_values)
        &&& ColumnView::all_extend(o.string_values, self.string_values)
        &&& ColumnView::all_extend(o.bool_values, self.bool_values)
        &&& ColumnView::all_extend(o.bytes_values, self.bytes_values)
        &&& ColumnView::all_extend(o.i64_summary_values, self.i64_summary_values)
        &&& ColumnView::all_extend(o.f64_summary_values, self.f64_summary_values)
    }
}

impl ColumnSet {
    /// A set without columns.
    pub fn empty() -> (r: ColumnSet)
        ensures
            r@.i64_values.len() == 0,
            r@.f64_values.len() == 0,
            r@.string_values.len() == 0,
            r@.bool_values.len() == 0,
            r@.bytes_values.len() == 0,
            r@.i64_summary_values.len() == 0,
            r@.f64_summary_values.len() == 0,
    {
        ColumnSet {
            i64_values: Vec::new(),
            f64_values: Vec::new(),
            string_values: Vec::new(),
            bool_values: Vec::new(),
            bytes_values: Vec::new(),
            i64_summary_values: Vec::new(),
            f64_summary_values: Vec::new(),
        }
    }

    /// Resets every column.
    pub fn reset(&mut self)
        ensures
            final(self)@.same_shape(old(self)@),
            final(self)@.is_clear(),
    {
        reset_columns(&mut self.i64_values);
        reset_columns(&mut self.f64_values);
        reset_columns(&mut self.string_values);
        reset_columns(&mut self.bool_values);
        reset_columns(&mut self.bytes_values);
        reset_columns(&mut self.i64_summary_values);
        reset_columns(&mut self.f64_summary_values);
    }
}

/// A child batch of rows, each tied by `parent_ranks` to a row of the
/// enclosing batch.
#[derive(Debug)]
pub struct AuxiliaryEntity {
    pub schema_url: String,
    pub logical_type: i32,
    pub size: u32,
    pub parent_column: String,
    pub parent_ranks: Vec<u32>,
    pub columns: ColumnSet,
}

pub ghost struct EntityView {
    pub schema_url: Seq<char>,
    pub logical_type: i32,
    pub size: u32,
    pub parent_column: Seq<char>,
    pub parent_ranks: Seq<u32>,
    pub columns: ColumnSetView,
}

impl View for AuxiliaryEntity {
    type V = EntityView;

    open spec fn view(&self) -> EntityView {
        EntityView {
            schema_url: self.schema_url@,
            logical_type: self.logical_type,
            size: self.size,
            parent_column: self.parent_column@,
            parent_ranks: self.parent_ranks@,
            columns: self.columns@,
        }
    }
}

/// The views of a vector of auxiliary entities.
pub open spec fn entity_views(es: Seq<AuxiliaryEntity>) -> Seq<EntityView> {
    Seq::new(es.len(), |i: int| es[i]@)
}

/// `s` never decreases.
pub open spec fn non_decreasing(s: Seq<u32>) -> bool {
    forall|i: int, j: int| 0 <= i <= j < s.len() ==> s[i] <= s[j]
}

impl EntityView {
    /// One parent rank and one value per column for each of `size` rows;
    /// the ranks never decrease and each names one of the parent's
    /// `parent_size` rows.
    pub open spec fn wf(self, parent_size: nat) -> bool {
        &&& self.parent_ranks.len() == self.size
        &&& self.columns.wf(self.size as nat)
        &&& non_decreasing(self.parent_ranks)
        &&& forall|j: int| 0 <= j < self.parent_ranks.len() ==> #[trigger] self.parent_ranks[j] < parent_size
    }

    pub open spec fn same_shape(self, o: EntityView) -> bool {
        &&& self.schema_url == o.schema_url
        &&& self.logical_type == o.logical_type
        &&& self.parent_column == o.parent_column
        &&& self.columns.same_shape(o.columns)
    }

    pub open spec fn is_clear(self) -> bool {
        &&& self.size == 0
        &&& self.parent_ranks.len() == 0
        &&& self.columns.is_clear()
    }

    /// The entity is the declared `l` under a policy of `max_size` rows.
    pub open spec fn declares(self, l: EntityLayout, max_size: u32) -> bool {
        &&& self.schema_url == l.schema_url
        &&& self.logical_type == l.logical_type
        &&& self.parent_column == l.parent_column
        &&& self.columns.declares(l.columns, max_size)
    }

    pub proof fn lemma_same_shape_refl(self)
        ensures
            self.same_shape(self),
    {
    }

    /// The entity without its child rows.
    pub open spec fn cleared(self) -> EntityView {
        EntityView { size: 0, parent_ranks: Seq::empty(), columns: self.columns.cleared(), ..self }
    }

    pub proof fn lemma_cleared(self, o: EntityView)
        requires
            self.same_shape(o),
            self.is_clear(),
        ensures
            self == o.cleared(),
    {
        self.columns.lemma_cleared(o.columns);
        assert(self.parent_ranks =~= o.cleared().parent_ranks);
    }
}

/// A batch of rows: the start and end time of each, typed columns, and
/// auxiliary entities for child rows.
#[derive(Debug)]
pub struct BatchEvent {
    pub schema_url: String,
    pub size: u32,
    pub start_time_unix_nano_column: Vec<u64>,
    pub end_time_unix_nano_column: Vec<u64>,
    pub columns: ColumnSet,
    pub auxiliary_entities: Vec<AuxiliaryEntity>,
}

pub ghost struct BatchView {
    pub schema_url: Seq<char>,
    pub size: u32,
    pub start_time_unix_nano_column: Seq<u64>,
    pub end_time_unix_nano_column: Seq<u64>,
    pub columns: ColumnSetView,
    pub auxiliary_entities: Seq<EntityView>,
}

impl View for BatchEvent {
    type V = BatchView;

    open spec fn view(&self) -> BatchView {
        BatchView {
            schema_url: self.schema_url@,
            size: self.size,
            start_time_unix_nano_column: self.start_time_unix_nano_column@,
            end_time_unix_nano_column: self.end_time_unix_nano_column@,
            columns: self.columns@,
            auxiliary_entities: entity_views(self.auxiliary_entities@),
        }
    }
}

impl BatchView {
    /// Every column, time column included, holds `size` values, and every
    /// auxiliary entity is well formed against `size` rows.
    pub open spec fn wf(self) -> bool {
        &&& self.start_time_unix_nano_column.len() == self.size
        &&& self.end_time_unix_nano_column.len() == self.size
        &&& self.columns.wf(self.size as nat)
        &&& forall|k: int|
            0 <= k < self.auxiliary_entities.len() ==> (#[trigger] self.auxiliary_entities[k]).wf(
                self.size as nat,
            )
    }

    /// The same columns and entities, whatever they hold.
    pub open spec fn same_shape(self, o: BatchView) -> bool {
        &&& self.schema_url == o.schema_url
        &&& self.columns.same_shape(o.columns)
        &&& self.auxiliary_entities.len() == o.auxiliary_entities.len()
        &&& forall|k: int|
            0 <= k < self.auxiliary_entities.len() ==> (#[trigger] self.auxiliary_entities[k]).same_shape(
                o.auxiliary_entities[k],
            )
    }

    /// No row, no child row, and every bitmap zeroed.
    pub open spec fn is_clear(self) -> bool {
        &&& self.size == 0
        &&& self.start_time_unix_nano_column.len() == 0
        &&& self.end_time_unix_nano_column.len() == 0
        &&& self.columns.is_clear()
        &&& forall|k: int|
            0 <= k < self.auxiliary_entities.len() ==> (#[trigger] self.auxiliary_entities[k]).is_clear()
    }

    /// The batch without its rows and child rows: what a reset leaves.
    pub open spec fn cleared(self) -> BatchView {
        BatchView {
            size: 0,
            start_time_unix_nano_column: Seq::empty(),
            end_time_unix_nano_column: Seq::empty(),
            columns: self.columns.cleared(),
            auxiliary_entities: Seq::new(
                self.auxiliary_entities.len(),
                |k: int| self.auxiliary_entities[k].cleared(),
            ),
            ..self
        }
    }

    /// A cleared batch of the same shape as `o` is `o` cleared.
    pub proof fn lemma_cleared(self, o: BatchView)
        requires
            self.same_shape(o),
            self.is_clear(),
        ensures
            self == o.cleared(),
    {
        self.columns.lemma_cleared(o.columns);
        assert forall|k: int| 0 <= k < self.auxiliary_entities.len() implies #[trigger] self.auxiliary_entities[k]
            == o.cleared().auxiliary_entities[k] by {
            self.auxiliary_entities[k].lemma_cleared(o.auxiliary_entities[k]);
        }
        assert(self.auxiliary_entities =~= o.cleared().auxiliary_entities);
        assert(self.start_time_unix_nano_column =~= o.cleared().start_time_unix_nano_column);
        assert(self.end_time_unix_nano_column =~= o.cleared().end_time_unix_nano_column);
    }

    /// `self` is `o` with one more row: earlier rows and child rows are
    /// kept, and every new child row belongs to the new row.
    pub open spec fn extends(self, o: BatchView) -> bool {
        &&& self.schema_url == o.schema_url
        &&& self.size == o.size + 1
        &&& self.start_time_unix_nano_column.take(o.size as int) == o.start_time_unix_nano_column
        &&& self.end_time_unix_nano_column.take(o.size as int) == o.end_time_unix_nano_column
        &&& self.columns.extends(o.columns)
        &&& self.auxiliary_entities.len() == o.auxiliary_entities.len()
        &&& forall|k: int|
            0 <= k < self.auxiliary_entities.len() ==> {
                let a = #[trigger] self.auxiliary_entities[k];
                let b = o.auxiliary_entities[k];
                &&& a.same_shape(b)
                &&& a.size >= b.size
                &&& a.parent_ranks.take(b.size as int) == b.parent_ranks
                &&& forall|j: int| b.size <= j < a.size ==> #[trigger] a.parent_ranks[j] == o.size
            }
    }
}

impl AuxiliaryEntity {
    /// Drops every child row, keeping the columns and their allocation.
    pub fn reset(&mut self)
        ensures
            final(self)@.same_shape(old(self)@),
            final(self)@.is_clear(),
    {
        self.parent_ranks.clear();
        self.columns.reset();
        self.size = 0;
    }
}

impl BatchEvent {
    /// Drops every row and child row, keeping the columns, the entities and
    /// their allocation.
    pub fn reset(&mut self)
        ensures
            final(self)@ == old(self)@.cleared(),
            final(self)@.same_shape(old(self)@),
            final(self)@.is_clear(),
            final(self)@.wf(),
    {
        self.start_time_unix_nano_column.clear();
        self.end_time_unix_nano_column.clear();
        self.columns.reset();
        self.size = 0;
        let n = self.auxiliary_entities.len();
        let mut k: usize = 0;
        while k < n
            invariant
                self.auxiliary_entities.len() == n,
                n == old(self).auxiliary_entities.len(),
                self.columns@.same_shape(old(self).columns@),
                self.columns@.is_clear(),
                self.size == 0,
                self.schema_url@ == old(self).schema_url@,
                self.start_time_unix_nano_column@.len() == 0,
                self.end_time_unix_nano_column@.len() == 0,
                k <= n,
                forall|j: int|
                    0 <= j < k ==> (#[trigger] self.auxiliary_entities@[j])@.same_shape(
                        old(self).auxiliary_entities@[j]@,
                    ),
                forall|j: int| 0 <= j < k ==> (#[trigger] self.auxiliary_entities@[j])@.is_clear(),
                forall|j: int|
                    k <= j < n ==> #[trigger] self.auxiliary_entities@[j] == old(
                        self,
                    ).auxiliary_entities@[j],
            decreases n - k,
        {
            let mut e = self.auxiliary_entities.remove(k);
            e.reset();
            self.auxiliary_entities.insert(k, e);
            k += 1;
        }
        proof {
            let v = self@;
            assert forall|j: int| 0 <= j < v.auxiliary_entities.len() implies (
            #[trigger] v.auxiliary_entities[j]).wf(0) by {
                let e = v.auxiliary_entities[j];
                assert(e.is_clear());
                lemma_clear_wf(e.columns);
            }
            assert(v.columns.wf(0)) by {
                lemma_clear_wf(v.columns);
            }
            v.lemma_cleared(old(self)@);
        }
    }
}

/// Cleared columns hold no row.
pub proof fn lemma_clear_wf(c: ColumnSetView)
    requires
        c.is_clear(),
    ensures
        c.wf(0),
{
    assert forall|i: int| 0 <= i < c.i64_values.len() implies (#[trigger] c.i64_values[i]).wf(0) by {
        assert(c.i64_values[i].is_clear());
    }
    assert forall|i: int| 0 <= i < c.f64_values.len() implies (#[trigger] c.f64_values[i]).wf(0) by {
        assert(c.f64_values[i].is_clear());
    }
    assert forall|i: int| 0 <= i < c.string_values.len() implies (
    #[trigger] c.string_values[i]).wf(0) by {
        assert(c.string_values[i].is_clear());
    }
    assert forall|i: int| 0 <= i < c.bool_values.len() implies (#[trigger] c.bool_values[i]).wf(
        0,
    ) by {
        assert(c.bool_values[i].is_clear());
    }
    assert forall|i: int| 0 <= i < c.bytes_values.len() implies (#[trigger] c.bytes_values[i]).wf(
        0,
    ) by {
        assert(c.bytes_values[i].is_clear());
    }
    assert forall|i: int| 0 <= i < c.i64_summary_values.len() implies (
    #[trigger] c.i64_summary_values[i]).wf(0) by {
        assert(c.i64_summary_values[i].is_clear());
    }
    assert forall|i: int| 0 <= i < c.f64_summary_values.len() implies (
    #[trigger] c.f64_summary_values[i]).wf(0) by {
        assert(c.f64_summary_values[i].is_clear());
    }
}

} // verus!
