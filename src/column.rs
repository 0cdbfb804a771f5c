//! Typed columns: a name, a logical type, the values of the batch's rows and,
//! for optional columns, a validity bitmap.
use crate::bitmap::{
    all_clear, bitmap_len, clear_nth_bit, is_set, reset_validity_bitmap, set_nth_bit,
    validity_bitmap,
};
use vstd::prelude::*;

verus! {

/// A double held as its IEEE-754 bit pattern.
#[derive(Clone, Copy, Debug, PartialEq, Eq)]
pub struct F64Bits(pub u64);

/// Count and sum of integer observations.
#[derive(Clone, Copy, Debug, PartialEq, Eq)]
pub struct Int64Summary {
    pub count: u64,
    pub sum: i64,
}

/// Count and sum of double observations.
#[derive(Clone, Copy, Debug, PartialEq, Eq)]
pub struct DoubleSummary {
    pub count: u64,
    pub sum: F64Bits,
}

impl DeepView for F64Bits {
    type V = u64;

    open spec fn deep_view(&self) -> u64 {
        self.0
    }
}

impl DeepView for Int64Summary {
    type V = Int64Summary;

    open spec fn deep_view(&self) -> Int64Summary {
        *self
    }
}

impl DeepView for DoubleSummary {
    type V = DoubleSummary;

    open spec fn deep_view(&self) -> DoubleSummary {
        *self
    }
}

/// A named column of values, one per row. An empty `validity_bitmap` marks a
/// column whose every slot is present; otherwise bit `i` says whether slot
/// `i` is.
#[derive(Debug)]
pub struct Column<V> {
    pub name: String,
    pub logical_type: i32,
    pub description: String,
    pub unit: String,
    pub aggregation_temporality: i32,
    pub is_monotonic: bool,
    pub values: Vec<V>,
    pub validity_bitmap: Vec<u8>,
}

pub type Int64Column = Column<i64>;

pub type DoubleColumn = Column<F64Bits>;

pub type StringColumn = Column<String>;

pub type BoolColumn = Column<bool>;

pub type BytesColumn = Column<Vec<u8>>;

pub type Int64SummaryColumn = Column<Int64Summary>;

pub type DoubleSummaryColumn = Column<DoubleSummary>;

/// What a column holds, as mathematical values.
pub ghost struct ColumnView<W> {
    pub name: Seq<char>,
    pub logical_type: i32,
    pub description: Seq<char>,
    pub unit: Seq<char>,
    pub aggregation_temporality: i32,
    pub is_monotonic: bool,
    pub values: Seq<W>,
    pub validity_bitmap: Seq<u8>,
}

impl<V: DeepView> View for Column<V> {
    type V = ColumnView<V::V>;

    open spec fn view(&self) -> ColumnView<V::V> {
        ColumnView {
            name: self.name@,
            logical_type: self.logical_type,
            description: self.description@,
            unit: self.unit@,
            aggregation_temporality: self.aggregation_temporality,
            is_monotonic: self.is_monotonic,
            values: self.values.deep_view(),
            validity_bitmap: self.validity_bitmap@,
        }
    }
}

impl<W> ColumnView<W> {
    /// The column has a bitmap, so that its slots may be absent.
    pub open spec fn is_optional(self) -> bool {
        self.validity_bitmap.len() > 0
    }

    /// Whether slot `i` holds a present value.
    pub open spec fn present(self, i: int) -> bool {
        !self.is_optional() || is_set(self.validity_bitmap, i)
    }

    /// The column holds `n` values and, if optional, a bitmap over at
    /// least `n` slots.
    pub open spec fn wf(self, n: nat) -> bool {
        &&& self.values.len() == n
        &&& (self.validity_bitmap.len() == 0 || self.validity_bitmap.len() >= bitmap_len(n))
    }

    /// Same name, types and descriptions, and the same bitmap length.
    pub open spec fn same_shape(self, other: ColumnView<W>) -> bool {
        &&& self.name == other.name
        &&& self.logical_type == other.logical_type
        &&& self.description == other.description
        &&& self.unit == other.unit
        &&& self.aggregation_temporality == other.aggregation_temporality
        &&& self.is_monotonic == other.is_monotonic
        &&& self.validity_bitmap.len() == other.validity_bitmap.len()
    }

    /// The column holds no value and its bitmap marks no slot.
    pub open spec fn is_clear(self) -> bool {
        self.values.len() == 0 && all_clear(self.validity_bitmap)
    }

    /// The column with its values dropped and its bitmap zeroed.
    pub open spec fn cleared(self) -> ColumnView<W> {
        ColumnView {
            values: Seq::empty(),
            validity_bitmap: Seq::new(self.validity_bitmap.len(), |i: int| 0u8),
            ..self
        }
    }

    /// A cleared column of the same shape as `o` is `o` cleared.
    pub proof fn lemma_cleared(self, o: ColumnView<W>)
        requires
            self.same_shape(o),
            self.is_clear(),
        ensures
            self == o.cleared(),
    {
        assert(self.values =~= o.cleared().values);
        assert(self.validity_bitmap =~= o.cleared().validity_bitmap);
    }

    pub open spec fn all_cleared(cols: Seq<ColumnView<W>>) -> Seq<ColumnView<W>> {
        Seq::new(cols.len(), |i: int| cols[i].cleared())
    }

    pub proof fn lemma_all_cleared(a: Seq<ColumnView<W>>, b: Seq<ColumnView<W>>)
        requires
            ColumnView::all_same_shape(a, b),
            ColumnView::all_clear(a),
        ensures
            a == ColumnView::all_cleared(b),
    {
        assert forall|i: int| 0 <= i < a.len() implies #[trigger] a[i] == ColumnView::all_cleared(
            b,
        )[i] by {
            a[i].lemma_cleared(b[i]);
        }
        assert(a =~= ColumnView::all_cleared(b));
    }

    /// Every column of `cols` holds `n` values.
    pub open spec fn all_wf(cols: Seq<ColumnView<W>>, n: nat) -> bool {
        forall|i: int| 0 <= i < cols.len() ==> (#[trigger] cols[i]).wf(n)
    }

    pub open spec fn all_same_shape(a: Seq<ColumnView<W>>, b: Seq<ColumnView<W>>) -> bool {
        a.len() == b.len() && forall|i: int| 0 <= i < a.len() ==> (#[trigger] a[i]).same_shape(b[i])
    }

    /// The columns of `cols` are those declared by `decl`, as made by
    /// `new_required` and `new_optional` under a capacity of `max_size`.
    pub open spec fn all_declared(cols: Seq<ColumnView<W>>, decl: Seq<(Seq<char>, bool)>, max_size: u32) -> bool {
        &&& cols.len() == decl.len()
        &&& forall|i: int|
            0 <= i < cols.len() ==> {
                let c = #[trigger] cols[i];
                &&& c.name == decl[i].0
                &&& c.logical_type == 0
                &&& c.description.len() == 0
                &&& c.unit.len() == 0
                &&& c.aggregation_temporality == 0
                &&& !c.is_monotonic
                &&& c.validity_bitmap.len() == if decl[i].1 {
                    bitmap_len(max_size as nat)
                } else {
                    0
                }
            }
    }

    pub open spec fn all_clear(cols: Seq<ColumnView<W>>) -> bool {
        forall|i: int| 0 <= i < cols.len() ==> (#[trigger] cols[i]).is_clear()
    }

    /// `b` is `a` with one more value appended to each column.
    pub open spec fn all_extend(a: Seq<ColumnView<W>>, b: Seq<ColumnView<W>>) -> bool {
        a.len() == b.len() && forall|i: int|
            0 <= i < a.len() ==> (#[trigger] b[i]).extends(a[i])
    }

    /// `self` holds the values of `old` followed by one more, with the same
    /// shape and the same presence for the earlier slots.
    pub open spec fn extends(self, old: ColumnView<W>) -> bool {
        &&& self.name == old.name
        &&& self.logical_type == old.logical_type
        &&& self.description == old.description
        &&& self.unit == old.unit
        &&& self.aggregation_temporality == old.aggregation_temporality
        &&& self.is_monotonic == old.is_monotonic
        &&& (old.is_optional() ==> self.is_optional())
        &&& (!old.is_optional() && old.values.len() > 0 ==> !self.is_optional())
        &&& self.values.len() == old.values.len() + 1
        &&& self.values.take(old.values.len() as int) == old.values
        &&& forall|i: int| 0 <= i < old.values.len() ==> self.present(i) == old.present(i)
    }
}

/// The deep view of a vector of columns.
pub open spec fn views<V: DeepView>(cols: Seq<Column<V>>) -> Seq<ColumnView<V::V>> {
    Seq::new(cols.len(), |i: int| cols[i]@)
}

impl<V: DeepView> Column<V> {
    /// A column whose slots are all present, with room for `capacity` values.
    pub fn new_required(name: &str, capacity: u32) -> (r: Column<V>)
        ensures
            r@.name == name@,
            r@.logical_type == 0,
            r@.description.len() == 0,
            r@.unit.len() == 0,
            r@.aggregation_temporality == 0,
            !r@.is_monotonic,
            r@.values.len() == 0,
            r@.validity_bitmap.len() == 0,
    {
        Column {
            name: name.to_owned(),
            logical_type: 0,
            description: String::new(),
            unit: String::new(),
            aggregation_temporality: 0,
            is_monotonic: false,
            values: Vec::with_capacity(capacity as usize),
            validity_bitmap: Vec::new(),
        }
    }

    /// A column whose slots may be absent, with a bitmap over `capacity`
    /// slots. Under a capacity of 0 the bitmap is empty; the column holds no
    /// row then, and its first row gives it a bitmap.
    pub fn new_optional(name: &str, capacity: u32) -> (r: Column<V>)
        ensures
            r@.name == name@,
            r@.logical_type == 0,
            r@.description.len() == 0,
            r@.unit.len() == 0,
            r@.aggregation_temporality == 0,
            !r@.is_monotonic,
            r@.values.len() == 0,
            r@.validity_bitmap.len() == bitmap_len(capacity as nat),
            all_clear(r@.validity_bitmap),
    {
        Column {
            name: name.to_owned(),
            logical_type: 0,
            description: String::new(),
            unit: String::new(),
            aggregation_temporality: 0,
            is_monotonic: false,
            values: Vec::with_capacity(capacity as usize),
            validity_bitmap: validity_bitmap(capacity as usize),
        }
    }

    /// Appends a value to a column whose slots are all present.
    pub fn push_value(&mut self, v: V)
        requires
            !old(self)@.is_optional(),
            old(self)@.wf(old(self)@.values.len()),
        ensures
            final(self)@.extends(old(self)@),
            final(self)@.wf(final(self)@.values.len()),
            final(self).values@ == old(self).values@.push(v),
            final(self)@.validity_bitmap == old(self)@.validity_bitmap,
    {
        self.values.push(v);
        proof {
            assert(self.values@.take(old(self).values@.len() as int) =~= old(self).values@);
            assert(self@.values.take(old(self)@.values.len() as int) =~= old(self)@.values);
        }
    }

    /// Appends a slot to an optional column: `v` when present, else
    /// `placeholder`, and marks the slot present or absent accordingly. An
    /// empty column without a bitmap gets one.
    pub fn push_optional(&mut self, v: Option<V>, placeholder: V)
        requires
            old(self)@.is_optional() || old(self)@.values.len() == 0,
            old(self)@.wf(old(self)@.values.len()),
            old(self).values@.len() < usize::MAX,
        ensures
            final(self)@.extends(old(self)@),
            final(self)@.wf(final(self)@.values.len()),
            final(self).values@ == old(self).values@.push(
                match v {
                    Some(x) => x,
                    None => placeholder,
                },
            ),
            final(self)@.present(old(self)@.values.len() as int) == v is Some,
            final(self)@.is_optional(),
    {
        let ghost before = self@;
        let nth_bit = self.values.len();
        let present = v.is_some();
        match v {
            Some(x) => self.values.push(x),
            None => self.values.push(placeholder),
        }
        if self.validity_bitmap.len() <= nth_bit / 8 {
            self.validity_bitmap.push(0u8);
            proof {
                assert forall|i: int| 0 <= i < nth_bit implies is_set(self.validity_bitmap@, i)
                    == is_set(before.validity_bitmap, i) by {
                    assert(i / 8 < before.validity_bitmap.len()) by {
                        assert(before.validity_bitmap.len() >= bitmap_len(nth_bit as nat));
                        assert(i / 8 < (nth_bit as int + 7) / 8) by (nonlinear_arith)
                            requires
                                0 <= i < nth_bit,
                        ;
                    }
                    assert(self.validity_bitmap@[i / 8] == before.validity_bitmap[i / 8]);
                }
            }
        }
        let ghost mid = self.validity_bitmap@;
        assert(nth_bit / 8 < self.validity_bitmap.len());
        if present {
            set_nth_bit(&mut self.validity_bitmap, nth_bit);
        } else {
            clear_nth_bit(&mut self.validity_bitmap, nth_bit);
        }
        proof {
            assert(self@.values.take(before.values.len() as int) =~= before.values);
            assert(self.validity_bitmap@.len() >= bitmap_len((nth_bit + 1) as nat)) by {
                assert((nth_bit as int + 1 + 7) / 8 == nth_bit as int / 8 + 1) by (nonlinear_arith);
            }
            assert forall|i: int| 0 <= i < before.values.len() implies self@.present(i)
                == before.present(i) by {
                assert(is_set(mid, i) == is_set(before.validity_bitmap, i));
            }
        }
    }

    /// Drops every value and clears the bitmap, keeping its length and the
    /// column's allocation.
    pub fn reset(&mut self)
        ensures
            final(self)@.same_shape(old(self)@),
            final(self)@.is_clear(),
    {
        self.values.clear();
        reset_validity_bitmap(&mut self.validity_bitmap);
        assert(self@.values =~= Seq::<V::V>::empty());
    }
}

/// Resets every column of `cols`.
pub fn reset_columns<V: DeepView>(cols: &mut Vec<Column<V>>)
    ensures
        ColumnView::all_same_shape(views(final(cols)@), views(old(cols)@)),
        ColumnView::all_clear(views(final(cols)@)),
{
    let n = cols.len();
    let mut i: usize = 0;
    while i < n
        invariant
            cols.len() == n,
            i <= n,
            forall|j: int| 0 <= j < i ==> (#[trigger] cols@[j])@.same_shape(old(cols)@[j]@),
            forall|j: int| 0 <= j < i ==> (#[trigger] cols@[j])@.is_clear(),
            forall|j: int| i <= j < n ==> #[trigger] cols@[j] == old(cols)@[j],
        decreases n - i,
    {
        let mut c = cols.remove(i);
        c.reset();
        cols.insert(i, c);
        i += 1;
    }
}

} // verus!
