//! The query digests that implementations are compared by, and the check
//! that they agree.
use crate::batch::{BatchEvent, BatchView};
use crate::native_trace::{NativeTraceHandler, SpanView};
use crate::bitmap::{bitmap_len, is_valid_value};
use crate::column::{Column, ColumnView};
use vstd::prelude::*;

verus! {

/// The sum of the values of the present slots among the first `n`.
pub open spec fn present_sum(c: ColumnView<i64>, n: nat) -> int
    decreases n,
{
    if n == 0 {
        0
    } else {
        present_sum(c, (n - 1) as nat) + if c.present(n - 1) {
            c.values[n - 1] as int
        } else {
            0
        }
    }
}

proof fn lemma_present_sum_bound(c: ColumnView<i64>, n: nat)
    ensures
        -(n as int) * 0x8000_0000_0000_0000 <= present_sum(c, n) <= (n as int) * 0x7fff_ffff_ffff_ffff,
    decreases n,
{
    if n > 0 {
        lemma_present_sum_bound(c, (n - 1) as nat);
        assert(-(n as int) * 0x8000_0000_0000_0000 == -((n - 1) as int) * 0x8000_0000_0000_0000 - 0x8000_0000_0000_0000) by (nonlinear_arith);
        assert((n as int) * 0x7fff_ffff_ffff_ffff == ((n - 1) as int) * 0x7fff_ffff_ffff_ffff + 0x7fff_ffff_ffff_ffff) by (nonlinear_arith);
    }
}

/// The sum of the present values of an integer column of `n` rows.
pub fn column_sum(c: &Column<i64>) -> (r: i128)
    requires
        c@.wf(c@.values.len()),
    ensures
        r == present_sum(c@, c@.values.len()),
{
    let ghost n = c@.values.len();
    let len = c.values.len();
    let mut acc: i128 = 0;
    let mut i: usize = 0;
    while i < len
        invariant
            i <= len,
            len == n,
            c@.wf(n),
            acc == present_sum(c@, i as nat),
        decreases len - i,
    {
        proof {
            lemma_present_sum_bound(c@, (i + 1) as nat);
            assert((i as int + 1) * 0x8000_0000_0000_0000 <= 0x8000_0000_0000_0000_0000_0000_0000_0000) by (nonlinear_arith)
                requires
                    i < 0x1_0000_0000_0000_0000,
            ;
            assert((i as int + 1) * 0x7fff_ffff_ffff_ffff <= 0x7fff_ffff_ffff_ffff_ffff_ffff_ffff_ffff) by (nonlinear_arith)
                requires
                    i < 0x1_0000_0000_0000_0000,
            ;
            if c.validity_bitmap@.len() > 0 {
                assert(i / 8 < bitmap_len(n)) by (nonlinear_arith)
                    requires
                        i < n,
                ;
            }
        }
        if c.validity_bitmap.len() == 0 || is_valid_value(&c.validity_bitmap, i) {
            acc = acc + c.values[i] as i128;
        }
        i += 1;
    }
    acc
}

/// Whether two lists of results are equal.
pub fn same_results(a: &Vec<String>, b: &Vec<String>) -> (r: bool)
    ensures
        r == (a.deep_view() == b.deep_view()),
{
    if a.len() != b.len() {
        assert(a.deep_view().len() != b.deep_view().len());
        return false;
    }
    let mut i: usize = 0;
    while i < a.len()
        invariant
            i <= a@.len(),
            a@.len() == b@.len(),
            forall|j: int| 0 <= j < i ==> a@[j]@ == b@[j]@,
        decreases a@.len() - i,
    {
        if a[i] != b[i] {
            assert(a.deep_view()[i as int] != b.deep_view()[i as int]);
            return false;
        }
        i += 1;
    }
    assert(a.deep_view() =~= b.deep_view());
    true
}

/// The index of the first implementation whose query results for a batch
/// differ from those of the first implementation; `None` where all agree.
pub fn first_divergence(results: &Vec<Vec<String>>) -> (r: Option<usize>)
    ensures
        match r {
            Some(i) => 1 <= i < results@.len() && results@[i as int].deep_view() != results@[0].deep_view()
                && forall|j: int| 1 <= j < i ==> (#[trigger] results@[j]).deep_view() == results@[0].deep_view(),
            None => forall|j: int| 0 <= j < results@.len() ==> (#[trigger] results@[j]).deep_view() == results@[0].deep_view(),
        },
{
    if results.len() == 0 {
        return None;
    }
    let mut i: usize = 1;
    while i < results.len()
        invariant
            1 <= i <= results@.len(),
            forall|j: int| 1 <= j < i ==> (#[trigger] results@[j]).deep_view() == results@[0].deep_view(),
        decreases results@.len() - i,
    {
        if !same_results(&results[i], &results[0]) {
            return Some(i);
        }
        i += 1;
    }
    None
}


/// The digest of a trace batch: the sum of the present kinds and the sum
/// of the present status codes.
pub open spec fn trace_digest_spec(b: BatchView) -> int {
    present_sum(b.columns.i64_values[0], b.size as nat) + present_sum(b.columns.i64_values[1], b.size as nat)
}

/// The digest that the columnar trace handler is compared by.
pub fn trace_digest(b: &BatchEvent) -> (r: i128)
    requires
        b@.wf(),
        b@.columns.i64_values.len() >= 2,
    ensures
        r == trace_digest_spec(b@),
{
    let kind = &b.columns.i64_values[0];
    let code = &b.columns.i64_values[1];
    assert(kind@ == b@.columns.i64_values[0] && code@ == b@.columns.i64_values[1]);
    let k = column_sum(kind);
    let c = column_sum(code);
    proof {
        lemma_present_sum_bound(kind@, b.size as nat);
        lemma_present_sum_bound(code@, b.size as nat);
        assert((b.size as int) * 0x8000_0000_0000_0000 <= 0x8000_0000_0000_0000_0000_0000) by (nonlinear_arith)
            requires
                b.size <= u32::MAX,
        ;
    }
    k + c
}

/// The sum of the kinds and status codes of the first `n` spans.
pub open spec fn spans_digest(spans: Seq<SpanView>, n: nat) -> int
    decreases n,
{
    if n == 0 {
        0
    } else {
        let s = spans[n - 1];
        spans_digest(spans, (n - 1) as nat) + s.kind as int + match s.status {
            Some(st) => st.code as int,
            None => 0,
        }
    }
}

proof fn lemma_spans_digest_bound(spans: Seq<SpanView>, n: nat)
    ensures
        -(n as int) * 0x1_0000_0000 <= spans_digest(spans, n) <= (n as int) * 0x1_0000_0000,
    decreases n,
{
    if n > 0 {
        lemma_spans_digest_bound(spans, (n - 1) as nat);
        assert((n as int) * 0x1_0000_0000 == ((n - 1) as int) * 0x1_0000_0000 + 0x1_0000_0000) by (nonlinear_arith);
    }
}

/// The digest that the row-oriented trace handler is compared by: the sum
/// of the kinds and of the status codes of its spans.
pub fn native_digest(h: &NativeTraceHandler) -> (r: i128)
    requires
        h.wf(),
    ensures
        r == spans_digest(h.spans(), h.spans().len()),
{
    let spans = &h.resource_spans.instrumentation_library_spans[0].spans;
    let ghost sv = h.spans();
    let mut acc: i128 = 0;
    let mut i: usize = 0;
    while i < spans.len()
        invariant
            i <= spans@.len(),
            sv == h.spans(),
            sv.len() == spans@.len(),
            forall|j: int| 0 <= j < sv.len() ==> #[trigger] sv[j] == spans@[j]@,
            acc == spans_digest(sv, i as nat),
        decreases spans@.len() - i,
    {
        proof {
            lemma_spans_digest_bound(sv, (i + 1) as nat);
            assert((i as int + 1) * 0x1_0000_0000 <= 0x1_0000_0000_0000_0000_0000_0000) by (nonlinear_arith)
                requires
                    i < 0x1_0000_0000_0000_0000,
            ;
            assert(sv[i as int] == spans@[i as int]@);
        }
        let s = &spans[i];
        acc = acc + s.kind as i128;
        match &s.status {
            Some(st) => {
                acc = acc + st.code as i128;
            },
            None => {},
        }
        i += 1;
    }
    acc
}

} // verus!
