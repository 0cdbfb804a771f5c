//! Event bindings and the batch handler that records events into a batch,
//! resets it when full, and carries the envelope around it.
use crate::batch::{ColumnLayout, EntityLayout, entity_views, AuxiliaryEntity, BatchEvent, BatchView, ColumnSet, ColumnSetView, EntityView};
use crate::envelope::{InstrumentationLibrary, InstrumentationLibraryEvents, Resource, ResourceEvents};
use crate::envelope::{LibraryView, ResourceEventsView, ResourceView};
use crate::envelope_codec::{encode_resource_events, resource_events_bytes};
use crate::envelope_decode::{decode_resource_events, decode_resource_events_bytes, lemma_resource_events_round_trip};
use crate::json::{json_rows, rows_view, to_json, JsonRow, RowView};
use crate::validate::{all_batches_wf, batch_wf, check_all_batches};
use core::marker::PhantomData;
use vstd::prelude::*;

verus! {

/// When a batch is flushed: once it holds `max_size` rows, or, on a tick of
/// an outside timer (`EventBatchHandler::on_tick`), once it has waited
/// `max_delay_ms` milliseconds with at least one row.
#[derive(Debug, Clone, Copy, PartialEq, Eq)]
pub struct BatchPolicy {
    pub max_size: u32,
    pub max_delay_ms: i64,
}

impl BatchPolicy {
    pub fn new(max_size: u32, max_delay_ms: i64) -> (r: Self)
        ensures
            r.max_size == max_size,
            r.max_delay_ms == max_delay_ms,
    {
        BatchPolicy { max_size, max_delay_ms }
    }
}

/// What can go wrong.
#[derive(Debug, PartialEq, Eq)]
pub enum Error {
    /// The event does not fit in the batch, even after a reset.
    CapacityError,
    /// A batch could not be encoded.
    EncodeError,
    /// A buffer is not a well-formed message for this handler.
    DecodeError,
    /// Reading or writing outside the library failed.
    IoError(String),
    /// Two implementations gave different results for the same batch.
    EquivalenceError { implementation: String, batch_size: u64, batch_index: u64 },
}

/// How an event type is laid out in a batch, and how one event is written
/// into it as one row.
pub trait OpenTelemetryEvent: Sized {
    /// The URN of the event's schema.
    spec fn urn_spec() -> Seq<char>;

    fn urn() -> (r: String)
        ensures
            r@ == Self::urn_spec(),
    ;

    /// The columns of this event type, by kind: names and optionality.
    spec fn declared_columns() -> ColumnLayout;

    /// The auxiliary entities of this event type.
    spec fn declared_entities() -> Seq<EntityLayout>;

    /// The columns have the shape that this event type writes rows into.
    spec fn fits_columns(c: ColumnSetView) -> bool;

    /// The auxiliary entities are those that this event type declares.
    spec fn fits_entities(es: Seq<EntityView>) -> bool;

    /// The columns of an empty batch.
    fn columns(batch_policy: &BatchPolicy) -> (r: ColumnSet)
        ensures
            r@.is_clear(),
            Self::fits_columns(r@),
            r@.declares(Self::declared_columns(), batch_policy.max_size),
    ;

    /// The auxiliary entities of an empty batch.
    fn auxiliary_entities(batch_policy: &BatchPolicy) -> (r: Vec<AuxiliaryEntity>)
        ensures
            forall|k: int| 0 <= k < r@.len() ==> (#[trigger] r@[k])@.is_clear(),
            r@.len() == Self::declared_entities().len(),
            forall|k: int|
                0 <= k < r@.len() ==> (#[trigger] r@[k])@.declares(
                    Self::declared_entities()[k],
                    batch_policy.max_size,
                ),
            Self::fits_entities(entity_views(r@)),
    ;

    /// Whether a batch has this event type's layout.
    fn fits(batch: &BatchEvent) -> (r: bool)
        ensures
            r == (Self::fits_columns(batch@.columns) && Self::fits_entities(
                batch@.auxiliary_entities,
            )),
    ;

    /// The layout depends on the shape of the columns alone.
    proof fn lemma_fits_same_shape(a: BatchView, b: BatchView)
        requires
            b.same_shape(a),
            b.is_clear(),
            Self::fits_columns(a.columns),
            Self::fits_entities(a.auxiliary_entities),
        ensures
            Self::fits_columns(b.columns),
            Self::fits_entities(b.auxiliary_entities),
    ;

    /// The event's row, and its child rows, fit in the batch's counters.
    spec fn fits_in(&self, batch: BatchView) -> bool;

    fn can_record(&self, batch: &BatchEvent) -> (r: bool)
        ensures
            r == self.fits_in(batch@),
    ;

    /// `after` is `before` with this event's row (and child rows) written.
    spec fn row_written(&self, before: BatchView, after: BatchView) -> bool;

    /// Appends this event as one row of the batch, and its children as rows
    /// of the auxiliary entities.
    fn record_into(self, batch: &mut BatchEvent)
        requires
            old(batch)@.wf(),
            Self::fits_columns(old(batch)@.columns),
            Self::fits_entities(old(batch)@.auxiliary_entities),
            old(batch).size < u32::MAX,
            self.fits_in(old(batch)@),
        ensures
            final(batch)@.wf(),
            final(batch)@.extends(old(batch)@),
            Self::fits_columns(final(batch)@.columns),
            Self::fits_entities(final(batch)@.auxiliary_entities),
            self.row_written(old(batch)@, final(batch)@),
    ;
}

/// Records events of type `T` into one batch of a `ResourceEvents`.
#[derive(Debug)]
pub struct EventBatchHandler<T> {
    pub schema_url: String,
    pub batch_policy: BatchPolicy,
    pub resource_events: ResourceEvents,
    /// Encoded batches that filled up, oldest first, waiting for delivery.
    pub pending: Vec<Vec<u8>>,
    pub phantom_data: PhantomData<T>,
}

/// A builder of handlers that share one batch policy.
#[derive(Debug)]
pub struct EventCollector {
    default_batch_policy: BatchPolicy,
}

/// The size of a batch after one more record, by a handler whose batches
/// hold `max_size` rows: a full batch is reset first.
pub open spec fn next_size(size: nat, max_size: nat) -> nat {
    if size == max_size {
        1
    } else {
        size + 1
    }
}

/// The size of an empty batch after `n` records.
pub open spec fn size_after(n: nat, max_size: nat) -> nat
    decreases n,
{
    if n == 0 {
        0
    } else {
        next_size(size_after((n - 1) as nat, max_size), max_size)
    }
}

/// After `n` records into an empty batch of `max_size` rows, the batch
/// holds `n` modulo `max_size` rows, or `max_size` rows where that
/// remainder is 0 and `n > 0`; so it never holds more than `max_size`.
pub proof fn lemma_size_after(n: nat, max_size: nat)
    requires
        max_size > 0,
    ensures
        size_after(n, max_size) == if n == 0 {
            0
        } else if n % max_size == 0 {
            max_size
        } else {
            n % max_size
        },
        size_after(n, max_size) <= max_size,
    decreases n,
{
    if n > 0 {
        lemma_size_after((n - 1) as nat, max_size);
        let m = (n - 1) as nat;
        let r = m % max_size;
        assert(r < max_size) by (nonlinear_arith)
            requires
                r == m % max_size,
                max_size > 0,
        ;
        if m == 0 {
            assert(r == 0) by (nonlinear_arith)
                requires
                    r == m % max_size,
                    m == 0,
                    max_size > 0,
            ;
        }
        assert(size_after(n, max_size) == r + 1);
        assert(n % max_size == if r + 1 == max_size {
            0
        } else {
            r + 1
        }) by (nonlinear_arith)
            requires
                n == m + 1,
                r == m % max_size,
                r < max_size,
                max_size > 0,
        ;
    }
}

/// Replacing a well-formed first batch keeps every batch well formed.
pub proof fn lemma_all_wf_but_batch(a: &ResourceEvents, b: &ResourceEvents)
    requires
        a.has_batch(),
        b.has_batch(),
        a.same_but_batch(b),
        all_batches_wf(b@),
        a.batch()@.wf(),
    ensures
        all_batches_wf(a@),
{
    let (va, vb) = (a@, b@);
    assert forall|i: int, j: int|
        0 <= i < va.instrumentation_library_events.len() && 0 <= j < va.instrumentation_library_events[i].batches.len()
            implies (#[trigger] va.instrumentation_library_events[i].batches[j]).wf() by {
        if i >= 1 {
            assert(a.instrumentation_library_events@[i] == b.instrumentation_library_events@[i]);
            assert(va.instrumentation_library_events[i] == vb.instrumentation_library_events[i]);
        } else if j >= 1 {
            assert(a.instrumentation_library_events@[0].batches@[j] == b.instrumentation_library_events@[0].batches@[j]);
            assert(va.instrumentation_library_events[0].batches[j] == vb.instrumentation_library_events[0].batches[j]);
        } else {
            assert(va.instrumentation_library_events[0].batches[0] == a.batch()@);
        }
    }
}

/// A record that finds the `size_after(n - 1)` rows of the first `n - 1`
/// records leaves `size_after(n)` rows (by `record`'s `next_size`), that
/// is `n` modulo `max_size`, or `max_size` where that remainder is 0.
pub proof fn lemma_nth_record(n: nat, max_size: nat)
    requires
        n >= 1,
        max_size > 0,
    ensures
        next_size(size_after((n - 1) as nat, max_size), max_size) == size_after(n, max_size),
        size_after(n, max_size) == if n % max_size == 0 {
            max_size
        } else {
            n % max_size
        },
        size_after(n, max_size) <= max_size,
{
    lemma_size_after(n, max_size);
}

impl<T: OpenTelemetryEvent> EventBatchHandler<T> {
    /// The handler's batch exists, is well formed, holds at most
    /// `max_size` rows and has the layout of `T`.
    pub open spec fn wf(&self) -> bool {
        &&& self.resource_events.has_batch()
        &&& self.resource_events.batch()@.wf()
        &&& all_batches_wf(self.resource_events@)
        &&& self.resource_events.batch().size <= self.batch_policy.max_size
        &&& T::fits_columns(self.resource_events.batch()@.columns)
        &&& T::fits_entities(self.resource_events.batch()@.auxiliary_entities)
    }

    /// The state of a new handler under `p`: an empty resource, one
    /// library (`otel-rust`, `1.0`) with one empty batch holding the columns
    /// and auxiliary entities that `T` declares (optional columns with
    /// bitmaps over `max_size` rows), no pending bytes, and an empty
    /// projection.
    pub open spec fn is_fresh(&self, p: BatchPolicy) -> bool {
        let v = self.resource_events@;
        let b = self.resource_events.batch()@;
        &&& self.wf()
        &&& self.batch_policy == p
        &&& self.schema_url@ == T::urn_spec()
        &&& self.pending@.len() == 0
        &&& v.resource == Some(ResourceView { attributes: Seq::empty(), dropped_attributes_count: 0 })
        &&& v.schema_url.len() == 0
        &&& v.instrumentation_library_events.len() == 1
        &&& v.instrumentation_library_events[0].instrumentation_library == Some(
            LibraryView { name: "otel-rust"@, version: "1.0"@ },
        )
        &&& v.instrumentation_library_events[0].dropped_events_count == 0
        &&& v.instrumentation_library_events[0].batches.len() == 1
        &&& v.instrumentation_library_events[0].batches[0] == b
        &&& b.size == 0
        &&& b.is_clear()
        &&& b.schema_url == T::urn_spec()
        &&& b.columns.declares(T::declared_columns(), p.max_size)
        &&& b.auxiliary_entities.len() == T::declared_entities().len()
        &&& forall|k: int|
            0 <= k < b.auxiliary_entities.len() ==> (#[trigger] b.auxiliary_entities[k]).declares(
                T::declared_entities()[k],
                p.max_size,
            )
        &&& to_json(v) == Seq::<RowView>::empty()
    }

    /// A handler with one empty batch laid out for `T`.
    pub fn new(batch_policy: BatchPolicy) -> (r: Self)
        ensures
            r.is_fresh(batch_policy),
    {
        let batch = BatchEvent {
            schema_url: T::urn(),
            size: 0,
            start_time_unix_nano_column: Vec::with_capacity(batch_policy.max_size as usize),
            end_time_unix_nano_column: Vec::with_capacity(batch_policy.max_size as usize),
            columns: T::columns(&batch_policy),
            auxiliary_entities: T::auxiliary_entities(&batch_policy),
        };
        let mut batches = Vec::new();
        batches.push(batch);
        let mut libraries = Vec::new();
        libraries.push(
            InstrumentationLibraryEvents {
                instrumentation_library: Some(
                    InstrumentationLibrary { name: "otel-rust".to_owned(), version: "1.0".to_owned() },
                ),
                batches,
                dropped_events_count: 0,
            },
        );
        let r = EventBatchHandler {
            schema_url: T::urn(),
            batch_policy,
            resource_events: ResourceEvents {
                resource: Some(Resource { attributes: Vec::new(), dropped_attributes_count: 0 }),
                instrumentation_library_events: libraries,
                schema_url: String::new(),
            },
            pending: Vec::new(),
            phantom_data: PhantomData,
        };
        proof {
            let b = r.resource_events.batch()@;
            let v = r.resource_events@;
            assert(v.resource.unwrap().attributes =~= Seq::<crate::envelope::KeyValueView>::empty());
            assert(v.instrumentation_library_events[0].batches[0] == b);
            assert(entity_views(r.resource_events.batch().auxiliary_entities@)
                =~= entity_views(r.resource_events.batch().auxiliary_entities@));
            assert(to_json(v) == Seq::<RowView>::empty()) by {
                let lv = v.instrumentation_library_events;
                let bs = lv[0].batches;
                assert(lv.drop_last() =~= Seq::<crate::envelope::LibraryEventsView>::empty());
                assert(bs.drop_last() =~= Seq::<BatchView>::empty());
                assert(crate::json::batch_json(b) =~= Seq::<RowView>::empty());
                assert(bs.last() == b);
                assert(crate::json::batches_json(bs.drop_last()) == Seq::<RowView>::empty());
                assert(crate::json::batches_json(bs) =~= Seq::<RowView>::empty());
                let rest = ResourceEventsView { instrumentation_library_events: lv.drop_last(), ..v };
                assert(to_json(rest) == Seq::<RowView>::empty());
                assert(to_json(v) =~= Seq::<RowView>::empty());
            }
            crate::batch::lemma_clear_wf(b.columns);
            assert forall|k: int| 0 <= k < b.auxiliary_entities.len() implies (
            #[trigger] b.auxiliary_entities[k]).wf(0) by {
                crate::batch::lemma_clear_wf(b.auxiliary_entities[k].columns);
            }
        }
        r
    }

    /// Drops every row and child row of the batch, keeping its columns
    /// and their allocation. Doing it twice leaves what doing it once does.
    pub fn reset_batch_event(&mut self)
        requires
            old(self).wf(),
        ensures
            final(self).wf(),
            final(self).batch_policy == old(self).batch_policy,
            final(self).pending == old(self).pending,
            final(self).schema_url == old(self).schema_url,
            final(self).resource_events.same_but_batch(&old(self).resource_events),
            final(self).resource_events.batch()@ == old(self).resource_events.batch()@.cleared(),
    {
        let ghost before = self.resource_events.batch()@;
        let batch = &mut self.resource_events.instrumentation_library_events[0].batches[0];
        batch.reset();
        proof {
            T::lemma_fits_same_shape(before, self.resource_events.batch()@);
            lemma_all_wf_but_batch(&self.resource_events, &old(self).resource_events);
        }
    }

    /// Appends one event as a row. A full batch is reset first. Fails with
    /// `CapacityError`, after that reset, where the event does not fit:
    /// the policy allows no row, or its child rows overflow a counter.
    #[verifier::rlimit(100)]
    pub fn record(&mut self, event: T) -> (r: Result<(), Error>)
        requires
            old(self).wf(),
        ensures
            final(self).wf(),
            final(self).batch_policy == old(self).batch_policy,
            final(self).schema_url == old(self).schema_url,
            final(self).resource_events.same_but_batch(&old(self).resource_events),
            old(self).resource_events.batch().size == old(self).batch_policy.max_size ==> (
            final(self).pending@.len() == old(self).pending@.len() + 1 && final(self).pending@.take(
                old(self).pending@.len() as int,
            ) == old(self).pending@ && final(self).pending@.last()@ == resource_events_bytes(
                old(self).resource_events@,
            )),
            old(self).resource_events.batch().size != old(self).batch_policy.max_size
                ==> final(self).pending == old(self).pending,
            ({
                let max = old(self).batch_policy.max_size;
                let b0 = old(self).resource_events.batch()@;
                let start = if b0.size == max {
                    b0.cleared()
                } else {
                    b0
                };
                let b1 = final(self).resource_events.batch()@;
                &&& (r is Ok <==> (max > 0 && event.fits_in(start)))
                &&& (r is Ok ==> b1.extends(start) && event.row_written(start, b1) && b1.size
                    == next_size(b0.size as nat, max as nat))
                &&& (r is Err ==> b1 == start && r == Err::<(), Error>(Error::CapacityError))
            }),
    {
        let max = self.batch_policy.max_size;
        if self.resource_events.instrumentation_library_events[0].batches[0].size == max {
            let full = encode_resource_events(&self.resource_events);
            self.pending.push(full);
            self.reset_batch_event();
            assert(self.pending@.take(old(self).pending@.len() as int) =~= old(self).pending@);
        }
        if max == 0 || !event.can_record(&self.resource_events.instrumentation_library_events[0].batches[0]) {
            return Err(Error::CapacityError);
        }
        let ghost mid = self.resource_events;
        let batch = &mut self.resource_events.instrumentation_library_events[0].batches[0];
        event.record_into(batch);
        proof {
            lemma_all_wf_but_batch(&self.resource_events, &mid);
        }
        Ok(())
    }

    /// The bytes of the whole `ResourceEvents` message; the handler is not
    /// changed. Encoding does not fail.
    pub fn serialize(&self) -> (r: Result<Vec<u8>, Error>)
        ensures
            r matches Ok(v) && v@ == resource_events_bytes(self.resource_events@),
    {
        Ok(encode_resource_events(&self.resource_events))
    }

    /// A decoded message that this handler can keep recording into: every
    /// batch is well formed, and the first batch exists, holds at most
    /// `max_size` rows and has the layout of `T`.
    pub open spec fn accepts(v: ResourceEventsView, max_size: u32) -> bool {
        &&& all_batches_wf(v)
        &&& v.instrumentation_library_events.len() >= 1
        &&& v.instrumentation_library_events[0].batches.len() >= 1
        &&& v.instrumentation_library_events[0].batches[0].wf()
        &&& v.instrumentation_library_events[0].batches[0].size <= max_size
        &&& T::fits_columns(v.instrumentation_library_events[0].batches[0].columns)
        &&& T::fits_entities(v.instrumentation_library_events[0].batches[0].auxiliary_entities)
    }

    /// Replaces the whole message by the one that `buf` holds. Fails with
    /// `DecodeError`, leaving the handler as it was, where `buf` is not a
    /// well-formed message, one of its batches is malformed, or its first
    /// batch does not fit this handler.
    pub fn deserialize(&mut self, buf: Vec<u8>) -> (r: Result<(), Error>)
        requires
            old(self).wf(),
        ensures
            final(self).wf(),
            final(self).batch_policy == old(self).batch_policy,
            final(self).pending == old(self).pending,
            final(self).schema_url == old(self).schema_url,
            match decode_resource_events(buf@) {
                Some(v) => if Self::accepts(v, old(self).batch_policy.max_size) {
                    r is Ok && final(self).resource_events@ == v
                } else {
                    r == Err::<(), Error>(Error::DecodeError) && final(self).resource_events
                        == old(self).resource_events
                },
                None => r == Err::<(), Error>(Error::DecodeError) && final(self).resource_events
                    == old(self).resource_events,
            },
    {
        match decode_resource_events_bytes(buf.as_slice()) {
            None => Err(Error::DecodeError),
            Some(re) => {
                if re.instrumentation_library_events.len() == 0
                    || re.instrumentation_library_events[0].batches.len() == 0 {
                    return Err(Error::DecodeError);
                }
                let b = &re.instrumentation_library_events[0].batches[0];
                assert(re@.instrumentation_library_events[0].batches[0] == b@);
                if !(check_all_batches(&re) && batch_wf(b) && b.size <= self.batch_policy.max_size && T::fits(b)) {
                    return Err(Error::DecodeError);
                }
                self.resource_events = re;
                Ok(())
            },
        }
    }

    /// What `serialize` writes, `deserialize` reads back as the same
    /// message, and accepts: every column, bitmap and parent rank survives
    /// the round trip (for messages of fewer than 2^64 bytes).
    pub proof fn lemma_round_trip(&self)
        requires
            self.wf(),
            resource_events_bytes(self.resource_events@).len() <= u64::MAX,
        ensures
            decode_resource_events(resource_events_bytes(self.resource_events@)) == Some(
                self.resource_events@,
            ),
            Self::accepts(self.resource_events@, self.batch_policy.max_size),
    {
        lemma_resource_events_round_trip(self.resource_events@);
        assert(self.resource_events@.instrumentation_library_events[0].batches[0]
            == self.resource_events.batch()@);
    }

    /// The JSON-shaped projection of the message: one object per row of
    /// each batch; an empty batch gives no object.
    pub fn to_json_value(&self) -> (r: Vec<JsonRow>)
        ensures
            rows_view(r@) == to_json(self.resource_events@),
    {
        json_rows(&self.resource_events)
    }

    /// Reacts to a tick of an outside timer, `elapsed_ms` milliseconds
    /// after the batch's first row: a batch with rows that has waited at
    /// least `max_delay_ms` is encoded to `pending` and reset. Gives whether
    /// it was.
    pub fn on_tick(&mut self, elapsed_ms: i64) -> (r: bool)
        requires
            old(self).wf(),
        ensures
            final(self).wf(),
            final(self).batch_policy == old(self).batch_policy,
            final(self).schema_url == old(self).schema_url,
            r == (old(self).resource_events.batch().size > 0 && elapsed_ms >= old(self).batch_policy.max_delay_ms),
            r ==> final(self).resource_events.same_but_batch(&old(self).resource_events)
                && final(self).resource_events.batch()@ == old(self).resource_events.batch()@.cleared()
                && final(self).pending@ == old(self).pending@.push(final(self).pending@.last())
                && final(self).pending@.last()@ == resource_events_bytes(old(self).resource_events@),
            !r ==> final(self).resource_events == old(self).resource_events && final(self).pending
                == old(self).pending,
    {
        if self.resource_events.instrumentation_library_events[0].batches[0].size > 0
            && elapsed_ms >= self.batch_policy.max_delay_ms {
            let bytes = encode_resource_events(&self.resource_events);
            self.pending.push(bytes);
            self.reset_batch_event();
            true
        } else {
            false
        }
    }

    /// Hands over the encoded batches that filled up, oldest first.
    pub fn take_pending(&mut self) -> (r: Vec<Vec<u8>>)
        ensures
            r == old(self).pending,
            final(self).pending@.len() == 0,
            final(self).resource_events == old(self).resource_events,
            final(self).batch_policy == old(self).batch_policy,
    {
        let mut out: Vec<Vec<u8>> = Vec::new();
        core::mem::swap(&mut out, &mut self.pending);
        out
    }
}

impl EventCollector {
    pub fn new(batch_policy: BatchPolicy) -> (r: Self)
        ensures
            r.default_policy() == batch_policy,
    {
        EventCollector { default_batch_policy: batch_policy }
    }

    pub closed spec fn default_policy(&self) -> BatchPolicy {
        self.default_batch_policy
    }

    /// The policy that the collector's handlers get.
    pub fn default_batch_policy(&self) -> (r: BatchPolicy)
        ensures
            r == self.default_policy(),
    {
        self.default_batch_policy
    }

    /// A handler for events of type `T` under the collector's policy.
    pub fn event_handler<T: OpenTelemetryEvent>(&self) -> (r: EventBatchHandler<T>)
        ensures
            r.is_fresh(self.default_policy()),
    {
        EventBatchHandler::new(self.default_batch_policy)
    }
}

} // verus!
