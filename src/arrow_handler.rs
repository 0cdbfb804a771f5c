//! The record-batch handler: events of one schema described for a columnar
//! record-batch representation, with an envelope that carries the framed
//! record batch as bytes (`arrow_buffer`) beside the row count and the
//! time columns.
use crate::envelope::{InstrumentationLibrary, LibraryView, Resource, ResourceView};
use crate::event::{next_size, BatchPolicy, Error, EventCollector};
use crate::json_trace::JsonTrace;
use core::marker::PhantomData;
use vstd::prelude::*;

verus! {

/// The type of a record-batch field.
#[derive(Debug)]
pub enum ArrowDataType {
    UInt64,
    Int64,
    Float64,
    Utf8,
    Bool,
    Binary,
    Struct(Vec<ArrowField>),
    List(Box<ArrowField>),
}

/// A field of a record-batch schema.
#[derive(Debug)]
pub struct ArrowField {
    pub name: String,
    pub data_type: ArrowDataType,
    pub nullable: bool,
}

/// A batch whose columns travel as one framed record batch.
#[derive(Debug)]
pub struct ArrowBatchEvent {
    pub schema_url: String,
    pub size: u32,
    pub start_time_unix_nano_column: Vec<u64>,
    pub end_time_unix_nano_column: Vec<u64>,
    pub arrow_buffer: Vec<u8>,
}

/// The record-batch batches of one library.
#[derive(Debug)]
pub struct ArrowLibraryEvents {
    pub instrumentation_library: Option<InstrumentationLibrary>,
    pub batches: Vec<ArrowBatchEvent>,
    pub dropped_events_count: u32,
}

/// The top-level message of the record-batch handler.
#[derive(Debug)]
pub struct ArrowResourceEvents {
    pub resource: Option<Resource>,
    pub instrumentation_library_events: Vec<ArrowLibraryEvents>,
    pub schema_url: String,
}

/// An event type described as a record-batch schema.
pub trait OpenTelemetryArrowEvent: Sized {
    /// The URN of the event's schema.
    spec fn urn_spec() -> Seq<char>;

    fn urn() -> (r: String)
        ensures
            r@ == Self::urn_spec(),
    ;

    /// `fields` is this event type's record-batch schema.
    spec fn is_schema(fields: Seq<ArrowField>) -> bool;

    fn arrow_schema(batch_policy: &BatchPolicy) -> (r: Vec<ArrowField>)
        ensures
            Self::is_schema(r@),
    ;

    /// The start and end time of the event.
    spec fn times(&self) -> (u64, u64);

    fn event_times(&self) -> (r: (u64, u64))
        ensures
            r == self.times(),
    ;
}

/// Records events of type `T` as rows of one record batch.
#[derive(Debug)]
pub struct ArrowEventBatchHandler<T> {
    pub schema_url: String,
    pub batch_policy: BatchPolicy,
    pub resource_events: ArrowResourceEvents,
    pub arrow_schema: Vec<ArrowField>,
    pub phantom_data: PhantomData<T>,
}

pub fn field(name: &str, data_type: ArrowDataType, nullable: bool) -> (r: ArrowField)
    ensures
        r.name@ == name@,
        r.data_type == data_type,
        r.nullable == nullable,
{
    ArrowField { name: name.to_owned(), data_type, nullable }
}

impl<T: OpenTelemetryArrowEvent> ArrowEventBatchHandler<T> {
    /// The handler's batch exists, and holds one start and one end time
    /// per row, at most `max_size` rows.
    pub open spec fn wf(&self) -> bool {
        &&& self.resource_events.instrumentation_library_events@.len() >= 1
        &&& self.resource_events.instrumentation_library_events@[0].batches@.len() >= 1
        &&& self.batch().start_time_unix_nano_column@.len() == self.batch().size
        &&& self.batch().end_time_unix_nano_column@.len() == self.batch().size
        &&& self.batch().size <= self.batch_policy.max_size
    }

    pub open spec fn batch(&self) -> ArrowBatchEvent {
        self.resource_events.instrumentation_library_events@[0].batches@[0]
    }

    /// `b1` is `b0` with a row of times `t` appended, after emptying `b0`
    /// where it held `max_size` rows.
    pub open spec fn recorded(b0: ArrowBatchEvent, b1: ArrowBatchEvent, max_size: u32, t: (u64, u64)) -> bool {
        let full = b0.size == max_size;
        let start = if full { Seq::<u64>::empty() } else { b0.start_time_unix_nano_column@ };
        let end = if full { Seq::<u64>::empty() } else { b0.end_time_unix_nano_column@ };
        &&& b1.size == (if full { 0 } else { b0.size }) + 1
        &&& b1.start_time_unix_nano_column@ == start.push(t.0)
        &&& b1.end_time_unix_nano_column@ == end.push(t.1)
        &&& b1.arrow_buffer@ == if full { Seq::<u8>::empty() } else { b0.arrow_buffer@ }
        &&& b1.schema_url == b0.schema_url
    }

    /// The record-batch handler counts its rows as the tag/value handler
    /// does: from the same size, a record leaves `next_size` rows, so the
    /// two hold the same number of rows after the same events.
    pub proof fn lemma_counts_like_tag_value(b0: ArrowBatchEvent, b1: ArrowBatchEvent, max_size: u32, t: (u64, u64))
        requires
            b0.size <= max_size,
            max_size > 0,
            Self::recorded(b0, b1, max_size, t),
        ensures
            b1.size == next_size(b0.size as nat, max_size as nat),
    {
    }

    /// Appends one event as a row: its start and end time. A full batch is
    /// first emptied, its record batch included. Fails with
    /// `CapacityError`, changing nothing, where the policy allows no row.
    pub fn record(&mut self, event: T) -> (r: Result<(), Error>)
        requires
            old(self).wf(),
        ensures
            final(self).wf(),
            final(self).batch_policy == old(self).batch_policy,
            final(self).schema_url == old(self).schema_url,
            final(self).arrow_schema == old(self).arrow_schema,
            old(self).batch_policy.max_size == 0 ==> r == Err::<(), Error>(Error::CapacityError)
                && final(self).resource_events == old(self).resource_events,
            old(self).batch_policy.max_size > 0 ==> r is Ok && Self::recorded(
                old(self).batch(),
                final(self).batch(),
                old(self).batch_policy.max_size,
                event.times(),
            ),
    {
        let max = self.batch_policy.max_size;
        if max == 0 {
            return Err(Error::CapacityError);
        }
        let (start, end) = event.event_times();
        let batch = &mut self.resource_events.instrumentation_library_events[0].batches[0];
        if batch.size == max {
            batch.start_time_unix_nano_column.clear();
            batch.end_time_unix_nano_column.clear();
            batch.arrow_buffer.clear();
            batch.size = 0;
        }
        batch.start_time_unix_nano_column.push(start);
        batch.end_time_unix_nano_column.push(end);
        batch.size = batch.size + 1;
        Ok(())
    }
}

impl EventCollector {
    /// A record-batch handler for events of type `T` under the collector's
    /// policy: an empty resource, one library (`otel-rust`, `1.0`) with one
    /// empty batch, and `T`'s schema.
    pub fn arrow_event_handler<T: OpenTelemetryArrowEvent>(&self) -> (r: ArrowEventBatchHandler<T>)
        ensures
            r.wf(),
            r.batch_policy == self.default_policy(),
            r.schema_url@ == T::urn_spec(),
            T::is_schema(r.arrow_schema@),
            r.resource_events.resource matches Some(res) && res@ == (ResourceView {
                attributes: Seq::empty(),
                dropped_attributes_count: 0,
            }),
            r.resource_events.schema_url@.len() == 0,
            r.resource_events.instrumentation_library_events@.len() == 1,
            r.resource_events.instrumentation_library_events@[0].instrumentation_library matches Some(l)
                && l@ == (LibraryView { name: "otel-rust"@, version: "1.0"@ }),
            r.resource_events.instrumentation_library_events@[0].dropped_events_count == 0,
            r.resource_events.instrumentation_library_events@[0].batches@.len() == 1,
            r.batch().schema_url@ == T::urn_spec(),
            r.batch().size == 0,
            r.batch().start_time_unix_nano_column@.len() == 0,
            r.batch().end_time_unix_nano_column@.len() == 0,
            r.batch().arrow_buffer@.len() == 0,
    {
        let policy = self.default_batch_policy();
        let mut batches = Vec::new();
        batches.push(
            ArrowBatchEvent {
                schema_url: T::urn(),
                size: 0,
                start_time_unix_nano_column: Vec::with_capacity(policy.max_size as usize),
                end_time_unix_nano_column: Vec::with_capacity(policy.max_size as usize),
                arrow_buffer: Vec::new(),
            },
        );
        let mut libraries = Vec::new();
        libraries.push(
            ArrowLibraryEvents {
                instrumentation_library: Some(
                    InstrumentationLibrary { name: "otel-rust".to_owned(), version: "1.0".to_owned() },
                ),
                batches,
                dropped_events_count: 0,
            },
        );
        let r = ArrowEventBatchHandler {
            schema_url: T::urn(),
            batch_policy: policy,
            resource_events: ArrowResourceEvents {
                resource: Some(Resource { attributes: Vec::new(), dropped_attributes_count: 0 }),
                instrumentation_library_events: libraries,
                schema_url: String::new(),
            },
            arrow_schema: T::arrow_schema(&policy),
            phantom_data: PhantomData,
        };
        proof {
            assert(r.resource_events.resource.unwrap()@.attributes =~= Seq::<crate::envelope::KeyValueView>::empty());
        }
        r
    }
}

/// A field named `name` of nullability `nullable`.
pub open spec fn named(f: ArrowField, name: Seq<char>, nullable: bool) -> bool {
    f.name@ == name && f.nullable == nullable
}

/// A struct of two non-null strings, `a` and `b`.
pub open spec fn two_strings(d: ArrowDataType, a: Seq<char>, b: Seq<char>, nullable: bool) -> bool {
    match d {
        ArrowDataType::Struct(fs) => fs@.len() == 2 && named(fs@[0], a, nullable) && fs@[0].data_type is Utf8
            && named(fs@[1], b, nullable) && fs@[1].data_type is Utf8,
        _ => false,
    }
}

impl OpenTelemetryArrowEvent for JsonTrace {
    open spec fn urn_spec() -> Seq<char> {
        "urn:project_a:trace:service"@
    }

    fn urn() -> (r: String) {
        "urn:project_a:trace:service".to_owned()
    }

    /// kind (nullable i64); status (nullable struct of a nullable string
    /// message and a nullable i64 code); trace_id, span_id (strings);
    /// trace_state, parent_span_id (nullable strings); name (string);
    /// attributes (nullable list of nullable `attr` structs of two
    /// strings, name and value).
    open spec fn is_schema(fs: Seq<ArrowField>) -> bool {
        &&& fs.len() == 8
        &&& named(fs[0], "kind"@, true) && fs[0].data_type is Int64
        &&& named(fs[1], "status"@, true) && match fs[1].data_type {
            ArrowDataType::Struct(s) => s@.len() == 2 && named(s@[0], "message"@, true) && s@[0].data_type is Utf8
                && named(s@[1], "code"@, true) && s@[1].data_type is Int64,
            _ => false,
        }
        &&& named(fs[2], "trace_id"@, false) && fs[2].data_type is Utf8
        &&& named(fs[3], "span_id"@, false) && fs[3].data_type is Utf8
        &&& named(fs[4], "trace_state"@, true) && fs[4].data_type is Utf8
        &&& named(fs[5], "parent_span_id"@, true) && fs[5].data_type is Utf8
        &&& named(fs[6], "name"@, false) && fs[6].data_type is Utf8
        &&& named(fs[7], "attributes"@, true) && match fs[7].data_type {
            ArrowDataType::List(item) => named(*item, "attr"@, true) && two_strings(
                item.data_type,
                "name"@,
                "value"@,
                false,
            ),
            _ => false,
        }
    }

    fn arrow_schema(batch_policy: &BatchPolicy) -> (r: Vec<ArrowField>) {
        let mut status = Vec::new();
        status.push(field("message", ArrowDataType::Utf8, true));
        status.push(field("code", ArrowDataType::Int64, true));
        let mut attr = Vec::new();
        attr.push(field("name", ArrowDataType::Utf8, false));
        attr.push(field("value", ArrowDataType::Utf8, false));
        let item = field("attr", ArrowDataType::Struct(attr), true);
        let mut r = Vec::new();
        r.push(field("kind", ArrowDataType::Int64, true));
        r.push(field("status", ArrowDataType::Struct(status), true));
        r.push(field("trace_id", ArrowDataType::Utf8, false));
        r.push(field("span_id", ArrowDataType::Utf8, false));
        r.push(field("trace_state", ArrowDataType::Utf8, true));
        r.push(field("parent_span_id", ArrowDataType::Utf8, true));
        r.push(field("name", ArrowDataType::Utf8, false));
        r.push(field("attributes", ArrowDataType::List(Box::new(item)), true));
        r
    }

    open spec fn times(&self) -> (u64, u64) {
        (self.evt.start_time_unix_nano, self.evt.end_time_unix_nano)
    }

    fn event_times(&self) -> (r: (u64, u64)) {
        (self.evt.start_time_unix_nano, self.evt.end_time_unix_nano)
    }
}

} // verus!
