//! The envelope around batches: the resource that emitted them, the
//! instrumentation library that produced them, and the schema URL.
use crate::batch::{BatchEvent, BatchView};
use crate::column::F64Bits;
use vstd::prelude::*;

verus! {

/// The value of an attribute.
#[derive(Debug)]
pub enum AnyValue {
    StringValue(String),
    BoolValue(bool),
    IntValue(i64),
    DoubleValue(F64Bits),
    BytesValue(Vec<u8>),
}

/// A named attribute; `None` stands for an attribute without a value.
#[derive(Debug)]
pub struct KeyValue {
    pub key: String,
    pub value: Option<AnyValue>,
}

/// The entity that emitted the telemetry.
#[derive(Debug)]
pub struct Resource {
    pub attributes: Vec<KeyValue>,
    pub dropped_attributes_count: u32,
}

/// The library that produced the telemetry.
#[derive(Debug)]
pub struct InstrumentationLibrary {
    pub name: String,
    pub version: String,
}

/// The batches that one library produced.
#[derive(Debug)]
pub struct InstrumentationLibraryEvents {
    pub instrumentation_library: Option<InstrumentationLibrary>,
    pub batches: Vec<BatchEvent>,
    pub dropped_events_count: u32,
}

/// The top-level message: a resource, the batches of each library, and a
/// schema URL.
#[derive(Debug)]
pub struct ResourceEvents {
    pub resource: Option<Resource>,
    pub instrumentation_library_events: Vec<InstrumentationLibraryEvents>,
    pub schema_url: String,
}

impl ResourceEvents {
    /// There is a first batch of a first library.
    pub open spec fn has_batch(&self) -> bool {
        self.instrumentation_library_events@.len() >= 1
            && self.instrumentation_library_events@[0].batches@.len() >= 1
    }

    /// The first batch of the first library.
    pub open spec fn batch(&self) -> BatchEvent
        recommends
            self.has_batch(),
    {
        self.instrumentation_library_events@[0].batches@[0]
    }

    /// `self` and `o` differ at most in their first batch.
    pub open spec fn same_but_batch(&self, o: &ResourceEvents) -> bool {
        &&& self.resource == o.resource
        &&& self.schema_url == o.schema_url
        &&& self.instrumentation_library_events@.len() == o.instrumentation_library_events@.len()
        &&& forall|i: int|
            1 <= i < self.instrumentation_library_events@.len()
                ==> #[trigger] self.instrumentation_library_events@[i]
                == o.instrumentation_library_events@[i]
        &&& self.instrumentation_library_events@[0].instrumentation_library
            == o.instrumentation_library_events@[0].instrumentation_library
        &&& self.instrumentation_library_events@[0].dropped_events_count
            == o.instrumentation_library_events@[0].dropped_events_count
        &&& self.instrumentation_library_events@[0].batches@.len()
            == o.instrumentation_library_events@[0].batches@.len()
        &&& forall|j: int|
            1 <= j < self.instrumentation_library_events@[0].batches@.len()
                ==> #[trigger] self.instrumentation_library_events@[0].batches@[j]
                == o.instrumentation_library_events@[0].batches@[j]
    }
}


pub ghost enum AnyValueView {
    StringValue(Seq<char>),
    BoolValue(bool),
    IntValue(i64),
    DoubleValue(u64),
    BytesValue(Seq<u8>),
}

pub ghost struct KeyValueView {
    pub key: Seq<char>,
    pub value: Option<AnyValueView>,
}

pub ghost struct ResourceView {
    pub attributes: Seq<KeyValueView>,
    pub dropped_attributes_count: u32,
}

pub ghost struct LibraryView {
    pub name: Seq<char>,
    pub version: Seq<char>,
}

pub ghost struct LibraryEventsView {
    pub instrumentation_library: Option<LibraryView>,
    pub batches: Seq<BatchView>,
    pub dropped_events_count: u32,
}

pub ghost struct ResourceEventsView {
    pub resource: Option<ResourceView>,
    pub instrumentation_library_events: Seq<LibraryEventsView>,
    pub schema_url: Seq<char>,
}

impl View for AnyValue {
    type V = AnyValueView;

    open spec fn view(&self) -> AnyValueView {
        match self {
            AnyValue::StringValue(s) => AnyValueView::StringValue(s@),
            AnyValue::BoolValue(b) => AnyValueView::BoolValue(*b),
            AnyValue::IntValue(i) => AnyValueView::IntValue(*i),
            AnyValue::DoubleValue(d) => AnyValueView::DoubleValue(d.0),
            AnyValue::BytesValue(b) => AnyValueView::BytesValue(b@),
        }
    }
}

impl View for KeyValue {
    type V = KeyValueView;

    open spec fn view(&self) -> KeyValueView {
        KeyValueView {
            key: self.key@,
            value: match self.value {
                Some(v) => Some(v@),
                None => None,
            },
        }
    }
}

impl View for Resource {
    type V = ResourceView;

    open spec fn view(&self) -> ResourceView {
        ResourceView {
            attributes: Seq::new(self.attributes@.len(), |i: int| self.attributes@[i]@),
            dropped_attributes_count: self.dropped_attributes_count,
        }
    }
}

impl View for InstrumentationLibrary {
    type V = LibraryView;

    open spec fn view(&self) -> LibraryView {
        LibraryView { name: self.name@, version: self.version@ }
    }
}

impl View for InstrumentationLibraryEvents {
    type V = LibraryEventsView;

    open spec fn view(&self) -> LibraryEventsView {
        LibraryEventsView {
            instrumentation_library: match self.instrumentation_library {
                Some(l) => Some(l@),
                None => None,
            },
            batches: Seq::new(self.batches@.len(), |i: int| self.batches@[i]@),
            dropped_events_count: self.dropped_events_count,
        }
    }
}

impl View for ResourceEvents {
    type V = ResourceEventsView;

    open spec fn view(&self) -> ResourceEventsView {
        ResourceEventsView {
            resource: match self.resource {
                Some(r) => Some(r@),
                None => None,
            },
            instrumentation_library_events: Seq::new(
                self.instrumentation_library_events@.len(),
                |i: int| self.instrumentation_library_events@[i]@,
            ),
            schema_url: self.schema_url@,
        }
    }
}

} // verus!
