//! The HTTP transaction event: one row per transaction, integer and string
//! columns only.
use crate::batch::{ColumnLayout, EntityLayout, entity_views, AuxiliaryEntity, BatchEvent, BatchView, ColumnSet, ColumnSetView, EntityView};
use crate::column::{Column, ColumnView};
use crate::event::{BatchPolicy, OpenTelemetryEvent};
use vstd::prelude::*;

verus! {

/// One HTTP exchange as observed by a client.
#[derive(Debug, Clone)]
pub struct HttpTransaction {
    pub host: String,
    pub port: u16,
    pub path: String,
    pub query: String,
    pub method: String,
    pub http_code: u16,
    pub dns_latency_ms: u32,
    pub tls_handshake_ms: u32,
    pub content_transfer_ms: u32,
    pub server_processing_ms: u32,
    pub request_size_bytes: u64,
    pub response_size_bytes: u64,
    /// When the transaction was observed, in nanoseconds since the Unix epoch.
    pub timestamp_unix_nano: u64,
}

/// Every column of `cols` has all of its slots present.
pub open spec fn all_required<W>(cols: Seq<ColumnView<W>>) -> bool {
    forall|i: int| 0 <= i < cols.len() ==> !(#[trigger] cols[i]).is_optional()
}

/// Whether every column of `cols` has all of its slots present.
pub fn check_all_required<V: DeepView>(cols: &Vec<Column<V>>) -> (r: bool)
    ensures
        r == all_required(crate::column::views(cols@)),
{
    let mut i: usize = 0;
    while i < cols.len()
        invariant
            i <= cols.len(),
            forall|j: int| 0 <= j < i ==> !(#[trigger] cols@[j])@.is_optional(),
        decreases cols.len() - i,
    {
        if cols[i].validity_bitmap.len() > 0 {
            assert(crate::column::views(cols@)[i as int].is_optional());
            return false;
        }
        i += 1;
    }
    true
}

/// The columns of a set other than its integer and string columns are empty.
pub open spec fn only_i64_and_strings(c: ColumnSetView) -> bool {
    &&& c.f64_values.len() == 0
    &&& c.bool_values.len() == 0
    &&& c.bytes_values.len() == 0
    &&& c.i64_summary_values.len() == 0
    &&& c.f64_summary_values.len() == 0
}

impl OpenTelemetryEvent for HttpTransaction {
    open spec fn urn_spec() -> Seq<char> {
        "urn:project_a:http:transaction"@
    }

    fn urn() -> (r: String) {
        "urn:project_a:http:transaction".to_owned()
    }

    open spec fn declared_columns() -> ColumnLayout {
        ColumnLayout {
            i64_values: seq![("port"@, false), ("http_code"@, false), ("dns_latency_ms"@, false), ("tls_handshake_ms"@, false), ("content_transfer_ms"@, false), ("server_processing_ms"@, false), ("request_size_bytes"@, false), ("response_size_bytes"@, false)],
            f64_values: Seq::empty(),
            string_values: seq![("host"@, false), ("path"@, false), ("query"@, false), ("method"@, false)],
            bool_values: Seq::empty(),
            bytes_values: Seq::empty(),
            i64_summary_values: Seq::empty(),
            f64_summary_values: Seq::empty(),
        }
    }

    open spec fn declared_entities() -> Seq<EntityLayout> {
        Seq::empty()
    }

    /// Eight integer columns (port, http_code, dns_latency_ms,
    /// tls_handshake_ms, content_transfer_ms, server_processing_ms,
    /// request_size_bytes, response_size_bytes) and four string columns
    /// (host, path, query, method), none optional.
    open spec fn fits_columns(c: ColumnSetView) -> bool {
        &&& c.i64_values.len() == 8
        &&& all_required(c.i64_values)
        &&& c.string_values.len() == 4
        &&& all_required(c.string_values)
        &&& only_i64_and_strings(c)
    }

    open spec fn fits_entities(es: Seq<EntityView>) -> bool {
        es.len() == 0
    }

    fn columns(batch_policy: &BatchPolicy) -> (r: ColumnSet) {
        let n = batch_policy.max_size;
        let mut c = ColumnSet::empty();
        c.i64_values.push(Column::new_required("port", n));
        c.i64_values.push(Column::new_required("http_code", n));
        c.i64_values.push(Column::new_required("dns_latency_ms", n));
        c.i64_values.push(Column::new_required("tls_handshake_ms", n));
        c.i64_values.push(Column::new_required("content_transfer_ms", n));
        c.i64_values.push(Column::new_required("server_processing_ms", n));
        c.i64_values.push(Column::new_required("request_size_bytes", n));
        c.i64_values.push(Column::new_required("response_size_bytes", n));
        c.string_values.push(Column::new_required("host", n));
        c.string_values.push(Column::new_required("path", n));
        c.string_values.push(Column::new_required("query", n));
        c.string_values.push(Column::new_required("method", n));
        proof {
            let v = c@;
            assert forall|i: int| 0 <= i < v.i64_values.len() implies (
            #[trigger] v.i64_values[i]).is_clear() by {
                assert(v.i64_values[i].validity_bitmap =~= Seq::<u8>::empty());
            }
            assert forall|i: int| 0 <= i < v.string_values.len() implies (
            #[trigger] v.string_values[i]).is_clear() by {
                assert(v.string_values[i].validity_bitmap =~= Seq::<u8>::empty());
            }
        }
        c
    }

    fn auxiliary_entities(batch_policy: &BatchPolicy) -> (r: Vec<AuxiliaryEntity>) {
        let r: Vec<AuxiliaryEntity> = Vec::new();
        assert(entity_views(r@) =~= Seq::<EntityView>::empty());
        r
    }

    fn fits(batch: &BatchEvent) -> (r: bool) {
        let c = &batch.columns;
        c.i64_values.len() == 8 && check_all_required(&c.i64_values) && c.string_values.len() == 4
            && check_all_required(&c.string_values) && c.f64_values.len() == 0
            && c.bool_values.len() == 0 && c.bytes_values.len() == 0
            && c.i64_summary_values.len() == 0 && c.f64_summary_values.len() == 0
            && batch.auxiliary_entities.len() == 0
    }

    proof fn lemma_fits_same_shape(a: BatchView, b: BatchView) {
        assert forall|i: int| 0 <= i < b.columns.i64_values.len() implies !(
        #[trigger] b.columns.i64_values[i]).is_optional() by {
            assert(b.columns.i64_values[i].same_shape(a.columns.i64_values[i]));
        }
        assert forall|i: int| 0 <= i < b.columns.string_values.len() implies !(
        #[trigger] b.columns.string_values[i]).is_optional() by {
            assert(b.columns.string_values[i].same_shape(a.columns.string_values[i]));
        }
    }

    open spec fn fits_in(&self, batch: BatchView) -> bool {
        true
    }

    fn can_record(&self, batch: &BatchEvent) -> (r: bool) {
        true
    }

    /// The new row holds the transaction's fields, in the column order
    /// above, and its timestamp as both its start and end time.
    open spec fn row_written(&self, before: BatchView, after: BatchView) -> bool {
        let n = before.size as int;
        let i = after.columns.i64_values;
        let s = after.columns.string_values;
        &&& i[0].values[n] == self.port as i64
        &&& i[1].values[n] == self.http_code as i64
        &&& i[2].values[n] == self.dns_latency_ms as i64
        &&& i[3].values[n] == self.tls_handshake_ms as i64
        &&& i[4].values[n] == self.content_transfer_ms as i64
        &&& i[5].values[n] == self.server_processing_ms as i64
        &&& i[6].values[n] == self.request_size_bytes as i64
        &&& i[7].values[n] == self.response_size_bytes as i64
        &&& s[0].values[n] == self.host@
        &&& s[1].values[n] == self.path@
        &&& s[2].values[n] == self.query@
        &&& s[3].values[n] == self.method@
        &&& after.start_time_unix_nano_column[n] == self.timestamp_unix_nano
        &&& after.end_time_unix_nano_column[n] == self.timestamp_unix_nano
    }

    fn record_into(self, batch: &mut BatchEvent) {
        let ghost before = batch@;
        proof {
            assert(forall|i: int| 0 <= i < 8 ==> !(#[trigger] before.columns.i64_values[i]).is_optional());
            assert(forall|i: int| 0 <= i < 4 ==> !(#[trigger] before.columns.string_values[i]).is_optional());
            assert(forall|i: int| 0 <= i < 8 ==> (#[trigger] before.columns.i64_values[i]).wf(before.size as nat));
            assert(forall|i: int| 0 <= i < 4 ==> (#[trigger] before.columns.string_values[i]).wf(before.size as nat));
        }
        batch.start_time_unix_nano_column.push(self.timestamp_unix_nano);
        batch.end_time_unix_nano_column.push(self.timestamp_unix_nano);
        proof {
            assert forall|i: int| 0 <= i < 8 implies !(#[trigger] batch.columns.i64_values@[i])@.is_optional()
                && batch.columns.i64_values@[i]@.wf(before.size as nat) by {
                assert(before.columns.i64_values[i] == batch.columns.i64_values@[i]@);
            }
            assert forall|i: int| 0 <= i < 4 implies !(#[trigger] batch.columns.string_values@[i])@.is_optional()
                && batch.columns.string_values@[i]@.wf(before.size as nat) by {
                assert(before.columns.string_values[i] == batch.columns.string_values@[i]@);
            }
        }
        batch.columns.i64_values[0].push_value(self.port as i64);
        batch.columns.i64_values[1].push_value(self.http_code as i64);
        batch.columns.i64_values[2].push_value(self.dns_latency_ms as i64);
        batch.columns.i64_values[3].push_value(self.tls_handshake_ms as i64);
        batch.columns.i64_values[4].push_value(self.content_transfer_ms as i64);
        batch.columns.i64_values[5].push_value(self.server_processing_ms as i64);
        batch.columns.i64_values[6].push_value(#[verifier::truncate] (self.request_size_bytes as i64));
        batch.columns.i64_values[7].push_value(#[verifier::truncate] (self.response_size_bytes as i64));
        batch.columns.string_values[0].push_value(self.host);
        batch.columns.string_values[1].push_value(self.path);
        batch.columns.string_values[2].push_value(self.query);
        batch.columns.string_values[3].push_value(self.method);
        batch.size = batch.size + 1;
        proof {
            let after = batch@;
            assert(after.start_time_unix_nano_column.take(before.size as int)
                =~= before.start_time_unix_nano_column);
            assert(after.end_time_unix_nano_column.take(before.size as int)
                =~= before.end_time_unix_nano_column);
            assert(after.auxiliary_entities =~= before.auxiliary_entities);
        }
    }
}

} // verus!
