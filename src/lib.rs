//! Columnar batches of telemetry events.
//!
//! An event type declares the typed columns of a batch and the auxiliary
//! entities that hold its variable-cardinality children (`event`,
//! `http_transaction`, `json_trace`). The handler records events as rows,
//! resets a full batch after setting its bytes aside, and reads and writes
//! the whole message in a tag/value wire format whose decoder gives back
//! what the encoder was given (`envelope_decode`, `event`).
//!
//! Layers, from the bottom:
//! - `bitmap`: validity bitmaps; `column`: typed columns;
//!   `batch`, `envelope`: batches, auxiliary entities and their envelope.
//! - `varint`, `wire`, `packed`, `scalar`, `fold_lemmas`: the wire format's
//!   primitives: varints, fields, packed scalars, and reading fields into a
//!   message.
//! - `column_codec`, `values`, `summary`, `batch_codec`, `envelope_codec`:
//!   encoders; `batch_decode`, `envelope_decode`, `validate`: decoders and
//!   the checks on what they read.
//! - `json`: the JSON-shaped projection; `laws`: properties over every state;
//!   `bench`: the digests and the agreement check of the benchmark.
//! - `native_trace`, `native_trace_decode`: the row-oriented trace message;
//!   `metrics`, `metrics_codec`: the row-oriented and columnar metric
//!   messages built from a multivariate time series.
pub mod bitmap;
pub mod varint;
pub mod wire;
pub mod column;
pub mod batch;
pub mod envelope;
pub mod event;
pub mod http_transaction;
pub mod json_trace;
pub mod packed;
pub mod scalar;
pub mod column_codec;
pub mod values;
pub mod summary;
pub mod batch_codec;
pub mod envelope_codec;
pub mod native_trace;
pub mod fold_lemmas;
pub mod batch_decode;
pub mod envelope_decode;
pub mod validate;
pub mod laws;
pub mod json;
pub mod bench;
pub mod metrics;
pub mod metrics_codec;
pub mod native_trace_decode;
pub mod arrow_handler;
pub mod span_round_trip;
pub mod metrics_decode;
pub mod metrics_round_trip;
