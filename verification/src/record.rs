//! Plain value types: span identity tokens, finished span records, and the
//! configuration of the global collector.

use vstd::prelude::*;

verus! {

/// Span id `0` is reserved: it marks "no parent" in an inherited context and
/// "attach to the batch's parent" inside a collected batch of local spans.
pub const NO_PARENT: u64 = 0;

/// A key/value annotation attached to a span or to an event.
#[derive(Debug, Clone, PartialEq)]
pub struct Property {
    pub key: String,
    pub value: String,
}

/// A named, timestamped instant recorded inside a span.
#[derive(Debug, Clone, PartialEq)]
pub struct EventRecord {
    pub name: String,
    pub timestamp_ns: u64,
    pub properties: Vec<Property>,
}

/// One finished unit of traced work, as handed to a reporter.
///
/// `parent_ids` is a set of causal links, not a single pointer: a span may
/// join several parents. It is empty only for a span that roots a fresh
/// trace. Reconstruction is id-based, so a parent id may name a record that
/// is delivered in the same or a later batch.
#[derive(Debug, Clone, PartialEq)]
pub struct SpanRecord {
    pub trace_id: u128,
    pub span_id: u64,
    pub parent_ids: Vec<u64>,
    pub name: String,
    pub begin_ns: u64,
    pub duration_ns: u64,
    pub properties: Vec<Property>,
    pub events: Vec<EventRecord>,
}

/// The immutable identity token of a span: the trace it belongs to, its own
/// id within that trace, and whether the trace is sampled. Freely copyable
/// across thread and process boundaries; carries no ownership.
#[derive(Debug, Clone, Copy, PartialEq, Eq, Structural)]
pub struct mtr_span_ctx {
    pub trace_id: u128,
    pub span_id: u64,
    pub sampled: bool,
}

/// Relies on `fastrace::collector::TraceId::random`: a fresh 128-bit trace
/// identifier drawn from the process-wide high-entropy random source.
#[verifier::external_body]
fn random_trace_id() -> (r: u128) {
    fastrace::collector::TraceId::random().0
}

impl mtr_span_ctx {
    /// A context with the given identity. Sampling defaults to on.
    pub fn new(trace_id: u128, span_id: u64) -> (r: Self)
        ensures
            r == (mtr_span_ctx { trace_id, span_id, sampled: true }),
    {
        mtr_span_ctx { trace_id, span_id, sampled: true }
    }

    /// A context that starts a fresh trace: a random trace id, no parent
    /// span, sampling on by default policy.
    pub fn random() -> (r: Self)
        ensures
            r.span_id == NO_PARENT,
            r.sampled,
    {
        mtr_span_ctx { trace_id: random_trace_id(), span_id: NO_PARENT, sampled: true }
    }

    /// A copy of this context with the sampled flag replaced.
    pub fn with_sampled(self, sampled: bool) -> (r: Self)
        ensures
            r == (mtr_span_ctx { sampled, ..self }),
    {
        mtr_span_ctx { sampled, ..self }
    }
}

/// How the global collector behaves: the soft per-trace span bound, the time
/// between two batch reports, and the size at which a batch is reported
/// early.
#[derive(Debug, Clone, Copy)]
pub struct mtr_coll_cfg {
    /// Soft limit on the records kept for one trace; the root span is exempt.
    pub max_spans_per_trace: Option<usize>,
    /// Nanoseconds between two time-triggered batch reports.
    pub report_interval_ns: u64,
    /// A batch report starts as soon as this many records are ready.
    pub batch_report_max_spans: Option<usize>,
}

/// The default time between two batch reports: 500 milliseconds.
pub const DEFAULT_REPORT_INTERVAL_NS: u64 = 500_000_000;

pub const NANOS_PER_MILLI: u64 = 1_000_000;

impl mtr_coll_cfg {
    /// The default configuration: no per-trace bound, a 500 ms report
    /// interval, no early size trigger.
    pub fn new() -> (r: Self)
        ensures
            r.max_spans_per_trace is None,
            r.report_interval_ns == DEFAULT_REPORT_INTERVAL_NS,
            r.batch_report_max_spans is None,
    {
        mtr_coll_cfg {
            max_spans_per_trace: None,
            report_interval_ns: DEFAULT_REPORT_INTERVAL_NS,
            batch_report_max_spans: None,
        }
    }

    /// Sets the soft limit on the total records kept for one trace. The root
    /// span is always kept, and a batch already accepted may push the total
    /// slightly over the limit.
    pub fn with_max_spans_per_trace(self, limit: Option<usize>) -> (r: Self)
        ensures
            r == (mtr_coll_cfg { max_spans_per_trace: limit, ..self }),
    {
        mtr_coll_cfg { max_spans_per_trace: limit, ..self }
    }

    /// Sets the time between two batch reports, in milliseconds, saturating
    /// at the largest representable interval.
    pub fn with_report_interval_millis(self, millis: u64) -> (r: Self)
        ensures
            millis * NANOS_PER_MILLI <= u64::MAX ==> r.report_interval_ns == millis
                * NANOS_PER_MILLI,
            millis * NANOS_PER_MILLI > u64::MAX ==> r.report_interval_ns == u64::MAX,
            r.max_spans_per_trace == self.max_spans_per_trace,
            r.batch_report_max_spans == self.batch_report_max_spans,
    {
        let ns: u64 = if millis <= u64::MAX / NANOS_PER_MILLI {
            millis * NANOS_PER_MILLI
        } else {
            u64::MAX
        };
        mtr_coll_cfg { report_interval_ns: ns, ..self }
    }

    /// Sets the record count at which a batch is reported before the
    /// interval elapses.
    pub fn with_batch_report_max_spans(self, limit: Option<usize>) -> (r: Self)
        ensures
            r == (mtr_coll_cfg { batch_report_max_spans: limit, ..self }),
    {
        mtr_coll_cfg { batch_report_max_spans: limit, ..self }
    }
}

} // verus!
