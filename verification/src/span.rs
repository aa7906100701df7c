//! Cross-thread spans and the local-parent guard.
//!
//! A [`mtr_span`] is a handle for one in-progress unit of traced work. It
//! owns everything recorded against it — annotations and attached batches of
//! local spans — and submits one finished record (plus the attached
//! children) to the global collector when it is ended, unless it was
//! cancelled. An inert handle ("no-op span") records nothing, costs nothing
//! and never fails, so instrumentation is safe to sprinkle anywhere.

use vstd::prelude::*;

use crate::collector::{Amend, GlobalCollector, TraceState};
use crate::collector::merged_ok;
use crate::local::{LineParent, LocalRecord, LocalStack, mtr_loc_spans};
use crate::record::{mtr_span_ctx, EventRecord, Property, SpanRecord, NO_PARENT};

verus! {

/// Time from begin to now; zero when the clock ran backwards.
pub open spec fn span_duration(begin_ns: u64, now_ns: u64) -> u64 {
    if now_ns >= begin_ns {
        (now_ns - begin_ns) as u64
    } else {
        0
    }
}

/// The duration a local span's record carries: zero unless the span was
/// properly ended.
pub open spec fn local_duration(lr: LocalRecord) -> u64 {
    if lr.ended && lr.end_ns >= lr.begin_ns {
        (lr.end_ns - lr.begin_ns) as u64
    } else {
        0
    }
}

/// The abstract state of a span handle.
pub ghost struct SpanData {
    pub active: bool,
    pub is_root: bool,
    pub sampled: bool,
    pub cancelled: bool,
    pub finished: bool,
    pub trace_id: u128,
    pub span_id: u64,
    pub parent_ids: Seq<u64>,
    pub name: Seq<char>,
    pub begin_ns: u64,
    pub properties: Seq<Property>,
    pub events: Seq<EventRecord>,
    pub children: Seq<SpanRecord>,
}

/// A handle for one in-progress, cross-thread unit of traced work.
#[derive(Debug)]
pub struct mtr_span {
    active: bool,
    is_root: bool,
    sampled: bool,
    cancelled: bool,
    finished: bool,
    trace_id: u128,
    span_id: u64,
    parent_ids: Vec<u64>,
    name: String,
    begin_ns: u64,
    properties: Vec<Property>,
    events: Vec<EventRecord>,
    children: Vec<SpanRecord>,
}

impl View for mtr_span {
    type V = SpanData;

    closed spec fn view(&self) -> SpanData {
        SpanData {
            active: self.active,
            is_root: self.is_root,
            sampled: self.sampled,
            cancelled: self.cancelled,
            finished: self.finished,
            trace_id: self.trace_id,
            span_id: self.span_id,
            parent_ids: self.parent_ids@,
            name: self.name@,
            begin_ns: self.begin_ns,
            properties: self.properties@,
            events: self.events@,
            children: self.children@,
        }
    }
}

/// `rec` is the finished record of the span state `s`, ended at `now_ns`
/// (without the attached children, which are records of their own).
pub open spec fn is_record_of(rec: SpanRecord, s: SpanData, now_ns: u64) -> bool {
    &&& rec.trace_id == s.trace_id
    &&& rec.span_id == s.span_id
    &&& rec.parent_ids@ == s.parent_ids
    &&& rec.name@ == s.name
    &&& rec.begin_ns == s.begin_ns
    &&& rec.duration_ns == span_duration(s.begin_ns, now_ns)
    &&& rec.properties@ == s.properties
    &&& rec.events@ == s.events
}

/// `rec` is the local record `lr` stitched into trace `trace_id`: its parent
/// link is `lr`'s own when `lr` has one, else the attachment point
/// `attach_id`.
pub open spec fn is_resolved(rec: SpanRecord, lr: LocalRecord, trace_id: u128, attach_id: u64) -> bool {
    &&& rec.trace_id == trace_id
    &&& rec.span_id == lr.span_id
    &&& rec.parent_ids@ == seq![if lr.parent_id == NO_PARENT { attach_id } else { lr.parent_id }]
    &&& rec.name == lr.name
    &&& rec.begin_ns == lr.begin_ns
    &&& rec.duration_ns == local_duration(lr)
    &&& rec.properties@ == lr.properties@
    &&& rec.events@ == lr.events@
}

/// `recs` is the batch `lrs` stitched, in order, into trace `trace_id`
/// under the attachment point `attach_id`. The order of collecting and of
/// attaching plays no role: the linkage depends on the batch's contents and
/// the attachment point alone.
pub open spec fn batch_resolved(
    recs: Seq<SpanRecord>,
    lrs: Seq<LocalRecord>,
    trace_id: u128,
    attach_id: u64,
) -> bool {
    &&& recs.len() == lrs.len()
    &&& forall|i: int| 0 <= i < lrs.len() ==> is_resolved(#[trigger] recs[i], lrs[i], trace_id, attach_id)
}

/// Stitches a batch of local records into a trace.
#[verifier::loop_isolation(false)]
fn resolve_batch(spans: Vec<LocalRecord>, trace_id: u128, attach_id: u64) -> (r: Vec<SpanRecord>)
    ensures
        batch_resolved(r@, spans@, trace_id, attach_id),
        forall|i: int| 0 <= i < r@.len() ==> (#[trigger] r@[i]).trace_id == trace_id,
{
    let ghost all = spans@;
    let mut spans = spans;
    let mut out: Vec<SpanRecord> = Vec::new();
    while spans.len() > 0
        invariant
            out@.len() <= all.len(),
            spans@ == all.skip(out@.len() as int),
            forall|i: int|
                0 <= i < out@.len() ==> is_resolved(#[trigger] out@[i], all[i], trace_id, attach_id),
        decreases spans@.len(),
    {
        let ghost k = out@.len() as int;
        let lr = spans.remove(0);
        proof {
            assert(lr == all[k]);
            assert(spans@ =~= all.skip(k + 1));
        }
        let pid: u64 = if lr.parent_id == NO_PARENT {
            attach_id
        } else {
            lr.parent_id
        };
        let dur: u64 = if lr.ended && lr.end_ns >= lr.begin_ns {
            lr.end_ns - lr.begin_ns
        } else {
            0
        };
        let mut parent_ids: Vec<u64> = Vec::new();
        parent_ids.push(pid);
        proof {
            assert(parent_ids@ =~= seq![pid]);
        }
        out.push(
            SpanRecord {
                trace_id,
                span_id: lr.span_id,
                parent_ids,
                name: lr.name,
                begin_ns: lr.begin_ns,
                duration_ns: dur,
                properties: lr.properties,
                events: lr.events,
            },
        );
    }
    out
}

/// Every record of the list belongs to the given trace.
pub open spec fn children_in_trace(children: Seq<SpanRecord>, trace_id: u128) -> bool {
    forall|i: int|
        0 <= i < children.len() ==> (#[trigger] children[i]).trace_id == trace_id
}

/// A multi-parent join under at least one live parent records at least one
/// parent link: only a root span's record has an empty parent set.
pub proof fn lemma_join_has_parents(ps: Seq<mtr_span>)
    requires
        exists|i: int| 0 <= i < ps.len() && (#[trigger] ps[i])@.active,
    ensures
        active_parent_ids(ps).len() > 0,
    decreases ps.len(),
{
    let i = choose|i: int| 0 <= i < ps.len() && (#[trigger] ps[i])@.active;
    if i == ps.len() - 1 {
    } else {
        assert(ps.drop_last()[i] == ps[i]);
        lemma_join_has_parents(ps.drop_last());
    }
}

/// Every span stitched out of a thread-local batch carries a parent link:
/// only a root span's record has an empty parent set.
pub proof fn lemma_resolved_records_have_parents(
    recs: Seq<SpanRecord>,
    lrs: Seq<LocalRecord>,
    trace_id: u128,
    attach_id: u64,
)
    requires
        batch_resolved(recs, lrs, trace_id, attach_id),
    ensures
        forall|i: int| 0 <= i < recs.len() ==> (#[trigger] recs[i]).parent_ids@.len() == 1,
{
    assert forall|i: int| 0 <= i < recs.len() implies (#[trigger] recs[i]).parent_ids@.len()
        == 1 by {
        assert(is_resolved(recs[i], lrs[i], trace_id, attach_id));
    }
}

impl mtr_span {
    /// The handle stands for real work: annotations are recorded and a
    /// record is submitted on destruction.
    pub open spec fn recording(&self) -> bool {
        self@.active && self@.sampled && !self@.finished
    }

    /// Every attached child record belongs to this span's trace.
    pub open spec fn wf(&self) -> bool {
        children_in_trace(self@.children, self@.trace_id)
    }

    /// All state except the annotation and child lists agrees.
    pub open spec fn same_identity(a: SpanData, b: SpanData) -> bool {
        &&& a.active == b.active
        &&& a.is_root == b.is_root
        &&& a.sampled == b.sampled
        &&& a.cancelled == b.cancelled
        &&& a.finished == b.finished
        &&& a.trace_id == b.trace_id
        &&& a.span_id == b.span_id
        &&& a.parent_ids == b.parent_ids
        &&& a.name == b.name
        &&& a.begin_ns == b.begin_ns
    }

    /// A place-holder span that never starts recording: every operation on
    /// it is a no-op and its destruction submits nothing.
    pub fn noop() -> (r: mtr_span)
        ensures
            !r@.active,
            !r@.finished,
            r.wf(),
    {
        mtr_span {
            active: false,
            is_root: false,
            sampled: false,
            cancelled: false,
            finished: false,
            trace_id: 0,
            span_id: NO_PARENT,
            parent_ids: Vec::new(),
            name: String::new(),
            begin_ns: 0,
            properties: Vec::new(),
            events: Vec::new(),
            children: Vec::new(),
        }
    }

    /// Starts a new trace rooted at the given context; always succeeds,
    /// never a no-op — this is the attachment point that every later
    /// submission for the trace relies on. The context's span id, when set,
    /// is recorded as an inherited (for example remote) parent link.
    pub fn root(name: String, ctx: mtr_span_ctx, stack: &mut LocalStack, now_ns: u64) -> (r:
        mtr_span)
        requires
            old(stack).wf(),
        ensures
            final(stack).wf(),
            final(stack).lines() == old(stack).lines(),
            final(stack).next_epoch() == old(stack).next_epoch(),
            final(stack).next_id() == crate::local::sat_inc(old(stack).next_id()),
            r.wf(),
            r@.active && r@.is_root && !r@.cancelled && !r@.finished,
            r@.sampled == ctx.sampled,
            r@.trace_id == ctx.trace_id,
            r@.span_id == old(stack).next_id(),
            ctx.span_id == NO_PARENT ==> r@.parent_ids.len() == 0,
            ctx.span_id != NO_PARENT ==> r@.parent_ids == seq![ctx.span_id],
            r@.name == name@,
            r@.begin_ns == now_ns,
            r@.properties.len() == 0 && r@.events.len() == 0 && r@.children.len() == 0,
    {
        let id: u64 = stack.fresh_span_id();
        let mut parent_ids: Vec<u64> = Vec::new();
        if ctx.span_id != NO_PARENT {
            parent_ids.push(ctx.span_id);
            proof {
                assert(parent_ids@ =~= seq![ctx.span_id]);
            }
        }
        mtr_span {
            active: true,
            is_root: true,
            sampled: ctx.sampled,
            cancelled: false,
            finished: false,
            trace_id: ctx.trace_id,
            span_id: id,
            parent_ids,
            name,
            begin_ns: now_ns,
            properties: Vec::new(),
            events: Vec::new(),
            children: Vec::new(),
        }
    }

    /// Starts a child causally linked to one existing span; a no-op when
    /// the parent is one.
    pub fn enter_with_parent(
        name: String,
        parent: &mtr_span,
        stack: &mut LocalStack,
        now_ns: u64,
    ) -> (r: mtr_span)
        requires
            old(stack).wf(),
        ensures
            final(stack).wf(),
            final(stack).lines() == old(stack).lines(),
            final(stack).next_epoch() == old(stack).next_epoch(),
            parent@.active ==> final(stack).next_id() == crate::local::sat_inc(
                old(stack).next_id(),
            ),
            r.wf(),
            !r@.finished,
            !parent@.active ==> !r@.active && *final(stack) == *old(stack),
            parent@.active ==> {
                &&& r@.active && !r@.is_root && !r@.cancelled
                &&& r@.sampled == parent@.sampled
                &&& r@.trace_id == parent@.trace_id
                &&& r@.span_id == old(stack).next_id()
                &&& r@.parent_ids == seq![parent@.span_id]
                &&& r@.name == name@
                &&& r@.begin_ns == now_ns
                &&& r@.properties.len() == 0 && r@.events.len() == 0 && r@.children.len() == 0
            },
    {
        if !parent.active {
            return mtr_span::noop();
        }
        let id: u64 = stack.fresh_span_id();
        let mut parent_ids: Vec<u64> = Vec::new();
        parent_ids.push(parent.span_id);
        proof {
            assert(parent_ids@ =~= seq![parent@.span_id]);
        }
        mtr_span {
            active: true,
            is_root: false,
            sampled: parent.sampled,
            cancelled: false,
            finished: false,
            trace_id: parent.trace_id,
            span_id: id,
            parent_ids,
            name,
            begin_ns: now_ns,
            properties: Vec::new(),
            events: Vec::new(),
            children: Vec::new(),
        }
    }

    /// Starts a child causally linked to several existing spans: a
    /// multi-parent join. All live parents' ids are recorded; trace
    /// identity is taken from one of them (parents from different traces
    /// are a caller error with no defined trace ownership). With no live
    /// parent this is a no-op.
    #[verifier::loop_isolation(false)]
    pub fn enter_with_parents(
        name: String,
        parents: &Vec<mtr_span>,
        stack: &mut LocalStack,
        now_ns: u64,
    ) -> (r: mtr_span)
        requires
            old(stack).wf(),
        ensures
            final(stack).wf(),
            final(stack).lines() == old(stack).lines(),
            final(stack).next_epoch() == old(stack).next_epoch(),
            (exists|i: int| 0 <= i < parents@.len() && (#[trigger] parents@[i])@.active)
                ==> final(stack).next_id() == crate::local::sat_inc(old(stack).next_id()),
            r.wf(),
            !r@.finished,
            (forall|i: int| 0 <= i < parents@.len() ==> !(#[trigger] parents@[i])@.active)
                ==> !r@.active && *final(stack) == *old(stack),
            (exists|i: int| 0 <= i < parents@.len() && (#[trigger] parents@[i])@.active) ==> {
                &&& r@.active && !r@.is_root && !r@.cancelled
                &&& r@.span_id == old(stack).next_id()
                &&& r@.parent_ids == active_parent_ids(parents@)
                &&& (exists|i: int|
                    0 <= i < parents@.len() && (#[trigger] parents@[i])@.active
                        && r@.trace_id == parents@[i]@.trace_id && r@.sampled
                        == parents@[i]@.sampled)
                &&& r@.name == name@
                &&& r@.begin_ns == now_ns
                &&& r@.properties.len() == 0 && r@.events.len() == 0 && r@.children.len() == 0
            },
    {
        let mut parent_ids: Vec<u64> = Vec::new();
        let mut trace_id: u128 = 0;
        let mut sampled: bool = false;
        let mut found: bool = false;
        let mut i: usize = 0;
        while i < parents.len()
            invariant
                i <= parents@.len(),
                parent_ids@ == active_parent_ids(parents@.take(i as int)),
                found <==> (exists|j: int|
                    0 <= j < i && (#[trigger] parents@[j])@.active),
                found ==> (exists|j: int|
                    0 <= j < i && (#[trigger] parents@[j])@.active && trace_id
                        == parents@[j]@.trace_id && sampled == parents@[j]@.sampled),
            decreases parents@.len() - i,
        {
            proof {
                assert(parents@.take(i as int + 1).drop_last() =~= parents@.take(i as int));
                assert(parents@.take(i as int + 1).last() == parents@[i as int]);
            }
            let p = &parents[i];
            if p.active {
                if !found {
                    trace_id = p.trace_id;
                    sampled = p.sampled;
                    found = true;
                }
                parent_ids.push(p.span_id);
            }
            i = i + 1;
        }
        proof {
            assert(parents@.take(parents@.len() as int) =~= parents@);
        }
        if !found {
            return mtr_span::noop();
        }
        let id: u64 = stack.fresh_span_id();
        mtr_span {
            active: true,
            is_root: false,
            sampled,
            cancelled: false,
            finished: false,
            trace_id,
            span_id: id,
            parent_ids,
            name,
            begin_ns: now_ns,
            properties: Vec::new(),
            events: Vec::new(),
            children: Vec::new(),
        }
    }

    /// Starts a child of the thread's current local parent: the innermost
    /// open local span if there is one, else the installed parent span.
    /// With no local parent installed on this thread, this is a documented
    /// no-op: a valid-but-inert handle comes back, nothing is recorded, and
    /// nothing can fail.
    pub fn enter_with_local_parent(name: String, stack: &mut LocalStack, now_ns: u64) -> (r:
        mtr_span)
        requires
            old(stack).wf(),
        ensures
            final(stack).wf(),
            final(stack).lines() == old(stack).lines(),
            final(stack).next_epoch() == old(stack).next_epoch(),
            (old(stack).has_line() && old(stack).cur().parent is Attached)
                ==> final(stack).next_id() == crate::local::sat_inc(old(stack).next_id()),
            r.wf(),
            !r@.finished,
            !(old(stack).has_line() && old(stack).cur().parent is Attached) ==> !r@.active
                && *final(stack) == *old(stack),
            (old(stack).has_line() && old(stack).cur().parent is Attached) ==> {
                &&& r@.active && !r@.is_root && !r@.cancelled
                &&& r@.sampled == old(stack).cur().parent->sampled
                &&& r@.trace_id == old(stack).cur().parent->trace_id
                &&& r@.span_id == old(stack).next_id()
                &&& r@.parent_ids == seq![old(stack).attached_parent_id()]
                &&& r@.name == name@
                &&& r@.begin_ns == now_ns
                &&& r@.properties.len() == 0 && r@.events.len() == 0 && r@.children.len() == 0
            },
    {
        match stack.current_span_parent() {
            None => mtr_span::noop(),
            Some((trace_id, parent_id, sampled)) => {
                let id: u64 = stack.fresh_span_id();
                let mut parent_ids: Vec<u64> = Vec::new();
                parent_ids.push(parent_id);
                proof {
                    assert(parent_ids@ =~= seq![old(stack).attached_parent_id()]);
                }
                mtr_span {
                    active: true,
                    is_root: false,
                    sampled,
                    cancelled: false,
                    finished: false,
                    trace_id,
                    span_id: id,
                    parent_ids,
                    name,
                    begin_ns: now_ns,
                    properties: Vec::new(),
                    events: Vec::new(),
                    children: Vec::new(),
                }
            },
        }
    }
}

/// The ids of the live spans of a parent list, in order.
pub open spec fn active_parent_ids(ps: Seq<mtr_span>) -> Seq<u64>
    decreases ps.len(),
{
    if ps.len() == 0 {
        Seq::empty()
    } else {
        let rest = active_parent_ids(ps.drop_last());
        if ps.last()@.active {
            rest.push(ps.last()@.span_id)
        } else {
            rest
        }
    }
}

impl mtr_span {
    /// Appends one key/value pair to the span. Nothing is stored — the cost
    /// is near zero — unless the span is live and sampled; callers evaluate
    /// expensive values only after this gate, behind their own closures.
    pub fn with_property(&mut self, key: String, value: String)
        ensures
            final(self).wf() == old(self).wf(),
            !old(self).recording() ==> *final(self) == *old(self),
            old(self).recording() ==> {
                &&& mtr_span::same_identity(final(self)@, old(self)@)
                &&& final(self)@.events == old(self)@.events
                &&& final(self)@.children == old(self)@.children
                &&& final(self)@.properties == old(self)@.properties.push(Property { key, value })
            },
    {
        if self.active && self.sampled && !self.finished {
            self.properties.push(Property { key, value });
        }
    }

    /// Appends several key/value pairs to the span, under the same sampling
    /// gate as `with_property`.
    pub fn with_properties(&mut self, mut properties: Vec<Property>)
        ensures
            final(self).wf() == old(self).wf(),
            !old(self).recording() ==> *final(self) == *old(self),
            old(self).recording() ==> {
                &&& mtr_span::same_identity(final(self)@, old(self)@)
                &&& final(self)@.events == old(self)@.events
                &&& final(self)@.children == old(self)@.children
                &&& final(self)@.properties == old(self)@.properties + properties@
            },
    {
        if self.active && self.sampled && !self.finished {
            self.properties.append(&mut properties);
        }
    }

    /// Adds a named, timestamped event to the span, under the same sampling
    /// gate as `with_property`.
    pub fn add_event(&mut self, name: String, properties: Vec<Property>, now_ns: u64)
        ensures
            final(self).wf() == old(self).wf(),
            !old(self).recording() ==> *final(self) == *old(self),
            old(self).recording() ==> {
                &&& mtr_span::same_identity(final(self)@, old(self)@)
                &&& final(self)@.properties == old(self)@.properties
                &&& final(self)@.children == old(self)@.children
                &&& final(self)@.events == old(self)@.events.push(
                    EventRecord { name, timestamp_ns: now_ns, properties },
                )
            },
    {
        if self.active && self.sampled && !self.finished {
            self.events.push(EventRecord { name, timestamp_ns: now_ns, properties });
        }
    }

    /// Marks the span to be dropped rather than submitted. On a root span
    /// this suppresses the whole trace; on any other span only this span
    /// and the batches pushed into it. A local, immediate decision: no
    /// error, no coordination.
    pub fn cancel(&mut self)
        ensures
            final(self).wf() == old(self).wf(),
            !old(self)@.active ==> *final(self) == *old(self),
            old(self)@.active ==> {
                &&& mtr_span::same_identity(
                    final(self)@,
                    SpanData { cancelled: true, ..old(self)@ },
                )
                &&& final(self)@.cancelled
                &&& final(self)@.properties == old(self)@.properties
                &&& final(self)@.events == old(self)@.events
                &&& final(self)@.children == old(self)@.children
            },
    {
        if self.active {
            self.cancelled = true;
        }
    }

    /// Time since the span was created: zero for an inert span rather than
    /// a failure.
    pub fn elapsed(&self, now_ns: u64) -> (r: u64)
        ensures
            !self@.active ==> r == 0,
            self@.active ==> r == span_duration(self@.begin_ns, now_ns),
    {
        if !self.active {
            return 0;
        }
        if now_ns >= self.begin_ns {
            now_ns - self.begin_ns
        } else {
            0
        }
    }

    /// Attaches a previously collected batch of local spans to this span:
    /// the central causal-reconstruction step. Each batch entry keeps its
    /// own parent link; entries recorded without one — before this span
    /// even existed — are linked to this span's id. The batch travels with
    /// the span and is submitted, or suppressed, together with it. On an
    /// inert or unsampled span the batch is discarded.
    pub fn push_child_spans(&mut self, batch: mtr_loc_spans)
        requires
            old(self).wf(),
        ensures
            final(self).wf(),
            !old(self).recording() ==> *final(self) == *old(self),
            old(self).recording() ==> {
                &&& mtr_span::same_identity(final(self)@, old(self)@)
                &&& final(self)@.properties == old(self)@.properties
                &&& final(self)@.events == old(self)@.events
                &&& final(self)@.children.len() == old(self)@.children.len() + batch.spans@.len()
                &&& final(self)@.children.take(old(self)@.children.len() as int) == old(
                    self,
                )@.children
                &&& batch_resolved(
                    final(self)@.children.skip(old(self)@.children.len() as int),
                    batch.spans@,
                    old(self)@.trace_id,
                    old(self)@.span_id,
                )
            },
    {
        if !(self.active && self.sampled && !self.finished) {
            return ;
        }
        let mut resolved = resolve_batch(batch.spans, self.trace_id, self.span_id);
        let ghost r0 = resolved@;
        self.children.append(&mut resolved);
        proof {
            assert(self@.children.take(old(self)@.children.len() as int) =~= old(self)@.children);
            assert(self@.children.skip(old(self)@.children.len() as int) =~= r0);
            assert forall|i: int| 0 <= i < self@.children.len() implies (
            #[trigger] self@.children[i]).trace_id == self@.trace_id by {
                if i < old(self)@.children.len() {
                    assert(self@.children[i] == old(self)@.children[i]);
                } else {
                    assert(self@.children[i] == r0[i - old(self)@.children.len()]);
                }
            }
            assert(children_in_trace(self@.children, self@.trace_id));
        }
    }

    /// Installs this span as the calling thread's local parent for the
    /// guard's lifetime. On an inert span the guard is inert too.
    pub fn set_local_parent(&self, stack: &mut LocalStack) -> (r: mtr_guard)
        requires
            old(stack).wf(),
        ensures
            final(stack).wf(),
            final(stack).next_id() == old(stack).next_id(),
            !r@.active ==> *final(stack) == *old(stack) && (!self@.active || old(
                stack,
            ).next_epoch() == u64::MAX),
            r@.active ==> {
                &&& self@.active
                &&& r@.epoch == old(stack).next_epoch()
                &&& final(stack).lines().drop_last() == old(stack).lines()
                &&& final(stack).depth() == old(stack).depth() + 1
                &&& final(stack).cur().epoch == r@.epoch
                &&& final(stack).cur().parent == (LineParent::Attached {
                    trace_id: self@.trace_id,
                    span_id: self@.span_id,
                    sampled: self@.sampled,
                })
                &&& final(stack).cur().records@.len() == 0
                &&& final(stack).cur().open_spans@.len() == 0
                &&& final(stack).cur().parent_properties@.len() == 0
                &&& final(stack).cur().parent_events@.len() == 0
            },
    {
        if !self.active {
            return mtr_guard { active: false, epoch: 0 };
        }
        match stack.push_line(
            LineParent::Attached {
                trace_id: self.trace_id,
                span_id: self.span_id,
                sampled: self.sampled,
            },
        ) {
            Some(e) => mtr_guard { active: true, epoch: e },
            None => mtr_guard { active: false, epoch: 0 },
        }
    }

    /// Ends the span: if it is live, not cancelled and sampled, its
    /// finished record and every batch pushed into it are submitted to the
    /// global collector — through `commit` for a root span (committing the
    /// trace, exempt from the soft limit), through `submit` otherwise. A
    /// cancelled root cancels its whole trace instead; a cancelled or
    /// unsampled span submits nothing, and its attached batches are
    /// suppressed with it as a unit. Ending a span twice is harmless: the
    /// second call changes nothing and submits nothing twice.
    pub fn end(&mut self, gc: &mut GlobalCollector, now_ns: u64)
        requires
            old(self).wf(),
            old(gc).wf(),
        ensures
            final(self).wf(),
            final(gc).wf(),
            final(gc).config() == old(gc).config(),
            final(gc).last_report_ns() == old(gc).last_report_ns(),
            final(gc).has_reporter() == old(gc).has_reporter(),
            final(gc).is_memory() == old(gc).is_memory(),
            final(gc).reports().len() >= old(gc).reports().len(),
            final(gc).reports().take(old(gc).reports().len() as int) == old(gc).reports(),
            forall|t2: u128|
                t2 != old(self)@.trace_id ==> final(gc).trace_state(t2) == old(gc).trace_state(t2)
                    && final(gc).trace_buffered(t2) == old(gc).trace_buffered(t2),
            // destruction is idempotent and a no-op span submits nothing
            (!old(self)@.active || old(self)@.finished) ==> *final(self) == *old(self) && *final(gc)
                == *old(gc),
            (old(self)@.active && !old(self)@.finished) ==> {
                &&& final(self)@.finished
                &&& final(self)@.active && final(self)@.is_root == old(self)@.is_root
                &&& final(self)@.cancelled == old(self)@.cancelled
                &&& final(self)@.sampled == old(self)@.sampled
                &&& final(self)@.trace_id == old(self)@.trace_id
                &&& final(self)@.span_id == old(self)@.span_id
            },
            // a cancelled root cancels the whole trace
            (old(self)@.active && !old(self)@.finished && old(self)@.is_root && old(
                self,
            )@.cancelled) ==> {
                &&& final(gc).outbox() == old(gc).outbox()
                &&& final(gc).handed() == old(gc).handed()
                &&& final(gc).reports() == old(gc).reports()
                &&& ((old(gc).trace_state(old(self)@.trace_id) is None || old(gc).trace_state(
                    old(self)@.trace_id,
                ) == Some(TraceState::Pending)) ==> final(gc).trace_state(old(self)@.trace_id)
                    == Some(TraceState::Dropped))
            },
            // a cancelled non-root, or an unsampled span, submits nothing,
            // its attached batches suppressed with it
            (old(self)@.active && !old(self)@.finished && !(old(self)@.is_root && old(
                self,
            )@.cancelled) && (old(self)@.cancelled || !old(self)@.sampled)) ==> *final(gc) == *old(
                gc,
            ),
            // a live sampled root commits its trace: its own record — always
            // kept, exempt from the soft limit — then everything buffered,
            // its pushed children included (exactly so when no amendments
            // are pending; amendments extend the matching records)
            (old(self)@.active && !old(self)@.finished && old(self)@.is_root && !old(
                self,
            )@.cancelled && old(self)@.sampled && old(gc).config().max_spans_per_trace is None && (
            old(gc).trace_state(old(self)@.trace_id) is None || old(gc).trace_state(
                old(self)@.trace_id,
            ) == Some(TraceState::Pending)) && old(gc).trace_amends(old(self)@.trace_id).len()
                == 0) ==> {
                &&& final(gc).trace_state(old(self)@.trace_id) == Some(TraceState::Committed)
                &&& (exists|rec: SpanRecord|
                    is_record_of(rec, old(self)@, now_ns) && final(gc).retained() == old(
                        gc,
                    ).retained().push(rec) + old(gc).trace_buffered(old(self)@.trace_id) + old(
                        self,
                    )@.children)
            },
            // with no limit configured, an open trace delivers exactly its
            // buffered records, the pushed children, and the root's record
            (old(self)@.active && !old(self)@.finished && old(self)@.is_root && !old(
                self,
            )@.cancelled && old(self)@.sampled && old(gc).config().max_spans_per_trace is None && (
            old(gc).trace_state(old(self)@.trace_id) is None || old(gc).trace_state(
                old(self)@.trace_id,
            ) == Some(TraceState::Pending))) ==> final(gc).retained().len() == old(
                gc,
            ).retained().len() + 1 + old(gc).trace_buffered(old(self)@.trace_id).len() + old(
                self,
            )@.children.len(),
            // the root record is always kept: committing a live sampled
            // root delivers it even when the soft limit dropped other spans,
            // possibly extended by its pending amendments
            (old(self)@.active && !old(self)@.finished && old(self)@.is_root && !old(
                self,
            )@.cancelled && old(self)@.sampled && (old(gc).trace_state(old(self)@.trace_id) is None
                || old(gc).trace_state(old(self)@.trace_id) == Some(TraceState::Pending))) ==> {
                &&& final(gc).trace_state(old(self)@.trace_id) == Some(TraceState::Committed)
                &&& final(gc).retained().len() > old(gc).retained().len()
                &&& (exists|rec: SpanRecord|
                    is_record_of(rec, old(self)@, now_ns) && merged_ok(
                        final(gc).retained()[old(gc).retained().len() as int],
                        rec,
                        old(gc).trace_amends(old(self)@.trace_id),
                    ))
            },
            // ending a root that opens and closes a fresh trace of one
            // record reports exactly once when the record reaches the
            // configured batch size, and not at all before
            ({
                let fire = old(gc).has_reporter() && (match old(
                    gc,
                ).config().batch_report_max_spans {
                    Some(m) => m > 0 && old(gc).outbox().len() + 1 >= m as int,
                    None => false,
                });
                let commit_one = old(self)@.active && !old(self)@.finished && old(self)@.is_root
                    && !old(self)@.cancelled && old(self)@.sampled && old(gc).trace_state(
                    old(self)@.trace_id,
                ) is None && old(self)@.children.len() == 0;
                &&& ((commit_one && !fire) ==> final(gc).outbox().len() == old(gc).outbox().len()
                    + 1 && final(gc).handed() == old(gc).handed() && final(gc).reports() == old(
                    gc,
                ).reports())
                &&& ((commit_one && fire) ==> final(gc).outbox().len() == 0 && (exists|
                    rec: SpanRecord,
                |
                    is_record_of(rec, old(self)@, now_ns) && final(gc).reports() == old(
                        gc,
                    ).reports().push(old(gc).outbox().push(rec))))
            }),
            // a live sampled non-root submits its record and its pushed
            // children to its trace's buffer
            (old(self)@.active && !old(self)@.finished && !old(self)@.is_root && !old(
                self,
            )@.cancelled && old(self)@.sampled && old(gc).config().max_spans_per_trace is None && (
            old(gc).trace_state(old(self)@.trace_id) is None || old(gc).trace_state(
                old(self)@.trace_id,
            ) == Some(TraceState::Pending))) ==> {
                &&& final(gc).trace_state(old(self)@.trace_id) == Some(TraceState::Pending)
                &&& (exists|rec: SpanRecord|
                    is_record_of(rec, old(self)@, now_ns) && final(gc).trace_buffered(
                        old(self)@.trace_id,
                    ) == old(gc).trace_buffered(old(self)@.trace_id).push(rec) + old(
                        self,
                    )@.children)
                &&& final(gc).retained() == old(gc).retained()
                &&& final(gc).handed() == old(gc).handed()
            },
    {
        if !self.active || self.finished {
            return ;
        }
        self.finished = true;
        if self.is_root && self.cancelled {
            gc.drop_trace(self.trace_id);
            return ;
        }
        if self.cancelled || !self.sampled {
            return ;
        }
        let dur: u64 = if now_ns >= self.begin_ns {
            now_ns - self.begin_ns
        } else {
            0
        };
        let mut name: String = String::new();
        core::mem::swap(&mut self.name, &mut name);
        let mut parent_ids: Vec<u64> = Vec::new();
        core::mem::swap(&mut self.parent_ids, &mut parent_ids);
        let mut properties: Vec<Property> = Vec::new();
        core::mem::swap(&mut self.properties, &mut properties);
        let mut events: Vec<EventRecord> = Vec::new();
        core::mem::swap(&mut self.events, &mut events);
        let mut children: Vec<SpanRecord> = Vec::new();
        core::mem::swap(&mut self.children, &mut children);
        let rec = SpanRecord {
            trace_id: self.trace_id,
            span_id: self.span_id,
            parent_ids,
            name,
            begin_ns: self.begin_ns,
            duration_ns: dur,
            properties,
            events,
        };
        let ghost recg = rec;
        proof {
            assert(is_record_of(recg, old(self)@, now_ns));
        }
        proof {
            assert(children@ == old(self)@.children);
            assert forall|i: int|
                0 <= i < children@.len() implies (#[trigger] children@[i]).trace_id
                == children@[0].trace_id by {
                assert(old(self)@.children[i].trace_id == old(self)@.trace_id);
                assert(old(self)@.children[0].trace_id == old(self)@.trace_id);
            }
        }
        if self.is_root {
            let ghost am0 = gc.trace_amends(self.trace_id);
            gc.submit_batch(children);
            let ghost mid_retained = gc.retained();
            let ghost mid_amends = gc.trace_amends(self.trace_id);
            gc.commit(rec);
            proof {
                if old(gc).config().max_spans_per_trace is None && (old(gc).trace_state(
                    self.trace_id,
                ) is None || old(gc).trace_state(self.trace_id) == Some(TraceState::Pending))
                    && am0.len() == 0 {
                    assert(mid_amends == am0);
                    assert(gc.retained() =~= old(gc).retained().push(recg) + old(
                        gc,
                    ).trace_buffered(self.trace_id) + old(self)@.children);
                }
                if old(gc).trace_state(self.trace_id) is None || old(gc).trace_state(
                    self.trace_id,
                ) == Some(TraceState::Pending) {
                    assert(mid_retained == old(gc).retained());
                    assert(mid_amends == am0);
                    assert(merged_ok(
                        gc.retained()[old(gc).retained().len() as int],
                        recg,
                        am0,
                    ));
                }
            }
        } else {
            gc.submit(rec);
            gc.submit_batch(children);
            proof {
                if old(gc).config().max_spans_per_trace is None && (old(gc).trace_state(
                    self.trace_id,
                ) is None || old(gc).trace_state(self.trace_id) == Some(TraceState::Pending)) {
                    assert(gc.trace_buffered(self.trace_id) =~= old(gc).trace_buffered(
                        self.trace_id,
                    ).push(recg) + old(self)@.children);
                }
            }
        }
    }
}

impl mtr_span_ctx {
    /// Derives the identity token of the given span, to continue the trace
    /// across a thread or process boundary; fails (returns nothing) on an
    /// inert span.
    pub fn from_span(span: &mtr_span) -> (r: Option<mtr_span_ctx>)
        ensures
            span@.active ==> r == Some(
                mtr_span_ctx {
                    trace_id: span@.trace_id,
                    span_id: span@.span_id,
                    sampled: span@.sampled,
                },
            ),
            !span@.active ==> r is None,
    {
        if span.active {
            Some(
                mtr_span_ctx {
                    trace_id: span.trace_id,
                    span_id: span.span_id,
                    sampled: span.sampled,
                },
            )
        } else {
            None
        }
    }

    /// Reads the ambient thread-local parent span's context; fails (returns
    /// nothing) when no span is installed as this thread's local parent.
    pub fn current_local_parent(stack: &LocalStack) -> (r: Option<mtr_span_ctx>)
        ensures
            match r {
                Some(c) => stack.has_line() && stack.cur().parent == (LineParent::Attached {
                    trace_id: c.trace_id,
                    span_id: c.span_id,
                    sampled: c.sampled,
                }),
                None => !stack.has_line() || stack.cur().parent is Detached,
            },
    {
        stack.current_parent_context()
    }
}

/// The abstract state of a local-parent guard.
pub ghost struct GuardData {
    pub active: bool,
    pub epoch: u64,
}

/// Scoped ownership of "this span is the thread's local parent": releasing
/// the guard restores the prior state on every exit path and submits what
/// the window recorded.
#[derive(Debug)]
pub struct mtr_guard {
    active: bool,
    epoch: u64,
}

impl View for mtr_guard {
    type V = GuardData;

    closed spec fn view(&self) -> GuardData {
        GuardData { active: self.active, epoch: self.epoch }
    }
}

impl mtr_guard {
    /// Releases the guard: closes the recording window it owns (restoring
    /// the previous local-parent state) and submits the window's spans,
    /// stitched under the installed span, to the global collector, together
    /// with any annotations the window holds for the installed span itself
    /// (those merge into the span's record when its trace commits). Records
    /// of an unsampled parent are discarded. An inert or stale guard
    /// changes nothing.
    pub fn release(self, stack: &mut LocalStack, gc: &mut GlobalCollector)
        requires
            old(stack).wf(),
            old(gc).wf(),
        ensures
            final(stack).wf(),
            final(gc).wf(),
            final(gc).config() == old(gc).config(),
            final(gc).last_report_ns() == old(gc).last_report_ns(),
            final(gc).has_reporter() == old(gc).has_reporter(),
            final(gc).is_memory() == old(gc).is_memory(),
            final(gc).reports().len() >= old(gc).reports().len(),
            final(gc).reports().take(old(gc).reports().len() as int) == old(gc).reports(),
            final(stack).next_id() == old(stack).next_id(),
            final(stack).next_epoch() == old(stack).next_epoch(),
            !(self@.active && old(stack).has_line() && old(stack).cur().epoch == self@.epoch)
                ==> *final(stack) == *old(stack) && *final(gc) == *old(gc),
            (self@.active && old(stack).has_line() && old(stack).cur().epoch == self@.epoch) ==> {
                &&& final(stack).lines() == old(stack).lines().drop_last()
                &&& (old(stack).cur().parent matches LineParent::Attached { trace_id, sampled, .. }
                    ==> (forall|t2: u128|
                    t2 != trace_id ==> final(gc).trace_state(t2) == old(gc).trace_state(t2)
                        && final(gc).trace_buffered(t2) == old(gc).trace_buffered(t2)
                        && final(gc).trace_amends(t2) == old(gc).trace_amends(t2)))
                &&& (!(old(stack).cur().parent matches LineParent::Attached { sampled: true, .. })
                    ==> *final(gc) == *old(gc))
                // a window that recorded nothing changes nothing
                &&& ((old(stack).cur().records@.len() == 0 && old(
                    stack,
                ).cur().parent_properties@.len() == 0 && old(stack).cur().parent_events@.len() == 0)
                    ==> *final(gc) == *old(gc))
                // a sampled parent's window is stitched under the parent and
                // buffered whole, when the trace is still open and unbounded
                &&& (old(stack).cur().parent matches LineParent::Attached {
                    trace_id,
                    span_id,
                    sampled: true,
                } ==> ((old(gc).config().max_spans_per_trace is None && (old(gc).trace_state(
                    trace_id,
                ) is None || old(gc).trace_state(trace_id) == Some(TraceState::Pending)) && old(
                    stack,
                ).cur().records@.len() > 0) ==> {
                    &&& final(gc).trace_state(trace_id) == Some(TraceState::Pending)
                    &&& final(gc).trace_buffered(trace_id).len() == old(gc).trace_buffered(
                        trace_id,
                    ).len() + old(stack).cur().records@.len()
                    &&& final(gc).trace_buffered(trace_id).take(
                        old(gc).trace_buffered(trace_id).len() as int,
                    ) == old(gc).trace_buffered(trace_id)
                    &&& batch_resolved(
                        final(gc).trace_buffered(trace_id).skip(
                            old(gc).trace_buffered(trace_id).len() as int,
                        ),
                        old(stack).cur().records@,
                        trace_id,
                        span_id,
                    )
                    &&& final(gc).retained() == old(gc).retained()
                    &&& final(gc).handed() == old(gc).handed()
                }))
                // annotations the window holds for the installed span itself
                // are handed to the collector as an amendment for its record
                &&& (old(stack).cur().parent matches LineParent::Attached {
                    trace_id,
                    span_id,
                    sampled: true,
                } ==> (((old(gc).trace_state(trace_id) is None || old(gc).trace_state(trace_id)
                    == Some(TraceState::Pending)) && (old(stack).cur().parent_properties@.len() > 0
                    || old(stack).cur().parent_events@.len() > 0)) ==> {
                    &&& final(gc).trace_state(trace_id) == Some(TraceState::Pending)
                    &&& final(gc).trace_amends(trace_id).len() == old(gc).trace_amends(
                        trace_id,
                    ).len() + 1
                    &&& final(gc).trace_amends(trace_id).take(
                        old(gc).trace_amends(trace_id).len() as int,
                    ) == old(gc).trace_amends(trace_id)
                    &&& final(gc).trace_amends(trace_id).last().span_id == span_id
                    &&& final(gc).trace_amends(trace_id).last().properties@ == old(
                        stack,
                    ).cur().parent_properties@
                    &&& final(gc).trace_amends(trace_id).last().events@ == old(
                        stack,
                    ).cur().parent_events@
                }))
                // while the trace is open, nothing is delivered: the
                // window only buffers
                &&& (old(stack).cur().parent matches LineParent::Attached {
                    trace_id,
                    sampled: true,
                    ..
                } ==> ((old(gc).trace_state(trace_id) is None || old(gc).trace_state(trace_id)
                    == Some(TraceState::Pending)) ==> final(gc).retained() == old(gc).retained()
                    && final(gc).handed() == old(gc).handed() && final(gc).reports() == old(
                    gc,
                ).reports()))
                // a window that recorded no spans leaves the trace's
                // buffered records untouched
                &&& (old(stack).cur().parent matches LineParent::Attached {
                    trace_id,
                    sampled: true,
                    ..
                } ==> (((old(gc).trace_state(trace_id) is None || old(gc).trace_state(trace_id)
                    == Some(TraceState::Pending)) && old(stack).cur().records@.len() == 0)
                    ==> final(gc).trace_buffered(trace_id) == old(gc).trace_buffered(trace_id)))
                // and with none held, the trace's pending amendments are
                // untouched
                &&& (old(stack).cur().parent matches LineParent::Attached {
                    trace_id,
                    sampled: true,
                    ..
                } ==> (((old(gc).trace_state(trace_id) is None || old(gc).trace_state(trace_id)
                    == Some(TraceState::Pending)) && old(stack).cur().parent_properties@.len() == 0
                    && old(stack).cur().parent_events@.len() == 0) ==> final(gc).trace_amends(
                    trace_id,
                ) == old(gc).trace_amends(trace_id)))
            },
    {
        if !self.active {
            return ;
        }
        match stack.pop_line_if(self.epoch) {
            None => {},
            Some(line) => {
                match line.parent {
                    LineParent::Detached => {},
                    LineParent::Attached { trace_id, span_id, sampled } => {
                        if sampled {
                            let ghost b0 = gc.trace_buffered(trace_id);
                            let recs = resolve_batch(line.records, trace_id, span_id);
                            let ghost rv = recs@;
                            if recs.len() > 0 {
                                proof {
                                    assert(rv[0].trace_id == trace_id);
                                }
                                gc.submit_batch(recs);
                                proof {
                                    if old(gc).config().max_spans_per_trace is None && (old(
                                        gc,
                                    ).trace_state(trace_id) is None || old(gc).trace_state(
                                        trace_id,
                                    ) == Some(TraceState::Pending)) {
                                        assert(gc.trace_buffered(trace_id).take(b0.len() as int)
                                            =~= b0);
                                        assert(gc.trace_buffered(trace_id).skip(b0.len() as int)
                                            =~= rv);
                                    }
                                }
                            }
                            if line.parent_properties.len() > 0 || line.parent_events.len() > 0 {
                                gc.add_amend(
                                    trace_id,
                                    Amend {
                                        span_id,
                                        properties: line.parent_properties,
                                        events: line.parent_events,
                                    },
                                );
                            }
                        }
                    },
                }
            },
        }
    }
}

} // verus!
