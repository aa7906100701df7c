//! Thread-confined span recording.
//!
//! A [`LocalStack`] is the recording state of one thread: a stack of
//! recording windows ([`SpanLine`]s). A window is opened either by a
//! [`mtr_loc_coll`] (a detached window whose batch is attached to a span
//! later) or by installing a span as the thread's local parent. Local spans
//! ([`mtr_loc_span`]) are recorded on the innermost window with no
//! cross-thread synchronization; a collected window becomes an owned,
//! transferable [`mtr_loc_spans`] batch.

use vstd::prelude::*;

use crate::record::{EventRecord, Property, NO_PARENT};
use crate::record::mtr_span_ctx;

verus! {

/// What the spans recorded on a line attach to once the line is closed.
#[derive(Debug, Clone, Copy, PartialEq, Eq, Structural)]
pub enum LineParent {
    /// The line was opened by a local collector; its batch is attached to a
    /// span only later, through `push_child_spans`.
    Detached,
    /// The line was opened by installing a span as the thread's local
    /// parent; collected spans are submitted under that span.
    Attached { trace_id: u128, span_id: u64, sampled: bool },
}

/// Whether spans recorded under this parent will be kept.
pub open spec fn parent_sampled(p: LineParent) -> bool {
    match p {
        LineParent::Detached => true,
        LineParent::Attached { sampled, .. } => sampled,
    }
}

/// The id source after one draw: the successor, saturating at the largest
/// id.
pub open spec fn sat_inc(id: u64) -> u64 {
    if id < u64::MAX {
        (id + 1) as u64
    } else {
        u64::MAX
    }
}

/// One span recorded on a line, pending collection.
#[derive(Debug, Clone, PartialEq)]
pub struct LocalRecord {
    pub span_id: u64,
    /// `NO_PARENT` if the span attaches to whatever parent the finished
    /// batch is attached to; otherwise the id of an earlier span of the same
    /// line.
    pub parent_id: u64,
    pub name: String,
    pub begin_ns: u64,
    pub end_ns: u64,
    pub ended: bool,
    pub properties: Vec<Property>,
    pub events: Vec<EventRecord>,
}

/// One recording window: the spans recorded so far, the stack of indices
/// of the spans that are still open, and annotations addressed to the
/// window's installed parent span itself.
#[derive(Debug)]
pub struct SpanLine {
    pub epoch: u64,
    pub parent: LineParent,
    pub records: Vec<LocalRecord>,
    pub open_spans: Vec<usize>,
    /// Ambient annotations recorded while no local span was open: they
    /// belong to the installed parent span and are handed to the collector
    /// as amendments for its record when the window closes.
    pub parent_properties: Vec<Property>,
    pub parent_events: Vec<EventRecord>,
}

/// The shape every batch of local records keeps: span ids are assigned in
/// strictly increasing order, never the reserved id, and every internal
/// parent link names a span recorded strictly earlier (so its id is
/// strictly smaller).
pub open spec fn batch_wf(s: Seq<LocalRecord>) -> bool {
    &&& forall|i: int, j: int| 0 <= i < j < s.len() ==> s[i].span_id < s[j].span_id
    &&& forall|i: int| 0 <= i < s.len() ==> #[trigger] s[i].span_id != NO_PARENT
    &&& forall|i: int|
        0 <= i < s.len() ==> (#[trigger] s[i].parent_id == NO_PARENT || s[i].parent_id
            < s[i].span_id)
}

impl SpanLine {
    pub open spec fn wf(&self) -> bool {
        &&& batch_wf(self.records@)
        &&& forall|i: int, j: int|
            0 <= i < j < self.open_spans@.len() ==> self.open_spans@[i] < self.open_spans@[j]
        &&& forall|i: int|
            0 <= i < self.open_spans@.len() ==> (#[trigger] self.open_spans@[i] as int)
                < self.records@.len()
        &&& forall|i: int|
            0 <= i < self.open_spans@.len() ==> !self.records@[#[trigger] self.open_spans@[i] as int].ended
    }
}

/// The recording state of one thread. Never shared: an embedding keeps one
/// per thread and hands it to every recording operation made on that thread.
///
/// `next_id` is the thread's span id source; an embedding seeds disjoint id
/// ranges into different threads' stacks so that ids stay unique within a
/// trace.
pub struct LocalStack {
    lines: Vec<SpanLine>,
    next_id: u64,
    next_epoch: u64,
}

impl LocalStack {
    pub closed spec fn lines(&self) -> Seq<SpanLine> {
        self.lines@
    }

    pub closed spec fn next_id(&self) -> u64 {
        self.next_id
    }

    pub closed spec fn next_epoch(&self) -> u64 {
        self.next_epoch
    }

    pub open spec fn depth(&self) -> nat {
        self.lines().len()
    }

    pub open spec fn has_line(&self) -> bool {
        self.depth() > 0
    }

    /// The innermost recording window.
    pub open spec fn cur(&self) -> SpanLine
        recommends
            self.has_line(),
    {
        self.lines().last()
    }

    pub open spec fn wf(&self) -> bool {
        &&& forall|k: int| 0 <= k < self.lines().len() ==> (#[trigger] self.lines()[k]).wf()
        &&& forall|k: int, i: int|
            0 <= k < self.lines().len() && 0 <= i < self.lines()[k].records@.len()
                ==> self.lines()[k].records@[i].span_id < self.next_id()
        &&& forall|k: int|
            0 <= k < self.lines().len() ==> (#[trigger] self.lines()[k]).epoch < self.next_epoch()
        &&& forall|k1: int, k2: int|
            0 <= k1 < k2 < self.lines().len() ==> self.lines()[k1].epoch < self.lines()[k2].epoch
        &&& self.next_id() >= 1
    }

    /// New spans can be recorded: a window is open, the window's parent is
    /// sampled, and the id source is not exhausted.
    pub open spec fn can_record(&self) -> bool {
        &&& self.has_line()
        &&& parent_sampled(self.cur().parent)
        &&& self.next_id() < u64::MAX
    }

    /// The id a newly recorded span gets as its parent: the innermost open
    /// span of the current window, or the reserved id if the window has no
    /// open span.
    pub open spec fn cur_parent_id(&self) -> u64
        recommends
            self.has_line(),
    {
        if self.cur().open_spans@.len() > 0 {
            self.cur().records@[self.cur().open_spans@.last() as int].span_id
        } else {
            NO_PARENT
        }
    }

    /// A fresh recording state for one thread. `id_seed` is the first span
    /// id this thread will assign; the reserved id is excluded.
    pub fn new(id_seed: u64) -> (r: Self)
        requires
            id_seed >= 1,
        ensures
            r.wf(),
            r.depth() == 0,
            r.next_id() == id_seed,
            r.next_epoch() == 0,
    {
        LocalStack { lines: Vec::new(), next_id: id_seed, next_epoch: 0 }
    }

    /// The context of the thread's current local parent span, if one is
    /// installed; fails (returns nothing) when no span is the local parent.
    pub fn current_parent_context(&self) -> (r: Option<mtr_span_ctx>)
        ensures
            match r {
                Some(c) => self.has_line() && self.cur().parent == (LineParent::Attached {
                    trace_id: c.trace_id,
                    span_id: c.span_id,
                    sampled: c.sampled,
                }),
                None => !self.has_line() || self.cur().parent is Detached,
            },
    {
        if self.lines.len() == 0 {
            return None;
        }
        match self.lines[self.lines.len() - 1].parent {
            LineParent::Detached => None,
            LineParent::Attached { trace_id, span_id, sampled } => Some(
                mtr_span_ctx { trace_id, span_id, sampled },
            ),
        }
    }

    /// The span id a child span created against this thread's local parent
    /// links to: the innermost open local span if there is one, else the
    /// installed parent span itself.
    pub open spec fn attached_parent_id(&self) -> u64
        recommends
            self.has_line(),
            self.cur().parent is Attached,
    {
        if self.cur().open_spans@.len() > 0 {
            self.cur().records@[self.cur().open_spans@.last() as int].span_id
        } else {
            self.cur().parent->span_id
        }
    }

    /// Draws a fresh span id for this thread, saturating once the id source
    /// is exhausted (ids are then no longer fresh; recording degrades, it
    /// never fails).
    pub(crate) fn fresh_span_id(&mut self) -> (r: u64)
        requires
            old(self).wf(),
        ensures
            final(self).wf(),
            final(self).lines() == old(self).lines(),
            final(self).next_epoch() == old(self).next_epoch(),
            r == old(self).next_id(),
            final(self).next_id() == (if old(self).next_id() < u64::MAX {
                (old(self).next_id() + 1) as u64
            } else {
                u64::MAX
            }),
    {
        let id: u64 = self.next_id;
        if id < u64::MAX {
            self.next_id = id + 1;
        }
        id
    }

    /// The trace, parent span id, and sampled flag a child span created
    /// against this thread's local parent gets; nothing when no span is
    /// installed as the local parent.
    pub fn current_span_parent(&self) -> (r: Option<(u128, u64, bool)>)
        requires
            self.wf(),
        ensures
            match r {
                Some(p) => self.has_line() && self.cur().parent is Attached && p.0
                    == self.cur().parent->trace_id && p.1 == self.attached_parent_id() && p.2
                    == self.cur().parent->sampled,
                None => !self.has_line() || self.cur().parent is Detached,
            },
    {
        let depth: usize = self.lines.len();
        if depth == 0 {
            return None;
        }
        let line = &self.lines[depth - 1];
        match line.parent {
            LineParent::Detached => None,
            LineParent::Attached { trace_id, span_id, sampled } => {
                let pid: u64 = if line.open_spans.len() > 0 {
                    let oi: usize = line.open_spans[line.open_spans.len() - 1];
                    line.records[oi].span_id
                } else {
                    span_id
                };
                Some((trace_id, pid, sampled))
            },
        }
    }

    /// The thread has an innermost open local span, the target of the
    /// ambient annotation operations.
    pub open spec fn has_ambient_target(&self) -> bool {
        self.has_line() && self.cur().open_spans@.len() > 0
    }

    /// The index, in the current window, of the innermost open local span.
    pub open spec fn ambient_target(&self) -> int
        recommends
            self.has_ambient_target(),
    {
        self.cur().open_spans@.last() as int
    }

    /// No local span is open, but a sampled span is installed as the local
    /// parent: ambient annotations belong to that span itself.
    pub open spec fn ambient_parent_target(&self) -> bool {
        &&& self.has_line()
        &&& self.cur().open_spans@.len() == 0
        &&& self.cur().parent is Attached
        &&& parent_sampled(self.cur().parent)
    }

    /// Appends one property to the thread's current local parent: the
    /// innermost open local span if one is open; otherwise, with a sampled
    /// span installed as the local parent, the property belongs to that
    /// span itself and merges into its record when the window closes. With
    /// neither, a no-op.
    pub fn add_property(&mut self, key: String, value: String)
        requires
            old(self).wf(),
        ensures
            final(self).wf(),
            final(self).next_id() == old(self).next_id(),
            final(self).next_epoch() == old(self).next_epoch(),
            final(self).depth() == old(self).depth(),
            (!old(self).has_ambient_target() && !old(self).ambient_parent_target())
                ==> *final(self) == *old(self),
            old(self).has_ambient_target() ==> {
                let i = old(self).ambient_target();
                &&& final(self).lines().drop_last() == old(self).lines().drop_last()
                &&& final(self).cur().epoch == old(self).cur().epoch
                &&& final(self).cur().parent == old(self).cur().parent
                &&& final(self).cur().open_spans@ == old(self).cur().open_spans@
                &&& final(self).cur().parent_properties@ == old(self).cur().parent_properties@
                &&& final(self).cur().parent_events@ == old(self).cur().parent_events@
                &&& records_eq_except(final(self).cur().records@, old(self).cur().records@, i)
                &&& same_but_props(final(self).cur().records@[i], old(self).cur().records@[i])
                &&& final(self).cur().records@[i].properties@ == old(
                    self,
                ).cur().records@[i].properties@.push(Property { key, value })
            },
            old(self).ambient_parent_target() ==> {
                &&& final(self).lines().drop_last() == old(self).lines().drop_last()
                &&& final(self).cur().epoch == old(self).cur().epoch
                &&& final(self).cur().parent == old(self).cur().parent
                &&& final(self).cur().open_spans@ == old(self).cur().open_spans@
                &&& final(self).cur().records@ == old(self).cur().records@
                &&& final(self).cur().parent_events@ == old(self).cur().parent_events@
                &&& final(self).cur().parent_properties@ == old(
                    self,
                ).cur().parent_properties@.push(Property { key, value })
            },
    {
        let depth: usize = self.lines.len();
        if depth == 0 {
            return ;
        }
        if self.lines[depth - 1].open_spans.len() == 0 {
            // no open local span: the annotation belongs to the installed
            // parent span, if there is a sampled one
            let to_parent: bool = match self.lines[depth - 1].parent {
                LineParent::Detached => false,
                LineParent::Attached { sampled, .. } => sampled,
            };
            if !to_parent {
                return ;
            }
            let mut line = self.lines.pop().unwrap();
            line.parent_properties.push(Property { key, value });
            self.lines.push(line);
            proof {
                lemma_stack_wf_after_cur_replace(*old(self), *self);
                assert(self.lines().drop_last() == old(self).lines().drop_last());
            }
            return ;
        }
        let mut line = self.lines.pop().unwrap();
        let idx: usize = line.open_spans[line.open_spans.len() - 1];
        proof {
            assert((idx as int) < line.records@.len());
        }
        let mut rec = line.records.remove(idx);
        rec.properties.push(Property { key, value });
        line.records.insert(idx, rec);
        proof {
            assert(records_eq_except(line.records@, old(self).cur().records@, idx as int));
            lemma_line_wf_after_update(old(self).cur(), line, idx as int);
        }
        self.lines.push(line);
        proof {
            lemma_stack_wf_after_cur_replace(*old(self), *self);
            assert(self.lines().drop_last() == old(self).lines().drop_last());
        }
    }

    /// Appends several properties to the thread's current local parent,
    /// under the same routing as `add_property`.
    pub fn add_properties(&mut self, mut properties: Vec<Property>)
        requires
            old(self).wf(),
        ensures
            final(self).wf(),
            final(self).next_id() == old(self).next_id(),
            final(self).next_epoch() == old(self).next_epoch(),
            final(self).depth() == old(self).depth(),
            (!old(self).has_ambient_target() && !old(self).ambient_parent_target())
                ==> *final(self) == *old(self),
            old(self).has_ambient_target() ==> {
                let i = old(self).ambient_target();
                &&& final(self).lines().drop_last() == old(self).lines().drop_last()
                &&& final(self).cur().epoch == old(self).cur().epoch
                &&& final(self).cur().parent == old(self).cur().parent
                &&& final(self).cur().open_spans@ == old(self).cur().open_spans@
                &&& final(self).cur().parent_properties@ == old(self).cur().parent_properties@
                &&& final(self).cur().parent_events@ == old(self).cur().parent_events@
                &&& records_eq_except(final(self).cur().records@, old(self).cur().records@, i)
                &&& same_but_props(final(self).cur().records@[i], old(self).cur().records@[i])
                &&& final(self).cur().records@[i].properties@ == old(
                    self,
                ).cur().records@[i].properties@ + properties@
            },
            old(self).ambient_parent_target() ==> {
                &&& final(self).lines().drop_last() == old(self).lines().drop_last()
                &&& final(self).cur().epoch == old(self).cur().epoch
                &&& final(self).cur().parent == old(self).cur().parent
                &&& final(self).cur().open_spans@ == old(self).cur().open_spans@
                &&& final(self).cur().records@ == old(self).cur().records@
                &&& final(self).cur().parent_events@ == old(self).cur().parent_events@
                &&& final(self).cur().parent_properties@ == old(
                    self,
                ).cur().parent_properties@ + properties@
            },
    {
        let depth: usize = self.lines.len();
        if depth == 0 {
            return ;
        }
        if self.lines[depth - 1].open_spans.len() == 0 {
            // no open local span: the annotations belong to the installed
            // parent span, if there is a sampled one
            let to_parent: bool = match self.lines[depth - 1].parent {
                LineParent::Detached => false,
                LineParent::Attached { sampled, .. } => sampled,
            };
            if !to_parent {
                return ;
            }
            let mut line = self.lines.pop().unwrap();
            line.parent_properties.append(&mut properties);
            self.lines.push(line);
            proof {
                lemma_stack_wf_after_cur_replace(*old(self), *self);
                assert(self.lines().drop_last() == old(self).lines().drop_last());
            }
            return ;
        }
        let mut line = self.lines.pop().unwrap();
        let idx: usize = line.open_spans[line.open_spans.len() - 1];
        proof {
            assert((idx as int) < line.records@.len());
        }
        let mut rec = line.records.remove(idx);
        rec.properties.append(&mut properties);
        line.records.insert(idx, rec);
        proof {
            assert(records_eq_except(line.records@, old(self).cur().records@, idx as int));
            lemma_line_wf_after_update(old(self).cur(), line, idx as int);
        }
        self.lines.push(line);
        proof {
            lemma_stack_wf_after_cur_replace(*old(self), *self);
            assert(self.lines().drop_last() == old(self).lines().drop_last());
        }
    }

    /// Adds a named, timestamped event to the thread's current local
    /// parent, under the same routing as `add_property`.
    pub fn add_event(&mut self, name: String, properties: Vec<Property>, now_ns: u64)
        requires
            old(self).wf(),
        ensures
            final(self).wf(),
            final(self).next_id() == old(self).next_id(),
            final(self).next_epoch() == old(self).next_epoch(),
            final(self).depth() == old(self).depth(),
            (!old(self).has_ambient_target() && !old(self).ambient_parent_target())
                ==> *final(self) == *old(self),
            old(self).has_ambient_target() ==> {
                let i = old(self).ambient_target();
                &&& final(self).lines().drop_last() == old(self).lines().drop_last()
                &&& final(self).cur().epoch == old(self).cur().epoch
                &&& final(self).cur().parent == old(self).cur().parent
                &&& final(self).cur().open_spans@ == old(self).cur().open_spans@
                &&& final(self).cur().parent_properties@ == old(self).cur().parent_properties@
                &&& final(self).cur().parent_events@ == old(self).cur().parent_events@
                &&& records_eq_except(final(self).cur().records@, old(self).cur().records@, i)
                &&& same_but_events(final(self).cur().records@[i], old(self).cur().records@[i])
                &&& final(self).cur().records@[i].events@ == old(
                    self,
                ).cur().records@[i].events@.push(
                    EventRecord { name, timestamp_ns: now_ns, properties },
                )
            },
            old(self).ambient_parent_target() ==> {
                &&& final(self).lines().drop_last() == old(self).lines().drop_last()
                &&& final(self).cur().epoch == old(self).cur().epoch
                &&& final(self).cur().parent == old(self).cur().parent
                &&& final(self).cur().open_spans@ == old(self).cur().open_spans@
                &&& final(self).cur().records@ == old(self).cur().records@
                &&& final(self).cur().parent_properties@ == old(self).cur().parent_properties@
                &&& final(self).cur().parent_events@ == old(self).cur().parent_events@.push(
                    EventRecord { name, timestamp_ns: now_ns, properties },
                )
            },
    {
        let depth: usize = self.lines.len();
        if depth == 0 {
            return ;
        }
        if self.lines[depth - 1].open_spans.len() == 0 {
            // no open local span: the event belongs to the installed parent
            // span, if there is a sampled one
            let to_parent: bool = match self.lines[depth - 1].parent {
                LineParent::Detached => false,
                LineParent::Attached { sampled, .. } => sampled,
            };
            if !to_parent {
                return ;
            }
            let mut line = self.lines.pop().unwrap();
            line.parent_events.push(EventRecord { name, timestamp_ns: now_ns, properties });
            self.lines.push(line);
            proof {
                lemma_stack_wf_after_cur_replace(*old(self), *self);
                assert(self.lines().drop_last() == old(self).lines().drop_last());
            }
            return ;
        }
        let mut line = self.lines.pop().unwrap();
        let idx: usize = line.open_spans[line.open_spans.len() - 1];
        proof {
            assert((idx as int) < line.records@.len());
        }
        let mut rec = line.records.remove(idx);
        rec.events.push(EventRecord { name, timestamp_ns: now_ns, properties });
        line.records.insert(idx, rec);
        proof {
            assert(records_eq_except(line.records@, old(self).cur().records@, idx as int));
            lemma_line_wf_after_update(old(self).cur(), line, idx as int);
        }
        self.lines.push(line);
        proof {
            lemma_stack_wf_after_cur_replace(*old(self), *self);
            assert(self.lines().drop_last() == old(self).lines().drop_last());
        }
    }

    /// Opens a new innermost window. Returns the window's epoch, or nothing
    /// when the epoch source is exhausted (no window is opened then).
    pub(crate) fn push_line(&mut self, parent: LineParent) -> (r: Option<u64>)
        requires
            old(self).wf(),
        ensures
            final(self).wf(),
            final(self).next_id() == old(self).next_id(),
            match r {
                Some(e) => {
                    &&& e == old(self).next_epoch()
                    &&& final(self).next_epoch() == old(self).next_epoch() + 1
                    &&& final(self).lines().drop_last() == old(self).lines()
                    &&& final(self).depth() == old(self).depth() + 1
                    &&& final(self).cur().epoch == e
                    &&& final(self).cur().parent == parent
                    &&& final(self).cur().records@.len() == 0
                    &&& final(self).cur().open_spans@.len() == 0
                    &&& final(self).cur().parent_properties@.len() == 0
                    &&& final(self).cur().parent_events@.len() == 0
                },
                None => old(self).next_epoch() == u64::MAX && *final(self) == *old(self),
            },
    {
        if self.next_epoch == u64::MAX {
            return None;
        }
        let e: u64 = self.next_epoch;
        self.next_epoch = e + 1;
        let line = SpanLine {
            epoch: e,
            parent,
            records: Vec::new(),
            open_spans: Vec::new(),
            parent_properties: Vec::new(),
            parent_events: Vec::new(),
        };
        self.lines.push(line);
        proof {
            assert(self.lines().drop_last() == old(self).lines());
        }
        Some(e)
    }

    /// Pops the innermost window if its epoch is the given one; otherwise
    /// leaves the stack alone.
    pub(crate) fn pop_line_if(&mut self, epoch: u64) -> (r: Option<SpanLine>)
        requires
            old(self).wf(),
        ensures
            final(self).wf(),
            final(self).next_id() == old(self).next_id(),
            final(self).next_epoch() == old(self).next_epoch(),
            match r {
                Some(line) => {
                    &&& old(self).has_line() && old(self).cur().epoch == epoch
                    &&& line == old(self).cur()
                    &&& line.wf()
                    &&& final(self).lines() == old(self).lines().drop_last()
                },
                None => !(old(self).has_line() && old(self).cur().epoch == epoch) && *final(self)
                    == *old(self),
            },
    {
        if self.lines.len() == 0 {
            return None;
        }
        if self.lines[self.lines.len() - 1].epoch != epoch {
            return None;
        }
        self.lines.pop()
    }
}

/// A batch of spans recorded on one thread, detached from it: an owned,
/// transferable value with no remaining thread affinity. Attach it to a
/// span with `push_child_spans` to stitch the spans into that span's trace.
#[derive(Debug)]
pub struct mtr_loc_spans {
    pub spans: Vec<LocalRecord>,
}

/// Owns one detached recording window on the calling thread.
#[derive(Debug, Clone, Copy)]
pub struct mtr_loc_coll {
    pub active: bool,
    pub epoch: u64,
}

impl mtr_loc_coll {
    /// Opens a detached recording window. Local spans recorded on this
    /// thread while the window is innermost attach to it.
    pub fn start(stack: &mut LocalStack) -> (r: mtr_loc_coll)
        requires
            old(stack).wf(),
        ensures
            final(stack).wf(),
            final(stack).next_id() == old(stack).next_id(),
            r.active ==> {
                &&& r.epoch == old(stack).next_epoch()
                &&& final(stack).lines().drop_last() == old(stack).lines()
                &&& final(stack).depth() == old(stack).depth() + 1
                &&& final(stack).cur().epoch == r.epoch
                &&& final(stack).cur().parent is Detached
                &&& final(stack).cur().records@.len() == 0
                &&& final(stack).cur().open_spans@.len() == 0
                &&& final(stack).cur().parent_properties@.len() == 0
                &&& final(stack).cur().parent_events@.len() == 0
            },
            // a window always opens; only an exhausted epoch source (after
            // 2^64 windows on one thread) degrades to an inert collector
            !r.active ==> *final(stack) == *old(stack) && old(stack).next_epoch() == u64::MAX,
    {
        match stack.push_line(LineParent::Detached) {
            Some(e) => mtr_loc_coll { active: true, epoch: e },
            None => mtr_loc_coll { active: false, epoch: 0 },
        }
    }

    /// Closes the window and yields its batch. Collecting a window that is
    /// not the thread's innermost one (for example because it was already
    /// collected) is a misuse and yields the empty batch.
    pub fn collect(self, stack: &mut LocalStack) -> (r: mtr_loc_spans)
        requires
            old(stack).wf(),
        ensures
            final(stack).wf(),
            final(stack).next_id() == old(stack).next_id(),
            final(stack).next_epoch() == old(stack).next_epoch(),
            batch_wf(r.spans@),
            (self.active && old(stack).has_line() && old(stack).cur().epoch == self.epoch && old(
                stack,
            ).cur().parent is Detached) ==> {
                &&& r.spans@ == old(stack).cur().records@
                &&& final(stack).lines() == old(stack).lines().drop_last()
            },
            !(self.active && old(stack).has_line() && old(stack).cur().epoch == self.epoch && old(
                stack,
            ).cur().parent is Detached) ==> r.spans@.len() == 0 && *final(stack) == *old(stack),
    {
        if !self.active {
            return mtr_loc_spans { spans: Vec::new() };
        }
        let depth: usize = stack.lines.len();
        if depth == 0 {
            return mtr_loc_spans { spans: Vec::new() };
        }
        let is_mine: bool = match stack.lines[depth - 1].parent {
            LineParent::Detached => stack.lines[depth - 1].epoch == self.epoch,
            LineParent::Attached { .. } => false,
        };
        if !is_mine {
            return mtr_loc_spans { spans: Vec::new() };
        }
        match stack.pop_line_if(self.epoch) {
            Some(line) => mtr_loc_spans { spans: line.records },
            None => mtr_loc_spans { spans: Vec::new() },
        }
    }
}

/// A record equals another except possibly in its property list.
pub open spec fn same_but_props(a: LocalRecord, b: LocalRecord) -> bool {
    &&& a.span_id == b.span_id
    &&& a.parent_id == b.parent_id
    &&& a.name == b.name
    &&& a.begin_ns == b.begin_ns
    &&& a.end_ns == b.end_ns
    &&& a.ended == b.ended
    &&& a.events@ == b.events@
}

/// A record equals another except possibly in its event list.
pub open spec fn same_but_events(a: LocalRecord, b: LocalRecord) -> bool {
    &&& a.span_id == b.span_id
    &&& a.parent_id == b.parent_id
    &&& a.name == b.name
    &&& a.begin_ns == b.begin_ns
    &&& a.end_ns == b.end_ns
    &&& a.ended == b.ended
    &&& a.properties@ == b.properties@
}

/// Two record sequences agree everywhere except possibly at index `i`.
pub open spec fn records_eq_except(s1: Seq<LocalRecord>, s2: Seq<LocalRecord>, i: int) -> bool {
    &&& s1.len() == s2.len()
    &&& forall|j: int| 0 <= j < s1.len() && j != i ==> s1[j] == s2[j]
}

/// Replacing one record of a well-formed line, keeping its identity, its
/// parent link and its ended flag, keeps the line well-formed.
proof fn lemma_line_wf_after_update(old_line: SpanLine, new_line: SpanLine, i: int)
    requires
        old_line.wf(),
        new_line.open_spans@ == old_line.open_spans@,
        records_eq_except(new_line.records@, old_line.records@, i),
        0 <= i < old_line.records@.len(),
        new_line.records@[i].span_id == old_line.records@[i].span_id,
        new_line.records@[i].parent_id == old_line.records@[i].parent_id,
        new_line.records@[i].ended == old_line.records@[i].ended,
    ensures
        new_line.wf(),
{
    assert forall|a: int, b: int| 0 <= a < b < new_line.records@.len() implies new_line.records@[a].span_id
        < new_line.records@[b].span_id by {
        assert(new_line.records@[a].span_id == old_line.records@[a].span_id);
        assert(new_line.records@[b].span_id == old_line.records@[b].span_id);
    }
    assert forall|a: int| 0 <= a < new_line.records@.len() implies #[trigger] new_line.records@[a].span_id
        != NO_PARENT by {
        assert(new_line.records@[a].span_id == old_line.records@[a].span_id);
    }
    assert forall|a: int|
        0 <= a < new_line.records@.len() implies (#[trigger] new_line.records@[a].parent_id
        == NO_PARENT || new_line.records@[a].parent_id < new_line.records@[a].span_id) by {
        assert(new_line.records@[a].parent_id == old_line.records@[a].parent_id);
        assert(new_line.records@[a].span_id == old_line.records@[a].span_id);
    }
    assert forall|a: int|
        0 <= a < new_line.open_spans@.len() implies !new_line.records@[#[trigger] new_line.open_spans@[a] as int].ended by {
        assert(new_line.records@[new_line.open_spans@[a] as int].ended == old_line.records@[new_line.open_spans@[a] as int].ended);
    }
}

/// Replacing the innermost window of a well-formed stack with a well-formed
/// window of the same epoch, whose span ids stay below the id source, keeps
/// the stack well-formed.
proof fn lemma_stack_wf_after_cur_replace(os: LocalStack, ns: LocalStack)
    requires
        os.wf(),
        os.has_line(),
        ns.lines().len() == os.lines().len(),
        forall|k: int| 0 <= k < os.lines().len() - 1 ==> ns.lines()[k] == os.lines()[k],
        ns.cur().wf(),
        ns.cur().epoch == os.cur().epoch,
        forall|i: int|
            0 <= i < ns.cur().records@.len() ==> ns.cur().records@[i].span_id < ns.next_id(),
        os.next_id() <= ns.next_id(),
        ns.next_epoch() == os.next_epoch(),
    ensures
        ns.wf(),
{
    let last = ns.lines().len() - 1;
    assert forall|k: int| 0 <= k < ns.lines().len() implies (#[trigger] ns.lines()[k]).wf() by {
        if k < last {
            assert(ns.lines()[k] == os.lines()[k]);
        } else {
            assert(ns.lines()[k] == ns.cur());
        }
    }
    assert forall|k: int, i: int|
        0 <= k < ns.lines().len() && 0 <= i < ns.lines()[k].records@.len() implies ns.lines()[k].records@[i].span_id
        < ns.next_id() by {
        if k < last {
            assert(ns.lines()[k] == os.lines()[k]);
            assert(os.lines()[k].records@[i].span_id < os.next_id());
        }
    }
    assert forall|k: int| 0 <= k < ns.lines().len() implies (#[trigger] ns.lines()[k]).epoch
        < ns.next_epoch() by {
        if k < last {
            assert(ns.lines()[k] == os.lines()[k]);
        } else {
            assert(ns.lines()[k].epoch == os.cur().epoch);
            assert(os.lines()[last].epoch < os.next_epoch());
        }
    }
    assert forall|k1: int, k2: int| 0 <= k1 < k2 < ns.lines().len() implies ns.lines()[k1].epoch
        < ns.lines()[k2].epoch by {
        if k2 < last {
            assert(ns.lines()[k1] == os.lines()[k1]);
            assert(ns.lines()[k2] == os.lines()[k2]);
        } else {
            assert(ns.lines()[k1] == os.lines()[k1]);
            assert(ns.lines()[k2].epoch == os.lines()[k2].epoch);
        }
    }
}

/// A freshly opened span's record: the given identity, empty annotations,
/// not yet ended.
pub open spec fn fresh_local_record(
    rec: LocalRecord,
    span_id: u64,
    parent_id: u64,
    name: String,
    now_ns: u64,
) -> bool {
    &&& rec.span_id == span_id
    &&& rec.parent_id == parent_id
    &&& rec.name == name
    &&& rec.begin_ns == now_ns
    &&& rec.end_ns == now_ns
    &&& !rec.ended
    &&& rec.properties@.len() == 0
    &&& rec.events@.len() == 0
}

/// A handle to one span recorded on the calling thread's current window.
/// An inert handle (`active == false`) records nothing and never fails.
#[derive(Debug, Clone, Copy)]
pub struct mtr_loc_span {
    pub active: bool,
    pub epoch: u64,
    pub index: usize,
}

impl mtr_loc_span {
    /// The handle refers to a live span of the stack's innermost window.
    pub open spec fn valid_for(self, stack: LocalStack) -> bool {
        &&& self.active
        &&& stack.has_line()
        &&& stack.cur().epoch == self.epoch
        &&& (self.index as int) < stack.cur().records@.len()
        &&& !stack.cur().records@[self.index as int].ended
    }

    /// Opens a local span under the thread's current recording window and
    /// makes it the window's innermost open span. With no window open, or
    /// an unsampled local parent, this is a deliberate no-op: it returns an
    /// inert handle and records nothing.
    pub fn enter_with_local_parent(name: String, stack: &mut LocalStack, now_ns: u64) -> (r:
        mtr_loc_span)
        requires
            old(stack).wf(),
        ensures
            final(stack).wf(),
            final(stack).next_epoch() == old(stack).next_epoch(),
            final(stack).depth() == old(stack).depth(),
            !old(stack).can_record() ==> !r.active && *final(stack) == *old(stack),
            old(stack).can_record() ==> {
                &&& r.active
                &&& r.epoch == old(stack).cur().epoch
                &&& r.index == old(stack).cur().records@.len()
                &&& final(stack).next_id() == old(stack).next_id() + 1
                &&& final(stack).lines().drop_last() == old(stack).lines().drop_last()
                &&& final(stack).cur().epoch == old(stack).cur().epoch
                &&& final(stack).cur().parent == old(stack).cur().parent
                &&& final(stack).cur().parent_properties@ == old(stack).cur().parent_properties@
                &&& final(stack).cur().parent_events@ == old(stack).cur().parent_events@
                &&& final(stack).cur().open_spans@ == old(stack).cur().open_spans@.push(r.index)
                &&& final(stack).cur().records@.len() == old(stack).cur().records@.len() + 1
                &&& final(stack).cur().records@.drop_last() == old(stack).cur().records@
                &&& fresh_local_record(
                    final(stack).cur().records@.last(),
                    old(stack).next_id(),
                    old(stack).cur_parent_id(),
                    name,
                    now_ns,
                )
            },
    {
        let depth: usize = stack.lines.len();
        if depth == 0 {
            return mtr_loc_span { active: false, epoch: 0, index: 0 };
        }
        let sampled_ok: bool = match stack.lines[depth - 1].parent {
            LineParent::Detached => true,
            LineParent::Attached { sampled, .. } => sampled,
        };
        if !sampled_ok || stack.next_id == u64::MAX {
            return mtr_loc_span { active: false, epoch: 0, index: 0 };
        }
        let id: u64 = stack.next_id;
        stack.next_id = id + 1;
        let mut line = stack.lines.pop().unwrap();
        let ep: u64 = line.epoch;
        let index: usize = line.records.len();
        let parent_id: u64 = if line.open_spans.len() > 0 {
            let oi: usize = line.open_spans[line.open_spans.len() - 1];
            line.records[oi].span_id
        } else {
            NO_PARENT
        };
        proof {
            assert(parent_id == old(stack).cur_parent_id());
            assert forall|i: int| 0 <= i < line.records@.len() implies line.records@[i].span_id
                < id by {
                assert(old(stack).lines()[old(stack).lines().len() - 1].records@[i].span_id < old(
                    stack,
                ).next_id());
            }
        }
        line.records.push(
            LocalRecord {
                span_id: id,
                parent_id,
                name,
                begin_ns: now_ns,
                end_ns: now_ns,
                ended: false,
                properties: Vec::new(),
                events: Vec::new(),
            },
        );
        line.open_spans.push(index);
        proof {
            lemma_line_wf_after_extend(old(stack).cur(), line, id);
        }
        stack.lines.push(line);
        proof {
            lemma_stack_wf_after_cur_replace(*old(stack), *stack);
            assert(stack.lines().drop_last() == old(stack).lines().drop_last());
        }
        mtr_loc_span { active: true, epoch: ep, index }
    }

    /// Closes this local span: stamps its end time and pops it, together
    /// with any spans still open inside it, off the window's open stack. On
    /// an inert, stale, or already-closed handle this is a no-op.
    pub fn exit(self, stack: &mut LocalStack, now_ns: u64)
        requires
            old(stack).wf(),
        ensures
            final(stack).wf(),
            final(stack).next_id() == old(stack).next_id(),
            final(stack).next_epoch() == old(stack).next_epoch(),
            final(stack).depth() == old(stack).depth(),
            !self.valid_for(*old(stack)) ==> *final(stack) == *old(stack),
            self.valid_for(*old(stack)) ==> {
                &&& final(stack).lines().drop_last() == old(stack).lines().drop_last()
                &&& final(stack).cur().epoch == old(stack).cur().epoch
                &&& final(stack).cur().parent == old(stack).cur().parent
                &&& final(stack).cur().parent_properties@ == old(stack).cur().parent_properties@
                &&& final(stack).cur().parent_events@ == old(stack).cur().parent_events@
                &&& records_eq_except(
                    final(stack).cur().records@,
                    old(stack).cur().records@,
                    self.index as int,
                )
                &&& final(stack).cur().records@[self.index as int] == (LocalRecord {
                    end_ns: now_ns,
                    ended: true,
                    ..old(stack).cur().records@[self.index as int]
                })
                &&& (old(stack).cur().open_spans@.len() > 0 && old(
                    stack,
                ).cur().open_spans@.last() == self.index ==> final(stack).cur().open_spans@ == old(
                    stack,
                ).cur().open_spans@.drop_last())
            },
    {
        if !self.active {
            return ;
        }
        let depth: usize = stack.lines.len();
        if depth == 0 {
            return ;
        }
        if stack.lines[depth - 1].epoch != self.epoch {
            return ;
        }
        if self.index >= stack.lines[depth - 1].records.len() {
            return ;
        }
        if stack.lines[depth - 1].records[self.index].ended {
            return ;
        }
        let mut line = stack.lines.pop().unwrap();
        let mut rec = line.records.remove(self.index);
        rec.end_ns = now_ns;
        rec.ended = true;
        line.records.insert(self.index, rec);
        proof {
            assert(line.records@ =~= old(stack).cur().records@.update(
                self.index as int,
                LocalRecord {
                    end_ns: now_ns,
                    ended: true,
                    ..old(stack).cur().records@[self.index as int]
                },
            ));
        }
        // Pop this span's open entry together with any entries nested
        // inside it (those are treated as implicitly closed).
        let ghost opens0 = line.open_spans@;
        let ghost recs1 = line.records@;
        let ghost ep1 = line.epoch;
        let ghost par1 = line.parent;
        let ghost pprops1 = line.parent_properties@;
        let ghost pevents1 = line.parent_events@;
        while line.open_spans.len() > 0 && line.open_spans[line.open_spans.len() - 1] >= self.index
            invariant
                line.records@ == recs1,
                line.epoch == ep1,
                line.parent == par1,
                line.parent_properties@ == pprops1,
                line.parent_events@ == pevents1,
                line.open_spans@.len() <= opens0.len(),
                line.open_spans@ == opens0.take(line.open_spans@.len() as int),
                forall|p: int|
                    line.open_spans@.len() <= p < opens0.len() ==> (#[trigger] opens0[p] as int)
                        >= self.index as int,
            decreases line.open_spans@.len(),
        {
            line.open_spans.pop();
            proof {
                assert(line.open_spans@ =~= opens0.take(line.open_spans@.len() as int));
            }
        }
        proof {
            let m = line.open_spans@.len() as int;
            assert forall|a: int| 0 <= a < m implies (#[trigger] opens0[a] as int)
                < self.index as int by {
                assert(opens0[a] == line.open_spans@[a]);
                if a < m - 1 {
                    assert(line.open_spans@[a] < line.open_spans@[m - 1]);
                }
            }
            lemma_line_wf_after_exit(old(stack).cur(), line, self.index as int, opens0);
            // If this span was the innermost open one, exactly its entry is
            // popped.
            if opens0.len() > 0 && opens0.last() == self.index {
                assert(m <= opens0.len() - 1);
                if m < opens0.len() - 1 {
                    assert((opens0[opens0.len() - 2] as int) >= self.index as int);
                    assert(opens0[opens0.len() - 2] < opens0[opens0.len() - 1]);
                    assert(false);
                }
                assert(line.open_spans@ =~= opens0.drop_last());
            }
        }
        stack.lines.push(line);
        proof {
            lemma_stack_wf_after_cur_replace(*old(stack), *stack);
            assert(stack.lines().drop_last() == old(stack).lines().drop_last());
            if old(stack).cur().open_spans@.len() > 0 && old(stack).cur().open_spans@.last()
                == self.index {
                assert(stack.cur().open_spans@ =~= old(stack).cur().open_spans@.drop_last());
            }
        }
    }

    /// Appends one property to this local span. On an inert, stale, or
    /// already-closed handle this is a no-op.
    pub fn with_property(self, stack: &mut LocalStack, key: String, value: String)
        requires
            old(stack).wf(),
        ensures
            final(stack).wf(),
            final(stack).next_id() == old(stack).next_id(),
            final(stack).next_epoch() == old(stack).next_epoch(),
            final(stack).depth() == old(stack).depth(),
            !self.valid_for(*old(stack)) ==> *final(stack) == *old(stack),
            self.valid_for(*old(stack)) ==> {
                &&& final(stack).lines().drop_last() == old(stack).lines().drop_last()
                &&& final(stack).cur().epoch == old(stack).cur().epoch
                &&& final(stack).cur().parent == old(stack).cur().parent
                &&& final(stack).cur().parent_properties@ == old(stack).cur().parent_properties@
                &&& final(stack).cur().parent_events@ == old(stack).cur().parent_events@
                &&& final(stack).cur().open_spans@ == old(stack).cur().open_spans@
                &&& records_eq_except(
                    final(stack).cur().records@,
                    old(stack).cur().records@,
                    self.index as int,
                )
                &&& same_but_props(
                    final(stack).cur().records@[self.index as int],
                    old(stack).cur().records@[self.index as int],
                )
                &&& final(stack).cur().records@[self.index as int].properties@ == old(
                    stack,
                ).cur().records@[self.index as int].properties@.push(Property { key, value })
            },
    {
        if !self.active {
            return ;
        }
        let depth: usize = stack.lines.len();
        if depth == 0 {
            return ;
        }
        if stack.lines[depth - 1].epoch != self.epoch {
            return ;
        }
        if self.index >= stack.lines[depth - 1].records.len() {
            return ;
        }
        if stack.lines[depth - 1].records[self.index].ended {
            return ;
        }
        let mut line = stack.lines.pop().unwrap();
        let mut rec = line.records.remove(self.index);
        rec.properties.push(Property { key, value });
        line.records.insert(self.index, rec);
        proof {
            assert(records_eq_except(line.records@, old(stack).cur().records@, self.index as int));
            lemma_line_wf_after_update(old(stack).cur(), line, self.index as int);
        }
        stack.lines.push(line);
        proof {
            lemma_stack_wf_after_cur_replace(*old(stack), *stack);
            assert(stack.lines().drop_last() == old(stack).lines().drop_last());
        }
    }

    /// Appends several properties to this local span. On an inert, stale,
    /// or already-closed handle this is a no-op.
    pub fn with_properties(self, stack: &mut LocalStack, mut properties: Vec<Property>)
        requires
            old(stack).wf(),
        ensures
            final(stack).wf(),
            final(stack).next_id() == old(stack).next_id(),
            final(stack).next_epoch() == old(stack).next_epoch(),
            final(stack).depth() == old(stack).depth(),
            !self.valid_for(*old(stack)) ==> *final(stack) == *old(stack),
            self.valid_for(*old(stack)) ==> {
                &&& final(stack).lines().drop_last() == old(stack).lines().drop_last()
                &&& final(stack).cur().epoch == old(stack).cur().epoch
                &&& final(stack).cur().parent == old(stack).cur().parent
                &&& final(stack).cur().parent_properties@ == old(stack).cur().parent_properties@
                &&& final(stack).cur().parent_events@ == old(stack).cur().parent_events@
                &&& final(stack).cur().open_spans@ == old(stack).cur().open_spans@
                &&& records_eq_except(
                    final(stack).cur().records@,
                    old(stack).cur().records@,
                    self.index as int,
                )
                &&& same_but_props(
                    final(stack).cur().records@[self.index as int],
                    old(stack).cur().records@[self.index as int],
                )
                &&& final(stack).cur().records@[self.index as int].properties@ == old(
                    stack,
                ).cur().records@[self.index as int].properties@ + properties@
            },
    {
        if !self.active {
            return ;
        }
        let depth: usize = stack.lines.len();
        if depth == 0 {
            return ;
        }
        if stack.lines[depth - 1].epoch != self.epoch {
            return ;
        }
        if self.index >= stack.lines[depth - 1].records.len() {
            return ;
        }
        if stack.lines[depth - 1].records[self.index].ended {
            return ;
        }
        let mut line = stack.lines.pop().unwrap();
        let mut rec = line.records.remove(self.index);
        rec.properties.append(&mut properties);
        line.records.insert(self.index, rec);
        proof {
            assert(records_eq_except(line.records@, old(stack).cur().records@, self.index as int));
            lemma_line_wf_after_update(old(stack).cur(), line, self.index as int);
        }
        stack.lines.push(line);
        proof {
            lemma_stack_wf_after_cur_replace(*old(stack), *stack);
            assert(stack.lines().drop_last() == old(stack).lines().drop_last());
        }
    }
}

/// Extending a well-formed line with a fresh record whose id is larger than
/// every recorded id, opening it, keeps the line well-formed.
proof fn lemma_line_wf_after_extend(old_line: SpanLine, new_line: SpanLine, id: u64)
    requires
        old_line.wf(),
        id != NO_PARENT,
        forall|i: int| 0 <= i < old_line.records@.len() ==> old_line.records@[i].span_id < id,
        new_line.records@ == old_line.records@.push(new_line.records@.last()),
        new_line.records@.len() == old_line.records@.len() + 1,
        new_line.records@.last().span_id == id,
        !new_line.records@.last().ended,
        new_line.records@.last().parent_id == NO_PARENT || new_line.records@.last().parent_id < id,
        new_line.open_spans@ == old_line.open_spans@.push((old_line.records@.len()) as usize),
        old_line.records@.len() <= usize::MAX,
    ensures
        new_line.wf(),
{
    let n = old_line.records@.len() as int;
    assert forall|a: int, b: int| 0 <= a < b < new_line.records@.len() implies new_line.records@[a].span_id
        < new_line.records@[b].span_id by {
        if b < n {
            assert(new_line.records@[a] == old_line.records@[a]);
            assert(new_line.records@[b] == old_line.records@[b]);
        } else {
            assert(new_line.records@[a] == old_line.records@[a]);
            assert(old_line.records@[a].span_id < id);
        }
    }
    assert forall|a: int| 0 <= a < new_line.records@.len() implies #[trigger] new_line.records@[a].span_id
        != NO_PARENT by {
        if a < n {
            assert(new_line.records@[a] == old_line.records@[a]);
        }
    }
    assert forall|a: int|
        0 <= a < new_line.records@.len() implies (#[trigger] new_line.records@[a].parent_id
        == NO_PARENT || new_line.records@[a].parent_id < new_line.records@[a].span_id) by {
        if a < n {
            assert(new_line.records@[a] == old_line.records@[a]);
        }
    }
    assert forall|a: int, b: int| 0 <= a < b < new_line.open_spans@.len() implies new_line.open_spans@[a]
        < new_line.open_spans@[b] by {
        if b < old_line.open_spans@.len() {
            assert(new_line.open_spans@[a] == old_line.open_spans@[a]);
            assert(new_line.open_spans@[b] == old_line.open_spans@[b]);
        } else {
            assert(new_line.open_spans@[a] == old_line.open_spans@[a]);
            assert((old_line.open_spans@[a] as int) < n);
        }
    }
    assert forall|a: int| 0 <= a < new_line.open_spans@.len() implies (
    #[trigger] new_line.open_spans@[a] as int) < new_line.records@.len() by {
        if a < old_line.open_spans@.len() {
            assert(new_line.open_spans@[a] == old_line.open_spans@[a]);
        }
    }
    assert forall|a: int|
        0 <= a < new_line.open_spans@.len() implies !new_line.records@[#[trigger] new_line.open_spans@[a] as int].ended by {
        if a < old_line.open_spans@.len() {
            assert(new_line.open_spans@[a] == old_line.open_spans@[a]);
            assert((new_line.open_spans@[a] as int) < n);
            assert(new_line.records@[new_line.open_spans@[a] as int] == old_line.records@[new_line.open_spans@[a] as int]);
        }
    }
}

/// Closing one record of a well-formed line and truncating the open stack
/// down past it keeps the line well-formed.
proof fn lemma_line_wf_after_exit(old_line: SpanLine, new_line: SpanLine, i: int, opens0: Seq<usize>)
    requires
        old_line.wf(),
        opens0 == old_line.open_spans@,
        records_eq_except(new_line.records@, old_line.records@, i),
        0 <= i < old_line.records@.len(),
        new_line.records@[i] == (LocalRecord { end_ns: new_line.records@[i].end_ns, ended: true, ..old_line.records@[i] }),
        // the new open stack is a prefix of the old one, with every entry
        // strictly below the closed record's index
        new_line.open_spans@.len() <= opens0.len(),
        new_line.open_spans@ == opens0.take(new_line.open_spans@.len() as int),
        forall|a: int|
            0 <= a < new_line.open_spans@.len() ==> (#[trigger] opens0[a] as int) < i,
    ensures
        new_line.wf(),
{
    assert forall|a: int, b: int| 0 <= a < b < new_line.records@.len() implies new_line.records@[a].span_id
        < new_line.records@[b].span_id by {
        assert(new_line.records@[a].span_id == old_line.records@[a].span_id);
        assert(new_line.records@[b].span_id == old_line.records@[b].span_id);
    }
    assert forall|a: int| 0 <= a < new_line.records@.len() implies #[trigger] new_line.records@[a].span_id
        != NO_PARENT by {
        assert(new_line.records@[a].span_id == old_line.records@[a].span_id);
    }
    assert forall|a: int|
        0 <= a < new_line.records@.len() implies (#[trigger] new_line.records@[a].parent_id
        == NO_PARENT || new_line.records@[a].parent_id < new_line.records@[a].span_id) by {
        assert(new_line.records@[a].parent_id == old_line.records@[a].parent_id);
        assert(new_line.records@[a].span_id == old_line.records@[a].span_id);
    }
    assert forall|a: int, b: int| 0 <= a < b < new_line.open_spans@.len() implies new_line.open_spans@[a]
        < new_line.open_spans@[b] by {
        assert(new_line.open_spans@[a] == opens0[a]);
        assert(new_line.open_spans@[b] == opens0[b]);
    }
    assert forall|a: int| 0 <= a < new_line.open_spans@.len() implies (
    #[trigger] new_line.open_spans@[a] as int) < new_line.records@.len() by {
        assert(new_line.open_spans@[a] == opens0[a]);
    }
    assert forall|a: int|
        0 <= a < new_line.open_spans@.len() implies !new_line.records@[#[trigger] new_line.open_spans@[a] as int].ended by {
        assert(new_line.open_spans@[a] == opens0[a]);
        assert((opens0[a] as int) < i);
        assert(new_line.records@[opens0[a] as int] == old_line.records@[opens0[a] as int]);
        assert(!old_line.records@[old_line.open_spans@[a] as int].ended);
    }
}

/// Record `i` has record `j` as a parent: `i`'s parent link is a real one
/// and names `j`'s span id.
pub open spec fn links_to(s: Seq<LocalRecord>, i: int, j: int) -> bool {
    &&& 0 <= i < s.len()
    &&& 0 <= j < s.len()
    &&& s[i].parent_id != NO_PARENT
    &&& s[i].parent_id == s[j].span_id
}

/// `p` is a chain of parent links through the batch `s`: each entry's
/// record has the next entry's record as a parent.
pub open spec fn ancestor_path(s: Seq<LocalRecord>, p: Seq<int>) -> bool {
    forall|k: int| 0 <= k < p.len() - 1 ==> links_to(s, #[trigger] p[k], p[k + 1])
}

/// Along any chain of parent links inside a well-formed batch, span ids
/// strictly decrease: a parent was always recorded before its child.
pub proof fn lemma_path_decreases(s: Seq<LocalRecord>, p: Seq<int>)
    requires
        batch_wf(s),
        ancestor_path(s, p),
        p.len() >= 2,
    ensures
        s[p.last()].span_id < s[p[0]].span_id,
    decreases p.len(),
{
    assert(links_to(s, p[0], p[1]));
    assert(s[p[1]].span_id < s[p[0]].span_id);
    if p.len() > 2 {
        let q = p.drop_first();
        assert forall|k: int| 0 <= k < q.len() - 1 implies links_to(s, #[trigger] q[k], q[k + 1]) by {
            assert(links_to(s, p[k + 1], p[k + 2]));
        }
        lemma_path_decreases(s, q);
        assert(q.last() == p.last());
    }
}

/// No span in a well-formed batch is its own ancestor: a chain of parent
/// links never returns to its starting record, so the parent relation of a
/// collected batch has no cycles.
pub proof fn lemma_batch_acyclic(s: Seq<LocalRecord>, p: Seq<int>)
    requires
        batch_wf(s),
        ancestor_path(s, p),
        p.len() >= 2,
    ensures
        p[0] != p.last(),
{
    lemma_path_decreases(s, p);
}

} // verus!
