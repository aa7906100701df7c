//! The process-wide span aggregator.
//!
//! A [`GlobalCollector`] receives finished span records, buffers them per
//! trace until the trace's root span either commits or cancels the trace,
//! bounds the records kept per trace, and hands committed records to the
//! installed reporter in batches — when the report interval has elapsed,
//! when enough records are ready, or on an explicit flush, whichever comes
//! first.
//!
//! An embedding serializes access to the one collector value (it is the
//! process's only shared mutable tracing state) and calls [`GlobalCollector::tick`]
//! periodically with the current time.

use vstd::prelude::*;
use std::io::Write;

use crate::record::{mtr_coll_cfg, EventRecord, Property, SpanRecord};

verus! {

/// The lifecycle of one trace inside the global collector.
#[derive(Debug, Clone, Copy, PartialEq, Eq, Structural)]
pub enum TraceState {
    /// Records are buffered; the trace's root span has not yet finished.
    Pending,
    /// The root span finished and was submitted; the trace's records are
    /// delivered to the reporter.
    Committed,
    /// The trace was cancelled at its root; its records are discarded and
    /// no record of it is ever delivered.
    Dropped,
}

/// Annotations addressed to a span's record rather than recorded on a
/// handle: the window of a local-parent guard sends them here when it had
/// no open local span to carry them. They merge into the record with the
/// matching span id when the trace commits.
#[derive(Debug)]
pub struct Amend {
    pub span_id: u64,
    pub properties: Vec<Property>,
    pub events: Vec<EventRecord>,
}

/// The collector's bookkeeping for one trace.
#[derive(Debug)]
pub struct TraceEntry {
    pub trace_id: u128,
    pub state: TraceState,
    /// Records accepted for this trace so far, counted against the soft
    /// per-trace limit.
    pub count: usize,
    /// Buffered records of a trace that is still pending.
    pub buffered: Vec<SpanRecord>,
    /// Annotations waiting to merge into this trace's records at commit.
    pub amends: Vec<Amend>,
}

/// The first entry for the given trace, if there is one. Entries are kept
/// unique per trace id, so this is the entry for the trace.
pub open spec fn find_trace(entries: Seq<TraceEntry>, t: u128) -> Option<TraceEntry>
    decreases entries.len(),
{
    if entries.len() == 0 {
        None
    } else if entries[0].trace_id == t {
        Some(entries[0])
    } else {
        find_trace(entries.drop_first(), t)
    }
}

/// No two entries are for the same trace.
pub open spec fn entries_unique(entries: Seq<TraceEntry>) -> bool {
    forall|i: int, j: int|
        0 <= i < j < entries.len() ==> entries[i].trace_id != entries[j].trace_id
}

/// With no entry of the prefix matching, the search outcome is decided by
/// the rest.
proof fn lemma_find_skip(s: Seq<TraceEntry>, t: u128, k: int)
    requires
        0 <= k <= s.len(),
        forall|j: int| 0 <= j < k ==> s[j].trace_id != t,
    ensures
        find_trace(s, t) == find_trace(s.skip(k), t),
    decreases k,
{
    if k == 0 {
        assert(s.skip(0) =~= s);
    } else {
        let s1 = s.drop_first();
        assert(s1 =~= s.skip(1));
        assert forall|j: int| 0 <= j < k - 1 implies s1[j].trace_id != t by {
            assert(s1[j] == s[j + 1]);
        }
        lemma_find_skip(s1, t, k - 1);
        assert(s1.skip(k - 1) =~= s.skip(k));
    }
}

/// In a unique entry list, searching for the id of entry `i` finds entry
/// `i`.
proof fn lemma_find_present(s: Seq<TraceEntry>, i: int)
    requires
        entries_unique(s),
        0 <= i < s.len(),
    ensures
        find_trace(s, s[i].trace_id) == Some(s[i]),
    decreases i,
{
    if i == 0 {
    } else {
        let s1 = s.drop_first();
        assert(entries_unique(s1)) by {
            assert forall|a: int, b: int| 0 <= a < b < s1.len() implies s1[a].trace_id
                != s1[b].trace_id by {
                assert(s1[a] == s[a + 1]);
                assert(s1[b] == s[b + 1]);
            }
        }
        assert(s1[i - 1] == s[i]);
        lemma_find_present(s1, i - 1);
    }
}

/// Replacing entry `i` by an entry for the same trace changes the search
/// outcome only for that trace.
proof fn lemma_find_eq_except(s1: Seq<TraceEntry>, s2: Seq<TraceEntry>, i: int, t2: u128)
    requires
        s1.len() == s2.len(),
        0 <= i < s1.len(),
        forall|j: int| 0 <= j < s1.len() && j != i ==> s2[j] == s1[j],
        s2[i].trace_id == s1[i].trace_id,
        t2 != s1[i].trace_id,
    ensures
        find_trace(s2, t2) == find_trace(s1, t2),
    decreases s1.len(),
{
    if s1.len() > 0 {
        if i == 0 {
            let r1 = s1.drop_first();
            let r2 = s2.drop_first();
            assert(r1 =~= r2);
        } else {
            assert(s2[0] == s1[0]);
            if s1[0].trace_id != t2 {
                let r1 = s1.drop_first();
                let r2 = s2.drop_first();
                assert forall|j: int| 0 <= j < r1.len() && j != i - 1 implies r2[j] == r1[j] by {
                    assert(r1[j] == s1[j + 1]);
                    assert(r2[j] == s2[j + 1]);
                }
                assert(r1[i - 1] == s1[i]);
                assert(r2[i - 1] == s2[i]);
                lemma_find_eq_except(r1, r2, i - 1, t2);
            }
        }
    }
}

/// Appending an entry for a new trace changes the search outcome only for
/// that trace.
proof fn lemma_find_push(s: Seq<TraceEntry>, e: TraceEntry, t2: u128)
    requires
        t2 != e.trace_id,
    ensures
        find_trace(s.push(e), t2) == find_trace(s, t2),
    decreases s.len(),
{
    if s.len() == 0 {
        assert(s.push(e)[0] == e);
        assert(s.push(e).drop_first() =~= Seq::<TraceEntry>::empty());
        assert(find_trace(s.push(e), t2) == find_trace(s.push(e).drop_first(), t2));
        assert(find_trace(s.push(e).drop_first(), t2) is None);
    } else {
        assert(s.push(e)[0] == s[0]);
        let s1 = s.drop_first();
        assert(s.push(e).drop_first() =~= s1.push(e));
        lemma_find_push(s1, e, t2);
        if s[0].trace_id != t2 {
            assert(find_trace(s.push(e), t2) == find_trace(s1.push(e), t2));
            assert(find_trace(s, t2) == find_trace(s1, t2));
        }
    }
}

/// Searching the appended list for the new trace finds the new entry, given
/// no earlier entry carries its id.
proof fn lemma_find_push_new(s: Seq<TraceEntry>, e: TraceEntry)
    requires
        find_trace(s, e.trace_id) is None,
    ensures
        find_trace(s.push(e), e.trace_id) == Some(e),
    decreases s.len(),
{
    if s.len() == 0 {
        assert(s.push(e)[0] == e);
    } else {
        assert(s[0].trace_id != e.trace_id) by {
            if s[0].trace_id == e.trace_id {
                assert(find_trace(s, e.trace_id) is Some);
            }
        }
        let s1 = s.drop_first();
        assert(s.push(e).drop_first() =~= s1.push(e));
        lemma_find_push_new(s1, e);
    }
}

/// A missing entry stays missing on every prefix element.
proof fn lemma_find_none_all(s: Seq<TraceEntry>, t: u128)
    requires
        find_trace(s, t) is None,
    ensures
        forall|j: int| 0 <= j < s.len() ==> (#[trigger] s[j]).trace_id != t,
    decreases s.len(),
{
    if s.len() > 0 {
        lemma_find_none_all(s.drop_first(), t);
        assert forall|j: int| 0 <= j < s.len() implies (#[trigger] s[j]).trace_id != t by {
            if j > 0 {
                assert(s.drop_first()[j - 1] == s[j]);
            }
        }
    }
}

/// An entry that is already found keeps its search outcome when a new entry
/// is appended.
proof fn lemma_find_push_found(s: Seq<TraceEntry>, e: TraceEntry, t2: u128)
    requires
        find_trace(s, t2) is Some,
    ensures
        find_trace(s.push(e), t2) == find_trace(s, t2),
    decreases s.len(),
{
    assert(s.len() > 0);
    assert(s.push(e)[0] == s[0]);
    if s[0].trace_id == t2 {
    } else {
        let s1 = s.drop_first();
        assert(s.push(e).drop_first() =~= s1.push(e));
        lemma_find_push_found(s1, e, t2);
    }
}

/// Replacing entry `i` by one for the same trace that keeps (or gains)
/// committed status preserves `committed_only` for any record list.
proof fn lemma_committed_only_update(
    s1: Seq<TraceEntry>,
    s2: Seq<TraceEntry>,
    i: int,
    recs: Seq<SpanRecord>,
)
    requires
        entries_unique(s1),
        committed_only(s1, recs),
        s1.len() == s2.len(),
        0 <= i < s1.len(),
        forall|j: int| 0 <= j < s1.len() && j != i ==> s2[j] == s1[j],
        s2[i].trace_id == s1[i].trace_id,
        s1[i].state is Committed ==> s2[i].state is Committed,
    ensures
        committed_only(s2, recs),
{
    assert(entries_unique(s2));
    assert forall|k: int| 0 <= k < recs.len() implies (match find_trace(
        s2,
        (#[trigger] recs[k]).trace_id,
    ) {
        Some(e) => e.state is Committed,
        None => false,
    }) by {
        let t2 = recs[k].trace_id;
        if t2 == s1[i].trace_id {
            lemma_find_present(s1, i);
            lemma_find_present(s2, i);
        } else {
            lemma_find_eq_except(s1, s2, i, t2);
        }
    }
}

/// Appending an entry preserves `committed_only` for any record list whose
/// traces are already present.
proof fn lemma_committed_only_push(s: Seq<TraceEntry>, e: TraceEntry, recs: Seq<SpanRecord>)
    requires
        committed_only(s, recs),
    ensures
        committed_only(s.push(e), recs),
{
    assert forall|k: int| 0 <= k < recs.len() implies (match find_trace(
        s.push(e),
        (#[trigger] recs[k]).trace_id,
    ) {
        Some(en) => en.state is Committed,
        None => false,
    }) by {
        lemma_find_push_found(s, e, recs[k].trace_id);
    }
}

/// The properties that pending amendments contribute to the record with
/// the given span id, in amendment order.
pub open spec fn amend_props(amends: Seq<Amend>, span_id: u64) -> Seq<Property>
    decreases amends.len(),
{
    if amends.len() == 0 {
        Seq::empty()
    } else {
        let rest = amend_props(amends.drop_last(), span_id);
        if amends.last().span_id == span_id {
            rest + amends.last().properties@
        } else {
            rest
        }
    }
}

/// The events that pending amendments contribute to the record with the
/// given span id, in amendment order.
pub open spec fn amend_events(amends: Seq<Amend>, span_id: u64) -> Seq<EventRecord>
    decreases amends.len(),
{
    if amends.len() == 0 {
        Seq::empty()
    } else {
        let rest = amend_events(amends.drop_last(), span_id);
        if amends.last().span_id == span_id {
            rest + amends.last().events@
        } else {
            rest
        }
    }
}

/// With no amendment addressed to the id, nothing is contributed.
proof fn lemma_amend_none(amends: Seq<Amend>, span_id: u64)
    requires
        forall|j: int| 0 <= j < amends.len() ==> (#[trigger] amends[j]).span_id != span_id,
    ensures
        amend_props(amends, span_id) == Seq::<Property>::empty(),
        amend_events(amends, span_id) == Seq::<EventRecord>::empty(),
    decreases amends.len(),
{
    if amends.len() > 0 {
        assert forall|j: int| 0 <= j < amends.drop_last().len() implies (
        #[trigger] amends.drop_last()[j]).span_id != span_id by {
            assert(amends.drop_last()[j] == amends[j]);
        }
        lemma_amend_none(amends.drop_last(), span_id);
    }
}

/// Two records describe the same span: everything but the annotation lists
/// agrees.
pub open spec fn same_record_identity(a: SpanRecord, b: SpanRecord) -> bool {
    &&& a.trace_id == b.trace_id
    &&& a.span_id == b.span_id
    &&& a.parent_ids@ == b.parent_ids@
    &&& a.name == b.name
    &&& a.begin_ns == b.begin_ns
    &&& a.duration_ns == b.duration_ns
}

/// `a` carries `b`'s annotations as a prefix: nothing recorded on `b` was
/// lost, at most amendments were appended.
pub open spec fn annotations_extend(a: SpanRecord, b: SpanRecord) -> bool {
    &&& b.properties@.len() <= a.properties@.len()
    &&& a.properties@.take(b.properties@.len() as int) == b.properties@
    &&& b.events@.len() <= a.events@.len()
    &&& a.events@.take(b.events@.len() as int) == b.events@
}

/// `m` is `base` with exactly the amendments addressed to its span id
/// appended, in order.
pub open spec fn merged_ok(m: SpanRecord, base: SpanRecord, amends: Seq<Amend>) -> bool {
    &&& same_record_identity(m, base)
    &&& m.properties@ == base.properties@ + amend_props(amends, base.span_id)
    &&& m.events@ == base.events@ + amend_events(amends, base.span_id)
}

/// The first record carrying the given span id, if any.
#[verifier::loop_isolation(false)]
fn find_record(recs: &Vec<SpanRecord>, span_id: u64) -> (r: Option<usize>)
    ensures
        match r {
            Some(j) => (j as int) < recs@.len() && recs@[j as int].span_id == span_id && (forall|
                p: int,
            | 0 <= p < j ==> (#[trigger] recs@[p]).span_id != span_id),
            None => forall|p: int| 0 <= p < recs@.len() ==> (#[trigger] recs@[p]).span_id != span_id,
        },
{
    let mut j: usize = 0;
    while j < recs.len()
        invariant
            j <= recs@.len(),
            forall|p: int| 0 <= p < j ==> (#[trigger] recs@[p]).span_id != span_id,
        decreases recs@.len() - j,
    {
        if recs[j].span_id == span_id {
            return Some(j);
        }
        j = j + 1;
    }
    None
}

/// Applies a trace's pending annotations to its records: each amendment's
/// properties and events are appended, in amendment order, to the first
/// record carrying the amendment's span id; an amendment matching no record
/// is dropped (best-effort, as with every late annotation).
#[verifier::loop_isolation(false)]
fn apply_amends(recs: Vec<SpanRecord>, amends: Vec<Amend>) -> (r: Vec<SpanRecord>)
    ensures
        r@.len() == recs@.len(),
        forall|i: int|
            0 <= i < recs@.len() ==> same_record_identity(#[trigger] r@[i], recs@[i])
                && annotations_extend(r@[i], recs@[i]),
        amends@.len() == 0 ==> r@ == recs@,
        forall|i: int|
            (0 <= i < recs@.len() && (forall|j: int|
                0 <= j < i ==> (#[trigger] recs@[j]).span_id != recs@[i].span_id)) ==> merged_ok(
                #[trigger] r@[i],
                recs@[i],
                amends@,
            ),
{
    let ghost recs0 = recs@;
    let ghost am0 = amends@;
    let mut recs = recs;
    let mut amends = amends;
    let ghost mut k: int = 0;
    proof {
        assert forall|i: int| 0 <= i < recs0.len() implies same_record_identity(
            #[trigger] recs@[i],
            recs0[i],
        ) && annotations_extend(recs@[i], recs0[i]) by {
            assert(recs0[i].properties@.take(recs0[i].properties@.len() as int)
                =~= recs0[i].properties@);
            assert(recs0[i].events@.take(recs0[i].events@.len() as int) =~= recs0[i].events@);
        }
    }
    while amends.len() > 0
        invariant
            0 <= k <= am0.len(),
            amends@ == am0.skip(k),
            recs@.len() == recs0.len(),
            forall|i: int|
                0 <= i < recs0.len() ==> same_record_identity(#[trigger] recs@[i], recs0[i])
                    && annotations_extend(recs@[i], recs0[i]),
            k == 0 ==> recs@ == recs0,
            forall|i: int|
                (0 <= i < recs0.len() && (forall|j: int|
                    0 <= j < i ==> (#[trigger] recs0[j]).span_id != recs0[i].span_id)) ==> (
                #[trigger] recs@[i]).properties@ == recs0[i].properties@ + amend_props(
                    am0.take(k),
                    recs0[i].span_id,
                ) && recs@[i].events@ == recs0[i].events@ + amend_events(
                    am0.take(k),
                    recs0[i].span_id,
                ),
        decreases amends@.len(),
    {
        let ghost pre = recs@;
        let mut a = amends.remove(0);
        proof {
            assert(a == am0[k]);
            assert(amends@ =~= am0.skip(k + 1));
            assert(am0.take(k + 1).drop_last() =~= am0.take(k));
            assert(am0.take(k + 1).last() == am0[k]);
        }
        match find_record(&recs, a.span_id) {
            None => {
                proof {
                    k = k + 1;
                    assert forall|i: int|
                        (0 <= i < recs0.len() && (forall|j: int|
                            0 <= j < i ==> (#[trigger] recs0[j]).span_id != recs0[i].span_id)) implies (
                    #[trigger] recs@[i]).properties@ == recs0[i].properties@ + amend_props(
                        am0.take(k),
                        recs0[i].span_id,
                    ) && recs@[i].events@ == recs0[i].events@ + amend_events(
                        am0.take(k),
                        recs0[i].span_id,
                    ) by {
                        assert(recs@[i].span_id == recs0[i].span_id);
                        assert(recs0[i].span_id != a.span_id);
                    }
                }
            },
            Some(j) => {
                let ghost bp = recs@[j as int].properties@;
                let ghost be = recs@[j as int].events@;
                let mut rec = recs.remove(j);
                rec.properties.append(&mut a.properties);
                rec.events.append(&mut a.events);
                recs.insert(j, rec);
                proof {
                    assert(recs@ =~= pre.update(
                        j as int,
                        SpanRecord {
                            properties: recs@[j as int].properties,
                            events: recs@[j as int].events,
                            ..pre[j as int]
                        },
                    ));
                    k = k + 1;
                    assert forall|i: int|
                        0 <= i < recs0.len() implies same_record_identity(
                        #[trigger] recs@[i],
                        recs0[i],
                    ) && annotations_extend(recs@[i], recs0[i]) by {
                        if i != j {
                            assert(recs@[i] == pre[i]);
                        } else {
                            assert(recs@[i].properties@.take(recs0[i].properties@.len() as int)
                                =~= recs0[i].properties@);
                            assert(recs@[i].events@.take(recs0[i].events@.len() as int)
                                =~= recs0[i].events@);
                        }
                    }
                    assert forall|i: int|
                        (0 <= i < recs0.len() && (forall|jj: int|
                            0 <= jj < i ==> (#[trigger] recs0[jj]).span_id != recs0[i].span_id)) implies (
                    #[trigger] recs@[i]).properties@ == recs0[i].properties@ + amend_props(
                        am0.take(k),
                        recs0[i].span_id,
                    ) && recs@[i].events@ == recs0[i].events@ + amend_events(
                        am0.take(k),
                        recs0[i].span_id,
                    ) by {
                        if i != j {
                            assert(recs@[i] == pre[i]);
                            assert(recs0[i].span_id != a.span_id) by {
                                if recs0[i].span_id == a.span_id {
                                    if i < j {
                                        assert(pre[i].span_id == recs0[i].span_id);
                                        assert(pre[i].span_id != a.span_id);
                                    } else {
                                        assert(recs0[j as int].span_id == pre[j as int].span_id);
                                        assert(pre[j as int].span_id == a.span_id);
                                    }
                                }
                            }
                        } else {
                            assert(pre[j as int].span_id == recs0[i].span_id);
                            assert(recs0[i].span_id == a.span_id);
                            assert(recs@[i].properties@ =~= recs0[i].properties@ + amend_props(
                                am0.take(k),
                                recs0[i].span_id,
                            ));
                            assert(recs@[i].events@ =~= recs0[i].events@ + amend_events(
                                am0.take(k),
                                recs0[i].span_id,
                            ));
                        }
                    }
                }
            },
        }
    }
    proof {
        assert(am0.take(am0.len() as int) =~= am0);
        if am0.len() == 0 {
            assert(recs@ == recs0);
        }
    }
    recs
}

/// The per-entry invariants survive replacing entry `i` by one that obeys
/// them.
proof fn lemma_entry_invs_after_update(s1: Seq<TraceEntry>, s2: Seq<TraceEntry>, i: int)
    requires
        entry_invs(s1),
        s1.len() == s2.len(),
        0 <= i < s1.len(),
        forall|j: int| 0 <= j < s1.len() && j != i ==> s2[j] == s1[j],
        s2[i].state is Pending || s2[i].buffered@.len() == 0,
        s2[i].state is Pending || s2[i].amends@.len() == 0,
        forall|n: int|
            0 <= n < s2[i].buffered@.len() ==> s2[i].buffered@[n].trace_id == s2[i].trace_id,
    ensures
        entry_invs(s2),
{
    assert forall|k: int| 0 <= k < s2.len() implies ((#[trigger] s2[k]).state is Pending
        || s2[k].buffered@.len() == 0) by {
        if k != i {
            assert(s2[k] == s1[k]);
        }
    }
    assert forall|k: int, n: int|
        0 <= k < s2.len() && 0 <= n < s2[k].buffered@.len() implies s2[k].buffered@[n].trace_id
        == s2[k].trace_id by {
        if k != i {
            assert(s2[k] == s1[k]);
        }
    }
    assert forall|k: int| 0 <= k < s2.len() implies ((#[trigger] s2[k]).state is Pending
        || s2[k].amends@.len() == 0) by {
        if k != i {
            assert(s2[k] == s1[k]);
        }
    }
}

/// The per-entry invariants survive appending an entry that obeys them.
proof fn lemma_entry_invs_after_push(s1: Seq<TraceEntry>, s2: Seq<TraceEntry>)
    requires
        entry_invs(s1),
        s2.len() == s1.len() + 1,
        forall|j: int| 0 <= j < s1.len() ==> s2[j] == s1[j],
        s2.last().state is Pending || s2.last().buffered@.len() == 0,
        s2.last().state is Pending || s2.last().amends@.len() == 0,
        forall|n: int|
            0 <= n < s2.last().buffered@.len() ==> s2.last().buffered@[n].trace_id
                == s2.last().trace_id,
    ensures
        entry_invs(s2),
{
    assert forall|k: int| 0 <= k < s2.len() implies ((#[trigger] s2[k]).state is Pending
        || s2[k].buffered@.len() == 0) by {
        if k < s1.len() {
            assert(s2[k] == s1[k]);
        } else {
            assert(s2[k] == s2.last());
        }
    }
    assert forall|k: int, n: int|
        0 <= k < s2.len() && 0 <= n < s2[k].buffered@.len() implies s2[k].buffered@[n].trace_id
        == s2[k].trace_id by {
        if k < s1.len() {
            assert(s2[k] == s1[k]);
        } else {
            assert(s2[k] == s2.last());
        }
    }
    assert forall|k: int| 0 <= k < s2.len() implies ((#[trigger] s2[k]).state is Pending
        || s2[k].amends@.len() == 0) by {
        if k < s1.len() {
            assert(s2[k] == s1[k]);
        } else {
            assert(s2[k] == s2.last());
        }
    }
}

/// The index of the entry for the given trace, if there is one.
#[verifier::loop_isolation(false)]
fn find_index(traces: &Vec<TraceEntry>, t: u128) -> (r: Option<usize>)
    ensures
        match r {
            Some(i) => (i as int) < traces@.len() && traces@[i as int].trace_id == t && find_trace(
                traces@,
                t,
            ) == Some(traces@[i as int]),
            None => find_trace(traces@, t) is None,
        },
{
    let mut i: usize = 0;
    while i < traces.len()
        invariant
            i <= traces@.len(),
            forall|j: int| 0 <= j < i ==> (#[trigger] traces@[j]).trace_id != t,
        decreases traces@.len() - i,
    {
        if traces[i].trace_id == t {
            proof {
                lemma_find_skip(traces@, t, i as int);
                assert(traces@.skip(i as int)[0] == traces@[i as int]);
            }
            return Some(i);
        }
        i = i + 1;
    }
    proof {
        lemma_find_skip(traces@, t, traces@.len() as int);
        assert(traces@.skip(traces@.len() as int) =~= Seq::<TraceEntry>::empty());
    }
    None
}

/// The debugging reporter: writes one human-readable line per record to
/// standard output, synchronously; delivery cannot fail.
#[derive(Debug)]
pub struct mtr_cons_rptr {}

/// Relies on `std::io::Stdout::write_fmt` (through `writeln!`): writes one
/// line describing the record to standard output.
#[verifier::external_body]
fn console_write_record(rec: &SpanRecord) {
    let _ = writeln!(
        std::io::stdout(),
        "{:032x} {:016x} parents {:?} {:?} begin {} ns, {} ns",
        rec.trace_id,
        rec.span_id,
        rec.parent_ids,
        rec.name,
        rec.begin_ns,
        rec.duration_ns,
    );
}

/// A reporter that keeps every delivered batch in memory, for embeddings
/// that forward batches themselves and for tests.
#[derive(Debug)]
pub struct MemoryReporter {
    pub batches: Vec<Vec<SpanRecord>>,
}

/// The delivery sink that finished records are handed to in batches.
#[derive(Debug)]
pub enum Reporter {
    /// Writes one line per record to standard output.
    Console(mtr_cons_rptr),
    /// Appends each batch to an in-memory list.
    Memory(MemoryReporter),
}

/// The contents of a list of delivered batches.
pub open spec fn batch_views(bs: Seq<Vec<SpanRecord>>) -> Seq<Seq<SpanRecord>> {
    bs.map_values(|v: Vec<SpanRecord>| v@)
}

/// Every listed record belongs to a committed trace.
pub open spec fn committed_only(entries: Seq<TraceEntry>, recs: Seq<SpanRecord>) -> bool {
    forall|i: int|
        0 <= i < recs.len() ==> (match find_trace(entries, (#[trigger] recs[i]).trace_id) {
            Some(e) => e.state is Committed,
            None => false,
        })
}

/// Every delivered batch held at least one record.
pub open spec fn all_nonempty(reports: Seq<Seq<SpanRecord>>) -> bool {
    forall|i: int| 0 <= i < reports.len() ==> (#[trigger] reports[i]).len() > 0
}

/// The per-entry invariants: only a pending trace buffers records, and a
/// trace's buffer holds only records of that trace.
pub open spec fn entry_invs(entries: Seq<TraceEntry>) -> bool {
    &&& forall|k: int|
        0 <= k < entries.len() ==> ((#[trigger] entries[k]).state is Pending
            || entries[k].buffered@.len() == 0)
    &&& forall|k: int, n: int|
        0 <= k < entries.len() && 0 <= n < entries[k].buffered@.len()
            ==> entries[k].buffered@[n].trace_id == entries[k].trace_id
    &&& forall|k: int|
        0 <= k < entries.len() ==> ((#[trigger] entries[k]).state is Pending
            || entries[k].amends@.len() == 0)
}

/// The process-wide span aggregator: per-trace buffers, the committed
/// records awaiting delivery, and the installed reporter.
pub struct GlobalCollector {
    reporter: Option<Reporter>,
    config: mtr_coll_cfg,
    traces: Vec<TraceEntry>,
    outbox: Vec<SpanRecord>,
    last_report_ns: u64,
    /// Every record handed to the current reporter, in order.
    handed: Ghost<Seq<SpanRecord>>,
    /// Every batch handed to the current reporter, in order.
    reports: Ghost<Seq<Seq<SpanRecord>>>,
}

impl GlobalCollector {
    pub closed spec fn traces(&self) -> Seq<TraceEntry> {
        self.traces@
    }

    pub closed spec fn outbox(&self) -> Seq<SpanRecord> {
        self.outbox@
    }

    pub closed spec fn handed(&self) -> Seq<SpanRecord> {
        self.handed@
    }

    pub closed spec fn reports(&self) -> Seq<Seq<SpanRecord>> {
        self.reports@
    }

    pub closed spec fn config(&self) -> mtr_coll_cfg {
        self.config
    }

    pub closed spec fn last_report_ns(&self) -> u64 {
        self.last_report_ns
    }

    pub closed spec fn has_reporter(&self) -> bool {
        self.reporter is Some
    }

    pub closed spec fn is_memory(&self) -> bool {
        match self.reporter {
            Some(Reporter::Memory(_)) => true,
            _ => false,
        }
    }

    /// Every record that reached the collector's committed output: first
    /// what was already handed to the reporter, then what still awaits
    /// delivery. Delivery reorders nothing and loses nothing, so every
    /// accepting operation extends this sequence.
    pub open spec fn retained(&self) -> Seq<SpanRecord> {
        self.handed() + self.outbox()
    }

    /// The lifecycle state of the given trace, if the collector has heard
    /// of it.
    pub open spec fn trace_state(&self, t: u128) -> Option<TraceState> {
        match find_trace(self.traces(), t) {
            Some(e) => Some(e.state),
            None => None,
        }
    }

    /// The records buffered for the given trace while it is pending.
    pub open spec fn trace_buffered(&self, t: u128) -> Seq<SpanRecord> {
        match find_trace(self.traces(), t) {
            Some(e) => e.buffered@,
            None => Seq::empty(),
        }
    }

    /// The annotations waiting to merge into the given trace's records.
    pub open spec fn trace_amends(&self, t: u128) -> Seq<Amend> {
        match find_trace(self.traces(), t) {
            Some(e) => e.amends@,
            None => Seq::empty(),
        }
    }

    /// The soft per-trace limit admits one more non-root record for the
    /// given trace.
    pub open spec fn accepts_more(&self, t: u128) -> bool {
        match self.config().max_spans_per_trace {
            None => true,
            Some(m) => (match find_trace(self.traces(), t) {
                Some(e) => (e.count as int) < m as int,
                None => 0 < m as int,
            }),
        }
    }

    pub closed spec fn reporter_ok(&self) -> bool {
        match self.reporter {
            Some(Reporter::Memory(m)) => batch_views(m.batches@) == self.reports@,
            _ => true,
        }
    }

    /// The structural invariant, except for the size-trigger bound on the
    /// outbox (which is momentarily exceeded while a delivery is cut into
    /// batches).
    pub open spec fn wf0(&self) -> bool {
        &&& entries_unique(self.traces())
        &&& entry_invs(self.traces())
        &&& committed_only(self.traces(), self.outbox())
        &&& committed_only(self.traces(), self.handed())
        &&& self.reporter_ok()
        &&& all_nonempty(self.reports())
        &&& self.handed() == self.reports().flatten()
    }

    /// With a reporter installed and a size trigger configured, the records
    /// awaiting delivery always number less than the trigger: reaching it
    /// starts a report at once.
    pub open spec fn outbox_bounded(&self) -> bool {
        match self.config().batch_report_max_spans {
            Some(m) => self.has_reporter() && m > 0 ==> self.outbox().len() < m as int,
            None => true,
        }
    }

    pub open spec fn wf(&self) -> bool {
        self.wf0() && self.outbox_bounded()
    }

    /// A collector with no reporter installed: records are buffered, but
    /// nothing is delivered until a reporter is set.
    pub fn new() -> (r: Self)
        ensures
            r.wf(),
            !r.has_reporter(),
            r.traces().len() == 0,
            r.outbox().len() == 0,
            r.handed().len() == 0,
            r.reports().len() == 0,
            r.last_report_ns() == 0,
            r.config().max_spans_per_trace is None,
            r.config().batch_report_max_spans is None,
    {
        let r = GlobalCollector {
            reporter: None,
            config: mtr_coll_cfg::new(),
            traces: Vec::new(),
            outbox: Vec::new(),
            last_report_ns: 0,
            handed: Ghost(Seq::empty()),
            reports: Ghost(Seq::empty()),
        };
        proof {
            assert(r.reports().flatten() =~= Seq::<SpanRecord>::empty());
        }
        r
    }

    /// The batches delivered so far, when the installed reporter is the
    /// in-memory one.
    pub fn memory_batches(&self) -> (r: Option<&Vec<Vec<SpanRecord>>>)
        requires
            self.wf(),
        ensures
            match r {
                Some(bs) => self.is_memory() && batch_views(bs@) == self.reports(),
                None => !self.is_memory(),
            },
    {
        match &self.reporter {
            Some(Reporter::Memory(m)) => Some(&m.batches),
            _ => None,
        }
    }

    /// Hands one batch to the installed reporter.
    fn deliver(&mut self, batch: Vec<SpanRecord>)
        requires
            old(self).wf0(),
            old(self).has_reporter(),
            batch@.len() > 0,
            committed_only(old(self).traces(), batch@),
        ensures
            final(self).wf0(),
            final(self).has_reporter(),
            final(self).is_memory() == old(self).is_memory(),
            final(self).handed() == old(self).handed() + batch@,
            final(self).reports() == old(self).reports().push(batch@),
            final(self).outbox() == old(self).outbox(),
            final(self).traces() == old(self).traces(),
            final(self).config() == old(self).config(),
            final(self).last_report_ns() == old(self).last_report_ns(),
    {
        let ghost b = batch@;
        self.handed = Ghost(self.handed@ + b);
        self.reports = Ghost(self.reports@.push(b));
        proof {
            old(self).reports().lemma_flatten_push(b);
            let n0 = old(self).handed().len() as int;
            assert forall|i: int| 0 <= i < self.handed@.len() implies (match find_trace(
                self.traces(),
                (#[trigger] self.handed@[i]).trace_id,
            ) {
                Some(e) => e.state is Committed,
                None => false,
            }) by {
                if i < n0 {
                    assert(self.handed@[i] == old(self).handed()[i]);
                } else {
                    assert(self.handed@[i] == b[i - n0]);
                }
            }
            assert forall|i: int| 0 <= i < self.reports@.len() implies (
            #[trigger] self.reports@[i]).len() > 0 by {
                if i < old(self).reports().len() {
                    assert(self.reports@[i] == old(self).reports()[i]);
                }
            }
            assert(all_nonempty(self.reports@));
        }
        match &mut self.reporter {
            Some(Reporter::Console(_)) => {
                let mut i: usize = 0;
                while i < batch.len()
                    invariant
                        i <= batch@.len(),
                    decreases batch@.len() - i,
                {
                    console_write_record(&batch[i]);
                    i = i + 1;
                }
            },
            Some(Reporter::Memory(m)) => {
                m.batches.push(batch);
                proof {
                    assert(batch_views(m.batches@) =~= self.reports@);
                }
            },
            None => {
                proof {
                    assert(false);
                }
            },
        }
    }

    /// Hands everything awaiting delivery to the reporter, cut into batches
    /// of at most the configured size.
    #[verifier::loop_isolation(false)]
    fn drain_outbox(&mut self)
        requires
            old(self).wf0(),
            old(self).has_reporter(),
            old(self).outbox().len() > 0,
        ensures
            final(self).wf0(),
            final(self).has_reporter(),
            final(self).is_memory() == old(self).is_memory(),
            final(self).outbox().len() == 0,
            final(self).handed() == old(self).handed() + old(self).outbox(),
            final(self).traces() == old(self).traces(),
            final(self).config() == old(self).config(),
            final(self).last_report_ns() == old(self).last_report_ns(),
            final(self).reports().len() > old(self).reports().len(),
            final(self).reports().take(old(self).reports().len() as int) == old(self).reports(),
            (match old(self).config().batch_report_max_spans {
                None => true,
                Some(m) => old(self).outbox().len() <= m as int || m == 0,
            }) ==> final(self).reports() == old(self).reports().push(old(self).outbox()),
    {
        let limit: usize = match self.config.batch_report_max_spans {
            None => 0,
            Some(m) => m,
        };
        if limit == 0 || self.outbox.len() <= limit {
            let mut batch: Vec<SpanRecord> = Vec::new();
            core::mem::swap(&mut self.outbox, &mut batch);
            self.deliver(batch);
            proof {
                assert(self.handed() =~= old(self).handed() + old(self).outbox());
            }
            return ;
        }
        proof {
            assert(committed_only(self.traces(), self.outbox()));
        }
        while self.outbox.len() > limit
            invariant
                self.wf0(),
                self.has_reporter(),
                self.is_memory() == old(self).is_memory(),
                limit > 0,
                self.outbox@.len() > 0,
                self.traces() == old(self).traces(),
                self.config() == old(self).config(),
                self.last_report_ns() == old(self).last_report_ns(),
                self.handed() + self.outbox() == old(self).handed() + old(self).outbox(),
                self.reports().len() >= old(self).reports().len(),
                self.reports().take(old(self).reports().len() as int) == old(self).reports(),
            decreases self.outbox@.len(),
        {
            let ghost handed0 = self.handed();
            let ghost outbox0 = self.outbox();
            let batch = take_prefix(&mut self.outbox, limit);
            proof {
                assert forall|i: int| 0 <= i < batch@.len() implies (match find_trace(
                    self.traces(),
                    (#[trigger] batch@[i]).trace_id,
                ) {
                    Some(e) => e.state is Committed,
                    None => false,
                }) by {
                    assert(batch@[i] == outbox0[i]);
                }
                assert forall|i: int| 0 <= i < self.outbox().len() implies (match find_trace(
                    self.traces(),
                    (#[trigger] self.outbox()[i]).trace_id,
                ) {
                    Some(e) => e.state is Committed,
                    None => false,
                }) by {
                    assert(self.outbox()[i] == outbox0[i + limit]);
                }
            }
            self.deliver(batch);
            proof {
                assert(self.handed() + self.outbox() =~= handed0 + outbox0);
                assert(self.handed() + self.outbox() =~= old(self).handed() + old(self).outbox());
            }
        }
        let ghost handed0 = self.handed();
        let ghost outbox0 = self.outbox();
        let mut batch: Vec<SpanRecord> = Vec::new();
        core::mem::swap(&mut self.outbox, &mut batch);
        self.deliver(batch);
        proof {
            assert(self.handed() =~= handed0 + outbox0);
            assert(self.handed() =~= old(self).handed() + old(self).outbox());
        }
    }

    /// Installs a reporter and its configuration; exactly one reporter is
    /// active at a time. Records already committed drain first — under the
    /// old reporter if one was installed, else to the new one — so no
    /// record is lost or delivered twice across the swap. The replaced
    /// reporter is returned to its owner.
    pub fn set_reporter(&mut self, reporter: Reporter, config: mtr_coll_cfg) -> (r: Option<
        Reporter,
    >)
        requires
            old(self).wf(),
            reporter matches Reporter::Memory(m) ==> m.batches@.len() == 0,
        ensures
            final(self).wf(),
            final(self).has_reporter(),
            final(self).config() == config,
            final(self).traces() == old(self).traces(),
            final(self).outbox().len() == 0,
            final(self).last_report_ns() == old(self).last_report_ns(),
            r is Some <==> old(self).has_reporter(),
            old(self).has_reporter() ==> final(self).handed().len() == 0 && final(self).reports().len() == 0,
            !old(self).has_reporter() ==> final(self).handed() == old(self).outbox(),
            old(self).outbox().len() == 0 ==> final(self).handed().len() == 0
                && final(self).reports().len() == 0,
            (old(self).has_reporter() && old(self).outbox().len() == 0) ==> (match r {
                Some(Reporter::Memory(m)) => batch_views(m.batches@) == old(self).reports(),
                _ => true,
            }),
            // nothing queued before the swap is lost or discarded: it all
            // drained to the old reporter, before and as part of the swap
            old(self).has_reporter() ==> (match r {
                Some(Reporter::Memory(m)) => {
                    &&& batch_views(m.batches@).len() >= old(self).reports().len()
                    &&& batch_views(m.batches@).take(old(self).reports().len() as int) == old(
                        self,
                    ).reports()
                    &&& batch_views(m.batches@).flatten() == old(self).handed() + old(self).outbox()
                },
                _ => true,
            }),
    {
        if self.reporter.is_some() {
            self.flush();
        }
        let ghost rep1 = self.reports@;
        let ghost h1 = self.handed@;
        proof {
            if old(self).has_reporter() {
                match &self.reporter {
                    Some(Reporter::Memory(m)) => {
                        assert(batch_views(m.batches@) == rep1);
                        assert(rep1.flatten() == h1);
                    },
                    _ => {},
                }
            }
        }
        let mut slot: Option<Reporter> = Some(reporter);
        core::mem::swap(&mut self.reporter, &mut slot);
        proof {
            if old(self).has_reporter() {
                match &slot {
                    Some(Reporter::Memory(m)) => {
                        assert(batch_views(m.batches@) == rep1);
                        assert(batch_views(m.batches@).flatten() == h1);
                        assert(h1 =~= old(self).handed() + old(self).outbox());
                        assert(rep1.len() >= old(self).reports().len());
                        assert(rep1.take(old(self).reports().len() as int) =~= old(self).reports());
                    },
                    _ => {},
                }
            }
        }
        self.config = config;
        self.handed = Ghost(Seq::empty());
        self.reports = Ghost(Seq::empty());
        proof {
            match &self.reporter {
                Some(Reporter::Memory(m)) => {
                    assert(batch_views(m.batches@) =~= Seq::<Seq<SpanRecord>>::empty());
                },
                _ => {},
            }
            assert(self.reporter_ok());
        }
        if self.outbox.len() > 0 {
            self.drain_outbox();
            proof {
                assert(self.handed() =~= old(self).outbox());
            }
        }
        slot
    }

    /// A time-triggered report: when the report interval has elapsed since
    /// the last time-triggered report and records await delivery, hands all
    /// of them to the reporter. Cheap and safe to call often; an embedding
    /// calls this periodically from its scheduling loop.
    pub fn tick(&mut self, now_ns: u64)
        requires
            old(self).wf(),
        ensures
            final(self).wf(),
            final(self).traces() == old(self).traces(),
            final(self).config() == old(self).config(),
            final(self).has_reporter() == old(self).has_reporter(),
            !old(self).tick_due(now_ns) ==> *final(self) == *old(self),
            old(self).tick_due(now_ns) ==> {
                &&& final(self).outbox().len() == 0
                &&& final(self).handed() == old(self).handed() + old(self).outbox()
                &&& final(self).last_report_ns() == now_ns
                &&& final(self).reports().len() > old(self).reports().len()
                &&& final(self).reports().take(old(self).reports().len() as int) == old(
                    self,
                ).reports()
                &&& (match old(self).config().batch_report_max_spans {
                    None => true,
                    Some(m) => old(self).outbox().len() <= m as int || m == 0,
                }) ==> final(self).reports() == old(self).reports().push(old(self).outbox())
            },
    {
        if !self.reporter.is_some() {
            return ;
        }
        if self.outbox.len() == 0 {
            return ;
        }
        if !(now_ns >= self.last_report_ns && now_ns - self.last_report_ns
            >= self.config.report_interval_ns) {
            return ;
        }
        self.drain_outbox();
        self.last_report_ns = now_ns;
    }

    /// The interval has elapsed and records await delivery, so a call of
    /// `tick` at this time reports.
    pub open spec fn tick_due(&self, now_ns: u64) -> bool {
        &&& self.has_reporter()
        &&& self.outbox().len() > 0
        &&& now_ns as int >= self.last_report_ns() as int + self.config().report_interval_ns as int
    }

    /// An explicit out-of-band report: hands every record committed before
    /// the call to the reporter, regardless of the two triggers. When the
    /// call returns, nothing awaits delivery; records of still-pending
    /// traces are untouched and are delivered by a later cycle once their
    /// trace commits.
    pub fn flush(&mut self)
        requires
            old(self).wf(),
        ensures
            final(self).wf(),
            final(self).traces() == old(self).traces(),
            final(self).config() == old(self).config(),
            final(self).has_reporter() == old(self).has_reporter(),
            final(self).last_report_ns() == old(self).last_report_ns(),
            !old(self).has_reporter() ==> *final(self) == *old(self),
            old(self).has_reporter() ==> {
                &&& final(self).outbox().len() == 0
                &&& final(self).handed() == old(self).handed() + old(self).outbox()
                &&& final(self).reports().len() >= old(self).reports().len()
                &&& final(self).reports().take(old(self).reports().len() as int) == old(
                    self,
                ).reports()
                &&& (old(self).outbox().len() == 0 ==> *final(self) == *old(self))
            },
    {
        if !self.reporter.is_some() {
            return ;
        }
        if self.outbox.len() == 0 {
            proof {
                assert(self.handed() =~= old(self).handed() + old(self).outbox());
            }
            return ;
        }
        self.drain_outbox();
    }

    /// Starts a report at once when the configured batch size is reached:
    /// the size trigger of the "earliest of two triggers" policy.
    fn report_if_full(&mut self)
        requires
            old(self).wf0(),
        ensures
            final(self).wf(),
            final(self).traces() == old(self).traces(),
            final(self).config() == old(self).config(),
            final(self).last_report_ns() == old(self).last_report_ns(),
            final(self).has_reporter() == old(self).has_reporter(),
            final(self).is_memory() == old(self).is_memory(),
            final(self).retained() == old(self).retained(),
            final(self).reports().len() >= old(self).reports().len(),
            final(self).reports().take(old(self).reports().len() as int) == old(self).reports(),
            final(self).handed().take(old(self).handed().len() as int) == old(self).handed(),
            ({
                let fire = old(self).has_reporter() && (match old(
                    self,
                ).config().batch_report_max_spans {
                    Some(m) => m > 0 && old(self).outbox().len() >= m as int,
                    None => false,
                });
                &&& (!fire ==> *final(self) == *old(self))
                &&& (fire ==> final(self).outbox().len() == 0 && final(self).handed() == old(
                    self,
                ).handed() + old(self).outbox() && final(self).reports().len() > old(
                    self,
                ).reports().len())
                &&& ((fire && (match old(self).config().batch_report_max_spans {
                    Some(m) => old(self).outbox().len() <= m as int,
                    None => true,
                })) ==> final(self).reports() == old(self).reports().push(old(self).outbox()))
            }),
    {
        let full: bool = match self.config.batch_report_max_spans {
            None => false,
            Some(m) => m > 0 && self.outbox.len() >= m,
        };
        if full && self.reporter.is_some() {
            self.drain_outbox();
            proof {
                assert(self.retained() =~= old(self).retained());
                assert(self.handed().take(old(self).handed().len() as int) =~= old(self).handed());
            }
        } else {
            proof {
                assert(self.reports().take(old(self).reports().len() as int) =~= old(
                    self,
                ).reports());
                assert(self.handed().take(old(self).handed().len() as int) =~= old(self).handed());
            }
        }
    }

    /// Accepts one finished non-root record. The record is buffered while
    /// its trace is pending, deliverable at once if its trace has already
    /// committed, and discarded — silently, tracing is best-effort — if its
    /// trace was cancelled or its trace's soft record limit is reached.
    pub(crate) fn submit(&mut self, rec: SpanRecord)
        requires
            old(self).wf(),
        ensures
            final(self).wf(),
            final(self).config() == old(self).config(),
            final(self).last_report_ns() == old(self).last_report_ns(),
            final(self).has_reporter() == old(self).has_reporter(),
            final(self).is_memory() == old(self).is_memory(),
            final(self).reports().len() >= old(self).reports().len(),
            final(self).reports().take(old(self).reports().len() as int) == old(self).reports(),
            forall|t2: u128|
                t2 != rec.trace_id ==> final(self).trace_state(t2) == old(self).trace_state(t2)
                    && final(self).trace_buffered(t2) == old(self).trace_buffered(t2)
                    && final(self).trace_amends(t2) == old(self).trace_amends(t2),
            old(self).trace_state(rec.trace_id) == Some(TraceState::Dropped) ==> *final(self)
                == *old(self),
            (old(self).trace_state(rec.trace_id) == Some(TraceState::Pending) && old(
                self,
            ).accepts_more(rec.trace_id)) ==> {
                &&& final(self).trace_state(rec.trace_id) == Some(TraceState::Pending)
                &&& final(self).trace_buffered(rec.trace_id) == old(self).trace_buffered(
                    rec.trace_id,
                ).push(rec)
                &&& final(self).trace_amends(rec.trace_id) == old(self).trace_amends(rec.trace_id)
                &&& final(self).retained() == old(self).retained()
                &&& final(self).handed() == old(self).handed()
                &&& final(self).reports() == old(self).reports()
            },
            (old(self).trace_state(rec.trace_id) == Some(TraceState::Committed) && old(
                self,
            ).accepts_more(rec.trace_id)) ==> {
                &&& final(self).trace_state(rec.trace_id) == Some(TraceState::Committed)
                &&& final(self).trace_amends(rec.trace_id) == old(self).trace_amends(rec.trace_id)
                &&& final(self).retained() == old(self).retained().push(rec)
            },
            (old(self).trace_state(rec.trace_id) is None && old(self).accepts_more(rec.trace_id))
                ==> {
                &&& final(self).trace_state(rec.trace_id) == Some(TraceState::Pending)
                &&& final(self).trace_buffered(rec.trace_id) == seq![rec]
                &&& final(self).trace_amends(rec.trace_id) == old(self).trace_amends(rec.trace_id)
                &&& final(self).retained() == old(self).retained()
                &&& final(self).handed() == old(self).handed()
                &&& final(self).reports() == old(self).reports()
            },
            (old(self).trace_state(rec.trace_id) != Some(TraceState::Dropped) && !old(
                self,
            ).accepts_more(rec.trace_id)) ==> *final(self) == *old(self),
            // nothing is handed to the reporter unless the size trigger
            // fires; a deliverable record that stays below it stays in the
            // outbox, and one that reaches it drains as exactly one report
            final(self).outbox().len() > 0 ==> final(self).handed() == old(self).handed()
                && final(self).reports() == old(self).reports(),
            ({
                let fire = old(self).has_reporter() && (match old(
                    self,
                ).config().batch_report_max_spans {
                    Some(m) => m > 0 && old(self).outbox().len() + 1 >= m as int,
                    None => false,
                });
                let deliverable = old(self).trace_state(rec.trace_id) == Some(
                    TraceState::Committed,
                ) && old(self).accepts_more(rec.trace_id);
                &&& ((deliverable && !fire) ==> final(self).outbox() == old(self).outbox().push(
                    rec,
                ) && final(self).handed() == old(self).handed() && final(self).reports() == old(
                    self,
                ).reports())
                &&& ((deliverable && fire) ==> final(self).outbox().len() == 0
                    && final(self).handed() == old(self).handed() + old(self).outbox().push(rec)
                    && final(self).reports() == old(self).reports().push(
                    old(self).outbox().push(rec),
                ))
                &&& (!deliverable ==> final(self).handed() == old(self).handed()
                    && final(self).reports() == old(self).reports())
            }),
    {
        let t: u128 = rec.trace_id;
        match find_index(&self.traces, t) {
            Some(i) => {
                let st: TraceState = self.traces[i].state;
                match st {
                    TraceState::Dropped => {},
                    TraceState::Pending => {
                        let accept: bool = match self.config.max_spans_per_trace {
                            None => true,
                            Some(m) => self.traces[i].count < m,
                        };
                        if accept {
                            let ghost s1 = self.traces@;
                            let mut e = self.traces.remove(i);
                            let c: usize = e.count;
                            e.count = if c < usize::MAX {
                                c + 1
                            } else {
                                c
                            };
                            e.buffered.push(rec);
                            self.traces.insert(i, e);
                            proof {
                                let s2 = self.traces@;
                                assert(s2 =~= s1.update(i as int, s2[i as int]));
                                assert(entries_unique(s2));
                                assert forall|n: int|
                                    0 <= n < s2[i as int].buffered@.len() implies s2[i as int].buffered@[n].trace_id
                                    == s2[i as int].trace_id by {
                                    if n < s1[i as int].buffered@.len() {
                                        assert(s2[i as int].buffered@[n] == s1[i as int].buffered@[n]);
                                    }
                                }
                                lemma_entry_invs_after_update(s1, s2, i as int);
                                lemma_find_present(s2, i as int);
                                assert forall|t2: u128| t2 != t implies find_trace(s2, t2)
                                    == find_trace(s1, t2) by {
                                    lemma_find_eq_except(s1, s2, i as int, t2);
                                }
                                lemma_committed_only_update(s1, s2, i as int, self.outbox@);
                                lemma_committed_only_update(s1, s2, i as int, self.handed@);
                            }
                        }
                    },
                    TraceState::Committed => {
                        let accept: bool = match self.config.max_spans_per_trace {
                            None => true,
                            Some(m) => self.traces[i].count < m,
                        };
                        if accept {
                            let ghost s1 = self.traces@;
                            let mut e = self.traces.remove(i);
                            let c: usize = e.count;
                            e.count = if c < usize::MAX {
                                c + 1
                            } else {
                                c
                            };
                            self.traces.insert(i, e);
                            self.outbox.push(rec);
                            proof {
                                let s2 = self.traces@;
                                assert(s2 =~= s1.update(i as int, s2[i as int]));
                                assert(entries_unique(s2));
                                assert(s1[i as int].buffered@.len() == 0);
                                assert(s2[i as int].buffered@.len() == 0);
                                lemma_entry_invs_after_update(s1, s2, i as int);
                                lemma_find_present(s2, i as int);
                                assert forall|t2: u128| t2 != t implies find_trace(s2, t2)
                                    == find_trace(s1, t2) by {
                                    lemma_find_eq_except(s1, s2, i as int, t2);
                                }
                                lemma_committed_only_update(
                                    s1,
                                    s2,
                                    i as int,
                                    self.outbox@.drop_last(),
                                );
                                lemma_committed_only_update(s1, s2, i as int, self.handed@);
                                assert forall|k: int| 0 <= k < self.outbox@.len() implies (
                                match find_trace(s2, (#[trigger] self.outbox@[k]).trace_id) {
                                    Some(en) => en.state is Committed,
                                    None => false,
                                }) by {
                                    if k < self.outbox@.len() - 1 {
                                        assert(self.outbox@[k] == self.outbox@.drop_last()[k]);
                                    } else {
                                        assert(self.outbox@[k] == rec);
                                    }
                                }
                                assert(self.retained() =~= old(self).retained().push(rec));
                            }
                            self.report_if_full();
                            proof {
                                assert(self.retained() =~= old(self).retained().push(rec));
                            }
                        }
                    },
                }
            },
            None => {
                let accept: bool = match self.config.max_spans_per_trace {
                    None => true,
                    Some(m) => m > 0,
                };
                if accept {
                    let ghost s1 = self.traces@;
                    let mut buffered: Vec<SpanRecord> = Vec::new();
                    buffered.push(rec);
                    let e = TraceEntry {
                        trace_id: t,
                        state: TraceState::Pending,
                        count: 1,
                        buffered,
                        amends: Vec::new(),
                    };
                    self.traces.push(e);
                    proof {
                        let s2 = self.traces@;
                        lemma_find_none_all(s1, t);
                        assert(entries_unique(s2)) by {
                            assert forall|a: int, b: int|
                                0 <= a < b < s2.len() implies s2[a].trace_id != s2[b].trace_id by {
                                if b < s2.len() - 1 {
                                    assert(s2[a] == s1[a]);
                                    assert(s2[b] == s1[b]);
                                } else {
                                    assert(s2[a] == s1[a]);
                                }
                            }
                        }
                        lemma_find_push_new(s1, s2.last());
                        assert forall|t2: u128| t2 != t implies find_trace(s2, t2) == find_trace(
                            s1,
                            t2,
                        ) by {
                            lemma_find_push(s1, s2.last(), t2);
                        }
                        lemma_committed_only_push(s1, s2.last(), self.outbox@);
                        lemma_committed_only_push(s1, s2.last(), self.handed@);
                        lemma_entry_invs_after_push(s1, s2);
                    }
                }
            },
        }
    }

    /// Accepts an annotation addressed to one span of a trace, to merge
    /// into that span's record when the trace commits. An amendment for a
    /// trace that already committed or was cancelled is discarded, silently
    /// and best-effort, like every late annotation: what was delivered
    /// cannot be amended.
    pub(crate) fn add_amend(&mut self, t: u128, a: Amend)
        requires
            old(self).wf(),
        ensures
            final(self).wf(),
            final(self).config() == old(self).config(),
            final(self).last_report_ns() == old(self).last_report_ns(),
            final(self).has_reporter() == old(self).has_reporter(),
            final(self).is_memory() == old(self).is_memory(),
            final(self).outbox() == old(self).outbox(),
            final(self).handed() == old(self).handed(),
            final(self).reports() == old(self).reports(),
            forall|t2: u128|
                t2 != t ==> final(self).trace_state(t2) == old(self).trace_state(t2)
                    && final(self).trace_buffered(t2) == old(self).trace_buffered(t2)
                    && final(self).trace_amends(t2) == old(self).trace_amends(t2),
            (old(self).trace_state(t) == Some(TraceState::Dropped) || old(self).trace_state(t)
                == Some(TraceState::Committed)) ==> *final(self) == *old(self),
            (old(self).trace_state(t) is None || old(self).trace_state(t) == Some(
                TraceState::Pending,
            )) ==> {
                &&& final(self).trace_state(t) == Some(TraceState::Pending)
                &&& final(self).trace_buffered(t) == old(self).trace_buffered(t)
                &&& final(self).trace_amends(t) == old(self).trace_amends(t).push(a)
            },
    {
        match find_index(&self.traces, t) {
            Some(i) => {
                let st: TraceState = self.traces[i].state;
                match st {
                    TraceState::Dropped => {},
                    TraceState::Committed => {},
                    TraceState::Pending => {
                        let ghost s1 = self.traces@;
                        let mut e = self.traces.remove(i);
                        e.amends.push(a);
                        self.traces.insert(i, e);
                        proof {
                            let s2 = self.traces@;
                            assert(s2 =~= s1.update(i as int, s2[i as int]));
                            assert(entries_unique(s2));
                            lemma_entry_invs_after_update(s1, s2, i as int);
                            lemma_find_present(s2, i as int);
                            assert forall|t2: u128| t2 != t implies find_trace(s2, t2)
                                == find_trace(s1, t2) by {
                                lemma_find_eq_except(s1, s2, i as int, t2);
                            }
                            lemma_committed_only_update(s1, s2, i as int, self.outbox@);
                            lemma_committed_only_update(s1, s2, i as int, self.handed@);
                        }
                    },
                }
            },
            None => {
                let ghost s1 = self.traces@;
                let mut amends: Vec<Amend> = Vec::new();
                amends.push(a);
                let e = TraceEntry {
                    trace_id: t,
                    state: TraceState::Pending,
                    count: 0,
                    buffered: Vec::new(),
                    amends,
                };
                self.traces.push(e);
                proof {
                    let s2 = self.traces@;
                    lemma_find_none_all(s1, t);
                    assert(entries_unique(s2)) by {
                        assert forall|x: int, y: int|
                            0 <= x < y < s2.len() implies s2[x].trace_id != s2[y].trace_id by {
                            if y < s2.len() - 1 {
                                assert(s2[x] == s1[x]);
                                assert(s2[y] == s1[y]);
                            } else {
                                assert(s2[x] == s1[x]);
                            }
                        }
                    }
                    lemma_find_push_new(s1, s2.last());
                    assert forall|t2: u128| t2 != t implies find_trace(s2, t2) == find_trace(
                        s1,
                        t2,
                    ) by {
                        lemma_find_push(s1, s2.last(), t2);
                    }
                    lemma_committed_only_push(s1, s2.last(), self.outbox@);
                    lemma_committed_only_push(s1, s2.last(), self.handed@);
                    lemma_entry_invs_after_push(s1, s2);
                    assert(self.trace_amends(t) =~= old(self).trace_amends(t).push(a));
                }
            },
        }
    }

    /// Accepts a batch of finished records that all belong to one trace,
    /// in order, each under the same policy as `submit`.
    #[verifier::loop_isolation(false)]
    pub(crate) fn submit_batch(&mut self, recs: Vec<SpanRecord>)
        requires
            old(self).wf(),
            forall|i: int|
                0 <= i < recs@.len() ==> (#[trigger] recs@[i]).trace_id == recs@[0].trace_id,
        ensures
            final(self).wf(),
            final(self).config() == old(self).config(),
            final(self).last_report_ns() == old(self).last_report_ns(),
            final(self).has_reporter() == old(self).has_reporter(),
            final(self).is_memory() == old(self).is_memory(),
            final(self).reports().len() >= old(self).reports().len(),
            final(self).reports().take(old(self).reports().len() as int) == old(self).reports(),
            recs@.len() == 0 ==> *final(self) == *old(self),
            forall|t2: u128|
                recs@.len() > 0 && t2 != recs@[0].trace_id ==> final(self).trace_state(t2) == old(
                    self,
                ).trace_state(t2) && final(self).trace_buffered(t2) == old(self).trace_buffered(t2)
                    && final(self).trace_amends(t2) == old(self).trace_amends(t2),
            (recs@.len() > 0 && old(self).config().max_spans_per_trace is None && (old(
                self,
            ).trace_state(recs@[0].trace_id) is None || old(self).trace_state(recs@[0].trace_id)
                == Some(TraceState::Pending))) ==> {
                &&& final(self).trace_state(recs@[0].trace_id) == Some(TraceState::Pending)
                &&& final(self).trace_buffered(recs@[0].trace_id) == old(self).trace_buffered(
                    recs@[0].trace_id,
                ) + recs@
                &&& final(self).retained() == old(self).retained()
                &&& final(self).handed() == old(self).handed()
            },
            (recs@.len() > 0 && old(self).trace_state(recs@[0].trace_id) == Some(
                TraceState::Dropped,
            )) ==> *final(self) == *old(self),
            // an open trace stays open and nothing is delivered early, with
            // or without a configured limit
            (recs@.len() > 0 && (old(self).trace_state(recs@[0].trace_id) is None || old(
                self,
            ).trace_state(recs@[0].trace_id) == Some(TraceState::Pending))) ==> {
                &&& (final(self).trace_state(recs@[0].trace_id) is None
                    || final(self).trace_state(recs@[0].trace_id) == Some(TraceState::Pending))
                &&& final(self).trace_amends(recs@[0].trace_id) == old(self).trace_amends(
                    recs@[0].trace_id,
                )
                &&& final(self).retained() == old(self).retained()
                &&& final(self).handed() == old(self).handed()
                &&& final(self).reports() == old(self).reports()
            },
    {
        let ghost t = if recs@.len() > 0 {
            recs@[0].trace_id
        } else {
            0u128
        };
        let ghost all = recs@;
        let ghost clean = recs@.len() > 0 && old(self).config().max_spans_per_trace is None && (old(
            self,
        ).trace_state(t) is None || old(self).trace_state(t) == Some(TraceState::Pending));
        let ghost dropped = recs@.len() > 0 && old(self).trace_state(t) == Some(TraceState::Dropped);
        let ghost open0 = recs@.len() > 0 && (old(self).trace_state(t) is None || old(
            self,
        ).trace_state(t) == Some(TraceState::Pending));
        let mut recs = recs;
        let ghost mut done: int = 0;
        while recs.len() > 0
            invariant
                self.wf(),
                0 <= done <= all.len(),
                recs@ == all.skip(done),
                self.config() == old(self).config(),
                self.last_report_ns() == old(self).last_report_ns(),
                self.has_reporter() == old(self).has_reporter(),
                self.is_memory() == old(self).is_memory(),
                self.reports().len() >= old(self).reports().len(),
                self.reports().take(old(self).reports().len() as int) == old(self).reports(),
                done == 0 ==> *self == *old(self),
                forall|t2: u128|
                    t2 != t ==> self.trace_state(t2) == old(self).trace_state(t2)
                        && self.trace_buffered(t2) == old(self).trace_buffered(t2)
                        && self.trace_amends(t2) == old(self).trace_amends(t2),
                open0 ==> (self.trace_state(t) is None || self.trace_state(t) == Some(
                    TraceState::Pending,
                )),
                open0 ==> self.trace_amends(t) == old(self).trace_amends(t),
                open0 ==> self.retained() == old(self).retained(),
                open0 ==> self.handed() == old(self).handed(),
                open0 ==> self.reports() == old(self).reports(),
                clean ==> (done == 0 || self.trace_state(t) == Some(TraceState::Pending)),
                clean ==> self.trace_buffered(t) == old(self).trace_buffered(t) + all.take(done),
                clean ==> self.retained() == old(self).retained(),
                clean ==> self.handed() == old(self).handed(),
                dropped ==> *self == *old(self),
            decreases recs@.len(),
        {
            let ghost pre = *self;
            let r = recs.remove(0);
            proof {
                assert(r == all[done]);
                assert(r.trace_id == t);
                assert(recs@ =~= all.skip(done + 1));
            }
            self.submit(r);
            proof {
                done = done + 1;
                if clean {
                    assert(pre.accepts_more(t));
                    assert(self.trace_buffered(t) =~= old(self).trace_buffered(t) + all.take(done));
                }
                let ghost ol = old(self).reports().len() as int;
                assert forall|i: int| 0 <= i < ol implies self.reports()[i] == old(
                    self,
                ).reports()[i] by {
                    assert(pre.reports()[i] == pre.reports().take(ol)[i]);
                    assert(self.reports()[i] == self.reports().take(pre.reports().len() as int)[i]);
                }
                assert(self.reports().take(ol) =~= old(self).reports());
            }
        }
        proof {
            assert(all.skip(all.len() as int).len() == 0);
            if clean {
                assert(all.take(all.len() as int) =~= all);
            }
        }
    }

    /// Accepts the finished record of a trace's root span and commits the
    /// trace: everything buffered for it becomes deliverable, and so do
    /// records of the trace arriving later. The root record is exempt from
    /// the soft per-trace limit: it is always kept.
    pub(crate) fn commit(&mut self, root_rec: SpanRecord)
        requires
            old(self).wf(),
        ensures
            final(self).wf(),
            final(self).config() == old(self).config(),
            final(self).last_report_ns() == old(self).last_report_ns(),
            final(self).has_reporter() == old(self).has_reporter(),
            final(self).is_memory() == old(self).is_memory(),
            final(self).reports().len() >= old(self).reports().len(),
            final(self).reports().take(old(self).reports().len() as int) == old(self).reports(),
            forall|t2: u128|
                t2 != root_rec.trace_id ==> final(self).trace_state(t2) == old(self).trace_state(
                    t2,
                ) && final(self).trace_buffered(t2) == old(self).trace_buffered(t2)
                    && final(self).trace_amends(t2) == old(self).trace_amends(t2),
            old(self).trace_state(root_rec.trace_id) == Some(TraceState::Dropped) ==> *final(self)
                == *old(self),
            old(self).trace_state(root_rec.trace_id) != Some(TraceState::Dropped) ==> {
                &&& final(self).trace_state(root_rec.trace_id) == Some(TraceState::Committed)
                &&& final(self).trace_buffered(root_rec.trace_id).len() == 0
                &&& final(self).trace_amends(root_rec.trace_id).len() == 0
                &&& final(self).retained().len() == old(self).retained().len() + 1 + old(
                    self,
                ).trace_buffered(root_rec.trace_id).len()
                &&& final(self).retained().take(old(self).retained().len() as int) == old(
                    self,
                ).retained()
                // the root record is always delivered, carrying its pending
                // amendments; every buffered record keeps its identity and
                // its own annotations
                &&& merged_ok(
                    final(self).retained()[old(self).retained().len() as int],
                    root_rec,
                    old(self).trace_amends(root_rec.trace_id),
                )
                &&& forall|k: int|
                    0 <= k < old(self).trace_buffered(root_rec.trace_id).len()
                        ==> same_record_identity(
                        #[trigger] final(self).retained()[old(self).retained().len() + 1 + k],
                        old(self).trace_buffered(root_rec.trace_id)[k],
                    ) && annotations_extend(
                        final(self).retained()[old(self).retained().len() + 1 + k],
                        old(self).trace_buffered(root_rec.trace_id)[k],
                    )
                &&& (old(self).trace_amends(root_rec.trace_id).len() == 0
                    ==> final(self).retained() == old(self).retained().push(root_rec) + old(
                    self,
                ).trace_buffered(root_rec.trace_id))
            },
            // nothing is handed to the reporter unless the size trigger
            // fires, and a firing delivery drains everything as one cycle
            final(self).outbox().len() > 0 ==> final(self).handed() == old(self).handed()
                && final(self).reports() == old(self).reports(),
            final(self).reports() == old(self).reports() || (final(self).outbox().len() == 0
                && final(self).reports().len() > old(self).reports().len()),
            // committing a fresh one-record trace reports exactly once when
            // it reaches the configured batch size, else not at all
            ({
                let fire = old(self).has_reporter() && (match old(
                    self,
                ).config().batch_report_max_spans {
                    Some(m) => m > 0 && old(self).outbox().len() + 1 >= m as int,
                    None => false,
                });
                &&& ((old(self).trace_state(root_rec.trace_id) is None && !fire)
                    ==> final(self).outbox() == old(self).outbox().push(root_rec)
                    && final(self).handed() == old(self).handed() && final(self).reports() == old(
                    self,
                ).reports())
                &&& ((old(self).trace_state(root_rec.trace_id) is None && fire)
                    ==> final(self).outbox().len() == 0 && final(self).handed() == old(
                    self,
                ).handed() + old(self).outbox().push(root_rec) && final(self).reports() == old(
                    self,
                ).reports().push(old(self).outbox().push(root_rec)))
            }),
    {
        let t: u128 = root_rec.trace_id;
        match find_index(&self.traces, t) {
            Some(i) => {
                let st: TraceState = self.traces[i].state;
                match st {
                    TraceState::Dropped => {},
                    TraceState::Committed => {
                        let ghost s1 = self.traces@;
                        let mut e = self.traces.remove(i);
                        let c: usize = e.count;
                        e.count = if c < usize::MAX {
                            c + 1
                        } else {
                            c
                        };
                        self.traces.insert(i, e);
                        self.outbox.push(root_rec);
                        proof {
                            let s2 = self.traces@;
                            assert(s2 =~= s1.update(i as int, s2[i as int]));
                            assert(entries_unique(s2));
                            assert(s1[i as int].buffered@.len() == 0);
                            assert(s2[i as int].buffered@.len() == 0);
                            assert(s1[i as int].amends@.len() == 0);
                            assert(s2[i as int].amends@.len() == 0);
                            lemma_entry_invs_after_update(s1, s2, i as int);
                            lemma_find_present(s2, i as int);
                            assert forall|t2: u128| t2 != t implies find_trace(s2, t2)
                                == find_trace(s1, t2) by {
                                lemma_find_eq_except(s1, s2, i as int, t2);
                            }
                            lemma_committed_only_update(s1, s2, i as int, self.outbox@.drop_last());
                            lemma_committed_only_update(s1, s2, i as int, self.handed@);
                            assert forall|k: int| 0 <= k < self.outbox@.len() implies (
                            match find_trace(s2, (#[trigger] self.outbox@[k]).trace_id) {
                                Some(en) => en.state is Committed,
                                None => false,
                            }) by {
                                if k < self.outbox@.len() - 1 {
                                    assert(self.outbox@[k] == self.outbox@.drop_last()[k]);
                                } else {
                                    assert(self.outbox@[k] == root_rec);
                                }
                            }
                            assert(self.retained() =~= old(self).retained().push(root_rec) + old(
                                self,
                            ).trace_buffered(t));
                            assert(root_rec.properties@ + amend_props(
                                old(self).trace_amends(t),
                                root_rec.span_id,
                            ) =~= root_rec.properties@);
                            assert(root_rec.events@ + amend_events(
                                old(self).trace_amends(t),
                                root_rec.span_id,
                            ) =~= root_rec.events@);
                        }
                        self.report_if_full();
                        proof {
                            assert(self.retained() =~= old(self).retained().push(root_rec) + old(
                                self,
                            ).trace_buffered(t));
                            assert(self.retained().take(old(self).retained().len() as int)
                                =~= old(self).retained());
                        }
                    },
                    TraceState::Pending => {
                        let ghost s1 = self.traces@;
                        let ghost buf0 = old(self).trace_buffered(t);
                        let ghost am0 = old(self).trace_amends(t);
                        let mut e = self.traces.remove(i);
                        let c: usize = e.count;
                        e.count = if c < usize::MAX {
                            c + 1
                        } else {
                            c
                        };
                        e.state = TraceState::Committed;
                        let mut buf: Vec<SpanRecord> = Vec::new();
                        core::mem::swap(&mut e.buffered, &mut buf);
                        let mut amends: Vec<Amend> = Vec::new();
                        core::mem::swap(&mut e.amends, &mut amends);
                        self.traces.insert(i, e);
                        // stitch the pending annotations into the trace's
                        // records, the root's own record included
                        let mut all: Vec<SpanRecord> = Vec::new();
                        all.push(root_rec);
                        all.append(&mut buf);
                        let ghost allv = all@;
                        let mut merged = apply_amends(all, amends);
                        let ghost mv = merged@;
                        proof {
                            assert(allv.len() == 1 + buf0.len());
                            assert(allv[0] == root_rec);
                            assert forall|x: int| 0 <= x < mv.len() implies (
                            #[trigger] mv[x]).trace_id == t by {
                                assert(same_record_identity(mv[x], allv[x]));
                                if x > 0 {
                                    assert(allv[x] == buf0[x - 1]);
                                    assert(buf0[x - 1].trace_id == t);
                                }
                            }
                        }
                        self.outbox.append(&mut merged);
                        proof {
                            let s2 = self.traces@;
                            assert(s2 =~= s1.update(i as int, s2[i as int]));
                            assert(entries_unique(s2));
                            assert(s2[i as int].buffered@.len() == 0);
                            assert(s2[i as int].amends@.len() == 0);
                            lemma_entry_invs_after_update(s1, s2, i as int);
                            lemma_find_present(s2, i as int);
                            assert forall|t2: u128| t2 != t implies find_trace(s2, t2)
                                == find_trace(s1, t2) by {
                                lemma_find_eq_except(s1, s2, i as int, t2);
                            }
                            let ob0 = old(self).outbox();
                            lemma_committed_only_update(s1, s2, i as int, ob0);
                            lemma_committed_only_update(s1, s2, i as int, self.handed@);
                            assert forall|k: int| 0 <= k < self.outbox@.len() implies (
                            match find_trace(s2, (#[trigger] self.outbox@[k]).trace_id) {
                                Some(en) => en.state is Committed,
                                None => false,
                            }) by {
                                if k < ob0.len() {
                                    assert(self.outbox@[k] == ob0[k]);
                                } else {
                                    assert(self.outbox@[k] == mv[k - ob0.len()]);
                                    assert(mv[k - ob0.len()].trace_id == t);
                                }
                            }
                            assert(self.retained() =~= old(self).retained() + mv);
                            assert(self.retained().take(old(self).retained().len() as int)
                                =~= old(self).retained());
                            assert(self.retained()[old(self).retained().len() as int] == mv[0]);
                            assert(merged_ok(mv[0], root_rec, am0));
                            assert forall|k: int| 0 <= k < buf0.len() implies same_record_identity(
                                #[trigger] self.retained()[old(self).retained().len() + 1 + k],
                                buf0[k],
                            ) && annotations_extend(
                                self.retained()[old(self).retained().len() + 1 + k],
                                buf0[k],
                            ) by {
                                assert(self.retained()[old(self).retained().len() + 1 + k] == mv[
                                    1 + k
                                ]);
                                assert(allv[1 + k] == buf0[k]);
                            }
                            if am0.len() == 0 {
                                assert(mv == allv);
                                assert(self.retained() =~= old(self).retained().push(root_rec)
                                    + buf0);
                            }
                        }
                        let ghost mid = *self;
                        self.report_if_full();
                        proof {
                            assert(self.retained() =~= mid.retained());
                            assert(self.retained().take(old(self).retained().len() as int)
                                =~= mid.retained().take(old(self).retained().len() as int));
                            assert forall|k: int| 0 <= k < buf0.len() implies same_record_identity(
                                #[trigger] self.retained()[old(self).retained().len() + 1 + k],
                                buf0[k],
                            ) && annotations_extend(
                                self.retained()[old(self).retained().len() + 1 + k],
                                buf0[k],
                            ) by {
                                assert(self.retained()[old(self).retained().len() + 1 + k]
                                    == mid.retained()[old(self).retained().len() + 1 + k]);
                            }
                            if am0.len() == 0 {
                                assert(self.retained() =~= old(self).retained().push(root_rec)
                                    + buf0);
                            }
                        }
                    },
                }
            },
            None => {
                let ghost s1 = self.traces@;
                let e = TraceEntry {
                    trace_id: t,
                    state: TraceState::Committed,
                    count: 1,
                    buffered: Vec::new(),
                    amends: Vec::new(),
                };
                self.traces.push(e);
                self.outbox.push(root_rec);
                proof {
                    let s2 = self.traces@;
                    lemma_find_none_all(s1, t);
                    assert(entries_unique(s2)) by {
                        assert forall|a: int, b: int|
                            0 <= a < b < s2.len() implies s2[a].trace_id != s2[b].trace_id by {
                            if b < s2.len() - 1 {
                                assert(s2[a] == s1[a]);
                                assert(s2[b] == s1[b]);
                            } else {
                                assert(s2[a] == s1[a]);
                            }
                        }
                    }
                    lemma_find_push_new(s1, s2.last());
                    assert forall|t2: u128| t2 != t implies find_trace(s2, t2) == find_trace(
                        s1,
                        t2,
                    ) by {
                        lemma_find_push(s1, s2.last(), t2);
                    }
                    lemma_committed_only_push(s1, s2.last(), self.outbox@.drop_last());
                    lemma_committed_only_push(s1, s2.last(), self.handed@);
                    lemma_entry_invs_after_push(s1, s2);
                    assert forall|k: int| 0 <= k < self.outbox@.len() implies (match find_trace(
                        s2,
                        (#[trigger] self.outbox@[k]).trace_id,
                    ) {
                        Some(en) => en.state is Committed,
                        None => false,
                    }) by {
                        if k < self.outbox@.len() - 1 {
                            assert(self.outbox@[k] == self.outbox@.drop_last()[k]);
                        } else {
                            assert(self.outbox@[k] == root_rec);
                        }
                    }
                    assert(self.retained() =~= old(self).retained().push(root_rec) + old(
                        self,
                    ).trace_buffered(t));
                    assert(root_rec.properties@ + amend_props(
                        old(self).trace_amends(t),
                        root_rec.span_id,
                    ) =~= root_rec.properties@);
                    assert(root_rec.events@ + amend_events(
                        old(self).trace_amends(t),
                        root_rec.span_id,
                    ) =~= root_rec.events@);
                }
                self.report_if_full();
                proof {
                    assert(self.retained() =~= old(self).retained().push(root_rec) + old(
                        self,
                    ).trace_buffered(t));
                    assert(self.retained().take(old(self).retained().len() as int) =~= old(
                        self,
                    ).retained());
                }
            },
        }
    }

    /// Cancels a trace at its root: everything buffered for it is
    /// discarded, and every record of it arriving later is discarded too. A
    /// trace that already committed stays committed — what was delivered
    /// cannot be recalled.
    pub(crate) fn drop_trace(&mut self, t: u128)
        requires
            old(self).wf(),
        ensures
            final(self).wf(),
            final(self).config() == old(self).config(),
            final(self).last_report_ns() == old(self).last_report_ns(),
            final(self).has_reporter() == old(self).has_reporter(),
            final(self).is_memory() == old(self).is_memory(),
            final(self).outbox() == old(self).outbox(),
            final(self).handed() == old(self).handed(),
            final(self).reports() == old(self).reports(),
            forall|t2: u128|
                t2 != t ==> final(self).trace_state(t2) == old(self).trace_state(t2)
                    && final(self).trace_buffered(t2) == old(self).trace_buffered(t2),
            (old(self).trace_state(t) is None || old(self).trace_state(t) == Some(
                TraceState::Pending,
            )) ==> final(self).trace_state(t) == Some(TraceState::Dropped),
            old(self).trace_state(t) == Some(TraceState::Committed) ==> *final(self) == *old(self),
            old(self).trace_state(t) == Some(TraceState::Dropped) ==> *final(self) == *old(self),
    {
        match find_index(&self.traces, t) {
            Some(i) => {
                let st: TraceState = self.traces[i].state;
                match st {
                    TraceState::Dropped => {},
                    TraceState::Committed => {},
                    TraceState::Pending => {
                        let ghost s1 = self.traces@;
                        let mut e = self.traces.remove(i);
                        e.state = TraceState::Dropped;
                        e.buffered = Vec::new();
                        e.amends = Vec::new();
                        self.traces.insert(i, e);
                        proof {
                            let s2 = self.traces@;
                            assert(s2 =~= s1.update(i as int, s2[i as int]));
                            assert(entries_unique(s2));
                            assert(s2[i as int].buffered@.len() == 0);
                            lemma_entry_invs_after_update(s1, s2, i as int);
                            lemma_find_present(s2, i as int);
                            assert forall|t2: u128| t2 != t implies find_trace(s2, t2)
                                == find_trace(s1, t2) by {
                                lemma_find_eq_except(s1, s2, i as int, t2);
                            }
                            lemma_committed_only_update(s1, s2, i as int, self.outbox@);
                            lemma_committed_only_update(s1, s2, i as int, self.handed@);
                        }
                    },
                }
            },
            None => {
                let ghost s1 = self.traces@;
                let e = TraceEntry {
                    trace_id: t,
                    state: TraceState::Dropped,
                    count: 0,
                    buffered: Vec::new(),
                    amends: Vec::new(),
                };
                self.traces.push(e);
                proof {
                    let s2 = self.traces@;
                    lemma_find_none_all(s1, t);
                    assert(entries_unique(s2)) by {
                        assert forall|a: int, b: int|
                            0 <= a < b < s2.len() implies s2[a].trace_id != s2[b].trace_id by {
                            if b < s2.len() - 1 {
                                assert(s2[a] == s1[a]);
                                assert(s2[b] == s1[b]);
                            } else {
                                assert(s2[a] == s1[a]);
                            }
                        }
                    }
                    lemma_find_push_new(s1, s2.last());
                    assert forall|t2: u128| t2 != t implies find_trace(s2, t2) == find_trace(
                        s1,
                        t2,
                    ) by {
                        lemma_find_push(s1, s2.last(), t2);
                    }
                    lemma_committed_only_push(s1, s2.last(), self.outbox@);
                    lemma_committed_only_push(s1, s2.last(), self.handed@);
                    lemma_entry_invs_after_push(s1, s2);
                }
            },
        }
    }
}

/// Once a trace is cancelled, the collector's output is clean of it: no
/// record of that trace was handed to the reporter, and none awaits
/// delivery. Records are delivered only from committed traces, and a
/// cancelled trace never commits.
pub proof fn lemma_cancelled_trace_unreported(gc: GlobalCollector, t: u128)
    requires
        gc.wf(),
        gc.trace_state(t) == Some(TraceState::Dropped),
    ensures
        forall|i: int| 0 <= i < gc.handed().len() ==> (#[trigger] gc.handed()[i]).trace_id != t,
        forall|i: int| 0 <= i < gc.outbox().len() ==> (#[trigger] gc.outbox()[i]).trace_id != t,
        forall|i: int| 0 <= i < gc.retained().len() ==> (#[trigger] gc.retained()[i]).trace_id != t,
{
    assert forall|i: int| 0 <= i < gc.handed().len() implies (#[trigger] gc.handed()[i]).trace_id
        != t by {
        if gc.handed()[i].trace_id == t {
            assert(match find_trace(gc.traces(), gc.handed()[i].trace_id) {
                Some(e) => e.state is Committed,
                None => false,
            });
        }
    }
    assert forall|i: int| 0 <= i < gc.outbox().len() implies (#[trigger] gc.outbox()[i]).trace_id
        != t by {
        if gc.outbox()[i].trace_id == t {
            assert(match find_trace(gc.traces(), gc.outbox()[i].trace_id) {
                Some(e) => e.state is Committed,
                None => false,
            });
        }
    }
    assert forall|i: int| 0 <= i < gc.retained().len() implies (
    #[trigger] gc.retained()[i]).trace_id != t by {
        if i < gc.handed().len() {
            assert(gc.retained()[i] == gc.handed()[i]);
        } else {
            assert(gc.retained()[i] == gc.outbox()[i - gc.handed().len()]);
        }
    }
}

/// The size trigger holds as an invariant: with a reporter installed and a
/// positive batch size configured, the records awaiting delivery always
/// number less than the configured size — reaching it starts a report at
/// once, before any interval elapses.
pub proof fn lemma_size_trigger_bound(gc: GlobalCollector, m: usize)
    requires
        gc.wf(),
        gc.has_reporter(),
        gc.config().batch_report_max_spans == Some(m),
        m > 0,
    ensures
        gc.outbox().len() < m as int,
{
}

/// Installs the console reporter with the default configuration, as a
/// debugging convenience.
pub fn mtr_set_cons_rptr(gc: &mut GlobalCollector)
    requires
        old(gc).wf(),
    ensures
        final(gc).wf(),
        final(gc).has_reporter(),
        final(gc).config().max_spans_per_trace is None,
        final(gc).config().report_interval_ns == crate::record::DEFAULT_REPORT_INTERVAL_NS,
        final(gc).config().batch_report_max_spans is None,
        final(gc).traces() == old(gc).traces(),
        final(gc).outbox().len() == 0,
{
    let _prev = gc.set_reporter(Reporter::Console(mtr_cons_rptr {  }), mtr_coll_cfg::new());
}

/// Forces an out-of-band report cycle: blocks until every record committed
/// strictly before the call has been handed to the reporter. Records of
/// still-pending traces are not lost: they stay buffered and are delivered
/// by a later cycle once their trace commits.
pub fn mtr_flush(gc: &mut GlobalCollector)
    requires
        old(gc).wf(),
    ensures
        final(gc).wf(),
        final(gc).traces() == old(gc).traces(),
        final(gc).config() == old(gc).config(),
        final(gc).has_reporter() == old(gc).has_reporter(),
        !old(gc).has_reporter() ==> *final(gc) == *old(gc),
        old(gc).has_reporter() ==> {
            &&& final(gc).outbox().len() == 0
            &&& final(gc).handed() == old(gc).handed() + old(gc).outbox()
            &&& final(gc).reports().len() >= old(gc).reports().len()
            &&& final(gc).reports().take(old(gc).reports().len() as int) == old(gc).reports()
        },
{
    gc.flush();
}

/// Removes and returns the first `n` records.
fn take_prefix(v: &mut Vec<SpanRecord>, n: usize) -> (r: Vec<SpanRecord>)
    requires
        n <= old(v)@.len(),
    ensures
        r@ == old(v)@.take(n as int),
        final(v)@ == old(v)@.skip(n as int),
{
    let mut tail = v.split_off(n);
    core::mem::swap(v, &mut tail);
    tail
}

} // verus!
