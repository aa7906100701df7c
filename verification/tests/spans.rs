//! Span and thread-local recording behavior.

use trace_engine::collector::{GlobalCollector, MemoryReporter, Reporter};
use trace_engine::local::{mtr_loc_coll, mtr_loc_span, LocalStack};
use trace_engine::record::{mtr_coll_cfg, mtr_span_ctx, Property, SpanRecord};
use trace_engine::span::mtr_span;

fn memory_collector() -> GlobalCollector {
    let mut gc = GlobalCollector::new();
    gc.set_reporter(
        Reporter::Memory(MemoryReporter { batches: Vec::new() }),
        mtr_coll_cfg::new(),
    );
    gc
}

fn reported(gc: &GlobalCollector) -> Vec<SpanRecord> {
    let mut out: Vec<SpanRecord> = Vec::new();
    for batch in gc.memory_batches().expect("memory reporter") {
        for rec in batch {
            out.push(rec.clone());
        }
    }
    out
}

#[test]
fn random_context_is_sampled_and_fresh() {
    let a = mtr_span_ctx::random();
    let b = mtr_span_ctx::random();
    assert!(a.sampled);
    assert_eq!(a.span_id, 0);
    assert_ne!(a.trace_id, b.trace_id);
}

#[test]
fn context_with_sampled_flips_only_the_flag() {
    let c = mtr_span_ctx::new(9, 4);
    assert!(c.sampled);
    let d = c.with_sampled(false);
    assert_eq!(d.trace_id, 9);
    assert_eq!(d.span_id, 4);
    assert!(!d.sampled);
}

#[test]
fn from_span_fails_on_noop() {
    let noop = mtr_span::noop();
    assert!(mtr_span_ctx::from_span(&noop).is_none());
}

#[test]
fn from_span_carries_identity() {
    let mut stack = LocalStack::new(1);
    let root = mtr_span::root("r".to_string(), mtr_span_ctx::new(5, 0), &mut stack, 0);
    let ctx = mtr_span_ctx::from_span(&root).expect("live span");
    assert_eq!(ctx.trace_id, 5);
    assert_eq!(ctx.span_id, 1);
    assert!(ctx.sampled);
}

#[test]
fn current_local_parent_requires_a_guard() {
    let mut stack = LocalStack::new(1);
    assert!(mtr_span_ctx::current_local_parent(&stack).is_none());
    let root = mtr_span::root("r".to_string(), mtr_span_ctx::new(5, 0), &mut stack, 0);
    let guard = root.set_local_parent(&mut stack);
    let ctx = mtr_span_ctx::current_local_parent(&stack).expect("guard active");
    assert_eq!(ctx.trace_id, 5);
    assert_eq!(ctx.span_id, 1);
    let mut gc = memory_collector();
    guard.release(&mut stack, &mut gc);
    assert!(mtr_span_ctx::current_local_parent(&stack).is_none());
}

#[test]
fn noop_safety_enter_with_local_parent_without_guard() {
    // No local-parent guard is active: a valid-but-inert handle comes back,
    // its elapsed time is zero, and it produces no reported record.
    let mut stack = LocalStack::new(1);
    let mut gc = memory_collector();
    let mut span = mtr_span::enter_with_local_parent("orphan".to_string(), &mut stack, 100);
    assert_eq!(span.elapsed(5_000), 0);
    span.end(&mut gc, 5_000);
    gc.flush();
    assert_eq!(reported(&gc).len(), 0);
}

#[test]
fn detached_window_does_not_parent_spans() {
    // A local collector window alone carries no trace identity, so a Span
    // asking for the local parent is still a no-op.
    let mut stack = LocalStack::new(1);
    let coll = mtr_loc_coll::start(&mut stack);
    let span = mtr_span::enter_with_local_parent("orphan".to_string(), &mut stack, 0);
    assert_eq!(span.elapsed(10), 0);
    let batch = coll.collect(&mut stack);
    assert_eq!(batch.spans.len(), 0);
}

#[test]
fn elapsed_measures_from_creation() {
    let mut stack = LocalStack::new(1);
    let root = mtr_span::root("r".to_string(), mtr_span_ctx::new(5, 0), &mut stack, 1_000);
    assert_eq!(root.elapsed(4_500), 3_500);
    // a clock that ran backwards yields zero rather than failing
    assert_eq!(root.elapsed(900), 0);
}

#[test]
fn idempotent_destruction_reports_once() {
    let mut stack = LocalStack::new(1);
    let mut gc = memory_collector();
    let mut root = mtr_span::root("r".to_string(), mtr_span_ctx::new(5, 0), &mut stack, 0);
    root.end(&mut gc, 10);
    root.end(&mut gc, 20);
    gc.flush();
    let recs = reported(&gc);
    assert_eq!(recs.len(), 1);
    assert_eq!(recs[0].duration_ns, 10);
}

#[test]
fn properties_recorded_only_when_sampled() {
    let mut stack = LocalStack::new(1);
    let mut gc = memory_collector();

    let mut sampled = mtr_span::root("s".to_string(), mtr_span_ctx::new(5, 0), &mut stack, 0);
    sampled.with_property("k".to_string(), "v".to_string());
    sampled.with_properties(vec![
        Property { key: "k2".to_string(), value: "v2".to_string() },
        Property { key: "k3".to_string(), value: "v3".to_string() },
    ]);
    sampled.add_event("evt".to_string(), Vec::new(), 7);
    sampled.end(&mut gc, 10);
    gc.flush();
    let recs = reported(&gc);
    assert_eq!(recs.len(), 1);
    assert_eq!(recs[0].properties.len(), 3);
    assert_eq!(recs[0].properties[0].key, "k");
    assert_eq!(recs[0].properties[2].value, "v3");
    assert_eq!(recs[0].events.len(), 1);
    assert_eq!(recs[0].events[0].name, "evt");
    assert_eq!(recs[0].events[0].timestamp_ns, 7);

    // an unsampled root stays live (children can attach) but stores nothing
    // and reports nothing
    let ctx = mtr_span_ctx::new(6, 0).with_sampled(false);
    let mut quiet = mtr_span::root("q".to_string(), ctx, &mut stack, 0);
    quiet.with_property("k".to_string(), "v".to_string());
    assert!(mtr_span_ctx::from_span(&quiet).is_some());
    quiet.end(&mut gc, 10);
    gc.flush();
    assert_eq!(reported(&gc).len(), 1);
}

#[test]
fn child_spans_link_to_their_parents() {
    let mut stack = LocalStack::new(1);
    let mut gc = memory_collector();
    let mut root = mtr_span::root("r".to_string(), mtr_span_ctx::new(5, 0), &mut stack, 0);
    let root_id = mtr_span_ctx::from_span(&root).unwrap().span_id;
    let mut child = mtr_span::enter_with_parent("c".to_string(), &root, &mut stack, 1);
    let child_id = mtr_span_ctx::from_span(&child).unwrap().span_id;
    assert_ne!(child_id, root_id);
    child.end(&mut gc, 5);
    root.end(&mut gc, 10);
    gc.flush();
    let recs = reported(&gc);
    assert_eq!(recs.len(), 2);
    // the root record comes first at commit and has no parent link
    assert_eq!(recs[0].span_id, root_id);
    assert!(recs[0].parent_ids.is_empty());
    assert_eq!(recs[1].span_id, child_id);
    assert_eq!(recs[1].parent_ids, vec![root_id]);
}

#[test]
fn root_from_inherited_context_links_to_remote_parent() {
    let mut stack = LocalStack::new(1);
    let mut gc = memory_collector();
    // a context propagated from elsewhere carries the remote parent's id
    let remote = mtr_span_ctx::new(42, 777);
    let mut root = mtr_span::root("r".to_string(), remote, &mut stack, 0);
    root.end(&mut gc, 1);
    gc.flush();
    let recs = reported(&gc);
    assert_eq!(recs.len(), 1);
    assert_eq!(recs[0].trace_id, 42);
    assert_eq!(recs[0].parent_ids, vec![777]);
}

#[test]
fn multi_parent_join_records_all_links() {
    let mut stack = LocalStack::new(1);
    let mut gc = memory_collector();
    let a = mtr_span::root("a".to_string(), mtr_span_ctx::new(5, 0), &mut stack, 0);
    let b = mtr_span::enter_with_parent("b".to_string(), &a, &mut stack, 0);
    let a_id = mtr_span_ctx::from_span(&a).unwrap().span_id;
    let b_id = mtr_span_ctx::from_span(&b).unwrap().span_id;
    let parents = vec![a, mtr_span::noop(), b];
    let mut joined = mtr_span::enter_with_parents("j".to_string(), &parents, &mut stack, 2);
    joined.end(&mut gc, 9);
    // commit the trace so the join gets delivered
    let mut parents = parents;
    let mut b = parents.pop().unwrap();
    let _noop = parents.pop().unwrap();
    let mut a = parents.pop().unwrap();
    b.end(&mut gc, 9);
    a.end(&mut gc, 9);
    gc.flush();
    let recs = reported(&gc);
    assert_eq!(recs.len(), 3);
    let joined_rec = recs.iter().find(|r| r.name == "j").expect("join reported");
    assert_eq!(joined_rec.parent_ids, vec![a_id, b_id]);
}

#[test]
fn enter_with_parents_of_no_live_parent_is_noop() {
    let mut stack = LocalStack::new(1);
    let parents = vec![mtr_span::noop(), mtr_span::noop()];
    let span = mtr_span::enter_with_parents("j".to_string(), &parents, &mut stack, 2);
    assert!(mtr_span_ctx::from_span(&span).is_none());
    let none: Vec<mtr_span> = Vec::new();
    let span2 = mtr_span::enter_with_parents("k".to_string(), &none, &mut stack, 2);
    assert!(mtr_span_ctx::from_span(&span2).is_none());
}

#[test]
fn local_spans_nest_and_batch_is_acyclic() {
    let mut stack = LocalStack::new(1);
    let coll = mtr_loc_coll::start(&mut stack);
    let outer = mtr_loc_span::enter_with_local_parent("outer".to_string(), &mut stack, 10);
    let inner = mtr_loc_span::enter_with_local_parent("inner".to_string(), &mut stack, 20);
    inner.exit(&mut stack, 30);
    let sibling = mtr_loc_span::enter_with_local_parent("sib".to_string(), &mut stack, 40);
    sibling.exit(&mut stack, 50);
    outer.exit(&mut stack, 60);
    let batch = coll.collect(&mut stack);
    assert_eq!(batch.spans.len(), 3);
    assert_eq!(batch.spans[0].name, "outer");
    assert_eq!(batch.spans[0].parent_id, 0);
    assert_eq!(batch.spans[1].name, "inner");
    assert_eq!(batch.spans[1].parent_id, batch.spans[0].span_id);
    assert_eq!(batch.spans[2].name, "sib");
    assert_eq!(batch.spans[2].parent_id, batch.spans[0].span_id);
    // every parent link names an earlier span: ids strictly increase and a
    // real parent id is always smaller, so no span is its own ancestor
    for i in 0..batch.spans.len() {
        let r = &batch.spans[i];
        assert_ne!(r.span_id, 0);
        assert!(r.parent_id == 0 || r.parent_id < r.span_id);
        if i > 0 {
            assert!(batch.spans[i - 1].span_id < r.span_id);
        }
    }
}

#[test]
fn local_span_annotations_land_on_the_open_span() {
    let mut stack = LocalStack::new(1);
    let coll = mtr_loc_coll::start(&mut stack);
    let s = mtr_loc_span::enter_with_local_parent("s".to_string(), &mut stack, 0);
    s.with_property(&mut stack, "k".to_string(), "v".to_string());
    s.with_properties(
        &mut stack,
        vec![Property { key: "k2".to_string(), value: "v2".to_string() }],
    );
    // the ambient operations target the innermost open local span
    stack.add_property("k3".to_string(), "v3".to_string());
    stack.add_properties(vec![Property { key: "k4".to_string(), value: "v4".to_string() }]);
    stack.add_event("evt".to_string(), Vec::new(), 77);
    s.exit(&mut stack, 9);
    // with the span closed, annotations have no target and are dropped
    stack.add_property("late".to_string(), "x".to_string());
    let batch = coll.collect(&mut stack);
    assert_eq!(batch.spans.len(), 1);
    let rec = &batch.spans[0];
    assert_eq!(rec.properties.len(), 4);
    assert_eq!(rec.properties[0].key, "k");
    assert_eq!(rec.properties[3].key, "k4");
    assert_eq!(rec.events.len(), 1);
    assert_eq!(rec.events[0].timestamp_ns, 77);
    assert!(rec.ended);
    assert_eq!(rec.end_ns - rec.begin_ns, 9);
}

#[test]
fn collecting_a_stale_window_yields_nothing() {
    let mut stack = LocalStack::new(1);
    let c1 = mtr_loc_coll::start(&mut stack);
    let c2 = mtr_loc_coll::start(&mut stack);
    let s = mtr_loc_span::enter_with_local_parent("s".to_string(), &mut stack, 0);
    s.exit(&mut stack, 1);
    // c1's window is not the innermost one: collecting it is a misuse and
    // yields the empty batch, leaving c2's window intact
    let stale = c1.collect(&mut stack);
    assert_eq!(stale.spans.len(), 0);
    let good = c2.collect(&mut stack);
    assert_eq!(good.spans.len(), 1);
}

#[test]
fn exhausted_id_source_degrades_to_inert_local_spans() {
    let mut stack = LocalStack::new(u64::MAX);
    let coll = mtr_loc_coll::start(&mut stack);
    let s = mtr_loc_span::enter_with_local_parent("s".to_string(), &mut stack, 0);
    assert!(!s.active);
    let batch = coll.collect(&mut stack);
    assert_eq!(batch.spans.len(), 0);
}
