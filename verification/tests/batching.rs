//! Global collector behavior: buffering, triggers, limits, cancellation,
//! flushing, and reporter swaps.

use trace_engine::collector::{mtr_flush, mtr_set_cons_rptr, GlobalCollector, MemoryReporter, Reporter};
use trace_engine::local::{mtr_loc_coll, mtr_loc_span, LocalStack};
use trace_engine::record::{mtr_coll_cfg, mtr_span_ctx, Property, SpanRecord};
use trace_engine::span::mtr_span;

fn collector_with(cfg: mtr_coll_cfg) -> GlobalCollector {
    let mut gc = GlobalCollector::new();
    gc.set_reporter(Reporter::Memory(MemoryReporter { batches: Vec::new() }), cfg);
    gc
}

fn batches(gc: &GlobalCollector) -> Vec<Vec<SpanRecord>> {
    gc.memory_batches().expect("memory reporter").clone()
}

fn flat(gc: &GlobalCollector) -> Vec<SpanRecord> {
    let mut out: Vec<SpanRecord> = Vec::new();
    for b in batches(gc) {
        for r in b {
            out.push(r);
        }
    }
    out
}

/// One whole trace: a root with one ordinary span under it.
fn finish_one_trace(stack: &mut LocalStack, gc: &mut GlobalCollector, trace: u128, now: u64) {
    let mut root = mtr_span::root("r".to_string(), mtr_span_ctx::new(trace, 0), stack, now);
    root.end(gc, now + 1);
}

#[test]
fn default_config_values() {
    let cfg = mtr_coll_cfg::new();
    assert_eq!(cfg.max_spans_per_trace, None);
    assert_eq!(cfg.report_interval_ns, 500_000_000);
    assert_eq!(cfg.batch_report_max_spans, None);
}

#[test]
fn config_builders_set_each_knob() {
    let cfg = mtr_coll_cfg::new()
        .with_max_spans_per_trace(Some(7))
        .with_report_interval_millis(250)
        .with_batch_report_max_spans(Some(3));
    assert_eq!(cfg.max_spans_per_trace, Some(7));
    assert_eq!(cfg.report_interval_ns, 250_000_000);
    assert_eq!(cfg.batch_report_max_spans, Some(3));
    // an interval too large for the clock saturates instead of wrapping
    let big = mtr_coll_cfg::new().with_report_interval_millis(u64::MAX);
    assert_eq!(big.report_interval_ns, u64::MAX);
}

#[test]
fn size_trigger_reports_before_the_interval() {
    // report_interval 500 ms, batch_report_max_spans 100: 150 spans
    // submitted in quick succession produce a 100-record report at once,
    // with no tick of the clock at all.
    let cfg = mtr_coll_cfg::new()
        .with_report_interval_millis(500)
        .with_batch_report_max_spans(Some(100));
    let mut stack = LocalStack::new(1);
    let mut gc = collector_with(cfg);
    for i in 0..150u64 {
        finish_one_trace(&mut stack, &mut gc, 1000 + i as u128, 10);
    }
    let bs = batches(&gc);
    assert_eq!(bs.len(), 1);
    assert_eq!(bs[0].len(), 100);
    // the rest follows once the interval elapses
    gc.tick(600_000_000);
    let bs = batches(&gc);
    assert_eq!(bs.len(), 2);
    assert_eq!(bs[1].len(), 50);
}

#[test]
fn interval_trigger_reports_exactly_once() {
    // one span, then 600 ms of quiet: exactly one report with that span
    let cfg = mtr_coll_cfg::new()
        .with_report_interval_millis(500)
        .with_batch_report_max_spans(Some(100));
    let mut stack = LocalStack::new(1);
    let mut gc = collector_with(cfg);
    finish_one_trace(&mut stack, &mut gc, 7, 10);
    gc.tick(100_000_000);
    assert_eq!(batches(&gc).len(), 0);
    gc.tick(600_000_000);
    let bs = batches(&gc);
    assert_eq!(bs.len(), 1);
    assert_eq!(bs[0].len(), 1);
    // quiet afterwards: no further report
    gc.tick(1_200_000_000);
    gc.tick(1_800_000_000);
    assert_eq!(batches(&gc).len(), 1);
}

#[test]
fn root_survives_the_per_trace_limit() {
    // five ordinary spans against a soft limit of two: the overflow is
    // dropped silently, the root is exempt and always reported
    let cfg = mtr_coll_cfg::new().with_max_spans_per_trace(Some(2));
    let mut stack = LocalStack::new(1);
    let mut gc = collector_with(cfg);
    let mut root = mtr_span::root("root".to_string(), mtr_span_ctx::new(5, 0), &mut stack, 0);
    let root_id = mtr_span_ctx::from_span(&root).unwrap().span_id;
    for i in 0..5u64 {
        let mut c = mtr_span::enter_with_parent(format!("c{}", i), &root, &mut stack, i);
        c.end(&mut gc, i + 1);
    }
    root.end(&mut gc, 100);
    mtr_flush(&mut gc);
    let recs = flat(&gc);
    assert_eq!(recs.len(), 3);
    assert!(recs.iter().any(|r| r.span_id == root_id));
    assert!(recs.iter().any(|r| r.name == "c0"));
    assert!(recs.iter().any(|r| r.name == "c1"));
    assert!(!recs.iter().any(|r| r.name == "c4"));
}

#[test]
fn zero_span_limit_still_reports_the_root() {
    let cfg = mtr_coll_cfg::new().with_max_spans_per_trace(Some(0));
    let mut stack = LocalStack::new(1);
    let mut gc = collector_with(cfg);
    let mut root = mtr_span::root("root".to_string(), mtr_span_ctx::new(5, 0), &mut stack, 0);
    let mut c = mtr_span::enter_with_parent("c".to_string(), &root, &mut stack, 0);
    c.end(&mut gc, 1);
    root.end(&mut gc, 2);
    mtr_flush(&mut gc);
    let recs = flat(&gc);
    assert_eq!(recs.len(), 1);
    assert_eq!(recs[0].name, "root");
}

#[test]
fn cancelled_root_suppresses_the_whole_trace() {
    let mut stack = LocalStack::new(1);
    let mut gc = collector_with(mtr_coll_cfg::new());
    let mut root = mtr_span::root("root".to_string(), mtr_span_ctx::new(5, 0), &mut stack, 0);
    // a child finishes and is buffered before the cancellation
    let mut c = mtr_span::enter_with_parent("c".to_string(), &root, &mut stack, 0);
    c.end(&mut gc, 1);
    // local spans recorded under the root's guard are buffered too
    let guard = root.set_local_parent(&mut stack);
    let ls = mtr_loc_span::enter_with_local_parent("ls".to_string(), &mut stack, 2);
    ls.exit(&mut stack, 3);
    // an annotation addressed to the root itself is suppressed too
    stack.add_property("k".to_string(), "v".to_string());
    guard.release(&mut stack, &mut gc);
    // a batch pushed into the root travels with it and is suppressed with it
    let coll = mtr_loc_coll::start(&mut stack);
    let ls2 = mtr_loc_span::enter_with_local_parent("ls2".to_string(), &mut stack, 4);
    ls2.exit(&mut stack, 5);
    let batch = coll.collect(&mut stack);
    root.push_child_spans(batch);
    root.cancel();
    root.end(&mut gc, 10);
    // even records of the trace arriving afterwards are discarded
    let mut late = mtr_span::root("late".to_string(), mtr_span_ctx::new(5, 0), &mut stack, 11);
    late.end(&mut gc, 12);
    mtr_flush(&mut gc);
    assert_eq!(flat(&gc).len(), 0);
}

#[test]
fn cancelled_child_suppresses_only_itself() {
    let mut stack = LocalStack::new(1);
    let mut gc = collector_with(mtr_coll_cfg::new());
    let mut root = mtr_span::root("root".to_string(), mtr_span_ctx::new(5, 0), &mut stack, 0);
    let mut keep = mtr_span::enter_with_parent("keep".to_string(), &root, &mut stack, 0);
    let mut drop_me = mtr_span::enter_with_parent("drop".to_string(), &root, &mut stack, 0);
    drop_me.cancel();
    drop_me.end(&mut gc, 1);
    keep.end(&mut gc, 2);
    root.end(&mut gc, 3);
    mtr_flush(&mut gc);
    let recs = flat(&gc);
    assert_eq!(recs.len(), 2);
    assert!(recs.iter().any(|r| r.name == "keep"));
    assert!(!recs.iter().any(|r| r.name == "drop"));
}

#[test]
fn reattached_local_spans_link_to_the_parent_span() {
    // spans recorded before their logical parent even exists, then stitched
    // in with push_child_spans, report with correct parent linkage
    let mut stack = LocalStack::new(1);
    let mut gc = collector_with(mtr_coll_cfg::new());
    let coll = mtr_loc_coll::start(&mut stack);
    let outer = mtr_loc_span::enter_with_local_parent("outer".to_string(), &mut stack, 10);
    let inner = mtr_loc_span::enter_with_local_parent("inner".to_string(), &mut stack, 20);
    inner.exit(&mut stack, 30);
    outer.exit(&mut stack, 40);
    let batch = coll.collect(&mut stack);
    let outer_id = batch.spans[0].span_id;

    // only now does the parent span come to be
    let mut root = mtr_span::root("root".to_string(), mtr_span_ctx::new(5, 0), &mut stack, 50);
    let root_id = mtr_span_ctx::from_span(&root).unwrap().span_id;
    root.push_child_spans(batch);
    root.end(&mut gc, 60);
    mtr_flush(&mut gc);
    let recs = flat(&gc);
    assert_eq!(recs.len(), 3);
    let outer_rec = recs.iter().find(|r| r.name == "outer").unwrap();
    let inner_rec = recs.iter().find(|r| r.name == "inner").unwrap();
    assert_eq!(outer_rec.parent_ids, vec![root_id]);
    assert_eq!(inner_rec.parent_ids, vec![outer_id]);
    assert_eq!(outer_rec.trace_id, 5);
    assert_eq!(inner_rec.trace_id, 5);
    assert_eq!(outer_rec.duration_ns, 30);
}

#[test]
fn guard_submits_window_under_the_span() {
    let mut stack = LocalStack::new(1);
    let mut gc = collector_with(mtr_coll_cfg::new());
    let mut root = mtr_span::root("root".to_string(), mtr_span_ctx::new(5, 0), &mut stack, 0);
    let root_id = mtr_span_ctx::from_span(&root).unwrap().span_id;
    let guard = root.set_local_parent(&mut stack);
    let ls = mtr_loc_span::enter_with_local_parent("ls".to_string(), &mut stack, 1);
    ls.exit(&mut stack, 2);
    guard.release(&mut stack, &mut gc);
    root.end(&mut gc, 3);
    mtr_flush(&mut gc);
    let recs = flat(&gc);
    assert_eq!(recs.len(), 2);
    let ls_rec = recs.iter().find(|r| r.name == "ls").unwrap();
    assert_eq!(ls_rec.parent_ids, vec![root_id]);
}

#[test]
fn unsampled_guard_discards_its_window() {
    let mut stack = LocalStack::new(1);
    let mut gc = collector_with(mtr_coll_cfg::new());
    let ctx = mtr_span_ctx::new(5, 0).with_sampled(false);
    let mut root = mtr_span::root("root".to_string(), ctx, &mut stack, 0);
    let guard = root.set_local_parent(&mut stack);
    let ls = mtr_loc_span::enter_with_local_parent("ls".to_string(), &mut stack, 1);
    // the local span under an unsampled parent is not even recorded
    assert!(!ls.active);
    ls.exit(&mut stack, 2);
    // neither is an ambient annotation stored for the unsampled parent
    stack.add_property("k".to_string(), "v".to_string());
    guard.release(&mut stack, &mut gc);
    root.end(&mut gc, 3);
    mtr_flush(&mut gc);
    assert_eq!(flat(&gc).len(), 0);
}

#[test]
fn flush_hands_over_everything_committed_before_it() {
    let mut stack = LocalStack::new(1);
    let mut gc = collector_with(mtr_coll_cfg::new());
    for i in 0..5u64 {
        finish_one_trace(&mut stack, &mut gc, 100 + i as u128, i);
    }
    // nothing delivered yet: neither trigger has fired
    assert_eq!(flat(&gc).len(), 0);
    mtr_flush(&mut gc);
    assert_eq!(flat(&gc).len(), 5);
    // spans arriving later are not lost: the next cycle delivers them
    finish_one_trace(&mut stack, &mut gc, 200, 50);
    assert_eq!(flat(&gc).len(), 5);
    mtr_flush(&mut gc);
    assert_eq!(flat(&gc).len(), 6);
}

#[test]
fn flush_does_not_leak_pending_traces() {
    let mut stack = LocalStack::new(1);
    let mut gc = collector_with(mtr_coll_cfg::new());
    let mut root = mtr_span::root("root".to_string(), mtr_span_ctx::new(5, 0), &mut stack, 0);
    let mut c = mtr_span::enter_with_parent("c".to_string(), &root, &mut stack, 0);
    c.end(&mut gc, 1);
    // the trace is still open: its records are buffered, not deliverable
    mtr_flush(&mut gc);
    assert_eq!(flat(&gc).len(), 0);
    // once the root commits, a later cycle delivers them
    root.end(&mut gc, 2);
    mtr_flush(&mut gc);
    assert_eq!(flat(&gc).len(), 2);
}

#[test]
fn swapping_reporters_drains_under_the_old_one() {
    let mut stack = LocalStack::new(1);
    let mut gc = collector_with(mtr_coll_cfg::new());
    finish_one_trace(&mut stack, &mut gc, 1, 0);
    let old = gc.set_reporter(
        Reporter::Memory(MemoryReporter { batches: Vec::new() }),
        mtr_coll_cfg::new(),
    );
    // the record committed before the swap went to the old reporter
    match old {
        Some(Reporter::Memory(m)) => {
            assert_eq!(m.batches.len(), 1);
            assert_eq!(m.batches[0].len(), 1);
        },
        _ => panic!("expected the old memory reporter back"),
    }
    // the new reporter starts clean and receives what comes next
    assert_eq!(flat(&gc).len(), 0);
    finish_one_trace(&mut stack, &mut gc, 2, 10);
    mtr_flush(&mut gc);
    assert_eq!(flat(&gc).len(), 1);
}

#[test]
fn records_buffered_without_a_reporter_reach_the_first_one() {
    let mut stack = LocalStack::new(1);
    let mut gc = GlobalCollector::new();
    finish_one_trace(&mut stack, &mut gc, 1, 0);
    // nothing is delivered while no reporter is installed
    mtr_flush(&mut gc);
    gc.set_reporter(
        Reporter::Memory(MemoryReporter { batches: Vec::new() }),
        mtr_coll_cfg::new(),
    );
    assert_eq!(flat(&gc).len(), 1);
}

#[test]
fn console_reporter_installs_and_flushes() {
    let mut stack = LocalStack::new(1);
    let mut gc = GlobalCollector::new();
    mtr_set_cons_rptr(&mut gc);
    assert!(gc.memory_batches().is_none());
    finish_one_trace(&mut stack, &mut gc, 1, 0);
    mtr_flush(&mut gc);
}

#[test]
fn oversized_commit_is_cut_into_batches() {
    // a whole trace larger than the batch size arrives at commit: it is
    // delivered at once, cut into batches of at most the configured size
    let cfg = mtr_coll_cfg::new().with_batch_report_max_spans(Some(3));
    let mut stack = LocalStack::new(1);
    let mut gc = collector_with(cfg);
    let mut root = mtr_span::root("root".to_string(), mtr_span_ctx::new(5, 0), &mut stack, 0);
    for i in 0..7u64 {
        let mut c = mtr_span::enter_with_parent(format!("c{}", i), &root, &mut stack, i);
        c.end(&mut gc, i + 1);
    }
    root.end(&mut gc, 100);
    let bs = batches(&gc);
    assert_eq!(bs.len(), 3);
    assert_eq!(bs[0].len(), 3);
    assert_eq!(bs[1].len(), 3);
    assert_eq!(bs[2].len(), 2);
    assert_eq!(flat(&gc).len(), 8);
}

#[test]
fn empty_batches_are_harmless() {
    let mut stack = LocalStack::new(1);
    let mut gc = collector_with(mtr_coll_cfg::new());
    // an empty collected window pushed into a span adds nothing
    let coll = mtr_loc_coll::start(&mut stack);
    let empty = coll.collect(&mut stack);
    assert_eq!(empty.spans.len(), 0);
    let mut root = mtr_span::root("root".to_string(), mtr_span_ctx::new(5, 0), &mut stack, 0);
    root.push_child_spans(empty);
    // a batch pushed into an inert span is discarded without effect
    let coll2 = mtr_loc_coll::start(&mut stack);
    let batch2 = coll2.collect(&mut stack);
    let mut noop = mtr_span::noop();
    noop.push_child_spans(batch2);
    noop.end(&mut gc, 1);
    root.end(&mut gc, 2);
    mtr_flush(&mut gc);
    assert_eq!(flat(&gc).len(), 1);
}

#[test]
fn ambient_annotations_reach_the_parent_span() {
    // with a local-parent guard installed and no open local span, ambient
    // annotations belong to the installed span itself: they merge into its
    // record when the trace commits
    let mut stack = LocalStack::new(1);
    let mut gc = collector_with(mtr_coll_cfg::new());
    let mut root = mtr_span::root("root".to_string(), mtr_span_ctx::new(5, 0), &mut stack, 0);
    root.with_property("own".to_string(), "1".to_string());
    let guard = root.set_local_parent(&mut stack);
    stack.add_property("amended".to_string(), "2".to_string());
    // a local span opens and closes; afterwards the parent is the target again
    let ls = mtr_loc_span::enter_with_local_parent("ls".to_string(), &mut stack, 1);
    stack.add_property("on_ls".to_string(), "x".to_string());
    ls.exit(&mut stack, 2);
    stack.add_property("amended2".to_string(), "3".to_string());
    stack.add_event("pe".to_string(), Vec::new(), 7);
    guard.release(&mut stack, &mut gc);
    root.end(&mut gc, 10);
    mtr_flush(&mut gc);
    let recs = flat(&gc);
    assert_eq!(recs.len(), 2);
    let root_rec = recs.iter().find(|r| r.name == "root").unwrap();
    // the span's own annotations come first, the amendments after, in order
    assert_eq!(root_rec.properties.len(), 3);
    assert_eq!(root_rec.properties[0].key, "own");
    assert_eq!(root_rec.properties[1].key, "amended");
    assert_eq!(root_rec.properties[1].value, "2");
    assert_eq!(root_rec.properties[2].key, "amended2");
    assert_eq!(root_rec.events.len(), 1);
    assert_eq!(root_rec.events[0].name, "pe");
    assert_eq!(root_rec.events[0].timestamp_ns, 7);
    // the open local span kept its own annotation
    let ls_rec = recs.iter().find(|r| r.name == "ls").unwrap();
    assert_eq!(ls_rec.properties.len(), 1);
    assert_eq!(ls_rec.properties[0].key, "on_ls");
}

#[test]
fn ambient_annotations_reach_a_non_root_parent() {
    let mut stack = LocalStack::new(1);
    let mut gc = collector_with(mtr_coll_cfg::new());
    let mut root = mtr_span::root("root".to_string(), mtr_span_ctx::new(5, 0), &mut stack, 0);
    let mut child = mtr_span::enter_with_parent("child".to_string(), &root, &mut stack, 1);
    let guard = child.set_local_parent(&mut stack);
    stack.add_properties(vec![
        Property { key: "a".to_string(), value: "1".to_string() },
        Property { key: "b".to_string(), value: "2".to_string() },
    ]);
    guard.release(&mut stack, &mut gc);
    child.end(&mut gc, 5);
    root.end(&mut gc, 9);
    mtr_flush(&mut gc);
    let recs = flat(&gc);
    assert_eq!(recs.len(), 2);
    let child_rec = recs.iter().find(|r| r.name == "child").unwrap();
    assert_eq!(child_rec.properties.len(), 2);
    assert_eq!(child_rec.properties[0].key, "a");
    assert_eq!(child_rec.properties[1].key, "b");
}

#[test]
fn late_children_of_a_committed_trace_still_report() {
    let mut stack = LocalStack::new(1);
    let mut gc = collector_with(mtr_coll_cfg::new());
    let mut root = mtr_span::root("root".to_string(), mtr_span_ctx::new(5, 0), &mut stack, 0);
    let mut child = mtr_span::enter_with_parent("c".to_string(), &root, &mut stack, 0);
    root.end(&mut gc, 1);
    // the child outlives its root; its record still reaches the reporter
    child.end(&mut gc, 2);
    mtr_flush(&mut gc);
    let recs = flat(&gc);
    assert_eq!(recs.len(), 2);
    assert!(recs.iter().any(|r| r.name == "c"));
}
