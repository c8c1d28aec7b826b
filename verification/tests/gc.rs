use tracer::gc::{GarbageCollector, SWEEP_INTERVAL_MS};
use tracer::span::SpanStore;

#[test]
fn pinned_handle_survives_a_sweep_and_goes_with_the_next() {
    let mut store = SpanStore::new();
    let mut gc = GarbageCollector::new();
    let h = store.new_span();
    store.set_trace_id(h, 77).unwrap();

    gc.keep(&h);
    gc.recycle(&h);
    gc.sweep(&mut store);
    assert!(store.contains(h));
    assert_eq!(store.get_trace_id(h), Ok(77));
    assert!(gc.is_garbage(&h));
    assert!(gc.is_kept(&h));

    gc.release(&h);
    assert!(!gc.is_kept(&h));
    gc.sweep(&mut store);
    assert!(!store.contains(h));
    assert!(!gc.is_garbage(&h));
}

#[test]
fn sweep_frees_exactly_the_queued_and_unpinned() {
    let mut store = SpanStore::new();
    let mut gc = GarbageCollector::new();
    let a = store.new_span();
    let b = store.new_span();
    let c = store.new_span();
    let d = store.new_span();
    gc.recycle(&a);
    gc.recycle(&b);
    gc.recycle(&c);
    gc.keep(&b);
    gc.keep(&d);

    gc.sweep(&mut store);
    assert!(!store.contains(a));
    assert!(store.contains(b));
    assert!(!store.contains(c));
    assert!(store.contains(d));
    assert!(!gc.is_garbage(&a));
    assert!(gc.is_garbage(&b));
    assert!(!gc.is_garbage(&c));
    assert!(!gc.is_garbage(&d));
    assert_eq!(store.len(), 2);

    let mut reused = vec![store.new_span(), store.new_span()];
    reused.sort();
    assert_eq!(reused, vec![a, c]);
    assert_eq!(store.new_span(), 5);
}

#[test]
fn sweep_passes_over_handles_that_address_nothing() {
    let mut store = SpanStore::new();
    let mut gc = GarbageCollector::new();
    let h = store.new_span();
    gc.recycle(&99);
    gc.recycle(&h);
    store.remove_span(&h);
    gc.sweep(&mut store);
    assert!(!gc.is_garbage(&99));
    assert!(!gc.is_garbage(&h));
    assert_eq!(store.len(), 0);
    assert_eq!(store.new_span(), h);
    assert_eq!(store.new_span(), 2);
}

#[test]
fn marking_twice_is_marking_once() {
    let mut store = SpanStore::new();
    let mut gc = GarbageCollector::new();
    let h = store.new_span();
    gc.recycle(&h);
    gc.recycle(&h);
    gc.sweep(&mut store);
    assert!(!store.contains(h));
    assert_eq!(store.new_span(), h);
    assert_eq!(store.new_span(), 2);
}

#[test]
fn one_release_undoes_any_number_of_pins() {
    let mut gc = GarbageCollector::new();
    gc.keep(&4);
    gc.keep(&4);
    assert!(gc.is_kept(&4));
    gc.release(&4);
    assert!(!gc.is_kept(&4));
    gc.release(&4);
    assert!(!gc.is_kept(&4));
}

#[test]
fn start_and_stop_are_idempotent() {
    let mut gc = GarbageCollector::new();
    assert!(!gc.is_started());
    assert!(!gc.stop());
    assert!(!gc.is_started());

    assert!(gc.start());
    assert!(gc.is_started());
    assert!(!gc.start());
    assert!(gc.is_started());

    assert!(gc.stop());
    assert!(!gc.is_started());
    assert!(!gc.stop());

    assert!(gc.start());
    assert!(gc.is_started());
}

#[test]
fn wake_sweeps_only_while_running() {
    let mut store = SpanStore::new();
    let mut gc = GarbageCollector::new();
    let h = store.new_span();
    gc.recycle(&h);

    assert!(!gc.wake(&mut store));
    assert!(store.contains(h));
    assert!(gc.is_garbage(&h));

    gc.start();
    assert!(gc.wake(&mut store));
    assert!(!store.contains(h));
    assert!(!gc.is_garbage(&h));
}

#[test]
fn stop_abandons_what_is_queued_until_the_next_start() {
    let mut store = SpanStore::new();
    let mut gc = GarbageCollector::new();
    let h = store.new_span();
    gc.start();
    gc.recycle(&h);
    gc.stop();
    assert!(!gc.wake(&mut store));
    assert!(store.contains(h));
    assert!(gc.is_garbage(&h));

    gc.start();
    assert!(gc.wake(&mut store));
    assert!(!store.contains(h));
}

#[test]
fn sweep_interval_is_one_second() {
    assert_eq!(SWEEP_INTERVAL_MS, 1000);
}
