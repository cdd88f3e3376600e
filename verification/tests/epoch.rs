use murk::engine::epoch::{min_pinned_epoch, EpochCounter, WorkerEpoch, EPOCH_UNPINNED};

fn now_ns() -> u64 {
    std::time::SystemTime::now()
        .duration_since(std::time::UNIX_EPOCH)
        .unwrap()
        .as_nanos() as u64
}

#[test]
fn test_epoch_advance() {
    let mut counter = EpochCounter::new();
    assert_eq!(counter.current(), 0);
    assert_eq!(counter.advance(), 1);
    assert_eq!(counter.advance(), 2);
    assert_eq!(counter.advance(), 3);
    assert_eq!(counter.current(), 3);

    // Monotonicity: each advance returns a strictly larger value.
    let mut prev = counter.current();
    for _ in 0..100 {
        let next = counter.advance();
        assert!(next > prev);
        prev = next;
    }
}

#[test]
fn test_worker_pin_unpin() {
    let mut worker = WorkerEpoch::new(0, now_ns());

    // Starts unpinned, with a seeded quiesce timestamp.
    assert!(!worker.is_pinned());
    assert_eq!(worker.pinned_epoch(), EPOCH_UNPINNED);
    let initial_quiesce = worker.last_quiesce_ns();
    assert!(initial_quiesce > 0, "quiesce time should be seeded at creation");

    // Pin to epoch 5.
    worker.pin(5, now_ns());
    assert!(worker.is_pinned());
    assert_eq!(worker.pinned_epoch(), 5);

    // Unpin — stores MAX and updates quiesce timestamp.
    worker.unpin(now_ns());
    assert!(!worker.is_pinned());
    assert_eq!(worker.pinned_epoch(), EPOCH_UNPINNED);
    assert!(worker.last_quiesce_ns() >= initial_quiesce);
}

#[test]
fn test_min_pinned_no_workers() {
    let workers: Vec<WorkerEpoch> = vec![];
    assert_eq!(min_pinned_epoch(&workers), EPOCH_UNPINNED);
}

#[test]
fn test_min_pinned_mixed() {
    let mut workers: Vec<WorkerEpoch> = (0..4).map(|i| WorkerEpoch::new(i, now_ns())).collect();

    // Workers 0 and 2 are pinned, 1 and 3 are unpinned.
    workers[0].pin(10, now_ns());
    workers[2].pin(5, now_ns());

    assert_eq!(min_pinned_epoch(&workers), 5);

    // Unpin worker 2 — min should now be 10.
    workers[2].unpin(now_ns());
    assert_eq!(min_pinned_epoch(&workers), 10);

    // Unpin worker 0 — all unpinned, result is EPOCH_UNPINNED.
    workers[0].unpin(now_ns());
    assert_eq!(min_pinned_epoch(&workers), EPOCH_UNPINNED);
}

#[test]
fn test_cancel_flag() {
    let mut worker = WorkerEpoch::new(0, now_ns());

    assert!(!worker.is_cancelled());

    worker.request_cancel();
    assert!(worker.is_cancelled());

    worker.clear_cancel();
    assert!(!worker.is_cancelled());
}

#[test]
fn pin_start_ns_tracks_pin_time() {
    let mut worker = WorkerEpoch::new(0, 1_000);

    // pin_start_ns is seeded at construction (not zero).
    let initial = worker.pin_start_ns();
    assert_eq!(initial, 1_000);

    // Pinning later moves pin_start_ns forward.
    worker.pin(42, 6_000);
    let after_pin = worker.pin_start_ns();
    assert!(after_pin > initial);

    // Unpin does not change pin_start_ns (only last_quiesce_ns).
    worker.unpin(9_000);
    assert_eq!(worker.pin_start_ns(), after_pin);
    assert_eq!(worker.last_quiesce_ns(), 9_000);
}

#[test]
fn min_pinned_is_minimum_over_pinned_workers() {
    let mut workers: Vec<WorkerEpoch> = (0..3).map(|i| WorkerEpoch::new(i, 1)).collect();
    workers[0].pin(7, 2);
    workers[1].pin(3, 2);
    workers[2].pin(9, 2);
    assert_eq!(min_pinned_epoch(&workers), 3);
}
