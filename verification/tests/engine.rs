use murk::engine::egress::begin_observation;
use murk::engine::lockstep::step_receipts;
use murk::error::ObsError;
use murk::arena::config::ArenaConfig;
use murk::arena::pingpong::PingPongArena;
use murk::arena::static_arena::StaticArena;
use murk::field::{BoundaryBehavior, FieldDef, FieldMutability, FieldType};
use murk::id::FieldId;
use murk::command::{Command, Receipt};
use murk::engine::config::AsyncConfig;
use murk::engine::epoch::{WorkerEpoch, EPOCH_UNPINNED};
use murk::engine::ingress::IngressQueue;
use murk::engine::realtime::{ShutdownReport, SubmitError};
use murk::engine::ring::SnapshotRing;
use murk::engine::tick::{batch_receipts, TickControl, MAX_CONSECUTIVE_ROLLBACKS};
use murk::engine::tick_thread::check_stalled_workers;
use murk::engine::backoff::RejectionWindow;
use murk::error::{IngressError, PropagatorError, StepError};
use murk::id::{ParameterVersion, TickId};

/// A stand-in for an owned snapshot: the tick it was published at.
#[derive(Debug, PartialEq)]
struct Snap {
    tick: u64,
}

impl Snap {
    fn tick_id(&self) -> TickId {
        TickId(self.tick)
    }
}

fn make_test_snapshot(tick: u64) -> Snap {
    Snap { tick }
}

// ── ring ─────────────────────────────────────────────────────────

#[test]
fn test_ring_new_empty() {
    let ring: SnapshotRing<Snap> = SnapshotRing::new(4);
    assert_eq!(ring.len(), 0);
    assert!(ring.is_empty());
    assert_eq!(ring.capacity(), 4);
    assert_eq!(ring.write_pos(), 0);
    assert!(ring.latest().is_none());
}

#[test]
fn test_ring_push_and_latest() {
    let mut ring = SnapshotRing::new(4);
    ring.push(make_test_snapshot(1));
    assert_eq!(ring.len(), 1);
    assert!(!ring.is_empty());

    let latest = ring.latest().unwrap();
    assert_eq!(latest.tick_id(), TickId(1));
}

#[test]
fn test_ring_eviction() {
    let mut ring = SnapshotRing::new(4);

    for i in 1..=4 {
        let evicted = ring.push(make_test_snapshot(i));
        assert!(evicted.is_none());
    }
    assert_eq!(ring.len(), 4);

    let evicted = ring.push(make_test_snapshot(5));
    assert!(evicted.is_some());
    assert_eq!(evicted.unwrap().tick_id(), TickId(1));
    assert_eq!(ring.len(), 4);
}

#[test]
fn test_ring_latest_is_newest() {
    let mut ring = SnapshotRing::new(4);
    for i in 1..=10 {
        ring.push(make_test_snapshot(i));
    }
    let latest = ring.latest().unwrap();
    assert_eq!(latest.tick_id(), TickId(10));
}

#[test]
fn test_ring_get_by_pos() {
    let mut ring = SnapshotRing::new(4);
    for i in 1..=4 {
        ring.push(make_test_snapshot(i));
    }

    let snap = ring.get_by_pos(0).unwrap();
    assert_eq!(snap.tick_id(), TickId(1));

    let snap = ring.get_by_pos(3).unwrap();
    assert_eq!(snap.tick_id(), TickId(4));

    assert!(ring.get_by_pos(4).is_none());
}

#[test]
fn test_ring_get_evicted_returns_none() {
    let mut ring = SnapshotRing::new(4);
    for i in 1..=8 {
        ring.push(make_test_snapshot(i));
    }
    assert!(ring.get_by_pos(0).is_none());
    assert!(ring.get_by_pos(3).is_none());

    let snap = ring.get_by_pos(4).unwrap();
    assert_eq!(snap.tick_id(), TickId(5));
}

#[test]
fn test_get_by_pos_returns_none_after_concurrent_overwrite() {
    let mut ring = SnapshotRing::new(4);

    for i in 1..=4 {
        ring.push(make_test_snapshot(i));
    }
    assert_eq!(ring.get_by_pos(0).unwrap().tick_id(), TickId(1));

    for i in 5..=8 {
        ring.push(make_test_snapshot(i));
    }

    assert!(ring.get_by_pos(0).is_none());
    assert!(ring.get_by_pos(3).is_none());

    let snap = ring.get_by_pos(4).unwrap();
    assert_eq!(snap.tick_id(), TickId(5));

    let snap = ring.get_by_pos(7).unwrap();
    assert_eq!(snap.tick_id(), TickId(8));
}

#[test]
fn test_get_by_pos_tag_matches_position() {
    let mut ring = SnapshotRing::new(4);

    for i in 1..=4 {
        ring.push(make_test_snapshot(i * 10));
    }

    assert_eq!(ring.get_by_pos(0).unwrap().tick_id(), TickId(10));
    assert_eq!(ring.get_by_pos(1).unwrap().tick_id(), TickId(20));
    assert_eq!(ring.get_by_pos(2).unwrap().tick_id(), TickId(30));
    assert_eq!(ring.get_by_pos(3).unwrap().tick_id(), TickId(40));
}

#[test]
fn ring_retains_exactly_capacity_positions() {
    let mut ring = SnapshotRing::new(3);
    for i in 0..7 {
        ring.push(make_test_snapshot(i));
    }
    assert_eq!(ring.write_pos(), 7);
    for pos in 0..4 {
        assert!(ring.get_by_pos(pos).is_none());
    }
    for pos in 4..7 {
        assert_eq!(ring.get_by_pos(pos).unwrap().tick, pos);
    }
    assert!(ring.get_by_pos(7).is_none());
    assert!(ring.get_by_pos(u64::MAX).is_none());
}

// ── ingress through the tick control ─────────────────────────────

fn cmd(priority: u8, expires: u64) -> Command<u32> {
    Command {
        payload: 0,
        expires_after_tick: TickId(expires),
        source_id: None,
        source_seq: None,
        priority_class: priority,
        arrival_seq: 0,
    }
}

fn rollback(control: &mut TickControl<u32>, receipts: Vec<Receipt>, start: usize) -> murk::engine::tick::TickError {
    control.record_rollback(
        "failing".to_string(),
        PropagatorError::ExecutionFailed { reason: "boom".to_string() },
        receipts,
        start,
    )
}

#[test]
fn tick_control_starts_fresh() {
    let control: TickControl<u32> = TickControl::new(8);
    assert_eq!(control.current_tick(), TickId(0));
    assert_eq!(control.param_version(), ParameterVersion(0));
    assert!(!control.is_tick_disabled());
    assert_eq!(control.consecutive_rollback_count(), 0);
    assert_eq!(control.pending_commands(), 0);
    assert_eq!(control.begin_tick().unwrap(), TickId(1));
}

#[test]
fn rollbacks_disable_ticking_after_the_limit() {
    let mut control: TickControl<u32> = TickControl::new(8);
    for n in 1..=MAX_CONSECUTIVE_ROLLBACKS {
        let next = control.begin_tick().unwrap();
        assert_eq!(next, TickId(1));
        let err = rollback(&mut control, vec![], 0);
        assert!(matches!(err.kind, StepError::PropagatorFailed { .. }));
        assert_eq!(control.consecutive_rollback_count(), n);
    }
    assert!(control.is_tick_disabled());
    let err = control.begin_tick().unwrap_err();
    assert_eq!(err.kind, StepError::TickDisabled);
    assert!(err.receipts.is_empty());

    // While disabled, every command is rejected.
    let receipts = control.submit_commands(vec![cmd(1, 100), cmd(1, 100)]);
    assert!(receipts.iter().all(|r| !r.accepted && r.reason_code == Some(IngressError::TickDisabled)));
    assert_eq!(control.pending_commands(), 0);

    control.reset();
    assert!(!control.is_tick_disabled());
    assert_eq!(control.consecutive_rollback_count(), 0);
}

#[test]
fn success_resets_the_rollback_count() {
    let mut control: TickControl<u32> = TickControl::new(8);
    let _ = rollback(&mut control, vec![], 0);
    let _ = rollback(&mut control, vec![], 0);
    assert_eq!(control.consecutive_rollback_count(), 2);
    let next = control.begin_tick().unwrap();
    let mut receipts = vec![];
    control.record_success(next, &mut receipts, 0);
    assert_eq!(control.consecutive_rollback_count(), 0);
    assert_eq!(control.current_tick(), TickId(1));
}

#[test]
fn rollback_marks_accepted_receipts_and_keeps_rejections() {
    let mut control: TickControl<u32> = TickControl::new(8);
    control.submit_commands(vec![cmd(1, 0), cmd(1, 100), cmd(1, 100)]);
    let next = control.begin_tick().unwrap();
    let drain = control.drain(next);
    // The first command expired after tick 0; the other two are drained.
    assert_eq!(drain.expired_receipts.len(), 1);
    let receipts = batch_receipts(&drain, &vec![true, false]);
    assert_eq!(receipts.len(), 3);
    assert_eq!(receipts[0].reason_code, Some(IngressError::Stale));
    assert!(receipts[1].accepted);
    assert_eq!(receipts[2].reason_code, Some(IngressError::UnsupportedCommand));

    let err = rollback(&mut control, receipts, 1);
    assert_eq!(
        err.kind,
        StepError::PropagatorFailed {
            name: "failing".to_string(),
            reason: PropagatorError::ExecutionFailed { reason: "boom".to_string() },
        }
    );
    // The stale receipt before the accepted range stays as it was.
    assert_eq!(err.receipts[0].reason_code, Some(IngressError::Stale));
    // The accepted one now carries TickRollback and no tick.
    assert!(err.receipts[1].accepted);
    assert_eq!(err.receipts[1].reason_code, Some(IngressError::TickRollback));
    assert_eq!(err.receipts[1].applied_tick_id, None);
    // The rejected one keeps its reason.
    assert!(!err.receipts[2].accepted);
    assert_eq!(err.receipts[2].reason_code, Some(IngressError::UnsupportedCommand));
}

#[test]
fn success_applies_accepted_receipts_at_the_tick() {
    let mut control: TickControl<u32> = TickControl::new(8);
    control.submit_commands(vec![cmd(2, 100), cmd(0, 100)]);
    let next = control.begin_tick().unwrap();
    let drain = control.drain(next);
    // Drained in priority order: index 1 (priority 0), then index 0.
    assert_eq!(drain.commands[0].command_index, 1);
    assert_eq!(drain.commands[1].command_index, 0);
    let mut receipts = batch_receipts(&drain, &vec![true, false]);
    control.record_success(next, &mut receipts, 0);
    assert_eq!(receipts[0].command_index, 1);
    assert_eq!(receipts[0].applied_tick_id, Some(TickId(1)));
    assert_eq!(receipts[1].command_index, 0);
    assert_eq!(receipts[1].applied_tick_id, None);
    assert_eq!(control.pending_commands(), 0);
}

#[test]
fn reset_clears_pending_commands() {
    let mut control: TickControl<u32> = TickControl::new(8);
    control.submit_commands(vec![cmd(1, 100)]);
    assert_eq!(control.pending_commands(), 1);
    control.reset();
    assert_eq!(control.pending_commands(), 0);
    assert_eq!(control.current_tick(), TickId(0));
}

#[test]
fn ingress_len_after_mixed_batches() {
    let mut q: IngressQueue<u32> = IngressQueue::new(2);
    let r = q.submit(vec![cmd(1, 1)], false);
    assert!(r[0].accepted);
    let r = q.submit(vec![cmd(1, 1), cmd(1, 1)], false);
    assert!(r[0].accepted);
    assert!(!r[1].accepted);
    assert_eq!(q.len(), 2);
}

// ── configuration and realtime outcomes ──────────────────────────

#[test]
fn async_config_resolved_worker_count_clamps_zero() {
    let cfg = AsyncConfig { worker_count: Some(0), ..AsyncConfig::default() };
    assert_eq!(cfg.resolved_worker_count(None), 1);
}

#[test]
fn async_config_resolved_worker_count_clamps_large() {
    let cfg = AsyncConfig { worker_count: Some(200), ..AsyncConfig::default() };
    assert_eq!(cfg.resolved_worker_count(None), 64);
}

#[test]
fn async_config_resolved_worker_count_auto() {
    let cfg = AsyncConfig::default();
    for cpus in [None, Some(1), Some(4), Some(8), Some(64), Some(1000)] {
        let count = cfg.resolved_worker_count(cpus);
        assert!((2..=16).contains(&count), "auto count {count} out of [2,16]");
    }
    assert_eq!(cfg.resolved_worker_count(Some(12)), 6);
    assert_eq!(cfg.resolved_worker_count(None), 2);
}

#[test]
fn async_config_defaults() {
    let cfg = AsyncConfig::default();
    assert_eq!(cfg.worker_count, None);
    assert_eq!(cfg.max_epoch_hold_ms, 100);
    assert_eq!(cfg.cancel_grace_ms, 10);
}

#[test]
fn submit_error_messages() {
    assert_eq!(SubmitError::Shutdown.message(), "tick thread has shut down");
    assert_eq!(SubmitError::ChannelFull.message(), "command channel full");
}

#[test]
fn shutdown_of_dropped_world_reports_nothing_to_do() {
    let r = ShutdownReport::already_dropped();
    assert_eq!(r.total_ms, 0);
    assert_eq!(r.drain_ms, 0);
    assert_eq!(r.quiesce_ms, 0);
    assert!(r.tick_joined);
    assert_eq!(r.workers_joined, 0);
}

// ── stalled workers ──────────────────────────────────────────────

#[test]
fn stalled_workers_are_cancelled_then_unpinned() {
    let mut workers: Vec<WorkerEpoch> = (0..4).map(|i| WorkerEpoch::new(i, 0)).collect();
    workers[0].pin(1, 1_000); // held 9_000 at t=10_000: over the grace period
    workers[1].pin(1, 5_000); // held 5_000: stalled, within grace
    workers[2].pin(1, 9_500); // held 500: fine
    // workers[3] is not pinned.
    let had = check_stalled_workers(&mut workers, 10_000, 1_000, 5_000);
    assert!(had);
    assert!(!workers[0].is_pinned());
    assert_eq!(workers[0].pinned_epoch(), EPOCH_UNPINNED);
    assert!(!workers[0].is_cancelled());
    assert_eq!(workers[0].last_quiesce_ns(), 10_000);
    assert!(workers[1].is_pinned());
    assert!(workers[1].is_cancelled());
    assert!(workers[2].is_pinned());
    assert!(!workers[2].is_cancelled());
    assert!(!workers[3].is_pinned());
    assert!(!workers[3].is_cancelled());

    // Nothing overdue: no rejection.
    let had = check_stalled_workers(&mut workers, 10_000, 1_000, 5_000);
    assert!(!had);
}

#[test]
fn rejection_window_counts_recent_rejections() {
    let mut w = RejectionWindow::new(4);
    assert_eq!(w.len(), 4);
    w.push(true);
    w.push(false);
    w.push(true);
    assert_eq!(w.count(), 2);
    w.push(true);
    w.push(false); // overwrites the first entry (true)
    assert_eq!(w.count(), 2);
}

#[test]
fn rejection_window_tracks_rate() {
    let mut window = RejectionWindow::new(10);
    let rate = |w: &RejectionWindow| w.count() as f64 / w.len() as f64;
    // 3 out of 10 = 0.3
    for i in 0..10u32 {
        window.push(i < 3);
    }
    assert!((rate(&window) - 0.3).abs() < 1e-10);

    // Push 10 non-rejections: rate drops to 0.
    for _ in 0..10 {
        window.push(false);
    }
    assert!((rate(&window)).abs() < 1e-10);
}

#[test]
fn ring_holds_owned_arena_snapshots() {
    let defs = vec![(
        FieldId(0),
        FieldDef {
            name: "energy".into(),
            field_type: FieldType::Scalar,
            mutability: FieldMutability::PerTick,
            units: None,
            boundary_behavior: BoundaryBehavior::Clamp,
        },
    )];
    let static_arena = StaticArena::new(&[], 0.0f32).into_shared();
    let mut arena = PingPongArena::new(ArenaConfig::new(10), defs, static_arena, 0.0).unwrap();
    let mut ring = SnapshotRing::new(2);
    for tick in 1..=3u64 {
        arena.begin_tick().unwrap();
        assert!(arena.write_field(FieldId(0), 0, &[tick as f32; 10]));
        arena.publish(TickId(tick), ParameterVersion(0)).unwrap();
        ring.push(arena.owned_snapshot());
    }
    let latest = ring.latest().unwrap();
    assert_eq!(latest.tick_id(), TickId(3));
    assert_eq!(latest.read_field(FieldId(0)).unwrap()[9], 3.0);
    assert!(ring.get_by_pos(0).is_none());
    assert_eq!(ring.get_by_pos(1).unwrap().tick_id(), TickId(2));
}

#[test]
fn egress_worker_cancelled_before_execution() {
    let mut ring: SnapshotRing<Snap> = SnapshotRing::new(2);
    ring.push(make_test_snapshot(1));
    let mut worker = WorkerEpoch::new(0, 1);
    worker.request_cancel();
    let r = begin_observation(&mut worker, &ring, 5, 10);
    assert_eq!(
        r.unwrap_err(),
        ObsError::ExecutionFailed { reason: "worker cancelled before execution".to_string() }
    );
    assert!(!worker.is_cancelled());
    assert!(!worker.is_pinned());
}

#[test]
fn egress_worker_without_snapshot_fails() {
    let ring: SnapshotRing<Snap> = SnapshotRing::new(2);
    let mut worker = WorkerEpoch::new(0, 1);
    let r = begin_observation(&mut worker, &ring, 5, 10);
    assert_eq!(r.unwrap_err(), ObsError::ExecutionFailed { reason: "no snapshot available".to_string() });
    assert!(!worker.is_pinned());
}

#[test]
fn egress_worker_pins_and_reads_latest() {
    let mut ring: SnapshotRing<Snap> = SnapshotRing::new(2);
    ring.push(make_test_snapshot(1));
    ring.push(make_test_snapshot(2));
    let mut worker = WorkerEpoch::new(0, 1);
    let snap = begin_observation(&mut worker, &ring, 5, 10).unwrap();
    assert_eq!(snap.tick_id(), TickId(2));
    assert_eq!(worker.pinned_epoch(), 5);
    assert_eq!(worker.pin_start_ns(), 10);
    worker.unpin(20);
    assert!(!worker.is_pinned());
}

#[test]
fn lockstep_step_receipts_keep_rejections_then_tick_receipts() {
    let r = |accepted: bool, index: usize, reason: Option<IngressError>| Receipt {
        accepted,
        applied_tick_id: None,
        reason_code: reason,
        command_index: index,
    };
    let submitted = vec![r(true, 0, None), r(false, 1, Some(IngressError::QueueFull)), r(true, 2, None)];
    let from_tick = vec![r(true, 0, None), r(true, 2, None)];
    let out = step_receipts(submitted, from_tick);
    assert_eq!(out.len(), 3);
    assert_eq!(out[0].command_index, 1);
    assert_eq!(out[0].reason_code, Some(IngressError::QueueFull));
    assert_eq!(out[1].command_index, 0);
    assert_eq!(out[2].command_index, 2);
}

#[test]
fn ingress_error_messages() {
    assert_eq!(IngressError::QueueFull.message(), "command queue full");
    assert_eq!(IngressError::Stale.message(), "command basis_tick_id is stale");
    assert_eq!(IngressError::UnsupportedCommand.message(), "command type not supported");
}
