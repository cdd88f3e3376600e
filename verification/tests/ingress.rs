use murk::command::Command;
use murk::engine::ingress::IngressQueue;
use murk::error::IngressError;
use murk::id::{ParameterKey, TickId};

/// The payload the queue carries in these tests; the queue never reads it.
#[derive(Clone, Debug, PartialEq)]
enum Payload {
    SetParameter { key: ParameterKey, value: f64 },
}

fn make_cmd(priority: u8, expires: u64) -> Command<Payload> {
    Command {
        payload: Payload::SetParameter {
            key: ParameterKey(0),
            value: 0.0,
        },
        expires_after_tick: TickId(expires),
        source_id: None,
        source_seq: None,
        priority_class: priority,
        arrival_seq: 0,
    }
}

fn make_sourced_cmd(priority: u8, source_id: u64, source_seq: u64, expires: u64) -> Command<Payload> {
    Command {
        payload: Payload::SetParameter {
            key: ParameterKey(0),
            value: 0.0,
        },
        expires_after_tick: TickId(expires),
        source_id: Some(source_id),
        source_seq: Some(source_seq),
        priority_class: priority,
        arrival_seq: 0,
    }
}

// ── submit tests ───────────────────────────────────────────

#[test]
fn submit_assigns_monotonic_arrival_seq() {
    let mut q = IngressQueue::new(10);
    let cmds = vec![make_cmd(1, 100), make_cmd(1, 100), make_cmd(1, 100)];
    let receipts = q.submit(cmds, false);
    assert_eq!(receipts.len(), 3);
    assert!(receipts.iter().all(|r| r.accepted));

    // Drain and check arrival_seq 0, 1, 2
    let result = q.drain(TickId(0));
    assert_eq!(result.commands[0].command.arrival_seq, 0);
    assert_eq!(result.commands[1].command.arrival_seq, 1);
    assert_eq!(result.commands[2].command.arrival_seq, 2);
}

#[test]
fn submit_rejects_when_full() {
    let mut q = IngressQueue::new(2);
    let cmds = vec![make_cmd(1, 100), make_cmd(1, 100), make_cmd(1, 100)];
    let receipts = q.submit(cmds, false);
    assert!(receipts[0].accepted);
    assert!(receipts[1].accepted);
    assert!(!receipts[2].accepted);
    assert_eq!(receipts[2].reason_code, Some(IngressError::QueueFull));
}

#[test]
fn submit_rejects_when_tick_disabled() {
    let mut q = IngressQueue::new(10);
    let cmds = vec![make_cmd(1, 100), make_cmd(1, 100)];
    let receipts = q.submit(cmds, true);
    assert!(!receipts[0].accepted);
    assert_eq!(receipts[0].reason_code, Some(IngressError::TickDisabled));
    assert!(!receipts[1].accepted);
    assert_eq!(receipts[1].reason_code, Some(IngressError::TickDisabled));
    assert!(q.is_empty());
}

#[test]
fn submit_partial_accept_on_overflow() {
    let mut q = IngressQueue::new(3);
    let cmds = vec![
        make_cmd(1, 100),
        make_cmd(1, 100),
        make_cmd(1, 100),
        make_cmd(1, 100),
        make_cmd(1, 100),
    ];
    let receipts = q.submit(cmds, false);
    assert_eq!(receipts.len(), 5);
    assert!(receipts[0].accepted);
    assert!(receipts[1].accepted);
    assert!(receipts[2].accepted);
    assert!(!receipts[3].accepted);
    assert_eq!(receipts[3].reason_code, Some(IngressError::QueueFull));
    assert!(!receipts[4].accepted);
    assert_eq!(receipts[4].reason_code, Some(IngressError::QueueFull));
    assert_eq!(q.len(), 3);
}

#[test]
fn arrival_seq_persists_across_submits() {
    let mut q = IngressQueue::new(10);
    q.submit(vec![make_cmd(1, 100), make_cmd(1, 100)], false);
    q.submit(vec![make_cmd(1, 100)], false);
    let result = q.drain(TickId(0));
    assert_eq!(result.commands[0].command.arrival_seq, 0);
    assert_eq!(result.commands[1].command.arrival_seq, 1);
    assert_eq!(result.commands[2].command.arrival_seq, 2);
}

#[test]
fn receipt_command_index_matches_input() {
    let mut q = IngressQueue::new(10);
    let cmds = vec![make_cmd(1, 100), make_cmd(1, 100), make_cmd(1, 100)];
    let receipts = q.submit(cmds, false);
    assert_eq!(receipts[0].command_index, 0);
    assert_eq!(receipts[1].command_index, 1);
    assert_eq!(receipts[2].command_index, 2);
}

// ── drain tests ────────────────────────────────────────────

#[test]
fn drain_removes_expired_commands() {
    let mut q = IngressQueue::new(10);
    // Expires after tick 3 → expired at tick 4
    q.submit(vec![make_cmd(1, 3)], false);
    let result = q.drain(TickId(4));
    assert!(result.commands.is_empty());
    assert_eq!(result.expired_receipts.len(), 1);
    assert_eq!(
        result.expired_receipts[0].reason_code,
        Some(IngressError::Stale)
    );
}

#[test]
fn drain_keeps_valid_commands() {
    let mut q = IngressQueue::new(10);
    // Expires after tick 10 → valid at tick 5
    q.submit(vec![make_cmd(1, 10)], false);
    let result = q.drain(TickId(5));
    assert_eq!(result.commands.len(), 1);
    assert!(result.expired_receipts.is_empty());
}

#[test]
fn drain_boundary_expires_after_equals_current() {
    let mut q = IngressQueue::new(10);
    // expires_after_tick == 5, drain at tick 5 → VALID (still on that tick)
    q.submit(vec![make_cmd(1, 5)], false);
    let result = q.drain(TickId(5));
    assert_eq!(result.commands.len(), 1);
    assert!(result.expired_receipts.is_empty());
}

#[test]
fn drain_sorts_by_priority() {
    let mut q = IngressQueue::new(10);
    q.submit(
        vec![make_cmd(2, 100), make_cmd(0, 100), make_cmd(1, 100)],
        false,
    );
    let result = q.drain(TickId(0));
    assert_eq!(result.commands[0].command.priority_class, 0);
    assert_eq!(result.commands[1].command.priority_class, 1);
    assert_eq!(result.commands[2].command.priority_class, 2);
}

#[test]
fn drain_sorts_by_source_within_priority() {
    let mut q = IngressQueue::new(10);
    q.submit(
        vec![
            make_sourced_cmd(1, 10, 2, 100),
            make_sourced_cmd(1, 10, 1, 100),
            make_sourced_cmd(1, 5, 0, 100),
        ],
        false,
    );
    let result = q.drain(TickId(0));
    // source_id 5 < 10, so it comes first
    assert_eq!(result.commands[0].command.source_id, Some(5));
    assert_eq!(result.commands[0].command.source_seq, Some(0));
    // Then source_id 10 seq 1 before seq 2
    assert_eq!(result.commands[1].command.source_id, Some(10));
    assert_eq!(result.commands[1].command.source_seq, Some(1));
    assert_eq!(result.commands[2].command.source_id, Some(10));
    assert_eq!(result.commands[2].command.source_seq, Some(2));
}

#[test]
fn drain_sorts_by_arrival_seq_when_no_source() {
    let mut q = IngressQueue::new(10);
    // All same priority, no source → sorted by arrival_seq
    q.submit(
        vec![make_cmd(1, 100), make_cmd(1, 100), make_cmd(1, 100)],
        false,
    );
    let result = q.drain(TickId(0));
    assert_eq!(result.commands[0].command.arrival_seq, 0);
    assert_eq!(result.commands[1].command.arrival_seq, 1);
    assert_eq!(result.commands[2].command.arrival_seq, 2);
}

#[test]
fn drain_mixed_source_and_no_source() {
    let mut q = IngressQueue::new(10);
    q.submit(
        vec![
            make_cmd(1, 100),               // no source → source_id=MAX
            make_sourced_cmd(1, 5, 0, 100), // source_id=5
        ],
        false,
    );
    let result = q.drain(TickId(0));
    // source_id 5 < u64::MAX, so sourced command comes first
    assert_eq!(result.commands[0].command.source_id, Some(5));
    assert_eq!(result.commands[1].command.source_id, None);
}

#[test]
fn drain_empty_queue() {
    let mut q: IngressQueue<Payload> = IngressQueue::new(10);
    let result = q.drain(TickId(0));
    assert!(result.commands.is_empty());
    assert!(result.expired_receipts.is_empty());
}

#[test]
fn drain_all_expired() {
    let mut q = IngressQueue::new(10);
    q.submit(vec![make_cmd(1, 0), make_cmd(1, 1), make_cmd(1, 2)], false);
    let result = q.drain(TickId(10));
    assert!(result.commands.is_empty());
    assert_eq!(result.expired_receipts.len(), 3);
}

#[test]
fn drain_expired_receipts_preserve_command_index() {
    let mut q = IngressQueue::new(10);
    // Submit a batch of 4 commands; the middle two will expire.
    q.submit(
        vec![
            make_cmd(1, 100), // index 0 — valid
            make_cmd(1, 2),   // index 1 — expires at tick 3
            make_cmd(1, 1),   // index 2 — expires at tick 3
            make_cmd(1, 100), // index 3 — valid
        ],
        false,
    );
    let result = q.drain(TickId(3));
    assert_eq!(result.commands.len(), 2);
    assert_eq!(result.expired_receipts.len(), 2);
    // Expired receipts carry their initial batch indices, not 0.
    assert_eq!(result.expired_receipts[0].command_index, 1);
    assert_eq!(result.expired_receipts[1].command_index, 2);
}

#[test]
fn drain_expired_receipts_across_batches() {
    let mut q = IngressQueue::new(10);
    // Batch 1: indices 0, 1
    q.submit(vec![make_cmd(1, 0), make_cmd(1, 100)], false);
    // Batch 2: indices 0, 1 (new batch, indices reset)
    q.submit(vec![make_cmd(1, 100), make_cmd(1, 0)], false);
    let result = q.drain(TickId(5));
    assert_eq!(result.commands.len(), 2);
    assert_eq!(result.expired_receipts.len(), 2);
    // First expired came from batch 1 index 0
    assert_eq!(result.expired_receipts[0].command_index, 0);
    // Second expired came from batch 2 index 1
    assert_eq!(result.expired_receipts[1].command_index, 1);
}

#[test]
fn drain_clears_queue() {
    let mut q = IngressQueue::new(10);
    q.submit(vec![make_cmd(1, 100), make_cmd(1, 100)], false);
    assert_eq!(q.len(), 2);
    let _ = q.drain(TickId(0));
    assert!(q.is_empty());
}


#[test]
fn submit_overwrites_caller_arrival_seq() {
    let mut q = IngressQueue::new(4);
    let mut c = make_cmd(1, 100);
    c.arrival_seq = 999;
    q.submit(vec![c], false);
    let result = q.drain(TickId(0));
    assert_eq!(result.commands[0].command.arrival_seq, 0);
}

#[test]
fn drain_order_priority_then_source_then_arrival() {
    let mut q = IngressQueue::new(10);
    q.submit(
        vec![
            make_cmd(1, 100),                // arrival 0, anonymous
            make_sourced_cmd(1, 7, 3, 100),  // arrival 1
            make_sourced_cmd(0, 9, 9, 100),  // arrival 2, system priority
            make_cmd(1, 100),                // arrival 3, anonymous
            make_sourced_cmd(1, 7, 1, 100),  // arrival 4
        ],
        false,
    );
    let result = q.drain(TickId(0));
    let order: Vec<usize> = result.commands.iter().map(|c| c.command_index).collect();
    assert_eq!(order, vec![2, 4, 1, 0, 3]);
}

#[test]
fn capacity_and_clear() {
    let mut q = IngressQueue::new(3);
    assert_eq!(q.capacity(), 3);
    q.submit(vec![make_cmd(1, 100), make_cmd(1, 100)], false);
    q.clear();
    assert!(q.is_empty());
    assert_eq!(q.capacity(), 3);
    // The arrival counter survives a clear.
    q.submit(vec![make_cmd(1, 100)], false);
    let result = q.drain(TickId(0));
    assert_eq!(result.commands[0].command.arrival_seq, 2);
}

#[test]
fn full_queue_accepts_again_after_drain() {
    let mut q = IngressQueue::new(1);
    let r = q.submit(vec![make_cmd(1, 100), make_cmd(1, 100)], false);
    assert!(r[0].accepted);
    assert_eq!(r[1].reason_code, Some(IngressError::QueueFull));
    let _ = q.drain(TickId(0));
    let r = q.submit(vec![make_cmd(1, 100)], false);
    assert!(r[0].accepted);
    assert_eq!(r[0].applied_tick_id, None);
}
