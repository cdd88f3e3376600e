//! Bounded ingress queue with deterministic ordering and TTL evaluation.
//!
//! Commands are drained in the order of the composite key
//! `(priority_class, source_id|MAX, source_seq|MAX, arrival_seq)`: lower
//! priority classes first; within a class, source-keyed commands before
//! anonymous ones, in source and sequence order; anonymous ones in
//! arrival order.
use vstd::prelude::*;

use crate::command::{Command, Receipt};
use crate::error::IngressError;
use crate::id::TickId;

verus! {

broadcast use vstd::seq_lib::group_to_multiset_ensures;

/// A command paired with its initial batch-local index from `submit()`.
#[derive(Debug)]
pub struct DrainedCommand<P> {
    /// The command to execute.
    pub command: Command<P>,
    /// The initial batch-local index from the `submit()` call.
    pub command_index: usize,
}

/// Result of draining the queue at the start of a tick.
#[derive(Debug)]
pub struct DrainResult<P> {
    /// Commands that passed TTL checks, sorted in deterministic order.
    pub commands: Vec<DrainedCommand<P>>,
    /// Receipts for commands that expired before reaching the current tick.
    pub expired_receipts: Vec<Receipt>,
}

/// `v`, or `u64::MAX` when absent.
pub open spec fn or_max(v: Option<u64>) -> u64 {
    match v {
        Some(x) => x,
        None => u64::MAX,
    }
}

/// The ordering key of a command.
pub open spec fn order_key<P>(c: Command<P>) -> (u8, u64, u64, u64) {
    (c.priority_class, or_max(c.source_id), or_max(c.source_seq), c.arrival_seq)
}

/// Strict lexicographic order on ordering keys.
pub open spec fn key_precedes(a: (u8, u64, u64, u64), b: (u8, u64, u64, u64)) -> bool {
    ||| a.0 < b.0
    ||| a.0 == b.0 && a.1 < b.1
    ||| a.0 == b.0 && a.1 == b.1 && a.2 < b.2
    ||| a.0 == b.0 && a.1 == b.1 && a.2 == b.2 && a.3 < b.3
}

/// Every command strictly precedes the ones after it.
pub open spec fn in_drain_order<P>(s: Seq<DrainedCommand<P>>) -> bool {
    forall|i: int, j: int|
        0 <= i < j < s.len() ==> key_precedes(
            order_key(#[trigger] s[i].command),
            order_key(#[trigger] s[j].command),
        )
}

/// Arrival sequence numbers increase strictly along `s`.
pub open spec fn arrivals_increasing<P>(s: Seq<DrainedCommand<P>>) -> bool {
    forall|i: int, j: int|
        0 <= i < j < s.len() ==> (#[trigger] s[i]).command.arrival_seq < (
        #[trigger] s[j]).command.arrival_seq
}

/// Whether a command has expired by `tick`: its last valid tick is earlier.
pub open spec fn is_expired<P>(c: Command<P>, tick: u64) -> bool {
    c.expires_after_tick.0 < tick
}

/// A receipt with the given acceptance, reason and index, applied at no tick.
pub open spec fn receipt(accepted: bool, reason: Option<IngressError>, index: usize) -> Receipt {
    Receipt { accepted, applied_tick_id: None, reason_code: reason, command_index: index }
}

/// The receipts of the entries of `s` that have expired by `tick`, in order:
/// accepted earlier, now stale.
pub open spec fn expired_receipts<P>(s: Seq<DrainedCommand<P>>, tick: u64) -> Seq<Receipt>
    decreases s.len(),
{
    if s.len() == 0 {
        Seq::empty()
    } else {
        let rest = expired_receipts(s.drop_last(), tick);
        if is_expired(s.last().command, tick) {
            rest.push(receipt(true, Some(IngressError::Stale), s.last().command_index))
        } else {
            rest
        }
    }
}

/// The entries of `s` that are still valid at `tick`, in order.
pub open spec fn still_valid<P>(s: Seq<DrainedCommand<P>>, tick: u64) -> Seq<DrainedCommand<P>>
    decreases s.len(),
{
    if s.len() == 0 {
        Seq::empty()
    } else {
        let rest = still_valid(s.drop_last(), tick);
        if is_expired(s.last().command, tick) {
            rest
        } else {
            rest.push(s.last())
        }
    }
}

/// Draining accounts for every buffered command exactly once: each one
/// either expired, with a receipt, or is still valid, and returned.
pub proof fn lemma_drain_accounts_for_all<P>(s: Seq<DrainedCommand<P>>, tick: u64)
    ensures
        expired_receipts(s, tick).len() + still_valid(s, tick).len() == s.len(),
    decreases s.len(),
{
    if s.len() > 0 {
        lemma_drain_accounts_for_all(s.drop_last(), tick);
    }
}

/// `c` with its arrival sequence number set to `seq`.
pub open spec fn stamped<P>(c: Command<P>, seq: int) -> Command<P> {
    Command {
        payload: c.payload,
        expires_after_tick: c.expires_after_tick,
        source_id: c.source_id,
        source_seq: c.source_seq,
        priority_class: c.priority_class,
        arrival_seq: seq as u64,
    }
}

/// How many of `n` submitted commands a queue holding `len` of `capacity`
/// accepts.
pub open spec fn accepted_count(len: nat, capacity: nat, n: nat, tick_disabled: bool) -> nat {
    if tick_disabled || len >= capacity {
        0
    } else if n < capacity - len {
        n
    } else {
        (capacity - len) as nat
    }
}

/// The receipt of the `i`-th of a batch submitted to a queue holding `len`
/// of `capacity`.
pub open spec fn submit_receipt(len: nat, capacity: nat, i: int, tick_disabled: bool) -> Receipt {
    if tick_disabled {
        receipt(false, Some(IngressError::TickDisabled), i as usize)
    } else if len + i < capacity {
        receipt(true, None, i as usize)
    } else {
        receipt(false, Some(IngressError::QueueFull), i as usize)
    }
}

/// Bounded command queue for the ingress pipeline.
pub struct IngressQueue<P> {
    queue: Vec<DrainedCommand<P>>,
    capacity: usize,
    next_arrival_seq: u64,
}

impl<P> IngressQueue<P> {
    /// The buffered commands, in submission order.
    pub closed spec fn pending(&self) -> Seq<DrainedCommand<P>> {
        self.queue@
    }

    /// The maximum number of buffered commands.
    pub closed spec fn capacity_spec(&self) -> nat {
        self.capacity as nat
    }

    /// The arrival sequence number the next accepted command gets.
    pub closed spec fn next_seq(&self) -> nat {
        self.next_arrival_seq as nat
    }

    /// The queue's invariant: non-zero capacity that is never exceeded, and
    /// arrival numbers that increase along the queue and stay below the
    /// next one to hand out.
    pub closed spec fn wf(&self) -> bool {
        &&& self.capacity > 0
        &&& self.queue@.len() <= self.capacity
        &&& arrivals_increasing(self.queue@)
        &&& forall|i: int|
            0 <= i < self.queue@.len() ==> (#[trigger] self.queue@[i]).command.arrival_seq
                < self.next_arrival_seq
    }

    /// Create a new queue with the given capacity.
    pub fn new(capacity: usize) -> (q: Self)
        requires
            capacity > 0,
        ensures
            q.wf(),
            q.pending() == Seq::<DrainedCommand<P>>::empty(),
            q.capacity_spec() == capacity,
            q.next_seq() == 0,
    {
        IngressQueue { queue: Vec::new(), capacity, next_arrival_seq: 0 }
    }

    /// Submit a batch of commands to the queue.
    ///
    /// Returns one receipt per input command. Commands are accepted in
    /// order until the queue is full; the rest get `QueueFull`. If
    /// `tick_disabled`, every command gets `TickDisabled`. Each accepted
    /// command's arrival number is overwritten from a counter that
    /// persists across calls.
    pub fn submit(&mut self, commands: Vec<Command<P>>, tick_disabled: bool) -> (receipts: Vec<
        Receipt,
    >)
        requires
            old(self).wf(),
            old(self).next_seq() + accepted_count(
                old(self).pending().len(),
                old(self).capacity_spec(),
                commands@.len(),
                tick_disabled,
            ) <= u64::MAX,
        ensures
            final(self).wf(),
            receipts@.len() == commands@.len(),
            forall|i: int|
                0 <= i < commands@.len() ==> #[trigger] receipts@[i] == submit_receipt(
                    old(self).pending().len(),
                    old(self).capacity_spec(),
                    i,
                    tick_disabled,
                ),
            ({
                let k = accepted_count(
                    old(self).pending().len(),
                    old(self).capacity_spec(),
                    commands@.len(),
                    tick_disabled,
                );
                &&& final(self).pending() == old(self).pending() + Seq::new(
                    k,
                    |i: int|
                        DrainedCommand {
                            command: stamped(commands@[i], old(self).next_seq() + i),
                            command_index: i as usize,
                        },
                )
                &&& final(self).next_seq() == old(self).next_seq() + k
            }),
            final(self).capacity_spec() == old(self).capacity_spec(),
    {
        let ghost old_queue = self.queue@;
        let ghost old_next = self.next_arrival_seq;
        let ghost n = commands@.len();
        let ghost k = accepted_count(old_queue.len(), self.capacity as nat, n, tick_disabled);
        let ghost old_capacity = self.capacity;
        let _n = commands.len();
        let mut receipts: Vec<Receipt> = Vec::new();
        let mut i: usize = 0;
        for cmd in it: commands.into_iter()
            invariant
                i == it.index(),
                it.seq() == commands@,
                n == commands@.len(),
                i <= n,
                n <= usize::MAX,
                self.capacity == old_capacity,
                self.capacity > 0,
                self.queue@.len() <= self.capacity,
                arrivals_increasing(self.queue@),
                forall|j: int|
                    0 <= j < self.queue@.len() ==> (#[trigger] self.queue@[j]).command.arrival_seq
                        < self.next_arrival_seq,
                k == accepted_count(old_queue.len(), self.capacity as nat, n, tick_disabled),
                old_next + k <= u64::MAX,
                receipts@.len() == i,
                forall|j: int|
                    0 <= j < i ==> #[trigger] receipts@[j] == submit_receipt(
                        old_queue.len(),
                        self.capacity as nat,
                        j,
                        tick_disabled,
                    ),
                ({
                    let a = accepted_count(old_queue.len(), self.capacity as nat, i as nat, tick_disabled);
                    &&& self.queue@ == old_queue + Seq::new(
                        a,
                        |j: int|
                            DrainedCommand {
                                command: stamped(commands@[j], old_next + j),
                                command_index: j as usize,
                            },
                    )
                    &&& self.next_arrival_seq == old_next + a
                }),
        {
            let ghost before = self.queue@;
            if tick_disabled {
                receipts.push(
                    Receipt {
                        accepted: false,
                        applied_tick_id: None,
                        reason_code: Some(IngressError::TickDisabled),
                        command_index: i,
                    },
                );
            } else if self.queue.len() >= self.capacity {
                receipts.push(
                    Receipt {
                        accepted: false,
                        applied_tick_id: None,
                        reason_code: Some(IngressError::QueueFull),
                        command_index: i,
                    },
                );
            } else {
                let mut cmd = cmd;
                cmd.arrival_seq = self.next_arrival_seq;
                self.next_arrival_seq = self.next_arrival_seq + 1;
                self.queue.push(DrainedCommand { command: cmd, command_index: i });
                receipts.push(
                    Receipt {
                        accepted: true,
                        applied_tick_id: None,
                        reason_code: None,
                        command_index: i,
                    },
                );
                proof {
                    let a = accepted_count(
                        old_queue.len(),
                        self.capacity as nat,
                        i as nat,
                        tick_disabled,
                    );
                    assert(self.queue@ =~= old_queue + Seq::new(
                        (a + 1) as nat,
                        |j: int|
                            DrainedCommand {
                                command: stamped(commands@[j], old_next + j),
                                command_index: j as usize,
                            },
                    ));
                }
            }
            i = i + 1;
        }
        receipts
    }

    /// Drain the queue, returning the receipts of expired commands (in queue
    /// order) and the still-valid commands, sorted by their ordering key.
    ///
    /// A command is expired if `expires_after_tick < current_tick`; one that
    /// expires at `current_tick` is still valid during that tick.
    pub fn drain(&mut self, current_tick: TickId) -> (r: DrainResult<P>)
        requires
            old(self).wf(),
        ensures
            final(self).wf(),
            final(self).pending() == Seq::<DrainedCommand<P>>::empty(),
            final(self).capacity_spec() == old(self).capacity_spec(),
            final(self).next_seq() == old(self).next_seq(),
            r.expired_receipts@ == expired_receipts(old(self).pending(), current_tick.0),
            r.commands@.to_multiset() == still_valid(
                old(self).pending(),
                current_tick.0,
            ).to_multiset(),
            in_drain_order(r.commands@),
    {
        let mut entries: Vec<DrainedCommand<P>> = Vec::new();
        std::mem::swap(&mut entries, &mut self.queue);
        let ghost all = entries@;
        let tick = current_tick.0;
        let mut valid: Vec<DrainedCommand<P>> = Vec::new();
        let mut expired: Vec<Receipt> = Vec::new();
        for entry in it: entries.into_iter()
            invariant
                it.seq() == all,
                arrivals_increasing(all),
                expired@ == expired_receipts(all.take(it.index() as int), tick),
                valid@.to_multiset() == still_valid(all.take(it.index() as int), tick).to_multiset(),
                in_drain_order(valid@),
                forall|k: int|
                    0 <= k < valid@.len() ==> it.index() < all.len() ==> (
                    #[trigger] valid@[k]).command.arrival_seq < all[it.index() as int].command.arrival_seq,
        {
            let ghost idx = it.index();
            proof {
                assert(all.take(idx + 1).drop_last() =~= all.take(idx as int));
                assert(all.take(idx + 1).last() == all[idx as int]);
            }
            if entry.command.expires_after_tick.0 < tick {
                expired.push(
                    Receipt {
                        accepted: true,
                        applied_tick_id: None,
                        reason_code: Some(IngressError::Stale),
                        command_index: entry.command_index,
                    },
                );
            } else {
                insert_in_order(&mut valid, entry);
            }
        }
        proof {
            assert(all.take(all.len() as int) =~= all);
        }
        DrainResult { commands: valid, expired_receipts: expired }
    }

    /// Number of commands currently buffered.
    pub fn len(&self) -> (n: usize)
        ensures
            n == self.pending().len(),
    {
        self.queue.len()
    }

    /// Whether the queue is empty.
    pub fn is_empty(&self) -> (b: bool)
        ensures
            b == (self.pending().len() == 0),
    {
        self.queue.len() == 0
    }

    /// The arrival sequence number the next accepted command gets.
    pub fn next_arrival_seq(&self) -> (n: u64)
        ensures
            n == self.next_seq(),
    {
        self.next_arrival_seq
    }

    /// Maximum number of commands this queue can hold.
    pub fn capacity(&self) -> (c: usize)
        ensures
            c == self.capacity_spec(),
    {
        self.capacity
    }

    /// Discard all pending commands.
    pub fn clear(&mut self)
        requires
            old(self).wf(),
        ensures
            final(self).wf(),
            final(self).pending() == Seq::<DrainedCommand<P>>::empty(),
            final(self).capacity_spec() == old(self).capacity_spec(),
            final(self).next_seq() == old(self).next_seq(),
    {
        self.queue.clear();
    }
}

/// Whether `a` comes before `b` in drain order.
fn precedes<P>(a: &Command<P>, b: &Command<P>) -> (r: bool)
    ensures
        r == key_precedes(order_key(*a), order_key(*b)),
{
    let a1 = match a.source_id {
        Some(x) => x,
        None => u64::MAX,
    };
    let b1 = match b.source_id {
        Some(x) => x,
        None => u64::MAX,
    };
    let a2 = match a.source_seq {
        Some(x) => x,
        None => u64::MAX,
    };
    let b2 = match b.source_seq {
        Some(x) => x,
        None => u64::MAX,
    };
    if a.priority_class != b.priority_class {
        a.priority_class < b.priority_class
    } else if a1 != b1 {
        a1 < b1
    } else if a2 != b2 {
        a2 < b2
    } else {
        a.arrival_seq < b.arrival_seq
    }
}

/// Insert `item` into the ordered `out`, keeping it ordered.
fn insert_in_order<P>(out: &mut Vec<DrainedCommand<P>>, item: DrainedCommand<P>)
    requires
        in_drain_order(old(out)@),
        forall|k: int|
            0 <= k < old(out)@.len() ==> (#[trigger] old(out)@[k]).command.arrival_seq
                < item.command.arrival_seq,
    ensures
        in_drain_order(final(out)@),
        final(out)@.to_multiset() == old(out)@.to_multiset().insert(item),
        forall|k: int|
            0 <= k < final(out)@.len() ==> (#[trigger] final(out)@[k]).command.arrival_seq
                <= item.command.arrival_seq,
{
    let mut j: usize = 0;
    while j < out.len() && precedes(&out[j].command, &item.command)
        invariant
            j <= out@.len(),
            out@ == old(out)@,
            forall|k: int|
                0 <= k < j ==> key_precedes(
                    order_key((#[trigger] out@[k]).command),
                    order_key(item.command),
                ),
        decreases out@.len() - j,
    {
        j = j + 1;
    }
    let ghost before = out@;
    out.insert(j, item);
    proof {
        let after = out@;
        assert(after.remove(j as int) =~= before);
        assert(after[j as int] == item);
        assert(after.to_multiset() =~= before.to_multiset().insert(item)) by {
            assert(after.remove(j as int).to_multiset() == after.to_multiset().remove(item));
            assert(after.to_multiset().contains(item)) by {
                assert(after.contains(item));
            }
        }
        assert forall|a: int, b: int|
            0 <= a < b < after.len() implies key_precedes(
            order_key(#[trigger] after[a].command),
            order_key(#[trigger] after[b].command),
        ) by {
            if a < j && b == j {
            } else if a == j && b > j {
                let o = before[b - 1];
                assert(o.command.arrival_seq < item.command.arrival_seq);
                assert(!key_precedes(order_key(o.command), order_key(item.command))) by {
                    if b - 1 == j {
                    } else {
                        assert(key_precedes(
                            order_key(before[j as int].command),
                            order_key(o.command),
                        ));
                    }
                }
            } else if a < j && b > j {
                assert(after[a] == before[a]);
                assert(after[b] == before[b - 1]);
            } else if a > j {
                assert(after[a] == before[a - 1]);
                assert(after[b] == before[b - 1]);
            } else {
                assert(after[a] == before[a]);
                assert(after[b] == before[b]);
            }
        }
    }
}

} // verus!
