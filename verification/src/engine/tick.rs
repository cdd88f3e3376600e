//! The decisions of the lockstep tick engine: whether a tick may run, which
//! receipts a drained batch gets, and how a rollback or a successful tick
//! changes the engine's counters and the batch's receipts.
//!
//! Running the propagators, timing and publishing is the caller's work;
//! this module decides what follows from each outcome.
use vstd::prelude::*;

use crate::command::{Command, Receipt};
use crate::engine::ingress::{DrainResult, DrainedCommand, IngressQueue, accepted_count, stamped, submit_receipt};
use crate::engine::metrics::StepMetrics;
use crate::error::{IngressError, PropagatorError, StepError};
use crate::id::{ParameterVersion, TickId};

verus! {

/// Consecutive rollbacks after which ticking is disabled.
pub const MAX_CONSECUTIVE_ROLLBACKS: u32 = 3;

/// Result of a successful tick execution.
#[derive(Debug)]
pub struct TickResult {
    /// Receipts for commands submitted before this tick.
    pub receipts: Vec<Receipt>,
    /// Performance metrics for this tick.
    pub metrics: StepMetrics,
}

/// Error of a tick: the underlying error and the receipts produced before
/// the failure. On rollback, receipts carry `TickRollback` reason codes.
#[derive(Debug, PartialEq, Eq)]
pub struct TickError {
    /// The underlying error.
    pub kind: StepError,
    /// Receipts produced before the failure (may include rollback receipts).
    pub receipts: Vec<Receipt>,
}

/// The receipt of a drained command: accepted if its payload is supported,
/// else rejected as unsupported.
pub open spec fn batch_receipt(supported: bool, index: usize) -> Receipt {
    if supported {
        Receipt { accepted: true, applied_tick_id: None, reason_code: None, command_index: index }
    } else {
        Receipt {
            accepted: false,
            applied_tick_id: None,
            reason_code: Some(IngressError::UnsupportedCommand),
            command_index: index,
        }
    }
}

/// A receipt of a rolled-back tick: accepted receipts lose their tick and
/// carry `TickRollback`; rejected ones keep their reason.
pub open spec fn rolled_back_receipt(r: Receipt) -> Receipt {
    if r.accepted {
        Receipt { applied_tick_id: None, reason_code: Some(IngressError::TickRollback), ..r }
    } else {
        r
    }
}

/// A receipt of a tick that ran: accepted receipts are applied at `tick`.
pub open spec fn applied_receipt(r: Receipt, tick: TickId) -> Receipt {
    if r.accepted {
        Receipt { applied_tick_id: Some(tick), ..r }
    } else {
        r
    }
}

/// The receipts of a drained batch, in order: the receipts of expired
/// commands, then one per drained command, in drain order, accepted or
/// rejected as unsupported as `supported` says.
pub fn batch_receipts<P>(drain: &DrainResult<P>, supported: &Vec<bool>) -> (r: Vec<Receipt>)
    requires
        supported@.len() == drain.commands@.len(),
        drain.expired_receipts@.len() + drain.commands@.len() <= usize::MAX,
    ensures
        r@.len() == drain.expired_receipts@.len() + drain.commands@.len(),
        r@.subrange(0, drain.expired_receipts@.len() as int) == drain.expired_receipts@,
        forall|i: int|
            0 <= i < drain.commands@.len() ==> #[trigger] r@[drain.expired_receipts@.len() + i]
                == batch_receipt(supported@[i], drain.commands@[i].command_index),
{
    let mut r: Vec<Receipt> = Vec::new();
    let e = drain.expired_receipts.len();
    let mut i: usize = 0;
    while i < e
        invariant
            e == drain.expired_receipts@.len(),
            i <= e,
            r@ == drain.expired_receipts@.subrange(0, i as int),
        decreases e - i,
    {
        r.push(drain.expired_receipts[i]);
        proof {
            assert(r@ =~= drain.expired_receipts@.subrange(0, i + 1));
        }
        i = i + 1;
    }
    let n = drain.commands.len();
    let mut j: usize = 0;
    while j < n
        invariant
            n == drain.commands@.len(),
            supported@.len() == n,
            e == drain.expired_receipts@.len(),
            e + n <= usize::MAX,
            j <= n,
            r@.len() == e + j,
            r@.subrange(0, e as int) == drain.expired_receipts@,
            forall|k: int|
                0 <= k < j ==> #[trigger] r@[e + k] == batch_receipt(
                    supported@[k],
                    drain.commands@[k].command_index,
                ),
        decreases n - j,
    {
        let index = drain.commands[j].command_index;
        if supported[j] {
            r.push(
                Receipt { accepted: true, applied_tick_id: None, reason_code: None, command_index: index },
            );
        } else {
            r.push(
                Receipt {
                    accepted: false,
                    applied_tick_id: None,
                    reason_code: Some(IngressError::UnsupportedCommand),
                    command_index: index,
                },
            );
        }
        proof {
            assert(r@.subrange(0, e as int) =~= drain.expired_receipts@);
        }
        j = j + 1;
    }
    r
}

/// The tick engine's own state: the command queue, the current tick, the
/// parameter version, and the rollback counter that disables ticking.
pub struct TickControl<P> {
    ingress: IngressQueue<P>,
    current_tick: TickId,
    param_version: ParameterVersion,
    consecutive_rollback_count: u32,
    tick_disabled: bool,
}

impl<P> TickControl<P> {
    /// The command queue.
    pub closed spec fn queue(&self) -> IngressQueue<P> {
        self.ingress
    }

    /// The last tick that ran.
    pub closed spec fn tick(&self) -> TickId {
        self.current_tick
    }

    /// Rollbacks since the last tick that ran.
    pub closed spec fn rollbacks(&self) -> u32 {
        self.consecutive_rollback_count
    }

    /// Whether ticking is disabled.
    pub closed spec fn disabled(&self) -> bool {
        self.tick_disabled
    }

    /// The parameter version published with each tick.
    pub closed spec fn version(&self) -> ParameterVersion {
        self.param_version
    }

    /// The invariant: a well-formed queue; the rollback counter reaches the
    /// limit exactly when ticking is disabled.
    pub closed spec fn wf(&self) -> bool {
        &&& self.ingress.wf()
        &&& self.consecutive_rollback_count <= MAX_CONSECUTIVE_ROLLBACKS
        &&& self.tick_disabled == (self.consecutive_rollback_count == MAX_CONSECUTIVE_ROLLBACKS)
    }

    /// The state after one rollback from `self`: one more consecutive
    /// rollback, ticking disabled once the limit is reached, nothing else
    /// changed.
    pub open spec fn rolled_back(self, after: Self) -> bool {
        &&& after.rollbacks() == self.rollbacks() + 1
        &&& after.disabled() == (self.rollbacks() + 1 >= MAX_CONSECUTIVE_ROLLBACKS)
        &&& after.tick() == self.tick()
        &&& after.version() == self.version()
        &&& after.queue() == self.queue()
    }

    /// A fresh engine state: tick 0, version 0, no rollbacks, an empty
    /// queue of the given capacity.
    pub fn new(max_ingress_queue: usize) -> (c: Self)
        requires
            max_ingress_queue > 0,
        ensures
            c.wf(),
            c.tick() == TickId(0),
            c.version() == ParameterVersion(0),
            c.rollbacks() == 0,
            !c.disabled(),
            c.queue().pending().len() == 0,
            c.queue().capacity_spec() == max_ingress_queue,
            c.queue().next_seq() == 0,
    {
        TickControl {
            ingress: IngressQueue::new(max_ingress_queue),
            current_tick: TickId(0),
            param_version: ParameterVersion(0),
            consecutive_rollback_count: 0,
            tick_disabled: false,
        }
    }

    /// Submit commands to be processed in the next tick: one receipt per
    /// command; all are rejected with `TickDisabled` while ticking is
    /// disabled.
    pub fn submit_commands(&mut self, commands: Vec<Command<P>>) -> (receipts: Vec<Receipt>)
        requires
            old(self).wf(),
            old(self).queue().next_seq() + accepted_count(
                old(self).queue().pending().len(),
                old(self).queue().capacity_spec(),
                commands@.len(),
                old(self).disabled(),
            ) <= u64::MAX,
        ensures
            final(self).wf(),
            receipts@.len() == commands@.len(),
            forall|i: int|
                0 <= i < commands@.len() ==> #[trigger] receipts@[i] == submit_receipt(
                    old(self).queue().pending().len(),
                    old(self).queue().capacity_spec(),
                    i,
                    old(self).disabled(),
                ),
            ({
                let k = accepted_count(
                    old(self).queue().pending().len(),
                    old(self).queue().capacity_spec(),
                    commands@.len(),
                    old(self).disabled(),
                );
                &&& final(self).queue().pending() == old(self).queue().pending() + Seq::new(
                    k,
                    |i: int|
                        DrainedCommand {
                            command: stamped(commands@[i], old(self).queue().next_seq() + i),
                            command_index: i as usize,
                        },
                )
                &&& final(self).queue().next_seq() == old(self).queue().next_seq() + k
            }),
            final(self).queue().capacity_spec() == old(self).queue().capacity_spec(),
            final(self).version() == old(self).version(),
            final(self).tick() == old(self).tick(),
            final(self).rollbacks() == old(self).rollbacks(),
            final(self).disabled() == old(self).disabled(),
    {
        let disabled = self.tick_disabled;
        self.ingress.submit(commands, disabled)
    }

    /// Start a tick: `TickDisabled` with no receipts while ticking is
    /// disabled, else the next tick's id.
    pub fn begin_tick(&self) -> (r: Result<TickId, TickError>)
        requires
            self.wf(),
            !self.disabled() ==> self.tick().0 < u64::MAX,
        ensures
            match r {
                Ok(next) => !self.disabled() && next.0 == self.tick().0 + 1,
                Err(e) => self.disabled() && e.kind == StepError::TickDisabled && e.receipts@.len()
                    == 0,
            },
    {
        if self.tick_disabled {
            return Err(TickError { kind: StepError::TickDisabled, receipts: Vec::new() });
        }
        Ok(TickId(self.current_tick.0 + 1))
    }

    /// Drain the command queue for tick `next`.
    pub fn drain(&mut self, next: TickId) -> (r: DrainResult<P>)
        requires
            old(self).wf(),
        ensures
            final(self).wf(),
            final(self).queue().pending().len() == 0,
            final(self).queue().capacity_spec() == old(self).queue().capacity_spec(),
            final(self).queue().next_seq() == old(self).queue().next_seq(),
            r.expired_receipts@ == crate::engine::ingress::expired_receipts(
                old(self).queue().pending(),
                next.0,
            ),
            r.commands@.to_multiset() == crate::engine::ingress::still_valid(
                old(self).queue().pending(),
                next.0,
            ).to_multiset(),
            crate::engine::ingress::in_drain_order(r.commands@),
            final(self).tick() == old(self).tick(),
            final(self).rollbacks() == old(self).rollbacks(),
            final(self).disabled() == old(self).disabled(),
    {
        self.ingress.drain(next)
    }

    /// Record a propagator failure: the tick is rolled back. Counts the
    /// rollback, disables ticking at the limit, and marks the accepted
    /// receipts from `accepted_start` on as rolled back (rejected ones keep
    /// their reason).
    pub fn record_rollback(
        &mut self,
        name: String,
        reason: PropagatorError,
        receipts: Vec<Receipt>,
        accepted_start: usize,
    ) -> (e: TickError)
        requires
            old(self).wf(),
            !old(self).disabled(),
            accepted_start <= receipts@.len(),
        ensures
            final(self).wf(),
            old(self).rolled_back(*final(self)),
            e.kind == (StepError::PropagatorFailed { name, reason }),
            e.receipts@.len() == receipts@.len(),
            forall|i: int|
                0 <= i < receipts@.len() ==> #[trigger] e.receipts@[i] == if i < accepted_start {
                    receipts@[i]
                } else {
                    rolled_back_receipt(receipts@[i])
                },
    {
        self.consecutive_rollback_count = self.consecutive_rollback_count + 1;
        if self.consecutive_rollback_count >= MAX_CONSECUTIVE_ROLLBACKS {
            self.tick_disabled = true;
        }
        let mut out = receipts;
        let ghost initial = out@;
        let mut i = accepted_start;
        while i < out.len()
            invariant
                accepted_start <= i <= out@.len(),
                out@.len() == initial.len(),
                forall|k: int|
                    0 <= k < initial.len() ==> #[trigger] out@[k] == if accepted_start <= k < i {
                        rolled_back_receipt(initial[k])
                    } else {
                        initial[k]
                    },
            decreases out@.len() - i,
        {
            let r = out[i];
            if r.accepted {
                out.set(
                    i,
                    Receipt {
                        accepted: r.accepted,
                        applied_tick_id: None,
                        reason_code: Some(IngressError::TickRollback),
                        command_index: r.command_index,
                    },
                );
            }
            i = i + 1;
        }
        TickError { kind: StepError::PropagatorFailed { name, reason }, receipts: out }
    }

    /// Record a tick that ran and was published as `next`: it becomes the
    /// current tick, the rollback counter restarts, and the accepted
    /// receipts from `accepted_start` on are applied at `next`.
    pub fn record_success(&mut self, next: TickId, receipts: &mut Vec<Receipt>, accepted_start: usize)
        requires
            old(self).wf(),
            !old(self).disabled(),
            accepted_start <= old(receipts)@.len(),
        ensures
            final(self).wf(),
            final(self).tick() == next,
            final(self).rollbacks() == 0,
            !final(self).disabled(),
            final(self).version() == old(self).version(),
            final(self).queue() == old(self).queue(),
            final(receipts)@.len() == old(receipts)@.len(),
            forall|i: int|
                0 <= i < old(receipts)@.len() ==> #[trigger] final(receipts)@[i] == if i
                    < accepted_start {
                    old(receipts)@[i]
                } else {
                    applied_receipt(old(receipts)@[i], next)
                },
    {
        self.current_tick = next;
        self.consecutive_rollback_count = 0;
        let ghost initial = receipts@;
        let mut i = accepted_start;
        while i < receipts.len()
            invariant
                accepted_start <= i <= receipts@.len(),
                receipts@.len() == initial.len(),
                forall|k: int|
                    0 <= k < initial.len() ==> #[trigger] receipts@[k] == if accepted_start <= k
                        < i {
                        applied_receipt(initial[k], next)
                    } else {
                        initial[k]
                    },
            decreases receipts@.len() - i,
        {
            let r = receipts[i];
            if r.accepted {
                receipts.set(
                    i,
                    Receipt {
                        accepted: r.accepted,
                        applied_tick_id: Some(next),
                        reason_code: r.reason_code,
                        command_index: r.command_index,
                    },
                );
            }
            i = i + 1;
        }
    }

    /// Reset to the initial state: tick 0, version 0, ticking enabled, no
    /// rollbacks, no pending commands.
    pub fn reset(&mut self)
        requires
            old(self).wf(),
        ensures
            final(self).wf(),
            final(self).tick() == TickId(0),
            final(self).version() == ParameterVersion(0),
            final(self).rollbacks() == 0,
            !final(self).disabled(),
            final(self).queue().pending().len() == 0,
            final(self).queue().capacity_spec() == old(self).queue().capacity_spec(),
    {
        self.ingress.clear();
        self.current_tick = TickId(0);
        self.param_version = ParameterVersion(0);
        self.tick_disabled = false;
        self.consecutive_rollback_count = 0;
    }

    /// The last tick that ran.
    pub fn current_tick(&self) -> (t: TickId)
        ensures
            t == self.tick(),
    {
        self.current_tick
    }

    /// The parameter version to publish with.
    pub fn param_version(&self) -> (v: ParameterVersion)
        ensures
            v == self.version(),
    {
        self.param_version
    }

    /// Whether ticking is disabled due to consecutive rollbacks.
    pub fn is_tick_disabled(&self) -> (b: bool)
        ensures
            b == self.disabled(),
    {
        self.tick_disabled
    }

    /// Number of consecutive rollbacks since the last tick that ran.
    pub fn consecutive_rollback_count(&self) -> (n: u32)
        ensures
            n == self.rollbacks(),
    {
        self.consecutive_rollback_count
    }

    /// The arrival sequence number the next accepted command gets.
    pub fn next_arrival_seq(&self) -> (n: u64)
        ensures
            n == self.queue().next_seq(),
    {
        self.ingress.next_arrival_seq()
    }

    /// Number of commands waiting for the next tick.
    pub fn pending_commands(&self) -> (n: usize)
        ensures
            n == self.queue().pending().len(),
    {
        self.ingress.len()
    }
}

/// Three consecutive rollbacks from an engine with none disable ticking,
/// and the tick does not advance.
pub proof fn lemma_three_rollbacks_disable<P>(
    s0: TickControl<P>,
    s1: TickControl<P>,
    s2: TickControl<P>,
    s3: TickControl<P>,
)
    requires
        s0.rollbacks() == 0,
        s0.rolled_back(s1),
        s1.rolled_back(s2),
        s2.rolled_back(s3),
    ensures
        !s1.disabled(),
        !s2.disabled(),
        s3.disabled(),
        s3.rollbacks() == 3,
        s3.tick() == s0.tick(),
{
}

/// A disabled engine rejects every submitted command with `TickDisabled`
/// and queues none.
pub proof fn lemma_disabled_rejects_all(len: nat, capacity: nat, n: nat)
    ensures
        accepted_count(len, capacity, n, true) == 0,
        forall|i: int|
            0 <= i < n ==> #[trigger] submit_receipt(len, capacity, i, true) == (Receipt {
                accepted: false,
                applied_tick_id: None,
                reason_code: Some(IngressError::TickDisabled),
                command_index: i as usize,
            }),
{
}

} // verus!
