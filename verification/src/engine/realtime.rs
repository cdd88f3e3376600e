//! Outcomes of the realtime world's command submission and shutdown, and
//! the decisions of its shutdown state machine.
use vstd::prelude::*;

verus! {

/// Error submitting commands to the tick thread.
#[derive(Clone, Copy, Debug, PartialEq, Eq, Structural)]
pub enum SubmitError {
    /// The tick thread has shut down.
    Shutdown,
    /// The command channel is full (back-pressure).
    ChannelFull,
}

impl SubmitError {
    /// The error's message.
    pub fn message(&self) -> (s: &'static str)
        ensures
            s@ == match self {
                SubmitError::Shutdown => "tick thread has shut down"@,
                SubmitError::ChannelFull => "command channel full"@,
            },
    {
        match self {
            SubmitError::Shutdown => "tick thread has shut down",
            SubmitError::ChannelFull => "command channel full",
        }
    }
}

/// Report from the shutdown state machine.
#[derive(Clone, Copy, Debug, PartialEq, Eq, Structural)]
pub struct ShutdownReport {
    /// Total time spent in the shutdown sequence.
    pub total_ms: u64,
    /// Time spent draining the tick thread.
    pub drain_ms: u64,
    /// Time spent quiescing workers.
    pub quiesce_ms: u64,
    /// Whether the tick thread was joined successfully.
    pub tick_joined: bool,
    /// Number of worker threads joined.
    pub workers_joined: usize,
}

impl ShutdownReport {
    /// The report of a shutdown requested of a world already shut down:
    /// nothing took time, nothing was left to join.
    pub fn already_dropped() -> (r: Self)
        ensures
            r == (ShutdownReport {
                total_ms: 0,
                drain_ms: 0,
                quiesce_ms: 0,
                tick_joined: true,
                workers_joined: 0,
            }),
    {
        ShutdownReport { total_ms: 0, drain_ms: 0, quiesce_ms: 0, tick_joined: true, workers_joined: 0 }
    }
}

/// How long shutdown waits for the tick thread to stop, in milliseconds.
pub const DRAIN_BUDGET_MS: u64 = 33;

/// How long shutdown waits for the workers to unpin, in milliseconds.
pub const QUIESCE_BUDGET_MS: u64 = 200;

/// Phase of the realtime world's shutdown.
#[derive(Clone, Copy, Debug, PartialEq, Eq, Structural)]
pub enum ShutdownState {
    /// The world runs.
    Running,
    /// The tick thread was asked to stop; waiting for it.
    Draining,
    /// The workers were cancelled; waiting for them to unpin.
    Quiescing,
    /// Every thread was joined.
    Dropped,
}

/// What the shutdown sequence does on a step.
#[derive(Clone, Copy, Debug, PartialEq, Eq, Structural)]
pub enum ShutdownAction {
    /// Set the shutdown flag and wake the tick thread.
    SignalStop,
    /// Yield and look again.
    Wait,
    /// Cancel every worker and drop the command and observation channels.
    CancelWorkers,
    /// Join the tick thread and every worker.
    JoinAll,
    /// Nothing is left to do.
    Nothing,
}

/// The next phase and the action of one shutdown step (see `shutdown_step`).
pub open spec fn shutdown_next(
    phase: ShutdownState,
    tick_stopped: bool,
    all_unpinned: bool,
    elapsed_in_phase_ms: u64,
) -> (ShutdownState, ShutdownAction) {
    match phase {
        ShutdownState::Running => (ShutdownState::Draining, ShutdownAction::SignalStop),
        ShutdownState::Draining => if tick_stopped || elapsed_in_phase_ms > DRAIN_BUDGET_MS {
            (ShutdownState::Quiescing, ShutdownAction::CancelWorkers)
        } else {
            (ShutdownState::Draining, ShutdownAction::Wait)
        },
        ShutdownState::Quiescing => if all_unpinned || elapsed_in_phase_ms > QUIESCE_BUDGET_MS {
            (ShutdownState::Dropped, ShutdownAction::JoinAll)
        } else {
            (ShutdownState::Quiescing, ShutdownAction::Wait)
        },
        ShutdownState::Dropped => (ShutdownState::Dropped, ShutdownAction::Nothing),
    }
}

/// One step of the shutdown state machine, from the current phase, whether
/// the tick thread reported that it stopped, whether every worker is
/// unpinned, and the milliseconds spent in the phase so far.
///
/// Running moves to Draining and signals the tick thread. Draining moves to
/// Quiescing, cancelling the workers, once the tick thread stopped or the
/// drain budget (33 ms) is exceeded, and waits otherwise. Quiescing moves
/// to Dropped, joining every thread, once every worker is unpinned or the
/// quiesce budget (200 ms) is exceeded, and waits otherwise. Dropped stays
/// Dropped with nothing to do.
pub fn shutdown_step(
    phase: ShutdownState,
    tick_stopped: bool,
    all_unpinned: bool,
    elapsed_in_phase_ms: u64,
) -> (r: (ShutdownState, ShutdownAction))
    ensures
        r == shutdown_next(phase, tick_stopped, all_unpinned, elapsed_in_phase_ms),
{
    match phase {
        ShutdownState::Running => (ShutdownState::Draining, ShutdownAction::SignalStop),
        ShutdownState::Draining => {
            if tick_stopped || elapsed_in_phase_ms > DRAIN_BUDGET_MS {
                (ShutdownState::Quiescing, ShutdownAction::CancelWorkers)
            } else {
                (ShutdownState::Draining, ShutdownAction::Wait)
            }
        },
        ShutdownState::Quiescing => {
            if all_unpinned || elapsed_in_phase_ms > QUIESCE_BUDGET_MS {
                (ShutdownState::Dropped, ShutdownAction::JoinAll)
            } else {
                (ShutdownState::Quiescing, ShutdownAction::Wait)
            }
        },
        ShutdownState::Dropped => (ShutdownState::Dropped, ShutdownAction::Nothing),
    }
}

/// Shutdown is bounded: whatever the threads report, three steps each taken
/// past the quiesce budget bring any phase to Dropped, and Dropped stays.
pub proof fn lemma_shutdown_bounded(
    phase: ShutdownState,
    stopped: (bool, bool, bool),
    unpinned: (bool, bool, bool),
    elapsed: (u64, u64, u64),
)
    requires
        elapsed.0 > QUIESCE_BUDGET_MS,
        elapsed.1 > QUIESCE_BUDGET_MS,
        elapsed.2 > QUIESCE_BUDGET_MS,
    ensures
        shutdown_next(
            shutdown_next(
                shutdown_next(phase, stopped.0, unpinned.0, elapsed.0).0,
                stopped.1,
                unpinned.1,
                elapsed.1,
            ).0,
            stopped.2,
            unpinned.2,
            elapsed.2,
        ).0 == ShutdownState::Dropped,
        shutdown_next(ShutdownState::Dropped, stopped.0, unpinned.0, elapsed.0) == (
            ShutdownState::Dropped,
            ShutdownAction::Nothing,
        ),
{
}

/// The output and mask lengths each agent gets when `n_agents` agents share
/// an output buffer of `output_len` elements and a mask buffer of
/// `mask_len`: an equal share, rounded down (none without agents).
pub fn per_agent_lens(n_agents: usize, output_len: usize, mask_len: usize) -> (r: (usize, usize))
    ensures
        r == if n_agents > 0 {
            ((output_len / n_agents) as usize, (mask_len / n_agents) as usize)
        } else {
            (0usize, 0usize)
        },
{
    if n_agents > 0 {
        (output_len / n_agents, mask_len / n_agents)
    } else {
        (0, 0)
    }
}

} // verus!
