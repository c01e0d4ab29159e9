//! The bootstrap worker for the tangle: a one-shot task, sequenced before
//! the rest of the node comes online, that drains the snapshot loader's two
//! solid-entry-point streams into the tangle, registers the null sentinel,
//! applies the stored snapshot bookkeeping, and then reports cache health
//! periodically. The decisions live here; the surrounding runtime performs
//! the channel reads, storage writes and timers and feeds the results back.

use vstd::prelude::*;
use crate::hooks::Hooks;
use crate::message::{MessageId, MilestoneIndex, SolidEntryPoint};
use crate::tangle::{unchanged_but_indexes, Tangle};

verus! {

/// The snapshot bookkeeping stored by the back-end under the unit key.
#[derive(Clone, Copy, PartialEq, Eq, Structural, Debug)]
pub struct SnapshotInfo {
    pub snapshot_index: MilestoneIndex,
    pub pruning_index: MilestoneIndex,
}

/// Where the bootstrap stands: the full stream is drained before the delta
/// stream, the stored snapshot bookkeeping is applied after both, and only
/// then is the tangle ready for the node.
#[derive(Clone, Copy, PartialEq, Eq, Structural, Debug)]
pub enum BootstrapPhase {
    DrainingFullSeps,
    DrainingDeltaSeps,
    AwaitingSnapshotInfo,
    Running,
}

/// What the shutdown sequence does next when the tangle resource is still
/// held by other users.
#[derive(Clone, Copy, PartialEq, Eq, Structural, Debug)]
pub enum ShutdownDecision {
    /// Poll again after [`SHUTDOWN_POLL_MS`] milliseconds.
    Retry,
    /// The polling window has elapsed: drop the tangle without a proper
    /// shutdown and report the failure.
    GiveUp,
}

/// Milliseconds between polls of a still-held tangle resource at shutdown.
pub const SHUTDOWN_POLL_MS: u64 = 20;

/// Milliseconds after which shutdown stops polling and gives up.
pub const SHUTDOWN_WINDOW_MS: u64 = 5_000;

/// Seconds between two cache-health reports.
pub const REPORT_INTERVAL_SECS: u64 = 60;

/// The tangle's bootstrap worker, tracking how far the one-shot start
/// sequence has come.
pub struct TangleWorker {
    phase: BootstrapPhase,
}

impl TangleWorker {
    /// The phase the bootstrap stands in.
    pub closed spec fn phase(self) -> BootstrapPhase {
        self.phase
    }

    /// The phase the bootstrap stands in, as a value the runtime can test
    /// before it hands the worker an event.
    pub fn current_phase(&self) -> (r: BootstrapPhase)
        ensures
            r == self.phase(),
    {
        self.phase
    }

    /// Starts the bootstrap: the full stream is drained first.
    pub fn new() -> (r: TangleWorker)
        ensures
            r.phase() == BootstrapPhase::DrainingFullSeps,
    {
        TangleWorker { phase: BootstrapPhase::DrainingFullSeps }
    }

    /// One pair from the full stream: the entry point is registered in the
    /// tangle; the caller persists the same pair through the back-end's
    /// key-value insert.
    pub fn on_full_sep<T: Clone, H: Hooks<T>>(
        &self,
        tangle: &mut Tangle<T, H>,
        sep: SolidEntryPoint,
        index: MilestoneIndex,
    )
        requires
            self.phase() == BootstrapPhase::DrainingFullSeps,
            old(tangle).wf(),
        ensures
            final(tangle).wf(),
            final(tangle).sep_entries() == old(tangle).sep_entries().insert(sep.0, index),
            final(tangle).cached() == old(tangle).cached(),
            final(tangle).child_entries() == old(tangle).child_entries(),
            final(tangle).queue() == old(tangle).queue(),
    {
        tangle.add_solid_entry_point(sep.message_id(), index);
    }

    /// The full stream closed: the delta stream is drained next.
    pub fn on_full_closed(&mut self)
        requires
            old(self).phase() == BootstrapPhase::DrainingFullSeps,
        ensures
            final(self).phase() == BootstrapPhase::DrainingDeltaSeps,
    {
        self.phase = BootstrapPhase::DrainingDeltaSeps;
    }

    /// One pair from the delta stream, handled as for the full stream.
    pub fn on_delta_sep<T: Clone, H: Hooks<T>>(
        &self,
        tangle: &mut Tangle<T, H>,
        sep: SolidEntryPoint,
        index: MilestoneIndex,
    )
        requires
            self.phase() == BootstrapPhase::DrainingDeltaSeps,
            old(tangle).wf(),
        ensures
            final(tangle).wf(),
            final(tangle).sep_entries() == old(tangle).sep_entries().insert(sep.0, index),
            final(tangle).cached() == old(tangle).cached(),
            final(tangle).child_entries() == old(tangle).child_entries(),
            final(tangle).queue() == old(tangle).queue(),
    {
        tangle.add_solid_entry_point(sep.message_id(), index);
    }

    /// The delta stream closed: the null identifier is registered as an
    /// entry point at milestone zero, and the stored snapshot bookkeeping
    /// is fetched next.
    pub fn on_delta_closed<T: Clone, H: Hooks<T>>(&mut self, tangle: &mut Tangle<T, H>)
        requires
            old(self).phase() == BootstrapPhase::DrainingDeltaSeps,
            old(tangle).wf(),
        ensures
            final(self).phase() == BootstrapPhase::AwaitingSnapshotInfo,
            final(tangle).wf(),
            final(tangle).sep_entries() == old(tangle).sep_entries().insert(
                MessageId::null_id(),
                MilestoneIndex(0),
            ),
            final(tangle).cached() == old(tangle).cached(),
            final(tangle).child_entries() == old(tangle).child_entries(),
            final(tangle).queue() == old(tangle).queue(),
    {
        tangle.add_solid_entry_point(MessageId::null(), MilestoneIndex(0));
        self.phase = BootstrapPhase::AwaitingSnapshotInfo;
    }

    /// The stored snapshot bookkeeping arrived: the tangle's latest and
    /// snapshot indexes start at the snapshot's index, pruning at the
    /// stored pruning index; the tangle is then running.
    pub fn on_snapshot_info<T: Clone, H: Hooks<T>>(
        &mut self,
        tangle: &mut Tangle<T, H>,
        info: SnapshotInfo,
    )
        requires
            old(self).phase() == BootstrapPhase::AwaitingSnapshotInfo,
            old(tangle).wf(),
        ensures
            final(self).phase() == BootstrapPhase::Running,
            final(tangle).wf(),
            final(tangle).latest_milestone_index() == info.snapshot_index,
            final(tangle).snapshot_index() == info.snapshot_index,
            final(tangle).pruning_index() == info.pruning_index,
            unchanged_but_indexes(*old(tangle), *final(tangle)),
    {
        tangle.update_latest_milestone_index(info.snapshot_index);
        tangle.update_snapshot_index(info.snapshot_index);
        tangle.update_pruning_index(info.pruning_index);
        self.phase = BootstrapPhase::Running;
    }
}

/// The periodic reporter's one decision: the cache is overloaded exactly
/// when it holds more vertices than its capacity.
pub fn cache_overloaded(len: usize, cap: usize) -> (r: bool)
    ensures
        r == (len > cap),
{
    len > cap
}

/// The shutdown sequence's one decision: while the polling window has not
/// elapsed, the still-held tangle is polled again; afterwards it is dropped
/// and the failure reported.
pub fn shutdown_decision(elapsed_ms: u64) -> (r: ShutdownDecision)
    ensures
        r == (if elapsed_ms > SHUTDOWN_WINDOW_MS {
            ShutdownDecision::GiveUp
        } else {
            ShutdownDecision::Retry
        }),
{
    if elapsed_ms > SHUTDOWN_WINDOW_MS {
        ShutdownDecision::GiveUp
    } else {
        ShutdownDecision::Retry
    }
}

} // verus!
