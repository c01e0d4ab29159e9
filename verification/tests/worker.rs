use bee_tangle::worker::{
    cache_overloaded, shutdown_decision, BootstrapPhase, ShutdownDecision, SnapshotInfo,
    TangleWorker, SHUTDOWN_WINDOW_MS,
};
use bee_tangle::{MessageId, MilestoneIndex, NullHooks, SolidEntryPoint, Tangle};

#[test]
fn bootstrap_runs_full_then_delta_then_info() {
    let mut tangle: Tangle<(), NullHooks<()>> = Tangle::default();
    let mut worker = TangleWorker::new();
    assert_eq!(worker.current_phase(), BootstrapPhase::DrainingFullSeps);

    worker.on_full_sep(
        &mut tangle,
        SolidEntryPoint(MessageId::from_u64(1)),
        MilestoneIndex(5),
    );
    worker.on_full_closed();
    assert_eq!(worker.current_phase(), BootstrapPhase::DrainingDeltaSeps);
    worker.on_delta_sep(
        &mut tangle,
        SolidEntryPoint(MessageId::from_u64(2)),
        MilestoneIndex(6),
    );
    worker.on_delta_closed(&mut tangle);
    assert_eq!(worker.current_phase(), BootstrapPhase::AwaitingSnapshotInfo);
    worker.on_snapshot_info(
        &mut tangle,
        SnapshotInfo { snapshot_index: MilestoneIndex(9), pruning_index: MilestoneIndex(4) },
    );

    assert_eq!(
        tangle.get_solid_entry_point(&MessageId::from_u64(1)),
        Some(MilestoneIndex(5))
    );
    assert_eq!(
        tangle.get_solid_entry_point(&MessageId::from_u64(2)),
        Some(MilestoneIndex(6))
    );
    assert_eq!(
        tangle.get_solid_entry_point(&MessageId::null()),
        Some(MilestoneIndex(0))
    );
    assert_eq!(tangle.get_latest_milestone_index(), MilestoneIndex(9));
    assert_eq!(tangle.get_snapshot_index(), MilestoneIndex(9));
    assert_eq!(tangle.get_pruning_index(), MilestoneIndex(4));
    assert_eq!(worker.current_phase(), BootstrapPhase::Running);
}

#[test]
fn bootstrap_phase_names() {
    assert_ne!(BootstrapPhase::DrainingFullSeps, BootstrapPhase::DrainingDeltaSeps);
    assert_ne!(BootstrapPhase::AwaitingSnapshotInfo, BootstrapPhase::Running);
}

#[test]
fn reporter_flags_overload_only_above_capacity() {
    assert!(!cache_overloaded(0, 5));
    assert!(!cache_overloaded(5, 5));
    assert!(cache_overloaded(6, 5));
}

#[test]
fn shutdown_polls_within_the_window() {
    assert_eq!(shutdown_decision(0), ShutdownDecision::Retry);
    assert_eq!(shutdown_decision(SHUTDOWN_WINDOW_MS), ShutdownDecision::Retry);
    assert_eq!(
        shutdown_decision(SHUTDOWN_WINDOW_MS + 1),
        ShutdownDecision::GiveUp
    );
}
