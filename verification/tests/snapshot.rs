use bee_tangle::snapshot::{Kind, MilestoneDiff, Output, Snapshot, SnapshotError, SnapshotHeader};
use bee_tangle::{MessageId, MilestoneIndex, SolidEntryPoint};

fn full_snapshot() -> Snapshot {
    Snapshot {
        header: SnapshotHeader {
            kind: Kind::Full,
            timestamp: 1_600_000_000,
            network_id: 7,
            sep_index: MilestoneIndex(10),
            ledger_index: MilestoneIndex(12),
        },
        solid_entry_points: vec![
            SolidEntryPoint(MessageId::from_u64(1)),
            SolidEntryPoint(MessageId::from_u64(2)),
        ],
        outputs: vec![Output { bytes: vec![1, 2, 3] }, Output { bytes: vec![] }],
        milestone_diffs: vec![
            (MilestoneIndex(11), MilestoneDiff { bytes: vec![9, 9] }),
            (MilestoneIndex(12), MilestoneDiff { bytes: vec![8] }),
        ],
    }
}

fn delta_snapshot() -> Snapshot {
    Snapshot {
        header: SnapshotHeader {
            kind: Kind::Delta,
            timestamp: 5,
            network_id: 1,
            sep_index: MilestoneIndex(20),
            ledger_index: MilestoneIndex(19),
        },
        solid_entry_points: vec![SolidEntryPoint(MessageId::from_u64(3))],
        outputs: vec![],
        milestone_diffs: vec![(MilestoneIndex(20), MilestoneDiff { bytes: vec![] })],
    }
}

fn assert_same(a: &Snapshot, b: &Snapshot) {
    assert_eq!(a.header, b.header);
    assert_eq!(a.solid_entry_points, b.solid_entry_points);
    assert_eq!(a.outputs, b.outputs);
    assert_eq!(a.milestone_diffs, b.milestone_diffs);
}

#[test]
fn full_snapshot_round_trip() {
    let original = full_snapshot();
    let bytes = original.pack();
    let decoded = Snapshot::unpack(&bytes).unwrap();
    assert_same(&original, &decoded);
}

#[test]
fn delta_snapshot_round_trip() {
    let original = delta_snapshot();
    let bytes = original.pack();
    let decoded = Snapshot::unpack(&bytes).unwrap();
    assert_same(&original, &decoded);
}

#[test]
fn unpack_ignores_trailing_bytes() {
    let original = delta_snapshot();
    let mut bytes = original.pack();
    bytes.push(0xAB);
    bytes.push(0xCD);
    let decoded = Snapshot::unpack(&bytes).unwrap();
    assert_same(&original, &decoded);
}

#[test]
fn packed_len_matches_encoding() {
    let original = full_snapshot();
    assert_eq!(original.packed_len(), original.pack().len());
    // header 25, counts 24, seps 64, outputs 8+3 and 8+0, diffs 4+8+2 and 4+8+1.
    assert_eq!(original.packed_len(), 25 + 24 + 64 + 11 + 8 + 14 + 13);
}

#[test]
fn unpack_rejects_bad_kind() {
    let mut bytes = delta_snapshot().pack();
    bytes[0] = 9;
    assert!(matches!(
        Snapshot::unpack(&bytes),
        Err(SnapshotError::InvalidKind(9))
    ));
}

#[test]
fn unpack_rejects_truncated_input() {
    let bytes = full_snapshot().pack();
    let cut: Vec<u8> = bytes[..bytes.len() - 1].to_vec();
    assert!(matches!(
        Snapshot::unpack(&cut),
        Err(SnapshotError::UnexpectedEof)
    ));
}

#[test]
fn unpack_rejects_misordered_full_indexes() {
    let mut snapshot = full_snapshot();
    snapshot.header.sep_index = MilestoneIndex(15);
    // ledger 12 < sep 15 on a full snapshot.
    let bytes = snapshot.pack();
    assert!(matches!(
        Snapshot::unpack(&bytes),
        Err(SnapshotError::LedgerSepIndexesInconsistency(
            MilestoneIndex(12),
            MilestoneIndex(15)
        ))
    ));
}

#[test]
fn unpack_rejects_wrong_diff_count() {
    let mut snapshot = full_snapshot();
    snapshot.header.ledger_index = MilestoneIndex(13);
    // ledger - sep = 3, but only two diffs are present.
    let bytes = snapshot.pack();
    assert!(matches!(
        Snapshot::unpack(&bytes),
        Err(SnapshotError::InvalidMilestoneDiffsCount(3, 2))
    ));
}

#[test]
fn unpack_rejects_misordered_delta_indexes() {
    let mut snapshot = delta_snapshot();
    snapshot.header.ledger_index = MilestoneIndex(30);
    // sep 20 < ledger 30 on a delta snapshot.
    let bytes = snapshot.pack();
    assert!(matches!(
        Snapshot::unpack(&bytes),
        Err(SnapshotError::LedgerSepIndexesInconsistency(
            MilestoneIndex(30),
            MilestoneIndex(20)
        ))
    ));
}

#[test]
fn unpack_rejects_wrong_delta_diff_count() {
    let mut snapshot = delta_snapshot();
    snapshot.header.sep_index = MilestoneIndex(25);
    // sep - ledger = 6, but only one diff is present.
    let bytes = snapshot.pack();
    assert!(matches!(
        Snapshot::unpack(&bytes),
        Err(SnapshotError::InvalidMilestoneDiffsCount(6, 1))
    ));
}

#[test]
fn accessors_expose_the_parts() {
    let snapshot = full_snapshot();
    assert_eq!(snapshot.header().kind, Kind::Full);
    assert_eq!(snapshot.solid_entry_points().len(), 2);
    assert_eq!(snapshot.outputs().len(), 2);
    assert_eq!(snapshot.milestone_diffs().len(), 2);
    assert_eq!(snapshot.solid_entry_points()[0].message_id(), MessageId::from_u64(1));
}

#[test]
fn encoding_starts_with_kind_and_timestamp() {
    let bytes = full_snapshot().pack();
    assert_eq!(bytes[0], 0);
    let ts = u64::from_le_bytes(bytes[1..9].try_into().unwrap());
    assert_eq!(ts, 1_600_000_000);
    let delta_bytes = delta_snapshot().pack();
    assert_eq!(delta_bytes[0], 1);
}
