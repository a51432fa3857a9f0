use std::collections::BTreeSet;

use openraft::engine::Engine;
use openraft::engine::MetricsChangeFlags;
use openraft::membership::membership::Membership;
use openraft::membership::stored_membership::StoredMembership;
use openraft::storage::SnapshotMeta;
use openraft::testing::log_id;

fn ids(of: &[u64]) -> BTreeSet<u64> {
    of.iter().copied().collect()
}

fn m12() -> Membership {
    Membership::new(vec![ids(&[1, 2])], None)
}

fn m1234() -> Membership {
    Membership::new(vec![ids(&[1, 2, 3, 4])], None)
}

fn eng() -> Engine {
    let mut eng = Engine::default();

    eng.state.snapshot_meta = SnapshotMeta {
        last_log_id: Some(log_id(2, 2)),
        last_membership: StoredMembership::new(Some(log_id(1, 1)), m12()),
        snapshot_id: "1-2-3-4".to_string(),
    };
    eng
}

#[test]
fn test_update_snapshot_no_update() -> anyhow::Result<()> {
    // snapshot will not be updated because of equal or less `last_log_id`.
    let mut eng = eng();

    let got = eng.snapshot_handler().update_snapshot(SnapshotMeta {
        last_log_id: Some(log_id(2, 2)),
        last_membership: StoredMembership::new(Some(log_id(1, 1)), m1234()),
        snapshot_id: "1-2-3-4".to_string(),
    });

    assert_eq!(false, got);

    assert_eq!(
        SnapshotMeta {
            last_log_id: Some(log_id(2, 2)),
            last_membership: StoredMembership::new(Some(log_id(1, 1)), m12()),
            snapshot_id: "1-2-3-4".to_string(),
        },
        eng.state.snapshot_meta
    );

    assert_eq!(
        MetricsChangeFlags {
            replication: false,
            local_data: false,
            cluster: false,
        },
        eng.output.metrics_flags
    );

    assert_eq!(0, eng.output.take_commands().len());

    Ok(())
}

#[test]
fn test_update_snapshot_updated() -> anyhow::Result<()> {
    // snapshot will be updated to a new one with greater `last_log_id`.
    let mut eng = eng();

    let got = eng.snapshot_handler().update_snapshot(SnapshotMeta {
        last_log_id: Some(log_id(2, 3)),
        last_membership: StoredMembership::new(Some(log_id(2, 2)), m1234()),
        snapshot_id: "1-2-3-4".to_string(),
    });

    assert_eq!(true, got);

    assert_eq!(
        SnapshotMeta {
            last_log_id: Some(log_id(2, 3)),
            last_membership: StoredMembership::new(Some(log_id(2, 2)), m1234()),
            snapshot_id: "1-2-3-4".to_string(),
        },
        eng.state.snapshot_meta
    );

    assert_eq!(
        MetricsChangeFlags {
            replication: false,
            local_data: true,
            cluster: false,
        },
        eng.output.metrics_flags
    );

    assert_eq!(0, eng.output.take_commands().len());

    Ok(())
}
