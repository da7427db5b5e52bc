use grahamcraft::sync::{position_sync_decision, SyncDecision};

#[test]
fn airborne_syncs_on_interval_only() {
    assert_eq!(
        position_sync_decision(false, true, true, false),
        SyncDecision { send: false, was_airborne: true }
    );
    assert_eq!(
        position_sync_decision(false, false, false, true),
        SyncDecision { send: true, was_airborne: true }
    );
}

#[test]
fn grounded_syncs_on_landing_or_moving() {
    assert_eq!(
        position_sync_decision(true, true, false, false),
        SyncDecision { send: true, was_airborne: false }
    );
    assert_eq!(
        position_sync_decision(true, false, true, false),
        SyncDecision { send: true, was_airborne: false }
    );
    assert_eq!(
        position_sync_decision(true, false, false, true),
        SyncDecision { send: false, was_airborne: false }
    );
}
