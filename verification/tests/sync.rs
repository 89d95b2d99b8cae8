use openim::domain::group::GroupInfo;
use openim::sync::{diff_by, plan_version_sync, DiffOptions, SyncState, VersionDecision, VersionDelta};
use openim::types::VersionState;

/// The items of these plans are groups keyed by id, with the member count
/// standing for the item's value.
type Item = GroupInfo;

fn item(id: &str, value: u32) -> Item {
    GroupInfo {
        group_id: id.to_string(),
        group_name: String::new(),
        face_url: String::new(),
        owner_user_id: String::new(),
        member_count: value,
        updated_at: 0,
    }
}

#[test]
fn diff_plans_insert_update_delete_and_unchanged() {
    let server = vec![item("a", 1), item("b", 3), item("c", 1)];
    let local = vec![item("a", 1), item("b", 2), item("d", 1)];

    let plan = diff_by(&server, &local, DiffOptions::default());

    assert_eq!(
        plan.action_states(),
        vec![
            SyncState::Unchanged,
            SyncState::Update,
            SyncState::Insert,
            SyncState::Delete,
        ]
    );
}

#[test]
fn diff_can_skip_deletion_and_unchanged_notice() {
    let plan = diff_by(
        &[item("a", 1)],
        &[item("a", 1), item("b", 2)],
        DiffOptions {
            skip_deletion: true,
            include_unchanged: false,
        },
    );

    assert!(plan.is_empty());
}

#[test]
fn version_delta_one_step_incremental_merges_changes() {
    let state = VersionState {
        version_id: "v".to_string(),
        version: 1,
        uid_list: vec!["a".to_string(), "b".to_string()],
    };
    let local = vec![item("a", 1), item("b", 2)];
    let delta = VersionDelta {
        version_id: "v".to_string(),
        version: 2,
        full: false,
        delete_ids: vec!["a".to_string()],
        updates: vec![item("b", 3)],
        inserts: vec![item("c", 4)],
        id_order_changed: false,
    };

    let decision = plan_version_sync(&state, &local, &delta, None);

    match decision {
        VersionDecision::Incremental {
            server_items,
            next_state,
        } => {
            assert_eq!(server_items, vec![item("b", 3), item("c", 4)]);
            assert_eq!(next_state.version, 2);
            assert_eq!(next_state.uid_list, vec!["b".to_string(), "c".to_string()]);
        }
        _ => panic!("expected incremental sync"),
    }
}

#[test]
fn version_gap_or_id_mismatch_requires_full_sync() {
    let state = VersionState {
        version_id: "v1".to_string(),
        version: 1,
        uid_list: vec![],
    };
    let mut delta = VersionDelta {
        version_id: "v1".to_string(),
        version: 3,
        full: false,
        delete_ids: vec![],
        updates: vec![item("a", 1)],
        inserts: vec![],
        id_order_changed: false,
    };

    assert_eq!(
        plan_version_sync(&state, &[], &delta, None),
        VersionDecision::Full
    );

    delta.version = 2;
    delta.version_id = "v2".to_string();
    assert_eq!(
        plan_version_sync(&state, &[], &delta, None),
        VersionDecision::Full
    );
}

#[test]
fn stale_or_empty_delta_is_a_noop() {
    let state = VersionState {
        version_id: "v".to_string(),
        version: 5,
        uid_list: vec!["a".to_string()],
    };
    let empty = VersionDelta::<Item> {
        version_id: "v".to_string(),
        version: 6,
        full: false,
        delete_ids: vec![],
        updates: vec![],
        inserts: vec![],
        id_order_changed: false,
    };
    assert!(!empty.has_changes());
    assert_eq!(plan_version_sync(&state, &[item("a", 1)], &empty, None), VersionDecision::Noop);
    let stale = VersionDelta {
        version: 4,
        updates: vec![item("a", 2)],
        ..empty.clone()
    };
    assert_eq!(plan_version_sync(&state, &[item("a", 1)], &stale, None), VersionDecision::Noop);
}

#[test]
fn refreshed_ids_replace_the_order_when_it_changed() {
    let state = VersionState {
        version_id: "v".to_string(),
        version: 1,
        uid_list: vec!["a".to_string(), "b".to_string()],
    };
    let delta = VersionDelta {
        version_id: "v".to_string(),
        version: 2,
        full: false,
        delete_ids: vec![],
        updates: vec![],
        inserts: vec![],
        id_order_changed: true,
    };
    let decision = plan_version_sync(
        &state,
        &[item("a", 1), item("b", 2)],
        &delta,
        Some(vec!["b".to_string(), "a".to_string()]),
    );
    match decision {
        VersionDecision::Incremental {
            server_items,
            next_state,
        } => {
            assert_eq!(server_items, vec![item("b", 2), item("a", 1)]);
            assert_eq!(next_state.uid_list, vec!["b".to_string(), "a".to_string()]);
        }
        _ => panic!("expected incremental sync"),
    }
}

#[test]
fn diff_without_options_reports_every_local_deletion() {
    let plan = diff_by(&[], &[item("x", 1), item("y", 2)], DiffOptions::default());
    assert_eq!(plan.action_states(), vec![SyncState::Delete, SyncState::Delete]);
}
