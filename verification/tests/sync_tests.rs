use pbanki::sync::{SyncManager, SyncRequired, SyncStatus, SyncStep};

#[test]
fn new_manager_is_idle() {
    let m = SyncManager::new();
    assert!(matches!(m.get_status(), SyncStatus::Idle));
}

#[test]
fn default_manager_is_idle() {
    let m = SyncManager::default();
    assert!(matches!(m.get_status(), SyncStatus::Idle));
}

#[test]
fn authentication_sets_status() {
    let mut m = SyncManager::new();
    m.start_authentication();
    assert!(matches!(m.get_status(), SyncStatus::Authenticating));
}

#[test]
fn check_sets_status() {
    let mut m = SyncManager::new();
    m.start_check();
    assert!(matches!(m.get_status(), SyncStatus::CheckingStatus));
}

#[test]
fn failure_reports_message_in_status_and_result() {
    let mut m = SyncManager::new();
    m.start_authentication();
    let r = m.fail("Login failed: bad credentials".to_string());
    assert!(!r.success);
    assert_eq!(r.message, "Login failed: bad credentials");
    assert!(r.server_message.is_none());
    match m.get_status() {
        SyncStatus::Error { message } => assert_eq!(message, "Login failed: bad credentials"),
        other => panic!("unexpected status: {:?}", status_name(&other)),
    }
}

#[test]
fn no_changes_completes_at_once() {
    let mut m = SyncManager::new();
    m.start_check();
    match m.resolve_required(SyncRequired::NoChanges) {
        SyncStep::Finished(r) => {
            assert!(r.success);
            assert_eq!(r.message, "No changes to sync");
            assert!(r.server_message.is_none());
        },
        SyncStep::RunCollectionSync => panic!("no exchange should be requested"),
    }
    match m.get_status() {
        SyncStatus::Complete { message } => assert_eq!(message, "No changes to sync"),
        other => panic!("unexpected status: {}", status_name(&other)),
    }
}

#[test]
fn normal_sync_asks_for_the_exchange() {
    let mut m = SyncManager::new();
    m.start_check();
    assert!(matches!(
        m.resolve_required(SyncRequired::NormalSync),
        SyncStep::RunCollectionSync
    ));
    match m.get_status() {
        SyncStatus::SyncingCollection { progress } => {
            assert_eq!(progress, "Syncing collection...")
        },
        other => panic!("unexpected status: {}", status_name(&other)),
    }
}

#[test]
fn full_sync_is_an_explicit_unsupported_error() {
    let mut m = SyncManager::new();
    m.start_check();
    match m.resolve_required(SyncRequired::FullSync) {
        SyncStep::Finished(r) => {
            assert!(!r.success);
            assert_eq!(r.message, "Full sync required. Please sync via desktop Anki first.");
            assert!(r.server_message.is_none());
        },
        SyncStep::RunCollectionSync => panic!("no exchange should be requested"),
    }
    assert!(matches!(m.get_status(), SyncStatus::Error { .. }));
}

#[test]
fn finished_exchange_carries_server_message() {
    let mut m = SyncManager::new();
    m.start_check();
    let _ = m.resolve_required(SyncRequired::NormalSync);
    let r = m.finish_collection_sync("3 cards uploaded".to_string());
    assert!(r.success);
    assert_eq!(r.message, "Collection synced successfully");
    assert_eq!(r.server_message.as_deref(), Some("3 cards uploaded"));
    match m.get_status() {
        SyncStatus::Complete { message } => assert_eq!(message, "Collection synced successfully"),
        other => panic!("unexpected status: {}", status_name(&other)),
    }
}

fn status_name(s: &SyncStatus) -> &'static str {
    match s {
        SyncStatus::Idle => "Idle",
        SyncStatus::Authenticating => "Authenticating",
        SyncStatus::CheckingStatus => "CheckingStatus",
        SyncStatus::SyncingCollection { .. } => "SyncingCollection",
        SyncStatus::SyncingMedia { .. } => "SyncingMedia",
        SyncStatus::Complete { .. } => "Complete",
        SyncStatus::Error { .. } => "Error",
    }
}
