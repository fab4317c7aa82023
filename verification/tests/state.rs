use qol_tray::daemon::state::{begun, completed};
use qol_tray::daemon::{DaemonState, DiscoveredPluginInfo, DiscoveryState, DiscoveryStatus};
use std::sync::Arc;

#[test]
fn discovery_status_equality() {
    let cases = [
        (DiscoveryStatus::Idle, DiscoveryStatus::Idle, true),
        (DiscoveryStatus::Discovering, DiscoveryStatus::Discovering, true),
        (DiscoveryStatus::Complete, DiscoveryStatus::Complete, true),
        (DiscoveryStatus::Idle, DiscoveryStatus::Discovering, false),
        (DiscoveryStatus::Idle, DiscoveryStatus::Complete, false),
        (DiscoveryStatus::Discovering, DiscoveryStatus::Complete, false),
    ];

    for (a, b, expected) in cases {
        assert_eq!(a == b, expected, "{:?} == {:?} should be {}", a, b, expected);
    }
}

#[test]
fn discovery_state_defaults() {
    let state = DiscoveryState::default();
    assert_eq!(state.status, DiscoveryStatus::Idle);
    assert!(state.plugins.is_empty());
}

#[test]
fn daemon_state_initializes_correctly() {
    let state = DaemonState::new();
    let discovery = state.discovery.read().unwrap();
    assert_eq!(discovery.status, DiscoveryStatus::Idle);
    assert!(discovery.plugins.is_empty());
}

#[test]
fn writer_blocks_readers_then_readers_resume() {
    let state = Arc::new(DaemonState::new());

    {
        let mut guard = state.discovery.write().unwrap();
        guard.status = DiscoveryStatus::Discovering;
    }

    let guard = state.discovery.read().unwrap();
    assert_eq!(guard.status, DiscoveryStatus::Discovering);
}

#[test]
fn a_search_begins_unless_one_runs() {
    let info = DiscoveredPluginInfo {
        id: "test".into(),
        name: "Test".into(),
        path: "/test".into(),
    };
    let idle = DiscoveryState::default();
    let running = begun(idle).unwrap();
    assert_eq!(running.status, DiscoveryStatus::Discovering);
    assert!(begun(running).is_none());

    let done = completed(vec![info]);
    assert_eq!(done.status, DiscoveryStatus::Complete);
    assert_eq!(done.plugins.len(), 1);
    let again = begun(done).unwrap();
    assert_eq!(again.status, DiscoveryStatus::Discovering);
    assert_eq!(again.plugins.len(), 1);

    let state = DaemonState::default();
    assert_eq!(state.snapshot().status, DiscoveryStatus::Idle);
}
