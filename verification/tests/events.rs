use qol_tray::daemon::events::{receivers_reached, ReceiveError, CHANNEL_CAPACITY};
use qol_tray::daemon::{Daemon, DaemonEvent, DiscoveryStatus, EventBus};
use qol_tray::dev::DiscoveredPlugin;

#[test]
fn single_subscriber_receives_event() {
    let bus = EventBus::new();
    let mut rx = bus.subscribe();

    bus.send(DaemonEvent::PluginsChanged);

    let event = EventBus::try_next(&mut rx).unwrap();
    assert!(matches!(event, DaemonEvent::PluginsChanged));
}

#[test]
fn multiple_subscribers_receive_same_event() {
    let bus = EventBus::new();
    let mut rx1 = bus.subscribe();
    let mut rx2 = bus.subscribe();
    let mut rx3 = bus.subscribe();

    assert_eq!(bus.send(DaemonEvent::PluginsChanged), 3);

    for rx in [&mut rx1, &mut rx2, &mut rx3] {
        let event = EventBus::try_next(rx).unwrap();
        assert!(matches!(event, DaemonEvent::PluginsChanged));
    }
}

#[test]
fn late_subscriber_misses_earlier_events() {
    let bus = EventBus::new();

    bus.send(DaemonEvent::DiscoveryStarted);

    let mut rx = bus.subscribe();
    bus.send(DaemonEvent::PluginsChanged);

    let event = EventBus::try_next(&mut rx).unwrap();
    assert!(matches!(event, DaemonEvent::PluginsChanged));
    assert_eq!(EventBus::try_next(&mut rx).unwrap_err(), ReceiveError::Empty);
}

#[test]
fn send_without_subscribers_does_not_panic() {
    let bus = EventBus::new();
    assert_eq!(bus.send(DaemonEvent::PluginsChanged), 0);
}

#[test]
fn subscribers_receive_events_in_order() {
    let bus = EventBus::new();
    let mut rx = bus.subscribe();
    let mut other = bus.subscribe();

    bus.send(DaemonEvent::DiscoveryStarted);
    bus.send(DaemonEvent::DiscoveryComplete { plugins: vec![] });
    bus.send(DaemonEvent::PluginsChanged);

    for r in [&mut rx, &mut other] {
        assert!(matches!(EventBus::try_next(r).unwrap(), DaemonEvent::DiscoveryStarted));
        assert!(matches!(EventBus::try_next(r).unwrap(), DaemonEvent::DiscoveryComplete { .. }));
        assert!(matches!(EventBus::try_next(r).unwrap(), DaemonEvent::PluginsChanged));
    }
}

#[test]
fn a_subscriber_that_lags_loses_the_oldest_events() {
    let bus = EventBus::new();
    let mut rx = bus.subscribe();
    for _ in 0..CHANNEL_CAPACITY + 5 {
        bus.send(DaemonEvent::PluginsChanged);
    }
    assert_eq!(EventBus::try_next(&mut rx).unwrap_err(), ReceiveError::Lagged(5));
    let mut seen = 0;
    while EventBus::try_next(&mut rx).is_ok() {
        seen += 1;
    }
    assert_eq!(seen, CHANNEL_CAPACITY);
}

#[test]
fn a_subscriber_outlives_the_bus() {
    let bus = EventBus::default();
    let mut rx = bus.subscribe();
    bus.send(DaemonEvent::PluginsChanged);
    drop(bus);
    assert!(EventBus::try_next(&mut rx).is_ok());
    assert_eq!(EventBus::try_next(&mut rx).unwrap_err(), ReceiveError::Closed);
}

#[test]
fn event_kinds_have_names() {
    assert_eq!(DaemonEvent::PluginsChanged.kind(), "plugins_changed");
    assert_eq!(DaemonEvent::DiscoveryStarted.kind(), "discovery_started");
    assert_eq!(DaemonEvent::DiscoveryComplete { plugins: vec![] }.kind(), "discovery_complete");
}

#[test]
fn discovery_is_announced_and_recorded() {
    let daemon = Daemon::new();
    let mut rx = daemon.events.subscribe();

    assert!(daemon.begin_discovery());
    assert_eq!(daemon.state.snapshot().status, DiscoveryStatus::Discovering);
    assert!(matches!(EventBus::try_next(&mut rx).unwrap(), DaemonEvent::DiscoveryStarted));

    assert!(!daemon.begin_discovery());
    assert_eq!(EventBus::try_next(&mut rx).unwrap_err(), ReceiveError::Empty);

    let found = vec![DiscoveredPlugin {
        id: "plugin-a".to_string(),
        name: "Plugin A".to_string(),
        path: "/path/a".to_string(),
        already_linked: false,
        installed_not_linked: true,
    }];
    daemon.complete_discovery(&found);
    let state = daemon.state.snapshot();
    assert_eq!(state.status, DiscoveryStatus::Complete);
    assert_eq!(state.plugins.len(), 1);
    assert_eq!(state.plugins[0].id, "plugin-a");
    match EventBus::try_next(&mut rx).unwrap() {
        DaemonEvent::DiscoveryComplete { plugins } => {
            assert_eq!(plugins.len(), 1);
            assert_eq!(plugins[0].name, "Plugin A");
            assert_eq!(plugins[0].path, "/path/a");
        }
        other => panic!("unexpected event: {:?}", other),
    }
    assert!(daemon.begin_discovery());
}

#[test]
fn an_announcement_that_nobody_hears_reaches_nobody() {
    assert_eq!(receivers_reached(None), 0);
    assert_eq!(receivers_reached(Some(3)), 3);
    assert_eq!(CHANNEL_CAPACITY, 64);
}
