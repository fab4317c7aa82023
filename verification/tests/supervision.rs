use qol_tray::plugins::manifest::{DaemonConfig, MenuConfig, PluginInfo, PluginManifest};
use qol_tray::plugins::orphans::{kill_orphan_daemons, OrphanAction};
use qol_tray::plugins::supervisor::{DaemonError, StartAction, StartEvent, StopAction};
use qol_tray::plugins::Plugin;
use std::cell::RefCell;

fn plugin(daemon: Option<(bool, &str)>) -> Plugin {
    Plugin::new(
        "svc".to_string(),
        PluginManifest {
            plugin: PluginInfo {
                name: "Service".to_string(),
                description: String::new(),
                version: "1.0.0".to_string(),
                author: None,
                platforms: None,
            },
            menu: MenuConfig { label: "S".to_string(), icon: None, items: vec![] },
            daemon: daemon.map(|(enabled, command)| DaemonConfig { enabled, command: command.to_string() }),
            dependencies: None,
        },
        "/plugins/svc".to_string(),
    )
}

#[test]
fn starting_without_a_daemon_asks_nothing_of_the_host() {
    for daemon in [None, Some((false, "daemon.sh"))] {
        let calls = RefCell::new(0);
        let mut p = plugin(daemon);
        let result = p.start_daemon(|_: &StartAction| {
            *calls.borrow_mut() += 1;
            StartEvent::SpawnFailed("must not be asked".to_string())
        });
        assert!(result.is_ok());
        assert_eq!(*calls.borrow(), 0);
        assert_eq!(p.daemon_pid(), None);

        let result = p.stop_daemon(|_: &StopAction| {
            *calls.borrow_mut() += 1;
            Err("must not be asked".to_string())
        });
        assert!(result.is_ok());
        assert_eq!(*calls.borrow(), 0);
    }
}

#[test]
fn starting_walks_through_check_spawn_and_grace() {
    let asked = RefCell::new(Vec::new());
    let mut p = plugin(Some((true, "daemon.sh")));
    let result = p.start_daemon(|action: &StartAction| {
        asked.borrow_mut().push(format!("{:?}", action));
        match action {
            StartAction::CheckExecutable { .. } => StartEvent::ExecutableExists(true),
            StartAction::Spawn { .. } => StartEvent::Spawned(321),
            StartAction::WaitAndPoll { .. } => StartEvent::StillRunning,
            StartAction::Finish(_) => StartEvent::Begin,
        }
    });
    assert!(result.is_ok());
    assert_eq!(p.daemon_pid(), Some(321));
    assert_eq!(
        *asked.borrow(),
        vec![
            "CheckExecutable { program: \"/plugins/svc/daemon.sh\" }",
            "Spawn { program: \"/plugins/svc/daemon.sh\", cwd: \"/plugins/svc\" }",
            "WaitAndPoll { pid: 321, grace_ms: 100 }",
        ]
    );
}

#[test]
fn a_crash_inside_the_grace_period_surfaces_the_error_text() {
    let mut p = plugin(Some((true, "daemon.sh")));
    let result = p.start_daemon(|action: &StartAction| match action {
        StartAction::CheckExecutable { .. } => StartEvent::ExecutableExists(true),
        StartAction::Spawn { .. } => StartEvent::Spawned(5),
        _ => StartEvent::ExitedWithFailure {
            status: "exit status: 1".to_string(),
            stderr: "fatal: no config\n".to_string(),
        },
    });
    match result {
        Err(DaemonError::Crash { status, stderr }) => {
            assert_eq!(status, "exit status: 1");
            assert_eq!(stderr, "fatal: no config");
        }
        other => panic!("expected a crash, got {:?}", other),
    }
    assert_eq!(p.daemon_pid(), None);
    assert_eq!(p.id, "svc");

    let result = p.start_daemon(|_: &StartAction| StartEvent::ExecutableExists(false));
    assert!(matches!(result, Err(DaemonError::Spawn(_))));
    let result = p.start_daemon(|_: &StartAction| StartEvent::Begin);
    assert!(matches!(result, Err(DaemonError::Supervision(_))));
    assert_eq!(p.daemon_pid(), None);
}

fn running() -> Plugin {
    let mut p = plugin(Some((true, "daemon.sh")));
    p.daemon_process = Some(77);
    p
}

#[test]
fn stopping_a_daemon_that_exits_needs_no_kill() {
    let asked = RefCell::new(Vec::new());
    let mut p = running();
    let result = p.stop_daemon(|action: &StopAction| {
        asked.borrow_mut().push(format!("{:?}", action));
        Ok(asked.borrow().len() >= 3)
    });
    assert!(result.is_ok());
    assert_eq!(p.daemon_pid(), None);
    assert_eq!(
        *asked.borrow(),
        vec![
            "Terminate { pid: 77 }",
            "PollAgain { pid: 77, after_ms: 50 }",
            "PollAgain { pid: 77, after_ms: 50 }",
        ]
    );
}

#[test]
fn stopping_a_daemon_that_hangs_ends_with_kill_and_reap() {
    let asked = RefCell::new(Vec::new());
    let mut p = running();
    let result = p.stop_daemon(|action: &StopAction| {
        asked.borrow_mut().push(format!("{:?}", action));
        Ok(false)
    });
    assert!(result.is_ok());
    assert_eq!(p.daemon_pid(), None);
    let asked = asked.borrow();
    assert_eq!(asked.len(), 42);
    assert_eq!(asked[0], "Terminate { pid: 77 }");
    assert!(asked[1..41].iter().all(|a| a == "PollAgain { pid: 77, after_ms: 50 }"));
    assert_eq!(asked[41], "KillAndReap { pid: 77 }");
}

#[test]
fn stopping_reports_what_the_host_could_not_do() {
    let mut p = running();
    let result = p.stop_daemon(|_: &StopAction| Err("no such process".to_string()));
    assert!(matches!(result, Err(DaemonError::Supervision(m)) if m == "no such process"));
    assert_eq!(p.daemon_pid(), None);

    let mut p = running();
    let result = p.stop_daemon(|action: &StopAction| match action {
        StopAction::KillAndReap { .. } => Err("cannot kill".to_string()),
        _ => Ok(false),
    });
    assert!(matches!(result, Err(DaemonError::Supervision(m)) if m == "cannot kill"));
}

#[test]
fn orphans_are_recovered_and_the_registry_is_removed_last() {
    let log = kill_orphan_daemons(Some("4242\n"), |_| false);
    assert_eq!(log, vec![OrphanAction::Probe { pid: 4242 }, OrphanAction::RemoveRegistry]);

    let log = kill_orphan_daemons(Some("1\n2\nx\n3"), |action| match action {
        OrphanAction::Probe { pid } => pid != 2,
        OrphanAction::Terminate { pid, .. } => pid == 3,
        _ => false,
    });
    assert_eq!(
        log,
        vec![
            OrphanAction::Probe { pid: 1 },
            OrphanAction::Terminate { pid: 1, grace_ms: 100 },
            OrphanAction::Probe { pid: 2 },
            OrphanAction::Probe { pid: 3 },
            OrphanAction::Terminate { pid: 3, grace_ms: 100 },
            OrphanAction::Kill { pid: 3 },
            OrphanAction::RemoveRegistry,
        ]
    );

    assert_eq!(kill_orphan_daemons(Some(""), |_| true), vec![OrphanAction::RemoveRegistry]);
    assert!(kill_orphan_daemons(None, |_| true).is_empty());
    let log = kill_orphan_daemons(Some("9\n8"), |_| true);
    assert_eq!(log.len(), 7);
    assert_eq!(log.last(), Some(&OrphanAction::RemoveRegistry));
}

#[test]
fn only_lines_with_a_number_above_zero_name_a_process() {
    let log = kill_orphan_daemons(Some("-3\n0\n 42 \n-1\n+0\nx"), |_| true);
    assert_eq!(
        log,
        vec![
            OrphanAction::Probe { pid: 42 },
            OrphanAction::Terminate { pid: 42, grace_ms: 100 },
            OrphanAction::Kill { pid: 42 },
            OrphanAction::RemoveRegistry,
        ]
    );
    assert_eq!(kill_orphan_daemons(Some("-1"), |_| true), vec![OrphanAction::RemoveRegistry]);
    assert_eq!(kill_orphan_daemons(Some("0\n-2147483648"), |_| true), vec![OrphanAction::RemoveRegistry]);
}

#[test]
fn a_process_is_asked_to_exit_only_if_alive_and_killed_only_if_it_stays() {
    let log = kill_orphan_daemons(Some("5\n6\n7"), |action| match action {
        OrphanAction::Probe { pid } => pid != 5,
        OrphanAction::Terminate { pid, .. } => pid == 7,
        _ => true,
    });
    assert_eq!(
        log,
        vec![
            OrphanAction::Probe { pid: 5 },
            OrphanAction::Probe { pid: 6 },
            OrphanAction::Terminate { pid: 6, grace_ms: 100 },
            OrphanAction::Probe { pid: 7 },
            OrphanAction::Terminate { pid: 7, grace_ms: 100 },
            OrphanAction::Kill { pid: 7 },
            OrphanAction::RemoveRegistry,
        ]
    );
    let asked = RefCell::new(0);
    let log = kill_orphan_daemons(None, |_| {
        *asked.borrow_mut() += 1;
        true
    });
    assert!(log.is_empty());
    assert_eq!(*asked.borrow(), 0);
}
