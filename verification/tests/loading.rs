use qol_tray::plugins::loader::{ManifestSource, PluginDir};
use qol_tray::plugins::manager::note_result;
use qol_tray::plugins::manifest::{DaemonConfig, MenuConfig, PluginInfo, PluginManifest};
use qol_tray::plugins::orphans::OrphanAction;
use qol_tray::plugins::supervisor::{DaemonError, StartAction, StartEvent, StopAction};
use qol_tray::plugins::{DaemonFailure, Plugin, PluginManager};
use std::cell::RefCell;

fn described(daemon: Option<&str>) -> PluginManifest {
    PluginManifest {
        plugin: PluginInfo {
            name: "Service".to_string(),
            description: String::new(),
            version: "1.0.0".to_string(),
            author: None,
            platforms: None,
        },
        menu: MenuConfig { label: "S".to_string(), icon: None, items: vec![] },
        daemon: daemon.map(|command| DaemonConfig { enabled: true, command: command.to_string() }),
        dependencies: None,
    }
}

fn entry(name: &str, daemon: Option<&str>) -> PluginDir {
    PluginDir {
        path: format!("/plugins/{}", name),
        name: Some(name.to_string()),
        is_dir: true,
        manifest: ManifestSource::Parsed(described(daemon)),
    }
}

fn running(name: &str, pid: u32) -> Plugin {
    let mut p = Plugin::new(name.to_string(), described(Some("daemon.sh")), format!("/plugins/{}", name));
    p.daemon_process = Some(pid);
    p
}

/// A host whose daemons get the process ids 100, 101, ...; the daemon of a
/// plugin whose directory is named in `missing` has no executable, and the
/// one of a plugin named in `crashing` exits within the grace period.
fn start_host<'a>(
    log: &'a RefCell<Vec<String>>,
    missing: &'a [&'a str],
    crashing: &'a [&'a str],
) -> impl Fn(&StartAction) -> StartEvent + 'a {
    let next = RefCell::new(100u32);
    let crashed = RefCell::new(Vec::new());
    move |action: &StartAction| match action {
        StartAction::CheckExecutable { program } => {
            StartEvent::ExecutableExists(!missing.iter().any(|m| program.contains(m)))
        }
        StartAction::Spawn { program, .. } => {
            let pid = *next.borrow();
            *next.borrow_mut() += 1;
            log.borrow_mut().push(format!("spawn {}", program));
            if crashing.iter().any(|c| program.contains(c)) {
                crashed.borrow_mut().push(pid);
            }
            StartEvent::Spawned(pid)
        }
        StartAction::WaitAndPoll { pid, .. } => {
            if crashed.borrow().contains(pid) {
                StartEvent::ExitedWithFailure { status: "exit status: 2".to_string(), stderr: " bad \n".to_string() }
            } else {
                StartEvent::StillRunning
            }
        }
        StartAction::Finish(_) => StartEvent::Begin,
    }
}

fn stop_host<'a>(log: &'a RefCell<Vec<String>>, lost: &'a [u32]) -> impl Fn(&StopAction) -> Result<bool, String> + 'a {
    move |action: &StopAction| match action {
        StopAction::Terminate { pid } => {
            log.borrow_mut().push(format!("terminate {}", pid));
            if lost.contains(pid) {
                Err(format!("lost {}", pid))
            } else {
                Ok(true)
            }
        }
        _ => Ok(true),
    }
}

fn recover_host<'a>(log: &'a RefCell<Vec<String>>) -> impl Fn(OrphanAction) -> bool + 'a {
    move |action: OrphanAction| {
        log.borrow_mut().push(format!("{:?}", action));
        false
    }
}

fn names(failed: &[DaemonFailure]) -> Vec<&str> {
    failed.iter().map(|f| f.plugin_id.as_str()).collect()
}

#[test]
fn a_load_recovers_orphans_before_it_starts_anything() {
    let log = RefCell::new(Vec::new());
    let mut manager = PluginManager::new();
    let entries = vec![entry("first", Some("daemon.sh")), entry("plain", None), entry("second", Some("run"))];
    let report = manager.load_plugins(
        Some("41\n-7\n42"),
        entries,
        "linux",
        recover_host(&log),
        &start_host(&log, &[], &[]),
        &stop_host(&log, &[]),
    );

    assert_eq!(
        *log.borrow(),
        vec![
            "Probe { pid: 41 }",
            "Probe { pid: 42 }",
            "RemoveRegistry",
            "spawn /plugins/first/daemon.sh",
            "spawn /plugins/second/run",
        ]
    );
    assert_eq!(
        report.recovery,
        vec![OrphanAction::Probe { pid: 41 }, OrphanAction::Probe { pid: 42 }, OrphanAction::RemoveRegistry]
    );
    assert!(report.failed.is_empty());
    assert_eq!(report.registry, "100\n101");
    assert_eq!(manager.len(), 3);
    assert_eq!(manager.get("first").unwrap().daemon_pid(), Some(100));
    assert_eq!(manager.get("plain").unwrap().daemon_pid(), None);
    assert_eq!(manager.get("second").unwrap().daemon_pid(), Some(101));
}

#[test]
fn a_start_that_fails_keeps_no_later_plugin_from_being_started() {
    let log = RefCell::new(Vec::new());
    let mut manager = PluginManager::new();
    let entries = vec![
        entry("gone", Some("daemon.sh")),
        entry("crashy", Some("daemon.sh")),
        PluginDir {
            path: "/plugins/broken".to_string(),
            name: Some("broken".to_string()),
            is_dir: true,
            manifest: ManifestSource::Invalid("not toml".to_string()),
        },
        entry("good", Some("daemon.sh")),
        entry("plain", None),
    ];
    let report = manager.load_plugins(
        None,
        entries,
        "linux",
        recover_host(&log),
        &start_host(&log, &["gone"], &["crashy"]),
        &stop_host(&log, &[]),
    );

    assert!(report.recovery.is_empty());
    assert_eq!(names(&report.failed), vec!["gone", "crashy"]);
    assert!(matches!(
        &report.failed[0].error,
        DaemonError::Spawn(m) if m == "Daemon executable not found: /plugins/gone/daemon.sh"
    ));
    assert!(matches!(
        &report.failed[1].error,
        DaemonError::Crash { status, stderr } if status == "exit status: 2" && stderr == "bad"
    ));
    assert_eq!(report.registry, "101");
    let ids: Vec<&str> = manager.plugins().iter().map(|p| p.id.as_str()).collect();
    assert_eq!(ids, vec!["gone", "crashy", "good", "plain"]);
    assert_eq!(manager.get("gone").unwrap().daemon_pid(), None);
    assert_eq!(manager.get("crashy").unwrap().daemon_pid(), None);
    assert_eq!(manager.get("good").unwrap().daemon_pid(), Some(101));
    assert_eq!(*log.borrow(), vec!["spawn /plugins/crashy/daemon.sh", "spawn /plugins/good/daemon.sh"]);
}

#[test]
fn stopping_all_goes_on_after_a_failure_and_empties_the_registry() {
    let log = RefCell::new(Vec::new());
    let mut manager = PluginManager::new();
    manager.register_all(vec![
        running("a", 1),
        Plugin::new("b".to_string(), described(None), "/plugins/b".to_string()),
        running("c", 3),
        running("d", 4),
    ]);

    let failed = manager.stop_all(&stop_host(&log, &[1, 3]));

    assert_eq!(*log.borrow(), vec!["terminate 1", "terminate 3", "terminate 4"]);
    assert_eq!(names(&failed), vec!["a", "c"]);
    assert!(matches!(&failed[1].error, DaemonError::Supervision(m) if m == "lost 3"));
    assert_eq!(manager.len(), 0);
    assert!(manager.stop_all(&stop_host(&log, &[])).is_empty());
}

#[test]
fn a_reload_stops_every_old_daemon_before_it_starts_a_new_one() {
    let log = RefCell::new(Vec::new());
    let mut manager = PluginManager::new();
    manager.register_all(vec![running("old", 7), running("kept", 8)]);

    let (stopped, report) = manager.reload_plugins(
        Some("7\n8"),
        vec![entry("kept", Some("daemon.sh")), entry("new", None)],
        "linux",
        recover_host(&log),
        &start_host(&log, &[], &[]),
        &stop_host(&log, &[7]),
    );

    assert_eq!(
        *log.borrow(),
        vec![
            "terminate 7",
            "terminate 8",
            "Probe { pid: 7 }",
            "Probe { pid: 8 }",
            "RemoveRegistry",
            "spawn /plugins/kept/daemon.sh",
        ]
    );
    assert_eq!(names(&stopped), vec!["old"]);
    assert!(report.failed.is_empty());
    assert_eq!(report.registry, "100");
    let ids: Vec<&str> = manager.plugins().iter().map(|p| p.id.as_str()).collect();
    assert_eq!(ids, vec!["kept", "new"]);
    assert!(manager.get("old").is_none());
    assert_eq!(manager.get("kept").unwrap().daemon_pid(), Some(100));
}

#[test]
fn starting_all_replaces_a_plugin_of_the_same_name_and_stops_its_daemon() {
    let log = RefCell::new(Vec::new());
    let mut manager = PluginManager::new();
    manager.register_all(vec![running("svc", 9)]);

    let svc = Plugin::new("svc".to_string(), described(Some("run")), "/plugins/svc".to_string());
    let report = manager.start_all(vec![svc], &start_host(&log, &[], &[]), &stop_host(&log, &[]));

    assert_eq!(report.pids, vec![100]);
    assert!(report.failed.is_empty());
    assert_eq!(manager.len(), 1);
    assert_eq!(manager.get("svc").unwrap().daemon_pid(), Some(100));
    assert_eq!(*log.borrow(), vec!["spawn /plugins/svc/run", "terminate 9"]);
}

#[test]
fn only_errors_are_noted_as_failures() {
    let mut failed = Vec::new();
    note_result(&mut failed, "a", Ok(()));
    assert!(failed.is_empty());
    note_result(&mut failed, "b", Err(DaemonError::Spawn("no".to_string())));
    note_result(&mut failed, "c", Ok(()));
    note_result(&mut failed, "d", Err(DaemonError::Supervision("lost".to_string())));
    assert_eq!(names(&failed), vec!["b", "d"]);
    assert!(matches!(&failed[0].error, DaemonError::Spawn(m) if m == "no"));
}
