use qol_tray::plugins::loader::{ManifestError, ManifestSource, PluginDir};
use qol_tray::plugins::manifest::{
    is_listed, platform_listed, ActionType, DaemonConfig, MenuConfig, MenuItem, PluginInfo,
    PluginManifest,
};
use qol_tray::plugins::orphans::{
    daemon_pids_content, orphan_pids, OrphanAction, OrphanRecovery, ORPHAN_GRACE_MS,
};
use qol_tray::plugins::supervisor::{
    stop_polled, stop_reaped, DaemonError, StartAction, StartEvent, StartState, StopAction,
    STARTUP_GRACE_MS, STOP_POLL_MS, STOP_TIMEOUT_MS,
};
use qol_tray::plugins::{Plugin, PluginLoader, PluginManager};

fn manifest(name: &str, platforms: Option<Vec<&str>>, daemon: Option<(bool, &str)>) -> PluginManifest {
    PluginManifest {
        plugin: PluginInfo {
            name: name.to_string(),
            description: "A test plugin".to_string(),
            version: "1.0.0".to_string(),
            author: None,
            platforms: platforms.map(|p| p.into_iter().map(String::from).collect()),
        },
        menu: MenuConfig { label: "Test".to_string(), icon: None, items: vec![] },
        daemon: daemon.map(|(enabled, command)| DaemonConfig { enabled, command: command.to_string() }),
        dependencies: None,
    }
}

fn dir(name: &str, is_dir: bool, manifest: ManifestSource) -> PluginDir {
    PluginDir { path: format!("/plugins/{}", name), name: Some(name.to_string()), is_dir, manifest }
}

fn valid(name: &str) -> PluginDir {
    dir(name, true, ManifestSource::Parsed(manifest("Test Plugin", None, None)))
}

#[test]
fn supports_current_platform_cases() {
    let current_os = "linux";
    let cases: &[(Option<Vec<&str>>, bool)] = &[
        (None, true),
        (Some(vec![]), false),
        (Some(vec![current_os]), true),
        (Some(vec!["not-a-real-os"]), false),
        (Some(vec!["linux", "windows", "macos"]), true),
        (Some(vec!["fake1", "fake2"]), false),
        (Some(vec!["LINUX", "WINDOWS"]), false),
        (Some(vec![" linux"]), false),
        (Some(vec!["linux "]), false),
    ];

    for (platforms, expected) in cases {
        let info = manifest("Test", platforms.clone(), None).plugin;
        assert_eq!(info.supports_platform(current_os), *expected, "platforms: {:?}", platforms);
    }
    assert!(platform_listed(&None, "anything"));
    assert!(is_listed(&vec!["a".to_string(), "b".to_string()], "b"));
    assert!(!is_listed(&vec![], "b"));
}

#[test]
fn parse_action_type_cases() {
    let cases = [
        ("run", Some(ActionType::Run)),
        ("settings", Some(ActionType::Settings)),
        ("toggle-config", Some(ActionType::ToggleConfig)),
        ("Run", None),
        ("", None),
        ("toggle_config", None),
    ];

    for (input, expected) in cases {
        assert_eq!(ActionType::from_name(input), expected, "input: {}", input);
    }
}

#[test]
fn load_from_dir_returns_empty_when_no_valid_plugins() {
    assert!(PluginLoader::load_from_dir(vec![], "linux").is_empty());
    assert!(PluginLoader::load_from_dir(
        vec![dir("file.txt", false, ManifestSource::Missing)],
        "linux"
    )
    .is_empty());
    assert!(PluginLoader::load_from_dir(
        vec![dir("no-manifest", true, ManifestSource::Missing)],
        "linux"
    )
    .is_empty());
}

#[test]
fn load_from_dir_loads_valid_plugin() {
    let result = PluginLoader::load_from_dir(vec![valid("test-plugin")], "linux");

    assert_eq!(result.len(), 1);
    assert_eq!(result[0].id, "test-plugin");
    assert_eq!(result[0].manifest.plugin.name, "Test Plugin");
    assert_eq!(result[0].path, "/plugins/test-plugin");
    assert_eq!(result[0].daemon_pid(), None);
}

#[test]
fn load_plugin_fails_for_invalid_dirs() {
    assert!(matches!(
        PluginLoader::load_plugin(dir("a", true, ManifestSource::Missing)),
        Err(ManifestError::NotFound)
    ));
    assert!(matches!(
        PluginLoader::load_plugin(dir("a", true, ManifestSource::Invalid("invalid {{{".to_string()))),
        Err(ManifestError::Invalid(m)) if m == "invalid {{{"
    ));
    assert!(matches!(
        PluginLoader::load_plugin(dir("a", true, ManifestSource::Unreadable("denied".to_string()))),
        Err(ManifestError::Unreadable(m)) if m == "denied"
    ));
    let mut nameless = valid("a");
    nameless.name = None;
    assert!(matches!(PluginLoader::load_plugin(nameless), Err(ManifestError::BadDirectoryName)));
}

#[test]
fn load_plugin_extracts_id_from_directory_name() {
    let plugin = PluginLoader::load_plugin(valid("my-custom-plugin")).unwrap();

    assert_eq!(plugin.id, "my-custom-plugin");
}

#[test]
fn load_plugin_parses_manifest_fields() {
    let plugin = PluginLoader::load_plugin(valid("x")).unwrap();

    assert_eq!(plugin.manifest.plugin.name, "Test Plugin");
    assert_eq!(plugin.manifest.plugin.description, "A test plugin");
    assert_eq!(plugin.manifest.plugin.version, "1.0.0");
}

#[test]
fn a_valid_directory_is_loaded_whatever_its_name() {
    let result = PluginLoader::load_from_dir(
        vec![
            valid("plugin-foo.backup"),
            dir("broken", true, ManifestSource::Invalid("not valid toml {{{".to_string())),
            valid(".backup"),
        ],
        "linux",
    );

    let ids: Vec<&str> = result.iter().map(|p| p.id.as_str()).collect();
    assert_eq!(ids, vec!["plugin-foo.backup", ".backup"]);
}

#[test]
fn backup_names_are_told_apart() {
    assert!(PluginLoader::is_backup("plugin-foo.backup"));
    assert!(PluginLoader::is_backup("a.b.backup"));
    assert!(!PluginLoader::is_backup(".backup"));
    assert!(!PluginLoader::is_backup("backup"));
    assert!(!PluginLoader::is_backup("plugin.backup.old"));
}

#[test]
fn load_from_dir_handles_mixed_valid_and_invalid() {
    let entries = vec![
        dir("invalid-toml", true, ManifestSource::Invalid("not valid toml {{{".to_string())),
        valid("valid-plugin"),
        dir("no-manifest", true, ManifestSource::Missing),
        dir("just-a-file.txt", false, ManifestSource::Missing),
        dir("unreadable", true, ManifestSource::Unreadable("permission denied".to_string())),
        dir("mac-only", true, ManifestSource::Parsed(manifest("Mac", Some(vec!["macos"]), None))),
        dir("linux-too", true, ManifestSource::Parsed(manifest("Both", Some(vec!["macos", "linux"]), None))),
        dir("not-a-dir", false, ManifestSource::Parsed(manifest("File", None, None))),
    ];

    let result = PluginLoader::load_from_dir(entries, "linux");

    assert_eq!(result.len(), 2);
    assert_eq!(result[0].id, "valid-plugin");
    assert_eq!(result[1].id, "linux-too");
    assert_eq!(result[1].manifest.plugin.name, "Both");
}

#[test]
fn load_plugin_handles_special_characters_in_id() {
    let cases = ["plugin-with-dashes", "plugin_with_underscores", "plugin123"];

    for name in cases {
        let plugin = PluginLoader::load_plugin(valid(name)).unwrap();
        assert_eq!(plugin.id, name, "plugin name: {}", name);
    }
    assert!(PluginLoader::try_load_plugin(valid("a"), "linux").is_some());
    let mac = dir("m", true, ManifestSource::Parsed(manifest("Mac", Some(vec!["macos"]), None)));
    assert!(PluginLoader::try_load_plugin(mac, "linux").is_none());
}

fn plugin(id: &str, daemon: Option<(bool, &str)>) -> Plugin {
    Plugin::new(id.to_string(), manifest(id, None, daemon), format!("/plugins/{}", id))
}

#[test]
fn plugins_without_a_daemon_start_and_stop_at_once() {
    for daemon in [None, Some((false, "daemon.sh"))] {
        let mut p = plugin("quiet", daemon);
        assert!(!p.wants_daemon());
        let (state, action) = p.start_step(StartState::Idle, StartEvent::Begin);
        assert_eq!(state, StartState::Finished);
        assert!(matches!(action, StartAction::Finish(Ok(()))));
        assert_eq!(p.daemon_pid(), None);
        assert!(matches!(p.begin_stop(), StopAction::Nothing));
        assert_eq!(p.daemon_pid(), None);
        assert_eq!(p.id, "quiet");
    }
}

#[test]
fn a_daemon_that_keeps_running_is_held() {
    let mut p = plugin("svc", Some((true, "bin/daemon.sh")));
    assert!(p.wants_daemon());
    let (state, action) = p.start_step(StartState::Idle, StartEvent::Begin);
    assert_eq!(state, StartState::Checking);
    assert!(matches!(action, StartAction::CheckExecutable { program } if program == "/plugins/svc/bin/daemon.sh"));
    let (state, action) = p.start_step(state, StartEvent::ExecutableExists(true));
    assert_eq!(state, StartState::Spawning);
    assert!(matches!(
        action,
        StartAction::Spawn { program, cwd } if program == "/plugins/svc/bin/daemon.sh" && cwd == "/plugins/svc"
    ));
    let (state, action) = p.start_step(state, StartEvent::Spawned(4242));
    assert_eq!(state, StartState::Settling { pid: 4242 });
    assert!(matches!(action, StartAction::WaitAndPoll { pid: 4242, grace_ms } if grace_ms == STARTUP_GRACE_MS));
    assert_eq!(STARTUP_GRACE_MS, 100);
    assert_eq!(p.daemon_pid(), None);
    let (state, action) = p.start_step(state, StartEvent::StillRunning);
    assert_eq!(state, StartState::Finished);
    assert!(matches!(action, StartAction::Finish(Ok(()))));
    assert_eq!(p.daemon_pid(), Some(4242));

    assert!(matches!(p.begin_stop(), StopAction::Terminate { pid: 4242 }));
    assert_eq!(p.daemon_pid(), None);
    assert!(matches!(p.begin_stop(), StopAction::Nothing));
}

#[test]
fn a_daemon_that_exits_successfully_is_held_too() {
    let mut p = plugin("oneshot", Some((true, "run")));
    let (state, _) = p.start_step(StartState::Idle, StartEvent::Begin);
    let (state, _) = p.start_step(state, StartEvent::ExecutableExists(true));
    let (state, _) = p.start_step(state, StartEvent::Spawned(7));
    let (state, action) = p.start_step(state, StartEvent::ExitedOk);
    assert_eq!(state, StartState::Finished);
    assert!(matches!(action, StartAction::Finish(Ok(()))));
    assert_eq!(p.daemon_pid(), Some(7));
}

#[test]
fn a_daemon_that_crashes_in_the_grace_period_fails_the_start_and_keeps_the_plugin() {
    let mut manager = PluginManager::new();
    let mut p = plugin("crashy", Some((true, "daemon.sh")));
    let (state, _) = p.start_step(StartState::Idle, StartEvent::Begin);
    let (state, _) = p.start_step(state, StartEvent::ExecutableExists(true));
    let (state, _) = p.start_step(state, StartEvent::Spawned(99));
    let (state, action) = p.start_step(
        state,
        StartEvent::ExitedWithFailure {
            status: "exit status: 3".to_string(),
            stderr: "  boom: cannot bind\n".to_string(),
        },
    );
    assert_eq!(state, StartState::Finished);
    match action {
        StartAction::Finish(Err(DaemonError::Crash { status, stderr })) => {
            assert_eq!(status, "exit status: 3");
            assert_eq!(stderr, "boom: cannot bind");
        }
        other => panic!("expected a crash, got {:?}", other),
    }
    assert_eq!(p.daemon_pid(), None);

    let (pids, replaced) = manager.register_all(vec![p]);
    assert!(pids.is_empty());
    assert!(replaced.is_empty());
    assert_eq!(manager.len(), 1);
    assert_eq!(manager.get("crashy").unwrap().id, "crashy");
}

#[test]
fn a_daemon_that_cannot_be_started_fails_the_start() {
    let mut p = plugin("svc", Some((true, "daemon.sh")));
    let (state, _) = p.start_step(StartState::Idle, StartEvent::Begin);
    let (state, action) = p.start_step(state, StartEvent::ExecutableExists(false));
    assert_eq!(state, StartState::Finished);
    assert!(matches!(
        action,
        StartAction::Finish(Err(DaemonError::Spawn(m))) if m == "Daemon executable not found: /plugins/svc/daemon.sh"
    ));

    let (state, _) = p.start_step(StartState::Idle, StartEvent::Begin);
    let (state, _) = p.start_step(state, StartEvent::ExecutableExists(true));
    let (_, action) = p.start_step(state, StartEvent::SpawnFailed("no exec".to_string()));
    assert!(matches!(action, StartAction::Finish(Err(DaemonError::Spawn(m))) if m == "no exec"));

    let (_, action) = p.start_step(StartState::Settling { pid: 1 }, StartEvent::PollFailed("gone".to_string()));
    assert!(matches!(action, StartAction::Finish(Err(DaemonError::Supervision(m))) if m == "gone"));
    let (state, action) = p.start_step(StartState::Idle, StartEvent::StillRunning);
    assert_eq!(state, StartState::Finished);
    assert!(matches!(action, StartAction::Finish(Err(DaemonError::Supervision(_)))));
    assert_eq!(p.daemon_pid(), None);
}

#[test]
fn stopping_polls_then_kills() {
    assert_eq!(STOP_TIMEOUT_MS, 2000);
    assert_eq!(STOP_POLL_MS, 50);
    assert!(matches!(stop_polled(5, Ok(true), 0), StopAction::Finish(Ok(()))));
    assert!(matches!(stop_polled(5, Ok(true), 5000), StopAction::Finish(Ok(()))));
    assert!(matches!(stop_polled(5, Ok(false), 0), StopAction::PollAgain { pid: 5, after_ms: 50 }));
    assert!(matches!(stop_polled(5, Ok(false), 1999), StopAction::PollAgain { pid: 5, after_ms: 50 }));
    assert!(matches!(stop_polled(5, Ok(false), 2000), StopAction::KillAndReap { pid: 5 }));
    assert!(matches!(stop_polled(5, Ok(false), u64::MAX), StopAction::KillAndReap { pid: 5 }));
    assert!(matches!(
        stop_polled(5, Err("lost".to_string()), 10),
        StopAction::Finish(Err(DaemonError::Supervision(m))) if m == "lost"
    ));
    assert!(stop_reaped(Ok(())).is_ok());
    assert!(matches!(stop_reaped(Err("x".to_string())), Err(DaemonError::Supervision(m)) if m == "x"));

    let mut elapsed = 0;
    let mut polls = 0;
    while let StopAction::PollAgain { after_ms, .. } = stop_polled(1, Ok(false), elapsed) {
        elapsed += after_ms;
        polls += 1;
    }
    assert_eq!(polls, 40);
}

#[test]
fn the_registry_keeps_one_plugin_per_identifier() {
    let mut manager = PluginManager::default();
    assert_eq!(manager.len(), 0);
    assert!(manager.get("a").is_none());
    assert!(manager.insert(plugin("a", None)).is_none());
    assert!(manager.insert(plugin("b", None)).is_none());
    let mut newer = plugin("a", None);
    newer.manifest.plugin.version = "2.0.0".to_string();
    let replaced = manager.insert(newer).unwrap();
    assert_eq!(replaced.manifest.plugin.version, "1.0.0");
    assert_eq!(manager.len(), 2);
    assert_eq!(manager.get("a").unwrap().manifest.plugin.version, "2.0.0");
    assert_eq!(manager.get("b").unwrap().id, "b");
    let ids: Vec<&str> = manager.plugins().iter().map(|p| p.id.as_str()).collect();
    assert_eq!(ids, vec!["a", "b"]);

    let mut with_daemon = plugin("c", Some((true, "d")));
    with_daemon.daemon_process = Some(11);
    let mut b_again = plugin("b", Some((true, "d")));
    b_again.daemon_process = Some(12);
    let (pids, replaced) = manager.register_all(vec![with_daemon, plugin("d", None), b_again]);
    assert_eq!(pids, vec![11, 12]);
    assert_eq!(replaced.len(), 1);
    assert_eq!(replaced[0].id, "b");
    assert_eq!(manager.len(), 4);

    let all = manager.take_all();
    assert_eq!(all.len(), 4);
    assert_eq!(manager.len(), 0);
    assert!(manager.get("a").is_none());
}

#[test]
fn the_orphan_registry_is_read_and_written() {
    assert_eq!(orphan_pids("123\n456\n"), vec![123, 456]);
    assert_eq!(orphan_pids("  12 \r\nabc\n\n+7\n-3\n99999999999\n1 2\n0"), vec![12, 7]);
    assert_eq!(orphan_pids(""), Vec::<i32>::new());
    assert_eq!(orphan_pids("-1"), Vec::<i32>::new());
    assert_eq!(orphan_pids("0\n-0\n00\n007"), vec![7]);
    assert_eq!(orphan_pids("2147483647\n2147483648\n-2147483648\n-2147483649"), vec![i32::MAX]);
    assert_eq!(daemon_pids_content(&vec![]), "");
    assert_eq!(daemon_pids_content(&vec![5]), "5");
    assert_eq!(daemon_pids_content(&vec![1, 20, 300, 0, 4294967295]), "1\n20\n300\n0\n4294967295");
    assert_eq!(orphan_pids("1\n20\n300\n0\n4294967295"), vec![1, 20, 300]);
    for pids in [vec![], vec![1u32], vec![10, 2, 2147483647, 3]] {
        let expected: Vec<i32> = pids.iter().map(|p| *p as i32).collect();
        assert_eq!(orphan_pids(&daemon_pids_content(&pids)), expected);
    }
}

#[test]
fn orphan_recovery_leaves_dead_processes_alone_and_removes_the_registry() {
    let mut recovery = OrphanRecovery::new(Some("4242\n"));
    assert_eq!(recovery.step(false), OrphanAction::Probe { pid: 4242 });
    assert_eq!(recovery.step(false), OrphanAction::RemoveRegistry);
    assert_eq!(recovery.step(false), OrphanAction::Done);
    assert_eq!(recovery.step(true), OrphanAction::Done);
}

#[test]
fn orphan_recovery_terminates_then_kills_what_is_alive() {
    let mut recovery = OrphanRecovery::new(Some("10\n20\nnoise\n30\n"));
    assert_eq!(recovery.step(false), OrphanAction::Probe { pid: 10 });
    assert_eq!(recovery.step(true), OrphanAction::Terminate { pid: 10, grace_ms: ORPHAN_GRACE_MS });
    assert_eq!(ORPHAN_GRACE_MS, 100);
    assert_eq!(recovery.step(true), OrphanAction::Kill { pid: 10 });
    assert_eq!(recovery.step(false), OrphanAction::Probe { pid: 20 });
    assert_eq!(recovery.step(true), OrphanAction::Terminate { pid: 20, grace_ms: 100 });
    assert_eq!(recovery.step(false), OrphanAction::Probe { pid: 30 });
    assert_eq!(recovery.step(false), OrphanAction::RemoveRegistry);
    assert_eq!(recovery.step(false), OrphanAction::Done);

    let mut last_alive = OrphanRecovery::new(Some("1"));
    assert_eq!(last_alive.step(true), OrphanAction::Probe { pid: 1 });
    assert_eq!(last_alive.step(true), OrphanAction::Terminate { pid: 1, grace_ms: 100 });
    assert_eq!(last_alive.step(true), OrphanAction::Kill { pid: 1 });
    assert_eq!(last_alive.step(true), OrphanAction::RemoveRegistry);
    assert_eq!(last_alive.step(true), OrphanAction::Done);
}

#[test]
fn orphan_recovery_without_a_registry_does_nothing() {
    let mut none = OrphanRecovery::new(None);
    assert_eq!(none.step(true), OrphanAction::Done);
    let mut empty = OrphanRecovery::new(Some(""));
    assert_eq!(empty.step(true), OrphanAction::RemoveRegistry);
    assert_eq!(empty.step(true), OrphanAction::Done);
}

#[test]
fn menu_items_nest() {
    let item = MenuItem::Submenu {
        id: "more".to_string(),
        label: "More Options".to_string(),
        items: vec![
            MenuItem::Action { id: "a".to_string(), label: "A".to_string(), action: ActionType::Run, config_key: None },
            MenuItem::Separator,
        ],
    };
    match item {
        MenuItem::Submenu { id, label, items } => {
            assert_eq!(id, "more");
            assert_eq!(label, "More Options");
            assert_eq!(items.len(), 2);
        }
        _ => panic!("Expected Submenu"),
    }
}
