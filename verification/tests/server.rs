use qol_tray::daemon::DiscoveryStatus;
use qol_tray::features::plugin_store::github::PluginMetadata;
use qol_tray::features::plugin_store::server::{
    create_link, extract_actions, get_discovery_state, is_newer_version, list_installed,
    list_plugins, repo_url, serve_cover, serve_embedded_file, set_plugin_config, RequestCheck,
    MAX_CONFIG_SIZE, MAX_COVER_SIZE,
};
use qol_tray::plugins::manifest::{ActionType, MenuConfig, MenuItem, PluginInfo, PluginManifest};
use qol_tray::plugins::Plugin;

fn action(id: &str) -> MenuItem {
    MenuItem::Action {
        id: id.to_string(),
        label: id.to_uppercase(),
        action: ActionType::Run,
        config_key: None,
    }
}

fn menu() -> Vec<MenuItem> {
    vec![
        action("a"),
        MenuItem::Checkbox {
            id: "c".to_string(),
            label: "C".to_string(),
            checked: false,
            action: ActionType::ToggleConfig,
            config_key: None,
        },
        MenuItem::Submenu {
            id: "s".to_string(),
            label: "S".to_string(),
            items: vec![
                action("b"),
                MenuItem::Separator,
                MenuItem::Submenu { id: "t".to_string(), label: "T".to_string(), items: vec![action("d")] },
            ],
        },
        MenuItem::Separator,
        action("e"),
    ]
}

#[test]
fn actions_are_extracted_in_menu_order() {
    let actions = extract_actions(&menu());
    let ids: Vec<(&str, &str)> = actions.iter().map(|a| (a.id.as_str(), a.label.as_str())).collect();
    assert_eq!(ids, vec![("a", "A"), ("b", "B"), ("d", "D"), ("e", "E")]);
    assert!(extract_actions(&vec![]).is_empty());
}

#[test]
fn versions_are_compared_as_versions() {
    assert!(is_newer_version("v1.10.0", "1.9.0"));
    assert!(!is_newer_version("1.0", "1.0.0"));
    assert!(!is_newer_version("1.0.0", "1.0.0"));
    assert!(is_newer_version(" 2 ", "1.999"));
    assert!(!is_newer_version("", "0.0.1"));
}

fn metadata(id: &str, platforms: Option<Vec<&str>>) -> PluginMetadata {
    PluginMetadata {
        id: id.to_string(),
        name: format!("{} name", id),
        description: format!("{} description", id),
        version: "1.0.0".to_string(),
        repo_url: String::new(),
        platforms: platforms.map(|p| p.into_iter().map(String::from).collect()),
    }
}

#[test]
fn the_store_lists_what_runs_here() {
    let index = vec![
        metadata("plugin-a", None),
        metadata("plugin-mac", Some(vec!["macos"])),
        metadata("plugin-b", Some(vec!["linux", "windows"])),
    ];
    let installed = vec!["plugin-b".to_string(), "other".to_string()];
    let list = list_plugins(&index, &installed, "linux");
    assert_eq!(list.len(), 2);
    assert_eq!(list[0].id, "plugin-a");
    assert_eq!(list[0].name, "plugin-a name");
    assert_eq!(list[0].description, "plugin-a description");
    assert!(!list[0].installed);
    assert_eq!(list[1].id, "plugin-b");
    assert!(list[1].installed);
    assert_eq!(list_plugins(&index, &installed, "macos").len(), 2);
    assert!(list_plugins(&vec![], &installed, "linux").is_empty());
}

#[test]
fn installed_plugins_show_available_updates() {
    let plugin = Plugin::new(
        "p".to_string(),
        PluginManifest {
            plugin: PluginInfo {
                name: "P".to_string(),
                description: "D".to_string(),
                version: "1.2.0".to_string(),
                author: None,
                platforms: None,
            },
            menu: MenuConfig { label: "P".to_string(), icon: None, items: menu() },
            daemon: None,
            dependencies: None,
        },
        "/plugins/p".to_string(),
    );
    let listed = list_installed(&plugin, true, false, Some("1.3.0".to_string()));
    assert_eq!(listed.id, "p");
    assert_eq!(listed.name, "P");
    assert_eq!(listed.version, "1.2.0");
    assert!(listed.has_cover && !listed.has_ui);
    assert_eq!(listed.available_version, Some("1.3.0".to_string()));
    assert!(listed.update_available);
    assert_eq!(listed.actions.len(), 4);
    assert!(!list_installed(&plugin, false, true, Some("1.2.0".to_string())).update_available);
    assert!(!list_installed(&plugin, false, true, None).update_available);
}

#[test]
fn requests_are_checked() {
    assert_eq!(MAX_COVER_SIZE, 5 * 1024 * 1024);
    assert_eq!(MAX_CONFIG_SIZE, 1024 * 1024);
    assert_eq!(serve_cover("../x", Some(1)), RequestCheck::InvalidPluginId);
    assert_eq!(serve_cover("p", None), RequestCheck::NotFound);
    assert_eq!(serve_cover("p", Some(MAX_COVER_SIZE)), RequestCheck::Proceed);
    assert_eq!(serve_cover("p", Some(MAX_COVER_SIZE + 1)), RequestCheck::TooLarge);
    assert_eq!(set_plugin_config("", 1), RequestCheck::InvalidPluginId);
    assert_eq!(set_plugin_config("p", MAX_CONFIG_SIZE), RequestCheck::Proceed);
    assert_eq!(set_plugin_config("p", MAX_CONFIG_SIZE + 1), RequestCheck::TooLarge);
    assert_eq!(create_link("Already linked"), 409);
    assert_eq!(create_link("Source path does not exist"), 400);
    assert_eq!(create_link("No plugin.toml found in source"), 400);
    assert_eq!(create_link("Failed to create symlink: denied"), 500);
    assert_eq!(repo_url("plugin-x"), "https://github.com/qol-tools/plugin-x.git");
    assert_eq!(get_discovery_state(DiscoveryStatus::Idle), "idle");
    assert_eq!(get_discovery_state(DiscoveryStatus::Discovering), "discovering");
    assert_eq!(get_discovery_state(DiscoveryStatus::Complete), "complete");
}

#[test]
fn embedded_files_have_content_types() {
    let cases = [
        ("index.html", "text/html"),
        ("a/style.css", "text/css"),
        ("app.js", "application/javascript"),
        ("logo.png", "image/png"),
        ("icon.svg", "image/svg+xml"),
        ("data.json", "application/octet-stream"),
        ("html", "application/octet-stream"),
        (".html", "text/html"),
    ];
    for (path, expected) in cases {
        assert_eq!(serve_embedded_file(path), expected, "path: {:?}", path);
    }
}
