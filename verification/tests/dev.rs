use qol_tray::dev::config::DevConfig;
use qol_tray::dev::discovery::{
    check_install_status, discover_plugins, name_before, try_parse_plugin_dir, Candidate,
    LinkProbe,
};
use qol_tray::dev::discovery::{should_search, MAX_SEARCH_DEPTH};
use qol_tray::dev::linking::{backup_path, Existing, SourceProbe};
use std::path::Path;
use qol_tray::dev::{create_link, remove_link, DiscoveredPlugin};

fn found(id: &str, name: &str) -> Option<DiscoveredPlugin> {
    try_parse_plugin_dir(id, &format!("/src/{}", id), Some(name.to_string()))
}

fn candidate(canonical: &str, plugin: Option<DiscoveredPlugin>, probe: LinkProbe) -> Candidate {
    Candidate { canonical_path: canonical.to_string(), plugin, probe }
}

#[test]
fn search_paths_can_overlap_and_are_deduplicated() {
    let plugin = found("plugin", "Test Plugin");
    let discovered = discover_plugins(vec![
        candidate("/tmp/x/sub/plugin", plugin.clone(), LinkProbe::Absent),
        candidate("/tmp/x/sub/plugin", plugin, LinkProbe::Absent),
    ]);
    assert_eq!(discovered.len(), 1, "Should deduplicate plugin found from multiple search roots");
}

#[test]
fn finds_plugin_with_minimal_toml() {
    let discovered = discover_plugins(vec![candidate(
        "/tmp/minimal-plugin",
        try_parse_plugin_dir("minimal-plugin", "/tmp/minimal-plugin", Some("Minimal".to_string())),
        LinkProbe::Absent,
    )]);
    assert_eq!(discovered.len(), 1, "Should find it even if TOML is minimal");
    assert_eq!(discovered[0].name, "Minimal");
}

#[test]
fn discovered_plugins_are_filtered_and_sorted_by_name() {
    let discovered = discover_plugins(vec![
        candidate("/a/zeta", found("zeta", "Zeta"), LinkProbe::Absent),
        candidate("/a/linked", found("linked", "Linked"), LinkProbe::Link { to_target: true }),
        candidate("/a/alpha", found("alpha", "alpha"), LinkProbe::NotALink),
        candidate("/a/none", None, LinkProbe::Absent),
        candidate("/a/zeta", found("zeta2", "Again"), LinkProbe::Absent),
        candidate("/a/beta", found("beta", "Beta"), LinkProbe::Link { to_target: false }),
        candidate("/a/b2", found("b2", "Beta"), LinkProbe::Absent),
        candidate("/a/t", found("plugin-template", "Template"), LinkProbe::Absent),
        candidate("/a/linked", found("late", "Late"), LinkProbe::Absent),
    ]);
    let names: Vec<(&str, &str, bool)> =
        discovered.iter().map(|p| (p.id.as_str(), p.name.as_str(), p.installed_not_linked)).collect();
    assert_eq!(
        names,
        vec![("beta", "Beta", true), ("b2", "Beta", false), ("zeta", "Zeta", false), ("alpha", "alpha", true)]
    );
    assert!(discovered.iter().all(|p| !p.already_linked));
    assert!(discover_plugins(vec![]).is_empty());
}

#[test]
fn names_are_ordered_like_strings() {
    let chars = |s: &str| s.chars().collect::<Vec<char>>();
    let names = ["", "a", "A", "ab", "b", "Beta", "beta", "\u{e9}", "z", "aa", "a\u{1F600}", "a\u{ffff}"];
    for a in names {
        for b in names {
            assert_eq!(name_before(&chars(a), &chars(b)), a <= b, "{:?} <= {:?}", a, b);
        }
    }
}

#[test]
fn plugin_directories_are_parsed() {
    let p = try_parse_plugin_dir("my-plugin", "/src/my-plugin", None).unwrap();
    assert_eq!(p.id, "my-plugin");
    assert_eq!(p.name, "my-plugin");
    assert_eq!(p.path, "/src/my-plugin");
    assert!(!p.already_linked && !p.installed_not_linked);
    assert!(try_parse_plugin_dir("plugin-template", "/x", Some("T".to_string())).is_none());
    assert_eq!(check_install_status(LinkProbe::Absent), (false, false));
    assert_eq!(check_install_status(LinkProbe::NotALink), (false, true));
    assert_eq!(check_install_status(LinkProbe::Link { to_target: true }), (true, false));
    assert_eq!(check_install_status(LinkProbe::Link { to_target: false }), (false, true));
}

#[test]
fn search_paths_are_made_unique_in_order() {
    let paths = |list: &[&str]| list.iter().map(|p| p.to_string()).collect::<Vec<String>>();
    assert_eq!(
        DevConfig::effective_search_paths(paths(&["/a", "/b", "/a", "/c", "/b", "/a"])),
        paths(&["/a", "/b", "/c"])
    );
    assert_eq!(DevConfig::effective_search_paths(vec![]), Vec::<String>::new());
    let dirs = DevConfig::common_dev_dirs();
    assert_eq!(dirs.len(), 12);
    assert_eq!(dirs[0], "Developer");
    assert_eq!(dirs[11], "Documents/Projects");
    let candidates = DevConfig::default_candidates("/home/u");
    assert_eq!(candidates.len(), 12);
    assert_eq!(candidates[2], "/home/u/repos");
    assert_eq!(candidates[10], "/home/u/Documents/GitHub");
    assert!(!DevConfig::default().has_own_paths());
    assert!(DevConfig { search_paths: paths(&["/x"]) }.has_own_paths());
}

#[test]
fn links_are_planned() {
    let source = |exists: bool, has_manifest: bool, name: Option<&str>| SourceProbe {
        exists,
        has_manifest,
        name: name.map(|n| n.to_string()),
    };
    assert_eq!(
        create_link(&source(false, true, Some("p")), "/plugins", Existing::Nothing).unwrap_err(),
        "Source path does not exist"
    );
    assert_eq!(
        create_link(&source(true, false, Some("p")), "/plugins", Existing::Nothing).unwrap_err(),
        "No plugin.toml found in source"
    );
    assert_eq!(create_link(&source(true, true, None), "/plugins", Existing::Nothing).unwrap_err(), "Invalid path");
    assert_eq!(
        create_link(&source(true, true, Some("p")), "/plugins", Existing::Link).unwrap_err(),
        "Already linked"
    );
    let plan = create_link(&source(true, true, Some("p")), "/plugins", Existing::Nothing).unwrap();
    assert_eq!(plan.plugin_id, "p");
    assert_eq!(plan.link_path, "/plugins/p");
    assert_eq!(plan.backup_path, None);
    let plan = create_link(&source(true, true, Some("p")), "/plugins", Existing::Other).unwrap();
    assert_eq!(plan.backup_path, Some("/plugins/p.backup".to_string()));
    assert_eq!(backup_path("/plugins/a.b"), "/plugins/a.backup");

    assert_eq!(remove_link("p", "/plugins", Existing::Nothing).unwrap_err(), "Plugin not found");
    assert_eq!(
        remove_link("p", "/plugins", Existing::Other).unwrap_err(),
        "Not a symlink - use uninstall instead"
    );
    let plan = remove_link("p", "/plugins", Existing::Link).unwrap();
    assert_eq!(plan.link_path, "/plugins/p");
    assert_eq!(plan.backup_path, "/plugins/p.backup");
}

#[test]
fn a_backup_takes_the_place_of_the_extension() {
    let cases = [
        ("/plugins/p", "/plugins/p.backup"),
        ("/plugins/a.b", "/plugins/a.backup"),
        ("/plugins/a.b.c", "/plugins/a.b.backup"),
        ("/plugins/.hidden", "/plugins/.hidden.backup"),
        ("/plugins/.hidden.d", "/plugins/.hidden.backup"),
        ("/plugins.d/p", "/plugins.d/p.backup"),
        ("/plugins/p/", "/plugins/p.backup"),
        ("/plugins/a.b//", "/plugins/a.backup"),
        ("/plugins/a.", "/plugins/a.backup"),
        ("/plugins/a..b", "/plugins/a..backup"),
        ("/plugins/...a", "/plugins/...backup"),
        ("p.backup", "p.backup"),
        ("p", "p.backup"),
        ("", ""),
        ("/", "/"),
        ("//", "//"),
        ("/a/..", "/a/.."),
        ("..", ".."),
        (".", "."),
        ("./", "./"),
        ("/.", "/."),
        ("/plugins/p/.", "/plugins/p.backup"),
        ("/plugins/a.b/./", "/plugins/a.backup"),
        ("/plugins/a.b/.//./", "/plugins/a.backup"),
        ("p/.", "p.backup"),
        ("/plugins/../p", "/plugins/../p.backup"),
        ("/plugins/./p.x", "/plugins/./p.backup"),
    ];
    for (path, expected) in cases {
        assert_eq!(backup_path(path), expected, "path: {:?}", path);
        assert_eq!(Path::new(path).with_extension("backup"), Path::new(expected), "path: {:?}", path);
    }
    assert_eq!(backup_path("/plugins/..a"), "/plugins/..backup");
}

#[test]
fn the_search_leaves_out_hidden_and_build_directories() {
    assert_eq!(MAX_SEARCH_DEPTH, 5);
    for name in [".git", ".", ".hidden", "node_modules", "target", "vendor"] {
        assert!(should_search(0, name), "the search path itself: {:?}", name);
        assert!(!should_search(1, name), "below it: {:?}", name);
        assert!(!should_search(5, name), "below it: {:?}", name);
    }
    for name in ["plugin", "targets", "Target", "my.vendor", "node_modules2", "a.b", ""] {
        assert!(should_search(1, name), "{:?}", name);
    }
}

#[test]
fn plugins_of_one_name_stay_in_the_order_in_which_they_were_found() {
    let discovered = discover_plugins(vec![
        candidate("/a/3", found("third", "Same"), LinkProbe::Absent),
        candidate("/a/0", found("zero", "Other"), LinkProbe::Absent),
        candidate("/a/1", found("first", "Same"), LinkProbe::Absent),
        candidate("/a/2", found("second", "Same"), LinkProbe::NotALink),
        candidate("/a/4", found("early", "A"), LinkProbe::Absent),
    ]);
    let ids: Vec<&str> = discovered.iter().map(|p| p.id.as_str()).collect();
    assert_eq!(ids, vec!["early", "zero", "third", "first", "second"]);
}
