use qol_tray::features::plugin_store::installer::{
    find_asset, get_arch_name, get_default_branch, get_os_name, is_safe_branch_name,
    latest_release_url, replace_all, reset_args, resolve_asset_pattern, symbolic_ref_args,
    GitHubAsset, InstallError, PluginInstaller,
};

#[test]
fn is_safe_branch_name_cases() {
    let valid = ["main", "master", "develop", "feature/foo", "release-1.0", "v1.0.0", "fix_bug", "a"];
    for s in valid {
        assert!(is_safe_branch_name(s), "should be valid: {:?}", s);
    }

    let invalid = [
        "",
        "-leading-dash",
        ".hidden",
        "has..double-dots",
        "has\nline",
        "has\ttab",
        "has space",
        &"x".repeat(300),
    ];
    for s in invalid {
        assert!(!is_safe_branch_name(s), "should be invalid: {:?}", s);
    }
}

#[test]
fn branch_names_have_a_length_limit_and_an_alphabet() {
    assert!(is_safe_branch_name(&"x".repeat(256)));
    assert!(!is_safe_branch_name(&"x".repeat(257)));
    assert!(!is_safe_branch_name("br\u{e4}nch"));
    assert!(!is_safe_branch_name("a;b"));
    assert!(is_safe_branch_name("a.b/c-d_e"));
}

#[test]
fn the_default_branch_is_read_from_git() {
    assert_eq!(get_default_branch(true, "origin/main\n"), "main");
    assert_eq!(get_default_branch(true, "  origin/origin/dev  "), "dev");
    assert_eq!(get_default_branch(true, "trunk"), "trunk");
    assert_eq!(get_default_branch(false, "origin/main\n"), "master");
    assert_eq!(get_default_branch(true, "origin/--evil"), "master");
    assert_eq!(get_default_branch(true, ""), "master");
    assert_eq!(get_default_branch(true, "origin/"), "master");
    assert_eq!(get_default_branch(true, "origin/a..b"), "master");
}

#[test]
fn asset_patterns_are_filled_in() {
    assert_eq!(resolve_asset_pattern("tool-{os}-{arch}", "linux", "x86_64", false), "tool-linux-x86_64");
    assert_eq!(resolve_asset_pattern("tool-{os}-{arch}", "windows", "aarch64", true), "tool-windows-aarch64.exe");
    assert_eq!(resolve_asset_pattern("{os}{os}", "a", "b", false), "aa");
    assert_eq!(resolve_asset_pattern("plain", "a", "b", false), "plain");
    assert_eq!(resolve_asset_pattern("{os}", "{arch}", "X", false), "X");
    assert_eq!(resolve_asset_pattern("{o{os}s}", "L", "X", false), "{oLs}");

    let chars = |s: &str| s.chars().collect::<Vec<char>>();
    for (s, from, to) in [("aaa", "aa", "b"), ("abcabc", "bc", ""), ("abc", "", "x"), ("", "a", "b"), ("xyz", "xyz", "12345")] {
        let expected = if from.is_empty() { s.to_string() } else { s.replace(from, to) };
        assert_eq!(replace_all(&chars(s), &chars(from), &chars(to)), chars(&expected), "{:?} {:?} {:?}", s, from, to);
    }
}

#[test]
fn platform_names() {
    assert_eq!(get_os_name("linux"), "linux");
    assert_eq!(get_os_name("macos"), "macos");
    assert_eq!(get_os_name("windows"), "windows");
    assert_eq!(get_os_name("freebsd"), "unknown");
    assert_eq!(get_arch_name("x86_64"), "x86_64");
    assert_eq!(get_arch_name("aarch64"), "aarch64");
    assert_eq!(get_arch_name("riscv64"), "unknown");
}

#[test]
fn installer_plans_its_commands() {
    let installer = PluginInstaller::new("/plugins".to_string());
    assert_eq!(installer.plugin_dir("p"), "/plugins/p");
    assert_eq!(
        installer.install("https://example.com/p.git", "p", false).unwrap(),
        vec!["clone".to_string(), "https://example.com/p.git".to_string(), "/plugins/p".to_string()]
    );
    assert_eq!(installer.install("u", "p", true).unwrap_err(), InstallError::AlreadyInstalled);
    let (dir, args) = installer.update("p", true).unwrap();
    assert_eq!(dir, "/plugins/p");
    assert_eq!(args, vec!["fetch".to_string(), "origin".to_string()]);
    assert_eq!(installer.update("p", false).unwrap_err(), InstallError::NotInstalled);
    assert_eq!(installer.uninstall("p", true).unwrap(), "/plugins/p");
    assert_eq!(installer.uninstall("p", false).unwrap_err(), InstallError::NotInstalled);
    assert_eq!(reset_args("main"), vec!["reset".to_string(), "--hard".to_string(), "origin/main".to_string()]);
    assert_eq!(
        symbolic_ref_args(),
        vec!["symbolic-ref".to_string(), "refs/remotes/origin/HEAD".to_string(), "--short".to_string()]
    );
    assert_eq!(latest_release_url("o/r"), "https://api.github.com/repos/o/r/releases/latest");
}

#[test]
fn the_first_asset_of_a_name_is_found() {
    let asset = |name: &str, url: &str| GitHubAsset { name: name.to_string(), browser_download_url: url.to_string() };
    let assets = vec![asset("a", "1"), asset("b", "2"), asset("b", "3")];
    assert_eq!(find_asset(&assets, "b").unwrap().browser_download_url, "2");
    assert_eq!(find_asset(&assets, "a").unwrap().browser_download_url, "1");
    assert!(find_asset(&assets, "c").is_none());
    assert!(find_asset(&vec![], "a").is_none());
}
