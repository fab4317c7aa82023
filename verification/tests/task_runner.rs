use qol_tray::features::task_runner::{
    default_timeout, execute_action, exit_code, interpolate, interpolate_with, lookup,
    ActionConfig, TaskRunnerConfig,
};

fn pairs(params: &[(&str, &str)]) -> Vec<(String, String)> {
    params.iter().map(|(k, v)| (k.to_string(), v.to_string())).collect()
}

#[test]
fn interpolate_single_param() {
    let cases = [
        ("echo {{msg}}", &[("msg", "hello")], "echo hello"),
        ("{{x}}", &[("x", "value")], "value"),
        ("prefix {{a}} suffix", &[("a", "mid")], "prefix mid suffix"),
        ("{{foo}}bar", &[("foo", "baz")], "bazbar"),
        ("bar{{foo}}", &[("foo", "baz")], "barbaz"),
    ];

    for (template, params, expected) in cases {
        let map = pairs(params);
        assert_eq!(interpolate(template, &map), expected, "template: {:?}", template);
    }
}

#[test]
fn interpolate_multiple_params() {
    let cases: &[(&str, &[(&str, &str)], &str)] = &[
        ("{{a}} {{b}}", &[("a", "x"), ("b", "y")], "x y"),
        ("{{x}}{{y}}{{z}}", &[("x", "1"), ("y", "2"), ("z", "3")], "123"),
        (
            "git checkout {{branch}} && cd {{dir}}",
            &[("branch", "main"), ("dir", "/a/b")],
            "git checkout main && cd /a/b",
        ),
        ("{{a}}-{{b}}-{{a}}", &[("a", "X"), ("b", "Y")], "X-Y-X"),
    ];

    for (template, params, expected) in cases {
        let map = pairs(params);
        assert_eq!(interpolate(template, &map), *expected, "template: {:?}", template);
    }
}

#[test]
fn interpolate_missing_params() {
    let cases: &[(&str, &[(&str, &str)], &str)] = &[
        ("{{missing}}", &[], ""),
        ("hello {{name}}", &[], "hello "),
        ("{{a}} {{b}}", &[("a", "x")], "x "),
        ("{{a}}{{missing}}{{b}}", &[("a", "1"), ("b", "2")], "12"),
    ];

    for (template, params, expected) in cases {
        let map = pairs(params);
        assert_eq!(interpolate(template, &map), *expected, "template: {:?}", template);
    }
}

#[test]
fn interpolate_no_placeholders() {
    let cases = [
        ("no placeholders here", "no placeholders here"),
        ("", ""),
        ("echo hello world", "echo hello world"),
        ("{ not a placeholder }", "{ not a placeholder }"),
        ("{single}", "{single}"),
        ("{{}", "{{}"),
        ("}}", "}}"),
    ];

    let empty: Vec<(String, String)> = Vec::new();
    for (template, expected) in cases {
        assert_eq!(interpolate(template, &empty), expected, "template: {:?}", template);
    }
}

#[test]
fn interpolate_special_values() {
    let cases = [
        ("{{path}}", &[("path", "/a/b/c")], "/a/b/c"),
        ("{{url}}", &[("url", "https://example.com?q=1&x=2")], "https://example.com?q=1&x=2"),
        ("{{json}}", &[("json", r#"{"key": "value"}"#)], r#"{"key": "value"}"#),
        ("{{empty}}", &[("empty", "")], ""),
        ("{{spaces}}", &[("spaces", "  a b c  ")], "  a b c  "),
        ("{{unicode}}", &[("unicode", "\u{65e5}\u{672c}\u{8a9e}")], "\u{65e5}\u{672c}\u{8a9e}"),
        ("{{emoji}}", &[("emoji", "\u{1f680}")], "\u{1f680}"),
        ("{{newline}}", &[("newline", "a\nb\nc")], "a\nb\nc"),
        ("{{tab}}", &[("tab", "a\tb")], "a\tb"),
    ];

    for (template, params, expected) in cases {
        let map = pairs(params);
        assert_eq!(interpolate(template, &map), expected, "template: {:?}", template);
    }
}

#[test]
fn interpolate_invalid_syntax_unchanged() {
    let cases = [
        "{{}}",
        "{{ spaces }}",
        "{{with-dash}}",
        "{{with.dot}}",
        "{{with/slash}}",
        "{single}",
        "{ {double} }",
        "{{nested{{inner}}}}",
        "{{123starts_with_num}}",
    ];

    let params = pairs(&[("spaces", "x"), ("with-dash", "x"), ("with.dot", "x")]);

    for template in cases {
        let result = interpolate(template, &params);
        assert!(
            !result.contains("x") || template.contains("x"),
            "invalid placeholder should not be replaced: {:?} -> {:?}",
            template,
            result
        );
    }
}

#[test]
fn interpolate_valid_identifiers() {
    let cases = [
        ("{{a}}", "a"),
        ("{{A}}", "A"),
        ("{{abc}}", "abc"),
        ("{{ABC}}", "ABC"),
        ("{{a1}}", "a1"),
        ("{{var_name}}", "var_name"),
        ("{{CamelCase}}", "CamelCase"),
        ("{{_underscore}}", "_underscore"),
        ("{{a123b456}}", "a123b456"),
    ];

    for (template, key) in cases {
        let map = pairs(&[(key, "REPLACED")]);
        assert_eq!(interpolate(template, &map), "REPLACED", "key {:?} should be valid", key);
    }
}

#[test]
fn config_default_timeout() {
    assert_eq!(default_timeout(), 60);
}

#[test]
fn task_runner_config_empty() {
    let config = TaskRunnerConfig::default();
    assert!(config.actions.is_empty());
}

#[test]
fn interpolate_reads_placeholders_from_the_left() {
    let params = pairs(&[("inner", "V"), ("a", "1"), ("\u{e9}t\u{e9}", "E"), ("a", "2")]);
    assert_eq!(interpolate("{{nested{{inner}}}}", &params), "{{nestedV}}");
    assert_eq!(interpolate("{{{a}}}", &params), "{1}");
    assert_eq!(interpolate("{{a}}}}", &params), "1}}");
    assert_eq!(interpolate("{{\u{e9}t\u{e9}}}", &params), "E");
    assert_eq!(interpolate("{{a", &params), "{{a");
    assert_eq!(interpolate("{{a}", &params), "{{a}");
    assert_eq!(interpolate("{{123starts_with_num}}", &params), "");

    let chars = |s: &str| s.chars().collect::<Vec<char>>();
    let template = chars("{{ab}}");
    let none = vec![false; 6];
    assert_eq!(interpolate_with(&template, &none, &params), template);
    let word = vec![false, false, true, true, false, false];
    assert_eq!(interpolate_with(&template, &word, &pairs(&[("ab", "X")])), chars("X"));
    assert_eq!(lookup(&params, &chars("a")), chars("1"));
    assert_eq!(lookup(&params, &chars("zz")), chars(""));
}

#[test]
fn actions_are_listed_found_and_prepared() {
    let action = |name: &str, command: &str, cwd: Option<&str>| ActionConfig {
        name: name.to_string(),
        description: format!("{} description", name),
        command: command.to_string(),
        timeout: 30,
        cwd: cwd.map(|c| c.to_string()),
    };
    let config = TaskRunnerConfig {
        actions: vec![
            ("one".to_string(), action("First", "echo {{msg}}", None)),
            ("two".to_string(), action("Second", "ls", Some("/srv/{{dir}}"))),
            ("one".to_string(), action("Shadowed", "false", None)),
        ],
    };
    let infos = config.list_actions();
    assert_eq!(infos.len(), 3);
    assert_eq!(infos[1].id, "two");
    assert_eq!(infos[1].name, "Second");
    assert_eq!(infos[1].description, "Second description");
    assert_eq!(config.get("one").unwrap().name, "First");
    assert!(config.get("three").is_none());

    let params = pairs(&[("msg", "hi"), ("dir", "www")]);
    let prepared = execute_action(config.get("one").unwrap(), &params);
    assert_eq!(prepared.command, "echo hi");
    assert_eq!(prepared.cwd, None);
    assert_eq!(prepared.timeout, 30);
    let prepared = execute_action(config.get("two").unwrap(), &params);
    assert_eq!(prepared.command, "ls");
    assert_eq!(prepared.cwd, Some("/srv/www".to_string()));

    assert_eq!(exit_code(Some(3)), 3);
    assert_eq!(exit_code(None), -1);
}
