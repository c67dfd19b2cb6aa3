//! Configuration: defaults, rule settings, layering of sources, per-file
//! overrides, and command-line settings.
use pytest_linter::config::{is_blank_config, Config, ConfigError, OverrideConfig, ToolConfig, ToolSection};
use pytest_linter::models::Severity;
use pytest_linter::rulemap::{RuleConfig, RuleMap};

#[test]
fn test_default_has_39_rules_enabled() {
    let cfg = Config::default();
    assert_eq!(cfg.rules.len(), 39);
    for rid in Config::default_rule_ids() {
        assert!(cfg.is_rule_enabled(rid), "rule {} should be enabled by default", rid);
    }
    assert!(cfg.overrides.is_empty());
    assert!(cfg.config_dir.is_none());
}

#[test]
fn test_is_rule_enabled_variants() {
    let mut cfg = Config::default();
    cfg.rules.insert("UNKNOWN-001".to_string(), RuleConfig { enabled: Some(false), severity: None });
    assert!(!cfg.is_rule_enabled("UNKNOWN-001"));
    assert!(cfg.is_rule_enabled("PYTEST-FLK-001"));
    assert!(cfg.is_rule_enabled("SOME-NONEXISTENT"));
}

#[test]
fn test_rule_severity_override_and_default() {
    let mut cfg = Config::default();
    cfg.rules.insert(
        "PYTEST-FLK-001".to_string(),
        RuleConfig { enabled: Some(true), severity: Some(Severity::Info) },
    );
    assert_eq!(cfg.rule_severity("PYTEST-FLK-001", Severity::Warning), Severity::Info);
    assert_eq!(cfg.rule_severity("UNKNOWN-001", Severity::Error), Severity::Error);
}

#[test]
fn test_merge_cli_overrides() {
    let cfg = Config::default();
    let merged = cfg.merge_cli(Some("json".to_string()), Some(String::from("out.log")), vec![]);
    assert_eq!(merged.format, Some("json".to_string()));
    assert_eq!(merged.output, Some(String::from("out.log")));
}

#[test]
fn test_merge_combines_rules() {
    let base = Config::default();
    let mut higher = Config::default();
    higher.rules.insert(
        "PYTEST-FLK-001".to_string(),
        RuleConfig { enabled: Some(false), severity: Some(Severity::Info) },
    );
    higher.format = Some("json".to_string());

    let merged = base.merge(higher);
    assert!(!merged.is_rule_enabled("PYTEST-FLK-001"));
    assert_eq!(merged.format, Some("json".to_string()));
}

#[test]
fn test_merge_default_does_not_override_explicit_disable() {
    let mut base = Config::default();
    base.rules.insert("PYTEST-FLK-001".to_string(), RuleConfig { enabled: Some(false), severity: None });
    let higher = Config::default();
    let merged = base.merge(higher);
    assert!(!merged.is_rule_enabled("PYTEST-FLK-001"), "default (None) should not override explicit Some(false)");
}

#[test]
fn test_effective_rules_no_overrides() {
    let cfg = Config::default();
    let file_path = String::from("tests/test_foo.py");
    let effective = cfg.effective_rules_for_file(&file_path).unwrap();
    assert_eq!(effective.len(), cfg.rules.len());
}

fn tool_table(format: Option<&str>, rules: Vec<(&str, RuleConfig)>) -> ToolConfig {
    let mut map = RuleMap::new();
    for (id, rc) in rules {
        map.insert(id.to_string(), rc);
    }
    ToolConfig {
        rules: Some(map),
        format: format.map(|f| f.to_string()),
        output: None,
        overrides: None,
        excludes: None,
    }
}

#[test]
fn test_discover_prefers_standalone_over_pyproject() {
    let pyproject = Config::build_from_tool_config(
        tool_table(Some("terminal"), vec![("PYTEST-FLK-001", RuleConfig { enabled: Some(false), severity: None })]),
        "/proj",
    );
    let standalone = Config::build_from_tool_config(
        tool_table(Some("json"), vec![("PYTEST-FLK-001", RuleConfig { enabled: Some(true), severity: None })]),
        "/proj",
    );
    let cfg = Config::discover("/proj", Some(pyproject), Some(standalone));
    assert_eq!(cfg.format, Some("json".to_string()));
    assert!(cfg.is_rule_enabled("PYTEST-FLK-001"));
}

#[test]
fn test_discover_falls_back_to_pyproject() {
    let pyproject = Config::build_from_tool_config(tool_table(Some("terminal"), vec![]), "/proj");
    let cfg = Config::discover("/proj", Some(pyproject), None);
    assert_eq!(cfg.format, Some("terminal".to_string()));
}

#[test]
fn test_discover_returns_default_when_no_config() {
    let cfg = Config::discover("/proj", None, None);
    assert_eq!(cfg.format, None);
    assert_eq!(cfg.rules.len(), 39);
    assert_eq!(cfg.config_dir, Some("/proj".to_string()));
}

#[test]
fn test_format_only_config_does_not_lock_enabled() {
    let cfg = Config::build_from_tool_config(tool_table(Some("json"), vec![]), "/proj");
    for rid in Config::default_rule_ids() {
        assert_eq!(cfg.rules.get(rid).unwrap().enabled, None, "rule {} should have enabled=None (not locked)", rid);
        assert!(cfg.is_rule_enabled(rid), "rule {} should be enabled by default", rid);
    }
}

#[test]
fn tool_table_output_is_resolved_against_config_dir() {
    let mut table = tool_table(Some("json"), vec![]);
    table.output = Some("report.json".to_string());
    let cfg = Config::build_from_tool_config(table, "/proj");
    assert_eq!(cfg.output, Some("/proj/report.json".to_string()));
    assert_eq!(cfg.config_dir, Some("/proj".to_string()));
    let mut table = tool_table(None, vec![]);
    table.output = Some("/abs/out.json".to_string());
    let cfg = Config::build_from_tool_config(table, "/proj");
    assert_eq!(cfg.output, Some("/abs/out.json".to_string()));
}

fn override_for(pattern: &str, id: &str, rc: RuleConfig) -> OverrideConfig {
    let mut rules = RuleMap::new();
    rules.insert(id.to_string(), rc);
    OverrideConfig { path: pattern.to_string(), rules, base_dir: None }
}

fn config_with_override(pattern: &str) -> Config {
    let mut table = tool_table(None, vec![]);
    table.overrides =
        Some(vec![override_for(pattern, "PYTEST-FLK-001", RuleConfig { enabled: Some(false), severity: None })]);
    Config::build_from_tool_config(table, "/proj")
}

#[test]
fn test_effective_rules_with_matching_override() {
    let cfg = config_with_override("tests/integration/**");
    let effective = cfg.effective_rules_for_file("/proj/tests/integration/test_api.py").unwrap();
    assert_eq!(effective.get("PYTEST-FLK-001").unwrap().enabled, Some(false));
}

#[test]
fn test_effective_rules_no_match_keeps_global() {
    let cfg = config_with_override("tests/integration/**");
    let effective = cfg.effective_rules_for_file("/proj/tests/unit/test_bar.py").unwrap();
    assert_eq!(effective.get("PYTEST-FLK-001").unwrap().enabled, None);
}

#[test]
fn invalid_override_pattern_is_an_error() {
    let cfg = config_with_override("tests/[unclosed");
    match cfg.effective_rules_for_file("/proj/tests/test_x.py") {
        Err(ConfigError::InvalidGlobPattern { pattern }) => assert_eq!(pattern, "tests/[unclosed"),
        Ok(_) => panic!("an invalid pattern must be refused"),
    }
}

#[test]
fn later_override_wins_over_earlier() {
    let mut table = tool_table(None, vec![]);
    table.overrides = Some(vec![
        override_for("tests/**", "PYTEST-MNT-001", RuleConfig { enabled: None, severity: Some(Severity::Info) }),
        override_for("tests/e2e/**", "PYTEST-MNT-001", RuleConfig { enabled: None, severity: Some(Severity::Error) }),
    ]);
    let cfg = Config::build_from_tool_config(table, "/proj");
    let e2e = cfg.effective_rules_for_file("/proj/tests/e2e/test_a.py").unwrap();
    assert_eq!(e2e.get("PYTEST-MNT-001").unwrap().severity, Some(Severity::Error));
    let other = cfg.effective_rules_for_file("/proj/tests/test_b.py").unwrap();
    assert_eq!(other.get("PYTEST-MNT-001").unwrap().severity, Some(Severity::Info));
}

#[test]
fn test_overrides_from_pyproject() {
    let mut table = tool_table(None, vec![]);
    table.overrides = Some(vec![
        override_for("tests/integration/**", "PYTEST-FLK-001", RuleConfig { enabled: Some(false), severity: None }),
        override_for("tests/e2e/**", "PYTEST-MNT-001", RuleConfig { enabled: None, severity: Some(Severity::Info) }),
    ]);
    let cfg = Config::from_pyproject(vec![("/proj".to_string(), ToolSection::Table(table))]).unwrap();
    assert_eq!(cfg.overrides.len(), 2);
    assert_eq!(cfg.overrides[0].path, "tests/integration/**");
    assert_eq!(cfg.overrides[1].path, "tests/e2e/**");
}

#[test]
fn nearest_pyproject_table_wins() {
    let near = ToolSection::Empty;
    let middle = ToolSection::Table(tool_table(Some("json"), vec![]));
    let far = ToolSection::Table(tool_table(Some("terminal"), vec![]));
    let cfg = Config::from_pyproject(vec![
        ("/a/b/c".to_string(), near),
        ("/a/b".to_string(), middle),
        ("/a".to_string(), far),
    ])
    .unwrap();
    assert_eq!(cfg.format, Some("json".to_string()));
    assert_eq!(cfg.config_dir, Some("/a/b".to_string()));
    assert!(Config::from_pyproject(vec![("/a".to_string(), ToolSection::NotATable)]).is_none());
    assert!(Config::from_pyproject(vec![]).is_none());
}

#[test]
fn merge_cli_keeps_configured_values_when_absent() {
    let mut cfg = Config::default();
    cfg.format = Some("sarif".to_string());
    cfg.excludes = vec!["vendor".to_string()];
    let merged = cfg.merge_cli(None, None, vec!["generated".to_string()]);
    assert_eq!(merged.format, Some("sarif".to_string()));
    assert_eq!(merged.output, None);
    assert_eq!(merged.excludes, vec!["vendor".to_string(), "generated".to_string()]);
}

#[test]
fn test_from_pyproject_none_when_missing() {
    assert!(Config::from_pyproject(vec![]).is_none());
}

#[test]
fn test_from_standalone_empty_file_returns_none() {
    assert!(is_blank_config(""));
    assert!(is_blank_config("  \n\t\n"));
    assert!(!is_blank_config("format = \"json\""));
}

#[test]
fn test_overrides_from_standalone() {
    let mut table = tool_table(Some("json"), vec![]);
    table.overrides = Some(vec![override_for(
        "tests/smoke/**",
        "PYTEST-MNT-001",
        RuleConfig { enabled: None, severity: Some(Severity::Info) },
    )]);
    let cfg = Config::build_from_tool_config(table, "/proj");
    assert_eq!(cfg.overrides.len(), 1);
    assert_eq!(cfg.overrides[0].path, "tests/smoke/**");
    assert_eq!(cfg.overrides[0].base_dir, Some("/proj".to_string()));
}

#[test]
fn empty_output_means_standard_output() {
    let mut table = tool_table(Some("json"), vec![]);
    table.output = Some(String::new());
    let cfg = Config::build_from_tool_config(table, "/d");
    assert_eq!(cfg.output, None);
}

#[test]
fn configured_excludes_reach_the_config() {
    let mut table = tool_table(None, vec![]);
    table.excludes = Some(vec!["generated".to_string(), "vendor".to_string()]);
    let cfg = Config::build_from_tool_config(table, "/proj");
    assert_eq!(cfg.excludes, vec!["generated".to_string(), "vendor".to_string()]);
}

#[test]
fn from_pyproject_takes_every_field_of_the_table() {
    let mut table = tool_table(
        Some("json"),
        vec![
            ("PYTEST-FLK-001", RuleConfig { enabled: Some(false), severity: Some(Severity::Warning) }),
            ("PYTEST-MNT-001", RuleConfig { enabled: None, severity: Some(Severity::Info) }),
        ],
    );
    table.output = Some("report.json".to_string());
    table.excludes = Some(vec!["generated".to_string()]);
    table.overrides = Some(vec![override_for(
        "tests/e2e/**",
        "PYTEST-MNT-001",
        RuleConfig { enabled: None, severity: Some(Severity::Info) },
    )]);
    let cfg = Config::from_pyproject(vec![("/d".to_string(), ToolSection::Table(table))]).unwrap();
    assert_eq!(cfg.format, Some("json".to_string()));
    assert_eq!(cfg.output, Some("/d/report.json".to_string()));
    assert_eq!(
        cfg.rules.get("PYTEST-FLK-001"),
        Some(&RuleConfig { enabled: Some(false), severity: Some(Severity::Warning) })
    );
    assert_eq!(cfg.rules.get("PYTEST-MNT-001").unwrap().severity, Some(Severity::Info));
    assert_eq!(cfg.config_dir, Some("/d".to_string()));
    assert_eq!(cfg.excludes, vec!["generated".to_string()]);
    assert_eq!(cfg.overrides.len(), 1);
    assert_eq!(cfg.overrides[0].base_dir, Some("/d".to_string()));
}

#[test]
fn discover_layers_output_overrides_and_excludes() {
    let mut p = tool_table(None, vec![]);
    p.output = Some("p.json".to_string());
    p.excludes = Some(vec!["a".to_string()]);
    p.overrides = Some(vec![override_for("p/**", "PYTEST-FLK-001", RuleConfig { enabled: Some(false), severity: None })]);
    let mut st = tool_table(None, vec![]);
    st.excludes = Some(vec!["b".to_string()]);
    st.overrides = Some(vec![override_for("s/**", "PYTEST-FLK-001", RuleConfig { enabled: Some(true), severity: None })]);
    let cfg = Config::discover(
        "/start",
        Some(Config::build_from_tool_config(p, "/p")),
        Some(Config::build_from_tool_config(st, "/s")),
    );
    assert_eq!(cfg.output, Some("/p/p.json".to_string()));
    assert_eq!(cfg.excludes, vec!["a".to_string(), "b".to_string()]);
    assert_eq!(cfg.overrides.len(), 2);
    assert_eq!(cfg.overrides[0].path, "p/**");
    assert_eq!(cfg.overrides[1].path, "s/**");
    let none = Config::discover("/start", None, None);
    assert!(none.overrides.is_empty());
    assert!(none.excludes.is_empty());
    assert_eq!(none.output, None);
}
