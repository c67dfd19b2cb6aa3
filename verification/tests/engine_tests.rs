//! The engine: file naming, `# noqa` suppression, violation identity,
//! cross-module fixture facts, rule dispatch, and the lint pipeline.
use pytest_linter::config::Config;
use pytest_linter::engine::{
    baseline_entries, changed_test_files, collect_all_fixtures, collect_suppressions, compute_fixture_locations,
    compute_session_mutable_fixtures, compute_used_fixture_names, default_excluded_dirs, exceeds_memory_budget,
    filter_new_violations, fixture_scope_by_name, has_errors, is_excluded_dir, is_fixture_used_by_any_test_or_fixture,
    is_py_test_file, is_suppressed, is_test_file, make_violation, parse_noqa_comment, rule_context, severity_counts,
    sort_violations, terminal_location, LintEngine, RuleDispatcher, Suppressions,
};
use pytest_linter::models::{Category, Fixture, FixtureScope, ParsedModule, Severity, TestFunction, Violation};
use pytest_linter::parser::PythonParser;
use pytest_linter::rulemap::RuleConfig;

fn parse(source: &str, path: &str) -> ParsedModule {
    PythonParser::new().unwrap().parse_source(source, path).unwrap()
}

fn violation(rule_id: &str, file: &str, line: usize, severity: Severity) -> Violation {
    Violation {
        rule_id: rule_id.to_string(),
        rule_name: "T".to_string(),
        severity,
        category: Category::Flakiness,
        message: "m".to_string(),
        file_path: file.to_string(),
        line,
        col: None,
        suggestion: None,
        test_name: None,
    }
}

fn test_function(name: &str, deps: Vec<&str>) -> TestFunction {
    TestFunction {
        name: name.to_string(),
        file_path: "test_a.py".to_string(),
        line: 1,
        end_line: 1,
        is_async: false,
        is_parametrized: false,
        parametrize_count: None,
        has_assertions: false,
        assertion_count: 0,
        has_mock_verifications: false,
        has_state_assertions: false,
        fixture_deps: deps.into_iter().map(|d| d.to_string()).collect(),
        uses_time_sleep: false,
        sleep_values: vec![],
        sleep_exceeds_limit: false,
        uses_file_io: false,
        uses_network: false,
        has_conditional_logic: false,
        has_try_except: false,
        docstring: None,
        assertions: vec![],
        parametrize_values: vec![],
        uses_cwd_dependency: false,
        uses_pytest_raises: false,
        mutates_fixture_deps: vec![],
        body_hash: None,
        uses_random: false,
        has_random_seed: false,
        uses_subprocess: false,
        has_subprocess_timeout: false,
        mocks_stdlib_module: false,
        mocked_stdlib_targets: vec![],
        has_weak_assertions: false,
        weak_assertion_details: vec![],
        patch_targets: vec![],
        has_magic_mock: false,
        mock_count: 0,
        uses_shutil_copy: false,
    }
}

fn fixture(name: &str, line: usize, deps: Vec<&str>, scope: FixtureScope, returns_mutable: bool) -> Fixture {
    Fixture {
        name: name.to_string(),
        file_path: "test_a.py".to_string(),
        line,
        scope,
        is_autouse: false,
        dependencies: deps.into_iter().map(|d| d.to_string()).collect(),
        returns_mutable,
        has_yield: false,
        has_db_commit: false,
        has_db_rollback: false,
        has_cleanup: false,
        uses_file_io: false,
        used_by: vec![],
    }
}

fn module(path: &str, tests: Vec<TestFunction>, fixtures: Vec<Fixture>) -> ParsedModule {
    ParsedModule {
        file_path: path.to_string(),
        source: String::new(),
        imports: vec![],
        test_functions: tests,
        fixtures,
    }
}

#[test]
fn test_is_test_file_detects_test_prefix() {
    assert!(is_test_file("test_foo.py"));
}

#[test]
fn test_is_test_file_detects_test_suffix() {
    assert!(is_test_file("foo_test.py"));
}

#[test]
fn test_is_test_file_detects_conftest() {
    assert!(is_test_file("conftest.py"));
}

#[test]
fn test_is_test_file_rejects_helper() {
    assert!(!is_test_file("helper.py"));
}

#[test]
fn test_is_test_file_only_checks_naming_convention() {
    assert!(is_test_file("test_foo.py"));
    assert!(is_test_file("foo_test.py"));
    assert!(is_test_file("conftest.py"));
    assert!(!is_test_file("helper.py"));
    assert!(!is_test_file("setup.py"));
}

#[test]
fn test_is_py_test_file_accepts_valid_test_files() {
    assert!(is_py_test_file("test_foo.py"));
    assert!(is_py_test_file("foo_test.py"));
    assert!(is_py_test_file("conftest.py"));
}

#[test]
fn test_is_py_test_file_rejects_non_py_files() {
    assert!(!is_py_test_file("test_foo.txt"));
    assert!(!is_py_test_file("test_foo.rs"));
    assert!(!is_py_test_file("test_foo"));
}

#[test]
fn test_is_py_test_file_rejects_non_test_py_files() {
    assert!(!is_py_test_file("helper.py"));
    assert!(!is_py_test_file("utils.py"));
    assert!(!is_py_test_file("setup.py"));
}

#[test]
fn test_is_py_test_file_rejects_non_py_test_named_file() {
    assert!(!is_py_test_file("test_data.json"));
}

#[test]
fn test_collect_suppressions_bare_noqa() {
    let module = parse("x = 1  # noqa\n", "test.py");
    let suppressions = collect_suppressions(std::slice::from_ref(&module));
    assert!(suppressions.contains_key("test.py", 1));
    assert!(suppressions.contains_rule("test.py", 1, "*"), "bare noqa should suppress all rules");
}

#[test]
fn test_collect_suppressions_specific_rule() {
    let module = parse("x = 1  # noqa: PYTEST-FLK-001\n", "test.py");
    let suppressions = collect_suppressions(std::slice::from_ref(&module));
    assert!(suppressions.contains_rule("test.py", 1, "PYTEST-FLK-001"), "should contain specific rule");
}

#[test]
fn test_collect_suppressions_next_line() {
    let module = parse("x = 1  # noqa: PYTEST-FLK-001\ny = 2\n", "test.py");
    let suppressions = collect_suppressions(std::slice::from_ref(&module));
    assert!(suppressions.contains_key("test.py", 2), "noqa should also suppress on next line");
    assert!(!suppressions.contains_key("test.py", 3));
}

#[test]
fn test_is_suppressed_by_rule_id() {
    let v = violation("PYTEST-FLK-001", "test.py", 5, Severity::Warning);
    let mut suppressions = Suppressions::new();
    suppressions.insert("test.py".to_string(), 5, vec!["PYTEST-FLK-001".to_string()]);
    assert!(is_suppressed(&v, &suppressions));
}

#[test]
fn test_is_suppressed_by_star_previous_line() {
    let v = violation("PYTEST-FLK-001", "test.py", 5, Severity::Warning);
    let mut suppressions = Suppressions::new();
    suppressions.insert("test.py".to_string(), 4, vec!["*".to_string()]);
    assert!(is_suppressed(&v, &suppressions), "star on previous line should suppress");
}

#[test]
fn test_is_suppressed_not_matching() {
    let v = violation("PYTEST-FLK-001", "test.py", 5, Severity::Warning);
    let suppressions = Suppressions::new();
    assert!(!is_suppressed(&v, &suppressions));
}

#[test]
fn test_is_suppressed_line_1_does_not_check_line_0() {
    let v = violation("PYTEST-FLK-001", "test.py", 1, Severity::Warning);
    let mut suppressions = Suppressions::new();
    suppressions.insert("test.py".to_string(), 0, vec!["*".to_string()]);
    assert!(!is_suppressed(&v, &suppressions), "violation on line 1 should NOT be suppressed by line-0 noqa");
}

#[test]
fn suppression_of_other_rule_or_file_does_not_apply() {
    let v = violation("PYTEST-FLK-001", "test.py", 5, Severity::Warning);
    let mut suppressions = Suppressions::new();
    suppressions.insert("test.py".to_string(), 5, vec!["PYTEST-MNT-001".to_string()]);
    suppressions.insert("other.py".to_string(), 5, vec!["*".to_string()]);
    suppressions.insert("test.py".to_string(), 3, vec!["*".to_string()]);
    assert!(!is_suppressed(&v, &suppressions));
}

#[test]
fn noqa_comment_forms() {
    assert_eq!(parse_noqa_comment("x = 1  # noqa"), Some(vec!["*".to_string()]));
    assert_eq!(parse_noqa_comment("x = 1  # noqa:"), Some(vec!["*".to_string()]));
    assert_eq!(parse_noqa_comment("x = 1  # noqa: , ,"), Some(vec!["*".to_string()]));
    assert_eq!(
        parse_noqa_comment("def test_x():  # noqa: PYTEST-FLK-001, PYTEST-MNT-004"),
        Some(vec!["PYTEST-FLK-001".to_string(), "PYTEST-MNT-004".to_string()])
    );
    assert_eq!(parse_noqa_comment("x = 1  # noqa-ish"), None);
    assert_eq!(parse_noqa_comment("x = 1"), None);
    assert_eq!(parse_noqa_comment("   # noqa   "), Some(vec!["*".to_string()]));
}

#[test]
fn test_violation_equality_same_key_different_rest() {
    let v1 = violation("PYTEST-FLK-001", "test.py", 5, Severity::Warning);
    let mut v2 = violation("PYTEST-FLK-001", "test.py", 5, Severity::Error);
    v2.rule_name = "B".to_string();
    v2.category = Category::Fixture;
    v2.message = "msg2".to_string();
    v2.col = Some(10);
    v2.suggestion = Some("fix".to_string());
    v2.test_name = Some("test_x".to_string());
    assert_eq!(v1, v2);
}

#[test]
fn test_violation_inequality_different_line() {
    let v1 = violation("PYTEST-FLK-001", "test.py", 5, Severity::Warning);
    let v2 = violation("PYTEST-FLK-001", "test.py", 6, Severity::Warning);
    assert_ne!(v1, v2);
}

#[test]
fn test_violation_inequality_different_rule() {
    let v1 = violation("PYTEST-FLK-001", "test.py", 5, Severity::Warning);
    let v2 = violation("PYTEST-FLK-002", "test.py", 5, Severity::Warning);
    assert_ne!(v1, v2);
}

#[test]
fn test_format_terminal_counts_severity() {
    let violations = vec![
        violation("PYTEST-FLK-001", "a.py", 1, Severity::Error),
        violation("PYTEST-FLK-002", "a.py", 2, Severity::Error),
        violation("PYTEST-FLK-003", "a.py", 3, Severity::Warning),
    ];
    assert_eq!(severity_counts(&violations), (2, 1, 0));
    assert!(has_errors(&violations));
    assert!(!has_errors(&violations[2..]));
}

#[test]
fn terminal_location_shows_file_line_and_column() {
    let mut v = violation("PYTEST-FLK-001", "tests/test_a.py", 12, Severity::Warning);
    assert_eq!(terminal_location(&v), "tests/test_a.py:12:-");
    v.col = Some(4);
    assert_eq!(terminal_location(&v), "tests/test_a.py:12:4");
}

#[test]
fn test_lint_source_returns_violations() {
    let engine = LintEngine::new(Config::default()).unwrap();
    let source = "import time\ndef test_sleep():\n    time.sleep(1)\n";
    let violations = engine.lint_source(source, "test_sleep.py", vec![]).unwrap();
    assert!(!violations.is_empty(), "lint_source should find violations");
}

#[test]
fn test_lint_source_clean_returns_nothing() {
    let engine = LintEngine::new(Config::default()).unwrap();
    let violations = engine.lint_source("x = 1\n", "clean.py", vec![]).unwrap();
    assert!(violations.is_empty(), "clean file should have no violations");
}

#[test]
fn disabled_rule_reports_nothing_and_severity_is_configured() {
    let source = "import time\ndef test_sleep():\n    time.sleep(1)\n";
    let mut cfg = Config::default();
    cfg.rules.insert("PYTEST-FLK-001".to_string(), RuleConfig { enabled: Some(false), severity: None });
    let engine = LintEngine::new(cfg).unwrap();
    let violations = engine.lint_source(source, "test_sleep.py", vec![]).unwrap();
    assert!(violations.iter().all(|v| v.rule_id != "PYTEST-FLK-001"));

    let mut cfg = Config::default();
    cfg.rules.insert("PYTEST-FLK-001".to_string(), RuleConfig { enabled: None, severity: Some(Severity::Error) });
    let engine = LintEngine::new(cfg).unwrap();
    let violations = engine.lint_source(source, "test_sleep.py", vec![]).unwrap();
    let sleeps: Vec<&Violation> = violations.iter().filter(|v| v.rule_id == "PYTEST-FLK-001").collect();
    assert!(!sleeps.is_empty());
    assert!(sleeps.iter().all(|v| v.severity == Severity::Error));
}

#[test]
fn lint_modules_drops_suppressed_and_sorts() {
    let a = parse("import time\ndef test_b():\n    time.sleep(1)  # noqa\n", "b_test.py");
    let b = parse("import time\ndef test_a():\n    time.sleep(1)\n", "a_test.py");
    let engine = LintEngine::new(Config::default()).unwrap();
    let violations = engine.lint_modules(&[a, b], vec![]).unwrap();
    assert!(!violations.iter().any(|v| v.file_path == "b_test.py" && v.rule_id == "PYTEST-FLK-001" && v.line == 3));
    assert!(violations.iter().any(|v| v.file_path == "a_test.py" && v.rule_id == "PYTEST-FLK-001"));
    for w in violations.windows(2) {
        let key = |v: &Violation| (v.file_path.clone(), v.line, v.rule_id.clone());
        assert!(key(&w[0]) <= key(&w[1]));
    }
}

#[test]
fn dispatcher_runs_every_registered_rule() {
    let d = RuleDispatcher::new();
    let m = parse("import time\ndef test_sleep():\n    time.sleep(1)\n", "test_sleep.py");
    let ms = vec![m];
    let ctx = rule_context(&ms, vec![]);
    let out = d.check_module(&ms[0], &ms, &ctx, &Config::default()).unwrap();
    assert!(out.iter().any(|v| v.rule_id == "PYTEST-FLK-001"));
}

#[test]
fn test_exceeds_memory_budget_computation_and_comparison() {
    let files: Vec<String> = (0..21).map(|i| format!("/test_{i}.py")).collect();
    let (estimated_mb, over_budget) = exceeds_memory_budget(&files, 1);
    let estimated_bytes: u64 = files.len() as u64 * 50_000;
    assert_eq!(estimated_bytes, 1_050_000);
    assert_eq!(estimated_mb, 1);
    assert!(!over_budget);
    let (_, over_budget_0) = exceeds_memory_budget(&files, 0);
    assert!(over_budget_0);
    let one_file: Vec<String> = vec!["/test.py".to_string()];
    let (mb_1, over_1) = exceeds_memory_budget(&one_file, 0);
    assert_eq!(mb_1, 0);
    assert!(!over_1);
    let (_, over_2) = exceeds_memory_budget(&one_file, 1);
    assert!(!over_2);
}

#[test]
fn test_exceeds_memory_budget_strict_greater_than() {
    let files: Vec<String> = (0..22).map(|i| format!("/test_{i}.py")).collect();
    let (estimated_mb, over_budget) = exceeds_memory_budget(&files, 1);
    assert_eq!(estimated_mb, 1, "22 files should give estimated_mb == 1");
    assert!(!over_budget, "1 > 1 should be false");
    let (_, over_budget_0) = exceeds_memory_budget(&files, 0);
    assert!(over_budget_0, "1 > 0 should be true");
    let files_42: Vec<String> = (0..42).map(|i| format!("/test_{i}.py")).collect();
    let (mb_42, over_42) = exceeds_memory_budget(&files_42, 1);
    assert_eq!(mb_42, 2);
    assert!(over_42, "2 > 1 should be true");
}

#[test]
fn test_fixture_not_used_by_unrelated_fixture() {
    let m = module(
        "test_a.py",
        vec![test_function("test_x", vec![])],
        vec![
            fixture("db_connection", 3, vec![], FixtureScope::Function, false),
            fixture("unrelated_fixture", 5, vec!["other_dep"], FixtureScope::Function, false),
        ],
    );
    assert!(
        !is_fixture_used_by_any_test_or_fixture("db_connection", &[m]),
        "fixture not referenced by any test or dependency should be unused"
    );
}

#[test]
fn test_fixture_used_via_other_fixture_dependency() {
    let m = module(
        "test_a.py",
        vec![test_function("test_x", vec!["db_connection"])],
        vec![fixture("db_connection", 3, vec![], FixtureScope::Function, false)],
    );
    assert!(is_fixture_used_by_any_test_or_fixture("db_connection", &[m]), "fixture referenced by test should be used");
}

#[test]
fn test_fixture_used_by_other_fixture_dependency() {
    let m = module(
        "test_a.py",
        vec![test_function("test_x", vec!["api_client"])],
        vec![
            fixture("api_client", 3, vec!["db_connection"], FixtureScope::Function, false),
            fixture("db_connection", 5, vec![], FixtureScope::Function, false),
        ],
    );
    assert!(
        is_fixture_used_by_any_test_or_fixture("db_connection", &[m]),
        "fixture referenced by another fixture's dependencies should be used"
    );
}

#[test]
fn self_dependency_does_not_count_as_use() {
    let m = module("test_a.py", vec![], vec![fixture("loop", 1, vec!["loop"], FixtureScope::Function, false)]);
    assert!(!is_fixture_used_by_any_test_or_fixture("loop", &[m]));
}

#[test]
fn used_fixture_names_follow_dependencies_transitively() {
    let m1 = module(
        "test_a.py",
        vec![test_function("test_x", vec!["api_client", "tmp_path"])],
        vec![
            fixture("api_client", 3, vec!["session"], FixtureScope::Function, false),
            fixture("session", 5, vec!["engine"], FixtureScope::Function, false),
            fixture("orphan", 7, vec!["never"], FixtureScope::Function, false),
        ],
    );
    let m2 = module(
        "conftest.py",
        vec![],
        vec![fixture("engine", 1, vec!["db_url"], FixtureScope::Session, false)],
    );
    let mut used = compute_used_fixture_names(&[m1, m2]);
    used.sort();
    assert_eq!(used, vec!["api_client", "db_url", "engine", "session", "tmp_path"]);
}

#[test]
fn later_definition_decides_dependencies() {
    let m1 = module(
        "conftest.py",
        vec![test_function("test_x", vec!["client"])],
        vec![fixture("client", 1, vec!["first"], FixtureScope::Function, false)],
    );
    let m2 = module("test_b.py", vec![], vec![fixture("client", 1, vec!["second"], FixtureScope::Function, false)]);
    let mut used = compute_used_fixture_names(&[m1, m2]);
    used.sort();
    assert_eq!(used, vec!["client", "second"]);
}

#[test]
fn fixture_map_groups_definitions_by_name() {
    let m1 = module(
        "conftest.py",
        vec![],
        vec![
            fixture("db", 1, vec![], FixtureScope::Session, true),
            fixture("client", 5, vec![], FixtureScope::Function, false),
        ],
    );
    let m2 = module("test_b.py", vec![], vec![fixture("db", 3, vec![], FixtureScope::Module, false)]);
    let modules = vec![m1, m2];
    let groups = collect_all_fixtures(&modules);
    assert_eq!(groups.len(), 2);
    let db = groups.iter().find(|g| g.name == "db").unwrap();
    assert_eq!(db.definitions.len(), 2);
    assert_eq!((db.definitions[0].module, db.definitions[0].fixture), (0, 0));
    assert_eq!((db.definitions[1].module, db.definitions[1].fixture), (1, 0));
    assert_eq!(fixture_scope_by_name(&groups, &modules, "db"), Some(FixtureScope::Module));
    assert_eq!(fixture_scope_by_name(&groups, &modules, "client"), Some(FixtureScope::Function));
    assert_eq!(fixture_scope_by_name(&groups, &modules, "missing"), None);

    let locations = compute_fixture_locations(&modules);
    let db_locs = locations.iter().find(|l| l.name == "db").unwrap();
    assert_eq!(db_locs.paths, vec!["conftest.py".to_string(), "test_b.py".to_string()]);

    let mutable = compute_session_mutable_fixtures(&modules);
    assert_eq!(mutable, vec!["db".to_string()]);
}

#[test]
fn baseline_filters_known_violations() {
    let found = vec![
        violation("PYTEST-FLK-001", "a.py", 1, Severity::Warning),
        violation("PYTEST-FLK-002", "a.py", 2, Severity::Warning),
    ];
    let baseline = baseline_entries(&found[..1]);
    assert_eq!(baseline, vec![("a.py".to_string(), 1, "PYTEST-FLK-001".to_string())]);
    let fresh = filter_new_violations(&found, &baseline);
    assert_eq!(fresh.len(), 1);
    assert_eq!(fresh[0].rule_id, "PYTEST-FLK-002");
    let all = baseline_entries(&found);
    assert!(filter_new_violations(&found, &all).is_empty());
}

#[test]
fn sort_orders_by_file_line_rule_and_keeps_ties() {
    let mut first = violation("PYTEST-B", "a.py", 2, Severity::Warning);
    first.message = "first".to_string();
    let mut second = violation("PYTEST-B", "a.py", 2, Severity::Warning);
    second.message = "second".to_string();
    let vs = vec![
        violation("PYTEST-A", "b.py", 1, Severity::Warning),
        first,
        violation("PYTEST-A", "a.py", 2, Severity::Warning),
        second,
        violation("PYTEST-Z", "a.py", 1, Severity::Warning),
    ];
    let sorted = sort_violations(vs);
    let keys: Vec<(String, usize, String, String)> =
        sorted.iter().map(|v| (v.file_path.clone(), v.line, v.rule_id.clone(), v.message.clone())).collect();
    assert_eq!(
        keys,
        vec![
            ("a.py".to_string(), 1, "PYTEST-Z".to_string(), "m".to_string()),
            ("a.py".to_string(), 2, "PYTEST-A".to_string(), "m".to_string()),
            ("a.py".to_string(), 2, "PYTEST-B".to_string(), "first".to_string()),
            ("a.py".to_string(), 2, "PYTEST-B".to_string(), "second".to_string()),
            ("b.py".to_string(), 1, "PYTEST-A".to_string(), "m".to_string()),
        ]
    );
}

#[test]
fn changed_files_keep_python_test_files() {
    let out = "src/app.py\n tests/test_api.py \ntests/conftest.py\nREADME.md\ntests/helper_test.py\n";
    assert_eq!(
        changed_test_files(out),
        vec!["tests/test_api.py".to_string(), "tests/conftest.py".to_string(), "tests/helper_test.py".to_string()]
    );
}

#[test]
fn excluded_directories() {
    let defaults: Vec<String> = default_excluded_dirs().iter().map(|s| s.to_string()).collect();
    assert_eq!(defaults.len(), 10);
    assert!(is_excluded_dir(".venv", &defaults));
    assert!(is_excluded_dir("node_modules", &defaults));
    assert!(!is_excluded_dir("tests", &defaults));
    let configured = vec!["generated".to_string()];
    assert!(is_excluded_dir(".venv", &configured), "the defaults are always skipped");
    assert!(is_excluded_dir("generated", &configured));
    assert!(!is_excluded_dir("tests", &configured));
}

#[test]
fn make_violation_has_no_column() {
    let v = make_violation(
        "PYTEST-FLK-001",
        "TimeSleepRule",
        Severity::Warning,
        Category::Flakiness,
        "msg".to_string(),
        "t.py".to_string(),
        3,
        Some("fix".to_string()),
        None,
    );
    assert_eq!(v.col, None);
    assert_eq!(v.rule_id, "PYTEST-FLK-001");
    assert_eq!(v.line, 3);
}

#[test]
fn discovered_files_follow_path_order_and_drop_repeats() {
    let files: Vec<String> = vec![
        "b/test_x.py",
        "a.b/test.py",
        "a/test.py",
        "a//test.py",
        "./c_test.py",
        "a-b/test.py",
        "/abs/test_y.py",
        "a/./test.py",
        "../up/test_z.py",
    ]
    .into_iter()
    .map(String::from)
    .collect();
    let ours = pytest_linter::engine::sorted_unique_files(&files);
    let mut expected: Vec<std::path::PathBuf> = files.iter().map(std::path::PathBuf::from).collect();
    expected.sort();
    expected.dedup();
    let expected: Vec<String> = expected.iter().map(|p| p.to_string_lossy().into_owned()).collect();
    assert_eq!(ours, expected);
    assert_eq!(ours[0], "/abs/test_y.py");
    assert!(ours.contains(&"a/test.py".to_string()));
    assert!(!ours.contains(&"a//test.py".to_string()));
}

#[test]
fn reports_sort_files_by_path_components() {
    let vs = vec![
        violation("PYTEST-A", "a.b/test.py", 1, Severity::Warning),
        violation("PYTEST-A", "a/test.py", 9, Severity::Warning),
    ];
    let sorted = sort_violations(vs);
    assert_eq!(sorted[0].file_path, "a/test.py");
    assert_eq!(sorted[1].file_path, "a.b/test.py");
}

#[test]
fn noqa_reaches_its_line_and_the_next_only() {
    let module = parse("x = 1  # noqa\ny = 2\nz = 3\n", "test.py");
    let s = collect_suppressions(std::slice::from_ref(&module));
    assert!(is_suppressed(&violation("PYTEST-FLK-001", "test.py", 1, Severity::Warning), &s));
    assert!(is_suppressed(&violation("PYTEST-FLK-001", "test.py", 2, Severity::Warning), &s));
    assert!(!is_suppressed(&violation("PYTEST-FLK-001", "test.py", 3, Severity::Warning), &s));
}

#[test]
fn file_names_and_extensions_follow_path_components() {
    assert!(is_py_test_file("dir/test_a.py/"));
    assert!(!is_py_test_file("tests/test_a.py/.."));
    assert!(!is_py_test_file(".py"));
    assert!(is_test_file("./conftest.py"));
    assert!(!is_test_file("/"));
    assert!(!is_py_test_file("test_a.PY"));
}
