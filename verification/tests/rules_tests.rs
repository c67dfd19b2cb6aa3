//! Scenarios for the rules: what each reports, where, and with which
//! message.
use pytest_linter::engine::rule_context;
use pytest_linter::models::{DiskText, Fixture, FixtureScope, ParsedModule, Severity, TestFunction, Violation};
use pytest_linter::parser::PythonParser;
use pytest_linter::rules::flakiness::{
    RandomWithoutSeedRule, SubprocessWithoutTimeoutRule, TimeSleepRule, XdistFixtureIoRule, XdistSharedStateRule,
};
use pytest_linter::rules::maintenance::{
    BddMissingScenarioRule, DuplicateTestBodiesRule, NoAssertionRule, ParametrizeExplosionRule, PropertyTestHintRule,
    SleepWithValueRule, TestNameLengthRule,
};
use pytest_linter::rules::mocking::{MagicMockOnAsyncRule, MockRatioBudgetRule, PatchInitBypassRule};
use pytest_linter::rules::Rule;

fn parse(source: &str, path: &str) -> ParsedModule {
    PythonParser::new().unwrap().parse_source(source, path).unwrap()
}

fn run<R: Rule>(rule: R, m: &ParsedModule, disk: Vec<DiskText>) -> Vec<Violation> {
    let ms = vec![m.clone()];
    let ctx = rule_context(&ms, disk);
    rule.check(m, &ms, &ctx)
}

fn test_function(name: &str, deps: Vec<&str>) -> TestFunction {
    TestFunction {
        name: name.to_string(),
        file_path: "test_a.py".to_string(),
        line: 1,
        end_line: 1,
        is_async: false,
        is_parametrized: false,
        parametrize_count: None,
        has_assertions: false,
        assertion_count: 0,
        has_mock_verifications: false,
        has_state_assertions: false,
        fixture_deps: deps.into_iter().map(|d| d.to_string()).collect(),
        uses_time_sleep: false,
        sleep_values: vec![],
        sleep_exceeds_limit: false,
        uses_file_io: false,
        uses_network: false,
        has_conditional_logic: false,
        has_try_except: false,
        docstring: None,
        assertions: vec![],
        parametrize_values: vec![],
        uses_cwd_dependency: false,
        uses_pytest_raises: false,
        mutates_fixture_deps: vec![],
        body_hash: None,
        uses_random: false,
        has_random_seed: false,
        uses_subprocess: false,
        has_subprocess_timeout: false,
        mocks_stdlib_module: false,
        mocked_stdlib_targets: vec![],
        has_weak_assertions: false,
        weak_assertion_details: vec![],
        patch_targets: vec![],
        has_magic_mock: false,
        mock_count: 0,
        uses_shutil_copy: false,
    }
}

fn fixture(name: &str, line: usize, deps: Vec<&str>, scope: FixtureScope, returns_mutable: bool) -> Fixture {
    Fixture {
        name: name.to_string(),
        file_path: "test_a.py".to_string(),
        line,
        scope,
        is_autouse: false,
        dependencies: deps.into_iter().map(|d| d.to_string()).collect(),
        returns_mutable,
        has_yield: false,
        has_db_commit: false,
        has_db_rollback: false,
        has_cleanup: false,
        uses_file_io: false,
        used_by: vec![],
    }
}

fn module(path: &str, tests: Vec<TestFunction>, fixtures: Vec<Fixture>) -> ParsedModule {
    ParsedModule {
        file_path: path.to_string(),
        source: String::new(),
        imports: vec![],
        test_functions: tests,
        fixtures,
    }
}


#[test]
fn time_sleep_is_reported_at_the_test() {
    let m = parse("import time\n\ndef test_wait():\n    time.sleep(1)\n    assert True\n", "test_a.py");
    let v = run(TimeSleepRule, &m, vec![]);
    assert_eq!(v.len(), 1);
    assert_eq!(v[0].rule_id, "PYTEST-FLK-001");
    assert_eq!(v[0].line, 3);
    assert_eq!(v[0].severity, Severity::Warning);
    assert_eq!(v[0].message, "Test 'test_wait' uses time.sleep which causes flaky tests");
    assert_eq!(v[0].test_name, Some("test_wait".to_string()));
}

#[test]
fn missing_assertions_are_errors() {
    let m = parse("def test_nothing():\n    x = 1\n\ndef test_ok():\n    assert 1 == 1\n", "test_a.py");
    let v = run(NoAssertionRule, &m, vec![]);
    assert_eq!(v.len(), 1);
    assert_eq!(v[0].message, "Test 'test_nothing' has no assertions");
    assert_eq!(v[0].severity, Severity::Error);
    assert_eq!(v[0].suggestion, Some("Add assertions to verify expected behavior".to_string()));
}

#[test]
fn long_test_names_are_reported_with_their_length() {
    let name = format!("test_{}", "x".repeat(80));
    let m = parse(&format!("def {name}():\n    assert True\n"), "test_a.py");
    let v = run(TestNameLengthRule, &m, vec![]);
    assert_eq!(v.len(), 1);
    assert_eq!(v[0].message, format!("Test name '{name}' exceeds 80 characters (85 chars)"));
    let short = parse("def test_short():\n    assert True\n", "test_a.py");
    assert!(run(TestNameLengthRule, &short, vec![]).is_empty());
}

fn counted(name: &str, mocks: usize, asserts: usize) -> TestFunction {
    let mut t = test_function(name, vec![]);
    t.mock_count = mocks;
    t.assertion_count = asserts;
    t
}

#[test]
fn mock_ratio_over_three_is_reported_with_one_decimal() {
    let m = module(
        "test_a.py",
        vec![counted("test_heavy", 7, 2), counted("test_even", 3, 1), counted("test_third", 10, 3), counted("test_light", 1, 5)],
        vec![],
    );
    let v = run(MockRatioBudgetRule, &m, vec![]);
    let msgs: Vec<&str> = v.iter().map(|x| x.message.as_str()).collect();
    assert_eq!(
        msgs,
        vec![
            "Test 'test_heavy' has mock-to-assertion ratio of 3.5:1 (7 mocks, 2 assertions) — over budget",
            "Test 'test_third' has mock-to-assertion ratio of 3.3:1 (10 mocks, 3 assertions) — over budget",
        ]
    );
}

#[test]
fn mocks_without_assertions_are_over_budget_past_three() {
    let m = module("test_a.py", vec![counted("test_many", 4, 0), counted("test_few", 3, 0)], vec![]);
    let v = run(MockRatioBudgetRule, &m, vec![]);
    assert_eq!(v.len(), 1);
    assert_eq!(v[0].message, "Test 'test_many' has 4 mock operations but zero assertions — over budget");
    assert_eq!(v[0].suggestion, Some("Add assertions to verify actual outcomes".to_string()));
}

#[test]
fn mock_ratio_rounds_half_to_even_like_the_formatter() {
    let m = module("test_a.py", vec![counted("test_a", 13, 4), counted("test_b", 61, 8)], vec![]);
    let v = run(MockRatioBudgetRule, &m, vec![]);
    assert_eq!(v[0].message, format!("Test 'test_a' has mock-to-assertion ratio of {:.1}:1 (13 mocks, 4 assertions) — over budget", 13f64 / 4f64));
    assert_eq!(v[1].message, format!("Test 'test_b' has mock-to-assertion ratio of {:.1}:1 (61 mocks, 8 assertions) — over budget", 61f64 / 8f64));
}

#[test]
fn parametrize_counts_drive_explosion_and_property_hints() {
    let mut big = test_function("test_big", vec![]);
    big.is_parametrized = true;
    big.parametrize_count = Some(21);
    let mut four = test_function("test_four", vec![]);
    four.is_parametrized = true;
    four.parametrize_count = Some(4);
    let mut twenty = test_function("test_twenty", vec![]);
    twenty.is_parametrized = true;
    twenty.parametrize_count = Some(20);
    let m = module("test_a.py", vec![big, four, twenty], vec![]);
    let e = run(ParametrizeExplosionRule, &m, vec![]);
    assert_eq!(e.len(), 1);
    assert_eq!(e[0].message, "Test 'test_big' has 21 parametrized cases — combinatorial explosion");
    let p = run(PropertyTestHintRule, &m, vec![]);
    assert_eq!(p.len(), 3);
    assert_eq!(p[1].message, "Test 'test_four' has 4 parametrized cases — consider property-based testing");
}

#[test]
fn patching_init_is_reported() {
    let mut t = test_function("test_ctor", vec![]);
    t.patch_targets = vec!["app.Service.__init__".to_string(), "app.Service.run".to_string()];
    let m = module("test_a.py", vec![t], vec![]);
    let v = run(PatchInitBypassRule, &m, vec![]);
    assert_eq!(v.len(), 1);
    assert_eq!(v[0].message, "Test 'test_ctor' patches __init__ on 'app.Service.__init__' — bypasses constructor validation");
}

#[test]
fn magic_mock_in_async_test_is_an_error() {
    let mut t = test_function("test_async", vec![]);
    t.is_async = true;
    t.has_magic_mock = true;
    let mut sync = test_function("test_sync", vec![]);
    sync.has_magic_mock = true;
    let m = module("test_a.py", vec![t, sync], vec![]);
    let v = run(MagicMockOnAsyncRule, &m, vec![]);
    assert_eq!(v.len(), 1);
    assert_eq!(v[0].message, "Async test 'test_async' uses MagicMock instead of AsyncMock");
    assert_eq!(v[0].severity, Severity::Error);
}

#[test]
fn identical_bodies_name_each_other() {
    let mut a = test_function("test_a", vec![]);
    a.body_hash = Some(7);
    let mut b = test_function("test_b", vec![]);
    b.body_hash = Some(7);
    let mut c = test_function("test_c", vec![]);
    c.body_hash = Some(8);
    let m = module("test_a.py", vec![a, b, c], vec![]);
    let v = run(DuplicateTestBodiesRule, &m, vec![]);
    let msgs: Vec<&str> = v.iter().map(|x| x.message.as_str()).collect();
    assert_eq!(
        msgs,
        vec![
            "Test 'test_a' has identical body to 1 other test(s): test_b (shared body hash)",
            "Test 'test_b' has identical body to 1 other test(s): test_a (shared body hash)",
        ]
    );
}

#[test]
fn gherkin_docstrings_satisfy_the_scenario_rule() {
    let m = parse(
        "def test_plain():\n    assert True\n\ndef test_story():\n    \"\"\"GIVEN a user WHEN it logs in\"\"\"\n    assert True\n",
        "test_a.py",
    );
    let v = run(BddMissingScenarioRule, &m, vec![]);
    assert_eq!(v.len(), 1);
    assert_eq!(v[0].message, "Test 'test_plain' lacks a Gherkin-style docstring scenario");
}

#[test]
fn long_sleeps_are_reported_short_ones_not() {
    let m = parse(
        "import time\n\ndef test_long():\n    time.sleep(0.5)\n\ndef test_short():\n    time.sleep(0.1)\n\ndef test_neg():\n    time.sleep(-1)\n",
        "test_a.py",
    );
    let v = run(SleepWithValueRule, &m, vec![]);
    assert_eq!(v.len(), 1);
    assert_eq!(v[0].message, "Test 'test_long' uses time.sleep() with value > 0.1s — slows test suite");
}

#[test]
fn shared_session_state_mutation_is_reported() {
    let mut t = test_function("test_mutates", vec!["cache"]);
    t.mutates_fixture_deps = vec!["cache".to_string()];
    let m = module(
        "test_a.py",
        vec![t],
        vec![fixture("cache", 1, vec![], FixtureScope::Session, true)],
    );
    let v = run(XdistSharedStateRule, &m, vec![]);
    assert_eq!(v.len(), 1);
    assert_eq!(
        v[0].message,
        "Session-scoped fixture 'cache' returns mutable state that is modified by test 'test_mutates' — unsafe for xdist"
    );
}

#[test]
fn session_fixture_file_io_is_reported() {
    let m = parse(
        "import pytest\n\n@pytest.fixture(scope=\"session\")\ndef data():\n    with open(\"x.txt\") as f:\n        return f.read()\n",
        "test_a.py",
    );
    let v = run(XdistFixtureIoRule, &m, vec![]);
    assert_eq!(v.len(), 1);
    assert_eq!(v[0].message, "Session-scoped fixture 'data' uses file I/O — may conflict with xdist workers");
}

#[test]
fn random_calls_are_reported_at_their_lines_when_the_file_is_readable() {
    let source = "import random\n\ndef test_roll():\n    a = random.randint(1, 6)\n    b = random.random()\n    assert a\n";
    let m = parse(source, "test_r.py");
    let disk = vec![DiskText { path: "test_r.py".to_string(), text: Some(source.to_string()) }];
    let lines: Vec<usize> = run(RandomWithoutSeedRule, &m, disk).iter().map(|v| v.line).collect();
    assert_eq!(lines, vec![4, 5]);
    let unreadable = vec![DiskText { path: "test_r.py".to_string(), text: None }];
    let lines: Vec<usize> = run(RandomWithoutSeedRule, &m, unreadable).iter().map(|v| v.line).collect();
    assert_eq!(lines, vec![3]);
    let seeded = parse("import random\n\ndef test_roll():\n    random.seed(1)\n    assert random.randint(1, 6)\n", "test_s.py");
    assert!(run(RandomWithoutSeedRule, &seeded, vec![]).is_empty());
}

#[test]
fn process_calls_without_timeout_are_reported() {
    let source = "import subprocess\n\ndef test_run():\n    subprocess.run(['ls'])\n    subprocess.run(['ls'], timeout=5)\n    assert True\n";
    let m = parse(source, "test_p.py");
    let disk = vec![DiskText { path: "test_p.py".to_string(), text: Some(source.to_string()) }];
    let v = run(SubprocessWithoutTimeoutRule, &m, disk);
    let lines: Vec<usize> = v.iter().map(|x| x.line).collect();
    assert_eq!(lines, vec![4]);
    assert_eq!(v[0].message, "Test 'test_run' uses subprocess without timeout — may hang indefinitely");
}
