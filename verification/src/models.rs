//! The data the linter works on: parsed test modules, their test functions
//! and fixtures, and the violations that rules report.
use vstd::prelude::*;
use vstd::std_specs::cmp::PartialEqSpecImpl;

verus! {

/// How serious a violation is.
#[derive(Debug, Clone, Copy, PartialEq, Eq, Structural, Hash)]
pub enum Severity {
    Error,
    Warning,
    Info,
}

/// The family a rule belongs to.
#[derive(Debug, Clone, Copy, PartialEq, Eq, Structural, Hash)]
pub enum Category {
    Flakiness,
    Maintenance,
    Fixture,
    Enhancement,
}

/// The scope of a pytest fixture, from narrowest to broadest.
#[derive(Debug, Clone, Copy, PartialEq, Eq, Structural, Hash, PartialOrd, Ord)]
pub enum FixtureScope {
    Function,
    Class,
    Module,
    Package,
    Session,
}

/// The rank of a scope: narrower scopes have smaller ranks.
pub open spec fn scope_rank(s: FixtureScope) -> nat {
    match s {
        FixtureScope::Function => 0,
        FixtureScope::Class => 1,
        FixtureScope::Module => 2,
        FixtureScope::Package => 3,
        FixtureScope::Session => 4,
    }
}

/// What the linter reports about one place in a test file.
#[derive(Debug, Clone)]
pub struct Violation {
    pub rule_id: String,
    pub rule_name: String,
    pub severity: Severity,
    pub category: Category,
    pub message: String,
    pub file_path: String,
    pub line: usize,
    pub col: Option<usize>,
    pub suggestion: Option<String>,
    pub test_name: Option<String>,
}

/// A violation with its texts taken as character sequences.
pub struct ViolationView {
    pub rule_id: Seq<char>,
    pub rule_name: Seq<char>,
    pub severity: Severity,
    pub category: Category,
    pub message: Seq<char>,
    pub file_path: Seq<char>,
    pub line: usize,
    pub col: Option<usize>,
    pub suggestion: Option<Seq<char>>,
    pub test_name: Option<Seq<char>>,
}

pub open spec fn opt_text(o: Option<String>) -> Option<Seq<char>> {
    match o {
        Some(s) => Some(s@),
        None => None,
    }
}

impl View for Violation {
    type V = ViolationView;

    open spec fn view(&self) -> ViolationView {
        ViolationView {
            rule_id: self.rule_id@,
            rule_name: self.rule_name@,
            severity: self.severity,
            category: self.category,
            message: self.message@,
            file_path: self.file_path@,
            line: self.line,
            col: self.col,
            suggestion: opt_text(self.suggestion),
            test_name: opt_text(self.test_name),
        }
    }
}

/// The views of a sequence of violations.
pub open spec fn views(vs: Seq<Violation>) -> Seq<ViolationView> {
    vs.map_values(|v: Violation| v@)
}

/// Two violations are the same finding when they name the same rule at the
/// same line of the same file; the rest of the report does not count.
pub open spec fn same_finding(a: ViolationView, b: ViolationView) -> bool {
    a.rule_id == b.rule_id && a.file_path == b.file_path && a.line == b.line
}

impl PartialEq for Violation {
    fn eq(&self, other: &Self) -> (r: bool) {
        self.rule_id == other.rule_id && self.file_path == other.file_path && self.line
            == other.line
    }
}

impl PartialEqSpecImpl for Violation {
    open spec fn obeys_eq_spec() -> bool {
        true
    }

    open spec fn eq_spec(&self, other: &Violation) -> bool {
        same_finding(self@, other@)
    }
}

/// What the parser records about one `assert` statement.
#[derive(Debug, Clone)]
pub struct AssertionInfo {
    pub is_magic: bool,
    pub is_suboptimal: bool,
    pub has_comparison: bool,
    pub expression_text: String,
    pub line: usize,
}

/// A numeric argument of a `sleep(...)` call as written in the source: its
/// literal text and whether a unary minus stands before it.
#[derive(Debug, Clone)]
pub struct SleepLiteral {
    pub negative: bool,
    pub text: String,
}

/// What the parser records about one test function.
#[derive(Debug, Clone)]
pub struct TestFunction {
    pub name: String,
    pub file_path: String,
    pub line: usize,
    pub end_line: usize,
    pub is_async: bool,
    pub is_parametrized: bool,
    pub parametrize_count: Option<usize>,
    pub has_assertions: bool,
    pub assertion_count: usize,
    pub has_mock_verifications: bool,
    pub has_state_assertions: bool,
    pub fixture_deps: Vec<String>,
    pub uses_time_sleep: bool,
    /// The numeric argument of each sleep call of the body that has one, in
    /// source order.
    pub sleep_values: Vec<SleepLiteral>,
    /// Whether the largest numeric sleep argument, read as a float, exceeds
    /// 0.1 seconds.
    pub sleep_exceeds_limit: bool,
    pub uses_file_io: bool,
    pub uses_network: bool,
    pub has_conditional_logic: bool,
    pub has_try_except: bool,
    pub docstring: Option<String>,
    pub assertions: Vec<AssertionInfo>,
    pub parametrize_values: Vec<Vec<String>>,
    pub uses_cwd_dependency: bool,
    pub uses_pytest_raises: bool,
    pub mutates_fixture_deps: Vec<String>,
    pub body_hash: Option<u64>,
    pub uses_random: bool,
    pub has_random_seed: bool,
    pub uses_subprocess: bool,
    pub has_subprocess_timeout: bool,
    pub mocks_stdlib_module: bool,
    pub mocked_stdlib_targets: Vec<String>,
    pub has_weak_assertions: bool,
    pub weak_assertion_details: Vec<String>,
    pub patch_targets: Vec<String>,
    pub has_magic_mock: bool,
    pub mock_count: usize,
    pub uses_shutil_copy: bool,
}

/// What the parser records about one pytest fixture.
#[derive(Debug, Clone)]
pub struct Fixture {
    pub name: String,
    pub file_path: String,
    pub line: usize,
    pub scope: FixtureScope,
    pub is_autouse: bool,
    pub dependencies: Vec<String>,
    pub returns_mutable: bool,
    pub has_yield: bool,
    pub has_db_commit: bool,
    pub has_db_rollback: bool,
    pub has_cleanup: bool,
    pub uses_file_io: bool,
    pub used_by: Vec<String>,
}

/// One parsed test file.
#[derive(Debug, Clone)]
pub struct ParsedModule {
    pub file_path: String,
    pub source: String,
    pub imports: Vec<String>,
    pub test_functions: Vec<TestFunction>,
    pub fixtures: Vec<Fixture>,
}

/// The text of a file as it stands on disk when the rules run, or `None`
/// where it could not be read.
#[derive(Debug, Clone)]
pub struct DiskText {
    pub path: String,
    pub text: Option<String>,
}

/// Where a fixture is defined: the index of its module and its index among
/// that module's fixtures.
#[derive(Debug, Clone, Copy, PartialEq, Eq)]
pub struct FixtureRef {
    pub module: usize,
    pub fixture: usize,
}

/// All definitions of one fixture name.
#[derive(Debug, Clone)]
pub struct FixtureGroup {
    pub name: String,
    pub definitions: Vec<FixtureRef>,
}

/// All files that define one fixture name.
#[derive(Debug, Clone)]
pub struct FixtureLocations {
    pub name: String,
    pub paths: Vec<String>,
}

/// Data computed once over all modules and handed to every rule.
#[derive(Debug, Clone)]
pub struct RuleContext {
    pub fixture_map: Vec<FixtureGroup>,
    pub used_fixture_names: Vec<String>,
    pub fixture_locations: Vec<FixtureLocations>,
    pub session_mutable_fixtures: Vec<String>,
    pub disk_texts: Vec<DiskText>,
}

/// The texts of a vector of strings.
pub open spec fn texts(v: Seq<String>) -> Seq<Seq<char>> {
    v.map_values(|s: String| s@)
}

} // verus!
