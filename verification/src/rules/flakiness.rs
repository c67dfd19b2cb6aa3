//! Rules that find sources of flaky tests: sleeping, file and network
//! access, working-directory dependence, unseeded randomness, subprocesses
//! without timeouts, and state shared between xdist workers.
use vstd::prelude::*;
use crate::models::{Category, Fixture, FixtureScope, ParsedModule, RuleContext, Severity, TestFunction, Violation, ViolationView, views};
use crate::rules::{Rule, any_text_contains, cat3, finding, flat_map, has_tmp_fixture, imports_contain, lemma_flat_map_all, lemma_flat_map_step, push_violation, report, texts_contain};
use crate::models::DiskText;
use crate::parser::{python_tree, PythonParser, site_lines, site_lines_exec};
use crate::syntax::{SyntaxTree, wf};
use crate::text::{contains, str_eq};

verus! {

/// Each test that calls `time.sleep`.
pub struct TimeSleepRule;

/// What `TimeSleepRule` reports for the test `t` of `m`.
pub open spec fn time_sleep_finding(m: ParsedModule, t: TestFunction) -> Seq<ViolationView> {
    if t.uses_time_sleep {
        seq![finding(
            "PYTEST-FLK-001"@,
            "TimeSleepRule"@,
            Severity::Warning,
            Category::Flakiness,
            m.file_path@,
            t.line,
            "Test '"@ + t.name@ + "' uses time.sleep which causes flaky tests"@,
            "Use pytest's time mocking or wait for a condition instead"@,
            Some(t.name@),
        )]
    } else {
        Seq::empty()
    }
}

/// What `TimeSleepRule` reports for `m`.
pub open spec fn time_sleep_findings(m: ParsedModule) -> Seq<ViolationView> {
    flat_map(m.test_functions@, |t: TestFunction| time_sleep_finding(m, t))
}

impl Rule for TimeSleepRule {
    open spec fn rule_id(&self) -> Seq<char> {
        "PYTEST-FLK-001"@
    }

    open spec fn rule_name(&self) -> Seq<char> {
        "TimeSleepRule"@
    }

    open spec fn default_severity(&self) -> Severity {
        Severity::Warning
    }

    open spec fn rule_category(&self) -> Category {
        Category::Flakiness
    }

    fn id(&self) -> (r: &'static str) {
        "PYTEST-FLK-001"
    }

    fn name(&self) -> (r: &'static str) {
        "TimeSleepRule"
    }

    fn severity(&self) -> (r: Severity) {
        Severity::Warning
    }

    fn category(&self) -> (r: Category) {
        Category::Flakiness
    }

    /// Reports each test that calls `time.sleep`.
    fn check(&self, module: &ParsedModule, _all_modules: &[ParsedModule], _ctx: &RuleContext) -> (r: Vec<Violation>)
        ensures
            views(r@) == time_sleep_findings(*module),
    {
        let ghost f = |t: TestFunction| time_sleep_finding(*module, t);
        let mut out: Vec<Violation> = Vec::new();
        let mut i: usize = 0;
        while i < module.test_functions.len()
            invariant
                i <= module.test_functions@.len(),
                f == (|t: TestFunction| time_sleep_finding(*module, t)),
                views(out@) == flat_map(module.test_functions@.take(i as int), f),
            decreases module.test_functions.len() - i,
        {
            let t = &module.test_functions[i];
            proof {
                lemma_flat_map_step(module.test_functions@, f, i as int);
            }
            if t.uses_time_sleep {
                let msg = cat3("Test '", t.name.as_str(), "' uses time.sleep which causes flaky tests");
                let v = report(
                    self.id(),
                    self.name(),
                    self.severity(),
                    self.category(),
                    module,
                    t.line,
                    msg,
                    "Use pytest's time mocking or wait for a condition instead",
                    Some(t.name.clone()),
                );
                push_violation(&mut out, v);
            }
            i = i + 1;
        }
        proof {
            lemma_flat_map_all(module.test_functions@, f);
        }
        out
    }
}

/// Each test that does file I/O without a temporary-path fixture.
pub struct FileIoRule;

/// What `FileIoRule` reports for the test `t` of `m`.
pub open spec fn file_io_finding(m: ParsedModule, t: TestFunction) -> Seq<ViolationView> {
    if t.uses_file_io && !has_tmp_fixture(t.fixture_deps@) {
        seq![finding(
            "PYTEST-FLK-002"@,
            "FileIoRule"@,
            Severity::Warning,
            Category::Flakiness,
            m.file_path@,
            t.line,
            "Test '"@ + t.name@ + "' uses file I/O without tmp_path/tmpdir fixture"@,
            "Use the tmp_path or tmpdir fixture for temporary files"@,
            Some(t.name@),
        )]
    } else {
        Seq::empty()
    }
}

/// What `FileIoRule` reports for `m`.
pub open spec fn file_io_findings(m: ParsedModule) -> Seq<ViolationView> {
    flat_map(m.test_functions@, |t: TestFunction| file_io_finding(m, t))
}

impl Rule for FileIoRule {
    open spec fn rule_id(&self) -> Seq<char> {
        "PYTEST-FLK-002"@
    }

    open spec fn rule_name(&self) -> Seq<char> {
        "FileIoRule"@
    }

    open spec fn default_severity(&self) -> Severity {
        Severity::Warning
    }

    open spec fn rule_category(&self) -> Category {
        Category::Flakiness
    }

    fn id(&self) -> (r: &'static str) {
        "PYTEST-FLK-002"
    }

    fn name(&self) -> (r: &'static str) {
        "FileIoRule"
    }

    fn severity(&self) -> (r: Severity) {
        Severity::Warning
    }

    fn category(&self) -> (r: Category) {
        Category::Flakiness
    }

    /// Reports each test that does file I/O without a temporary-path fixture.
    fn check(&self, module: &ParsedModule, _all_modules: &[ParsedModule], _ctx: &RuleContext) -> (r: Vec<Violation>)
        ensures
            views(r@) == file_io_findings(*module),
    {
        let ghost f = |t: TestFunction| file_io_finding(*module, t);
        let mut out: Vec<Violation> = Vec::new();
        let mut i: usize = 0;
        while i < module.test_functions.len()
            invariant
                i <= module.test_functions@.len(),
                f == (|t: TestFunction| file_io_finding(*module, t)),
                views(out@) == flat_map(module.test_functions@.take(i as int), f),
            decreases module.test_functions.len() - i,
        {
            let t = &module.test_functions[i];
            proof {
                lemma_flat_map_step(module.test_functions@, f, i as int);
            }
            let has_tmp = crate::rules::has_tmp_fixture_exec(&t.fixture_deps);
            if t.uses_file_io && !has_tmp {
                let msg = cat3("Test '", t.name.as_str(), "' uses file I/O without tmp_path/tmpdir fixture");
                let v = report(
                    self.id(),
                    self.name(),
                    self.severity(),
                    self.category(),
                    module,
                    t.line,
                    msg,
                    "Use the tmp_path or tmpdir fixture for temporary files",
                    Some(t.name.clone()),
                );
                push_violation(&mut out, v);
            }
            i = i + 1;
        }
        proof {
            lemma_flat_map_all(module.test_functions@, f);
        }
        out
    }
}

/// Each test that depends on the current working directory.
pub struct CwdDependencyRule;

/// What `CwdDependencyRule` reports for the test `t` of `m`.
pub open spec fn cwd_dependency_finding(m: ParsedModule, t: TestFunction) -> Seq<ViolationView> {
    if t.uses_cwd_dependency {
        seq![finding(
            "PYTEST-FLK-004"@,
            "CwdDependencyRule"@,
            Severity::Warning,
            Category::Flakiness,
            m.file_path@,
            t.line,
            "Test '"@ + t.name@ + "' depends on the current working directory"@,
            "Use absolute paths or tmp_path fixture instead"@,
            Some(t.name@),
        )]
    } else {
        Seq::empty()
    }
}

/// What `CwdDependencyRule` reports for `m`.
pub open spec fn cwd_dependency_findings(m: ParsedModule) -> Seq<ViolationView> {
    flat_map(m.test_functions@, |t: TestFunction| cwd_dependency_finding(m, t))
}

impl Rule for CwdDependencyRule {
    open spec fn rule_id(&self) -> Seq<char> {
        "PYTEST-FLK-004"@
    }

    open spec fn rule_name(&self) -> Seq<char> {
        "CwdDependencyRule"@
    }

    open spec fn default_severity(&self) -> Severity {
        Severity::Warning
    }

    open spec fn rule_category(&self) -> Category {
        Category::Flakiness
    }

    fn id(&self) -> (r: &'static str) {
        "PYTEST-FLK-004"
    }

    fn name(&self) -> (r: &'static str) {
        "CwdDependencyRule"
    }

    fn severity(&self) -> (r: Severity) {
        Severity::Warning
    }

    fn category(&self) -> (r: Category) {
        Category::Flakiness
    }

    /// Reports each test that depends on the current working directory.
    fn check(&self, module: &ParsedModule, _all_modules: &[ParsedModule], _ctx: &RuleContext) -> (r: Vec<Violation>)
        ensures
            views(r@) == cwd_dependency_findings(*module),
    {
        let ghost f = |t: TestFunction| cwd_dependency_finding(*module, t);
        let mut out: Vec<Violation> = Vec::new();
        let mut i: usize = 0;
        while i < module.test_functions.len()
            invariant
                i <= module.test_functions@.len(),
                f == (|t: TestFunction| cwd_dependency_finding(*module, t)),
                views(out@) == flat_map(module.test_functions@.take(i as int), f),
            decreases module.test_functions.len() - i,
        {
            let t = &module.test_functions[i];
            proof {
                lemma_flat_map_step(module.test_functions@, f, i as int);
            }
            if t.uses_cwd_dependency {
                let msg = cat3("Test '", t.name.as_str(), "' depends on the current working directory");
                let v = report(
                    self.id(),
                    self.name(),
                    self.severity(),
                    self.category(),
                    module,
                    t.line,
                    msg,
                    "Use absolute paths or tmp_path fixture instead",
                    Some(t.name.clone()),
                );
                push_violation(&mut out, v);
            }
            i = i + 1;
        }
        proof {
            lemma_flat_map_all(module.test_functions@, f);
        }
        out
    }
}

/// Each test that reads or writes files without a temporary-path fixture (a mystery guest).
pub struct MysteryGuestRule;

/// What `MysteryGuestRule` reports for the test `t` of `m`.
pub open spec fn mystery_guest_finding(m: ParsedModule, t: TestFunction) -> Seq<ViolationView> {
    if t.uses_file_io && !has_tmp_fixture(t.fixture_deps@) {
        seq![finding(
            "PYTEST-FLK-005"@,
            "MysteryGuestRule"@,
            Severity::Warning,
            Category::Flakiness,
            m.file_path@,
            t.line,
            "Test '"@ + t.name@ + "' may be a Mystery Guest — uses file I/O without temp fixtures"@,
            "Use tmp_path fixture and make test data explicit"@,
            Some(t.name@),
        )]
    } else {
        Seq::empty()
    }
}

/// What `MysteryGuestRule` reports for `m`.
pub open spec fn mystery_guest_findings(m: ParsedModule) -> Seq<ViolationView> {
    flat_map(m.test_functions@, |t: TestFunction| mystery_guest_finding(m, t))
}

impl Rule for MysteryGuestRule {
    open spec fn rule_id(&self) -> Seq<char> {
        "PYTEST-FLK-005"@
    }

    open spec fn rule_name(&self) -> Seq<char> {
        "MysteryGuestRule"@
    }

    open spec fn default_severity(&self) -> Severity {
        Severity::Warning
    }

    open spec fn rule_category(&self) -> Category {
        Category::Flakiness
    }

    fn id(&self) -> (r: &'static str) {
        "PYTEST-FLK-005"
    }

    fn name(&self) -> (r: &'static str) {
        "MysteryGuestRule"
    }

    fn severity(&self) -> (r: Severity) {
        Severity::Warning
    }

    fn category(&self) -> (r: Category) {
        Category::Flakiness
    }

    /// Reports each test that reads or writes files without a temporary-path fixture (a mystery guest).
    fn check(&self, module: &ParsedModule, _all_modules: &[ParsedModule], _ctx: &RuleContext) -> (r: Vec<Violation>)
        ensures
            views(r@) == mystery_guest_findings(*module),
    {
        let ghost f = |t: TestFunction| mystery_guest_finding(*module, t);
        let mut out: Vec<Violation> = Vec::new();
        let mut i: usize = 0;
        while i < module.test_functions.len()
            invariant
                i <= module.test_functions@.len(),
                f == (|t: TestFunction| mystery_guest_finding(*module, t)),
                views(out@) == flat_map(module.test_functions@.take(i as int), f),
            decreases module.test_functions.len() - i,
        {
            let t = &module.test_functions[i];
            proof {
                lemma_flat_map_step(module.test_functions@, f, i as int);
            }
            let has_tmp = crate::rules::has_tmp_fixture_exec(&t.fixture_deps);
            if t.uses_file_io && !has_tmp {
                let msg = cat3("Test '", t.name.as_str(), "' may be a Mystery Guest — uses file I/O without temp fixtures");
                let v = report(
                    self.id(),
                    self.name(),
                    self.severity(),
                    self.category(),
                    module,
                    t.line,
                    msg,
                    "Use tmp_path fixture and make test data explicit",
                    Some(t.name.clone()),
                );
                push_violation(&mut out, v);
            }
            i = i + 1;
        }
        proof {
            lemma_flat_map_all(module.test_functions@, f);
        }
        out
    }
}

/// In a file that imports `socket`, each test that uses the network.
pub struct SocketWithoutBindTimeoutRule;

/// What `SocketWithoutBindTimeoutRule` reports for the test `t` of `m`.
pub open spec fn socket_timeout_finding(m: ParsedModule, t: TestFunction) -> Seq<ViolationView> {
    if t.uses_network {
        seq![finding(
            "PYTEST-FLK-010"@,
            "SocketWithoutBindTimeoutRule"@,
            Severity::Warning,
            Category::Flakiness,
            m.file_path@,
            t.line,
            "Test '"@ + t.name@ + "' uses socket without proper bind and timeout setup"@,
            "Add socket.settimeout() or use timeout parameter in socket.socket()"@,
            Some(t.name@),
        )]
    } else {
        Seq::empty()
    }
}

/// What `SocketWithoutBindTimeoutRule` reports for `m`.
pub open spec fn socket_timeout_findings(m: ParsedModule) -> Seq<ViolationView> {
    if !(imports_contain(m.imports@, "socket"@)) {
        Seq::empty()
    } else {
        flat_map(m.test_functions@, |t: TestFunction| socket_timeout_finding(m, t))
    }
}

impl Rule for SocketWithoutBindTimeoutRule {
    open spec fn rule_id(&self) -> Seq<char> {
        "PYTEST-FLK-010"@
    }

    open spec fn rule_name(&self) -> Seq<char> {
        "SocketWithoutBindTimeoutRule"@
    }

    open spec fn default_severity(&self) -> Severity {
        Severity::Warning
    }

    open spec fn rule_category(&self) -> Category {
        Category::Flakiness
    }

    fn id(&self) -> (r: &'static str) {
        "PYTEST-FLK-010"
    }

    fn name(&self) -> (r: &'static str) {
        "SocketWithoutBindTimeoutRule"
    }

    fn severity(&self) -> (r: Severity) {
        Severity::Warning
    }

    fn category(&self) -> (r: Category) {
        Category::Flakiness
    }

    /// Reports in a file that imports `socket`, each test that uses the network.
    fn check(&self, module: &ParsedModule, _all_modules: &[ParsedModule], _ctx: &RuleContext) -> (r: Vec<Violation>)
        ensures
            views(r@) == socket_timeout_findings(*module),
    {
        if !(crate::rules::imports_contain_exec(&module.imports, "socket")) {
            return Vec::new();
        }
        let ghost f = |t: TestFunction| socket_timeout_finding(*module, t);
        let mut out: Vec<Violation> = Vec::new();
        let mut i: usize = 0;
        while i < module.test_functions.len()
            invariant
                i <= module.test_functions@.len(),
                f == (|t: TestFunction| socket_timeout_finding(*module, t)),
                views(out@) == flat_map(module.test_functions@.take(i as int), f),
            decreases module.test_functions.len() - i,
        {
            let t = &module.test_functions[i];
            proof {
                lemma_flat_map_step(module.test_functions@, f, i as int);
            }
            if t.uses_network {
                let msg = cat3("Test '", t.name.as_str(), "' uses socket without proper bind and timeout setup");
                let v = report(
                    self.id(),
                    self.name(),
                    self.severity(),
                    self.category(),
                    module,
                    t.line,
                    msg,
                    "Add socket.settimeout() or use timeout parameter in socket.socket()",
                    Some(t.name.clone()),
                );
                push_violation(&mut out, v);
            }
            i = i + 1;
        }
        proof {
            lemma_flat_map_all(module.test_functions@, f);
        }
        out
    }
}

/// In a file that imports `datetime`, each test that makes assertions.
pub struct DatetimeInAssertionRule;

/// What `DatetimeInAssertionRule` reports for the test `t` of `m`.
pub open spec fn datetime_assertion_finding(m: ParsedModule, t: TestFunction) -> Seq<ViolationView> {
    if t.has_assertions {
        seq![finding(
            "PYTEST-FLK-011"@,
            "DatetimeInAssertionRule"@,
            Severity::Warning,
            Category::Flakiness,
            m.file_path@,
            t.line,
            "Test '"@ + t.name@ + "' uses datetime functions near assertions — tests relying on real time are flaky"@,
            "Use freezegun or time mocking to make assertions deterministic"@,
            Some(t.name@),
        )]
    } else {
        Seq::empty()
    }
}

/// What `DatetimeInAssertionRule` reports for `m`.
pub open spec fn datetime_assertion_findings(m: ParsedModule) -> Seq<ViolationView> {
    if !(imports_contain(m.imports@, "datetime"@)) {
        Seq::empty()
    } else {
        flat_map(m.test_functions@, |t: TestFunction| datetime_assertion_finding(m, t))
    }
}

impl Rule for DatetimeInAssertionRule {
    open spec fn rule_id(&self) -> Seq<char> {
        "PYTEST-FLK-011"@
    }

    open spec fn rule_name(&self) -> Seq<char> {
        "DatetimeInAssertionRule"@
    }

    open spec fn default_severity(&self) -> Severity {
        Severity::Warning
    }

    open spec fn rule_category(&self) -> Category {
        Category::Flakiness
    }

    fn id(&self) -> (r: &'static str) {
        "PYTEST-FLK-011"
    }

    fn name(&self) -> (r: &'static str) {
        "DatetimeInAssertionRule"
    }

    fn severity(&self) -> (r: Severity) {
        Severity::Warning
    }

    fn category(&self) -> (r: Category) {
        Category::Flakiness
    }

    /// Reports in a file that imports `datetime`, each test that makes assertions.
    fn check(&self, module: &ParsedModule, _all_modules: &[ParsedModule], _ctx: &RuleContext) -> (r: Vec<Violation>)
        ensures
            views(r@) == datetime_assertion_findings(*module),
    {
        if !(crate::rules::imports_contain_exec(&module.imports, "datetime")) {
            return Vec::new();
        }
        let ghost f = |t: TestFunction| datetime_assertion_finding(*module, t);
        let mut out: Vec<Violation> = Vec::new();
        let mut i: usize = 0;
        while i < module.test_functions.len()
            invariant
                i <= module.test_functions@.len(),
                f == (|t: TestFunction| datetime_assertion_finding(*module, t)),
                views(out@) == flat_map(module.test_functions@.take(i as int), f),
            decreases module.test_functions.len() - i,
        {
            let t = &module.test_functions[i];
            proof {
                lemma_flat_map_step(module.test_functions@, f, i as int);
            }
            if t.has_assertions {
                let msg = cat3("Test '", t.name.as_str(), "' uses datetime functions near assertions — tests relying on real time are flaky");
                let v = report(
                    self.id(),
                    self.name(),
                    self.severity(),
                    self.category(),
                    module,
                    t.line,
                    msg,
                    "Use freezegun or time mocking to make assertions deterministic",
                    Some(t.name.clone()),
                );
                push_violation(&mut out, v);
            }
            i = i + 1;
        }
        proof {
            lemma_flat_map_all(module.test_functions@, f);
        }
        out
    }
}

/// The modules whose import marks a file as using the network.
pub open spec fn network_modules() -> Seq<Seq<char>> {
    seq![
        "requests"@,
        "socket"@,
        "httpx"@,
        "aiohttp"@,
        "urllib"@,
        "urllib3"@,
        "pycurl"@,
        "tornado.httpclient"@,
        "grpc"@,
        "aiogrpc"@,
    ]
}

/// The libraries whose import marks a file as mocking its network layer.
pub open spec fn mock_layer_libs() -> Seq<Seq<char>> {
    seq![
        "pytest_httpx"@,
        "respx"@,
        "aioresponses"@,
        "responses"@,
        "requests_mock"@,
        "pytest_mock"@,
        "vcrpy"@,
        "betamax"@,
        "httmock"@,
    ]
}

fn network_module_names() -> (r: Vec<&'static str>)
    ensures
        r@.map_values(|s: &'static str| s@) == network_modules(),
{
    let r = vec![
        "requests",
        "socket",
        "httpx",
        "aiohttp",
        "urllib",
        "urllib3",
        "pycurl",
        "tornado.httpclient",
        "grpc",
        "aiogrpc",
    ];
    assert(r@.map_values(|s: &'static str| s@) =~= network_modules());
    r
}

fn mock_layer_lib_names() -> (r: Vec<&'static str>)
    ensures
        r@.map_values(|s: &'static str| s@) == mock_layer_libs(),
{
    let r = vec![
        "pytest_httpx",
        "respx",
        "aioresponses",
        "responses",
        "requests_mock",
        "pytest_mock",
        "vcrpy",
        "betamax",
        "httmock",
    ];
    assert(r@.map_values(|s: &'static str| s@) =~= mock_layer_libs());
    r
}

/// Reports a file that imports a network library without importing a
/// library that mocks the network layer.
pub struct NetworkImportRule;

/// What `NetworkImportRule` reports for `m`.
pub open spec fn network_import_findings(m: ParsedModule) -> Seq<ViolationView> {
    if any_text_contains(m.imports@, network_modules()) && !any_text_contains(m.imports@, mock_layer_libs()) {
        seq![finding(
            "PYTEST-FLK-003"@,
            "NetworkImportRule"@,
            Severity::Warning,
            Category::Flakiness,
            m.file_path@,
            1,
            "File imports network libraries which may cause flaky tests"@,
            "Mock network calls or use pytest-localserver"@,
            None,
        )]
    } else {
        Seq::empty()
    }
}

impl Rule for NetworkImportRule {
    open spec fn rule_id(&self) -> Seq<char> {
        "PYTEST-FLK-003"@
    }

    open spec fn rule_name(&self) -> Seq<char> {
        "NetworkImportRule"@
    }

    open spec fn default_severity(&self) -> Severity {
        Severity::Warning
    }

    open spec fn rule_category(&self) -> Category {
        Category::Flakiness
    }

    fn id(&self) -> (r: &'static str) {
        "PYTEST-FLK-003"
    }

    fn name(&self) -> (r: &'static str) {
        "NetworkImportRule"
    }

    fn severity(&self) -> (r: Severity) {
        Severity::Warning
    }

    fn category(&self) -> (r: Category) {
        Category::Flakiness
    }

    /// Reports the file at line 1 when it imports a network library and no
    /// network-mocking library.
    fn check(&self, module: &ParsedModule, _all_modules: &[ParsedModule], _ctx: &RuleContext) -> (r: Vec<Violation>)
        ensures
            views(r@) == network_import_findings(*module),
    {
        let has_network = crate::rules::any_text_contains_exec(&module.imports, &network_module_names());
        let has_mock_layer = crate::rules::any_text_contains_exec(&module.imports, &mock_layer_lib_names());
        let mut out: Vec<Violation> = Vec::new();
        if has_network && !has_mock_layer {
            let v = report(
                self.id(),
                self.name(),
                self.severity(),
                self.category(),
                module,
                1,
                String::from_str("File imports network libraries which may cause flaky tests"),
                "Mock network calls or use pytest-localserver",
                None,
            );
            push_violation(&mut out, v);
        }
        out
    }
}

/// Reports each mutation, by a test, of a session-scoped fixture that
/// returns mutable state.
pub struct XdistSharedStateRule;

/// What `XdistSharedStateRule` reports for the mutated fixture `d` of test `t`.
pub open spec fn shared_state_dep_finding(m: ParsedModule, ctx: RuleContext, t: TestFunction, d: String) -> Seq<ViolationView> {
    if texts_contain(ctx.session_mutable_fixtures@, d@) {
        seq![finding(
            "PYTEST-XDIST-001"@,
            "XdistSharedStateRule"@,
            Severity::Warning,
            Category::Flakiness,
            m.file_path@,
            t.line,
            "Session-scoped fixture '"@ + d@ + "' returns mutable state that is modified by test '"@
                + t.name@ + "' — unsafe for xdist"@,
            "Use function scope or return immutable values"@,
            Some(t.name@),
        )]
    } else {
        Seq::empty()
    }
}

/// What `XdistSharedStateRule` reports for the test `t`.
pub open spec fn shared_state_finding(m: ParsedModule, ctx: RuleContext, t: TestFunction) -> Seq<ViolationView> {
    flat_map(t.mutates_fixture_deps@, |d: String| shared_state_dep_finding(m, ctx, t, d))
}

/// What `XdistSharedStateRule` reports for `m`.
pub open spec fn shared_state_findings(m: ParsedModule, ctx: RuleContext) -> Seq<ViolationView> {
    if ctx.session_mutable_fixtures@.len() == 0 {
        Seq::empty()
    } else {
        flat_map(m.test_functions@, |t: TestFunction| shared_state_finding(m, ctx, t))
    }
}

impl Rule for XdistSharedStateRule {
    open spec fn rule_id(&self) -> Seq<char> {
        "PYTEST-XDIST-001"@
    }

    open spec fn rule_name(&self) -> Seq<char> {
        "XdistSharedStateRule"@
    }

    open spec fn default_severity(&self) -> Severity {
        Severity::Warning
    }

    open spec fn rule_category(&self) -> Category {
        Category::Flakiness
    }

    fn id(&self) -> (r: &'static str) {
        "PYTEST-XDIST-001"
    }

    fn name(&self) -> (r: &'static str) {
        "XdistSharedStateRule"
    }

    fn severity(&self) -> (r: Severity) {
        Severity::Warning
    }

    fn category(&self) -> (r: Category) {
        Category::Flakiness
    }

    /// Reports, for each test and each fixture it mutates, the fixtures that
    /// are session-scoped and return mutable state.
    fn check(&self, module: &ParsedModule, _all_modules: &[ParsedModule], ctx: &RuleContext) -> (r: Vec<Violation>)
        ensures
            views(r@) == shared_state_findings(*module, *ctx),
    {
        let mut out: Vec<Violation> = Vec::new();
        if ctx.session_mutable_fixtures.len() == 0 {
            return out;
        }
        let ghost f = |t: TestFunction| shared_state_finding(*module, *ctx, t);
        let mut i: usize = 0;
        while i < module.test_functions.len()
            invariant
                i <= module.test_functions@.len(),
                f == (|t: TestFunction| shared_state_finding(*module, *ctx, t)),
                views(out@) == flat_map(module.test_functions@.take(i as int), f),
            decreases module.test_functions.len() - i,
        {
            let t = &module.test_functions[i];
            proof {
                lemma_flat_map_step(module.test_functions@, f, i as int);
            }
            let ghost g = |d: String| shared_state_dep_finding(*module, *ctx, *t, d);
            let ghost before = views(out@);
            let mut j: usize = 0;
            while j < t.mutates_fixture_deps.len()
                invariant
                    j <= t.mutates_fixture_deps@.len(),
                    g == (|d: String| shared_state_dep_finding(*module, *ctx, *t, d)),
                    views(out@) == before + flat_map(t.mutates_fixture_deps@.take(j as int), g),
                decreases t.mutates_fixture_deps.len() - j,
            {
                let d = &t.mutates_fixture_deps[j];
                proof {
                    lemma_flat_map_step(t.mutates_fixture_deps@, g, j as int);
                }
                if crate::rules::texts_contain_exec(&ctx.session_mutable_fixtures, d.as_str()) {
                    let mut msg = String::from_str("Session-scoped fixture '");
                    msg.append(d.as_str());
                    msg.append("' returns mutable state that is modified by test '");
                    msg.append(t.name.as_str());
                    msg.append("' — unsafe for xdist");
                    let v = report(
                        self.id(),
                        self.name(),
                        self.severity(),
                        self.category(),
                        module,
                        t.line,
                        msg,
                        "Use function scope or return immutable values",
                        Some(t.name.clone()),
                    );
                    push_violation(&mut out, v);
                }
                j = j + 1;
            }
            proof {
                lemma_flat_map_all(t.mutates_fixture_deps@, g);
            }
            i = i + 1;
        }
        proof {
            lemma_flat_map_all(module.test_functions@, f);
        }
        out
    }
}

/// Reports each session-scoped fixture that does file I/O.
pub struct XdistFixtureIoRule;

/// What `XdistFixtureIoRule` reports for the fixture `fx` of `m`.
pub open spec fn fixture_io_finding(m: ParsedModule, fx: Fixture) -> Seq<ViolationView> {
    if fx.scope == FixtureScope::Session && fx.uses_file_io {
        seq![finding(
            "PYTEST-XDIST-002"@,
            "XdistFixtureIoRule"@,
            Severity::Warning,
            Category::Flakiness,
            m.file_path@,
            fx.line,
            "Session-scoped fixture '"@ + fx.name@ + "' uses file I/O — may conflict with xdist workers"@,
            "Use tmp_path_factory or make I/O paths unique per worker"@,
            None,
        )]
    } else {
        Seq::empty()
    }
}

/// What `XdistFixtureIoRule` reports for `m`.
pub open spec fn fixture_io_findings(m: ParsedModule) -> Seq<ViolationView> {
    flat_map(m.fixtures@, |fx: Fixture| fixture_io_finding(m, fx))
}

impl Rule for XdistFixtureIoRule {
    open spec fn rule_id(&self) -> Seq<char> {
        "PYTEST-XDIST-002"@
    }

    open spec fn rule_name(&self) -> Seq<char> {
        "XdistFixtureIoRule"@
    }

    open spec fn default_severity(&self) -> Severity {
        Severity::Warning
    }

    open spec fn rule_category(&self) -> Category {
        Category::Flakiness
    }

    fn id(&self) -> (r: &'static str) {
        "PYTEST-XDIST-002"
    }

    fn name(&self) -> (r: &'static str) {
        "XdistFixtureIoRule"
    }

    fn severity(&self) -> (r: Severity) {
        Severity::Warning
    }

    fn category(&self) -> (r: Category) {
        Category::Flakiness
    }

    /// Reports each session-scoped fixture of the module that does file I/O.
    fn check(&self, module: &ParsedModule, _all_modules: &[ParsedModule], _ctx: &RuleContext) -> (r: Vec<Violation>)
        ensures
            views(r@) == fixture_io_findings(*module),
    {
        let ghost f = |fx: Fixture| fixture_io_finding(*module, fx);
        let mut out: Vec<Violation> = Vec::new();
        let mut i: usize = 0;
        while i < module.fixtures.len()
            invariant
                i <= module.fixtures@.len(),
                f == (|fx: Fixture| fixture_io_finding(*module, fx)),
                views(out@) == flat_map(module.fixtures@.take(i as int), f),
            decreases module.fixtures.len() - i,
        {
            let fx = &module.fixtures[i];
            proof {
                lemma_flat_map_step(module.fixtures@, f, i as int);
            }
            if fx.scope == FixtureScope::Session && fx.uses_file_io {
                let msg = cat3("Session-scoped fixture '", fx.name.as_str(), "' uses file I/O — may conflict with xdist workers");
                let v = report(
                    self.id(),
                    self.name(),
                    self.severity(),
                    self.category(),
                    module,
                    fx.line,
                    msg,
                    "Use tmp_path_factory or make I/O paths unique per worker",
                    None,
                );
                push_violation(&mut out, v);
            }
            i = i + 1;
        }
        proof {
            lemma_flat_map_all(module.fixtures@, f);
        }
        out
    }
}

/// The text on disk of the file `path`, as the first record for it holds
/// it (none where it could not be read or was not read).
pub open spec fn disk_text_in(ds: Seq<DiskText>, path: Seq<char>, n: int) -> Option<Option<Seq<char>>>
    decreases n,
{
    if n <= 0 {
        None
    } else {
        match disk_text_in(ds, path, n - 1) {
            Some(x) => Some(x),
            None => if ds[n - 1].path@ == path {
                Some(crate::models::opt_text(ds[n - 1].text))
            } else {
                None
            },
        }
    }
}

/// The text on disk of the file `path`, if it was read.
pub open spec fn disk_text_for(ctx: RuleContext, path: Seq<char>) -> Option<Seq<char>> {
    match disk_text_in(ctx.disk_texts@, path, ctx.disk_texts@.len() as int) {
        Some(x) => x,
        None => None,
    }
}

proof fn lemma_disk_text_stable(ds: Seq<DiskText>, path: Seq<char>, a: int, b: int)
    requires
        0 <= a <= b,
        disk_text_in(ds, path, a) is Some,
    ensures
        disk_text_in(ds, path, b) == disk_text_in(ds, path, a),
    decreases b - a,
{
    if a < b {
        lemma_disk_text_stable(ds, path, a, b - 1);
    }
}

/// The text on disk of the file `path`, if it was read.
pub fn disk_text_exec<'a>(ctx: &'a RuleContext, path: &str) -> (r: Option<&'a String>)
    ensures
        (match r {
            Some(s) => Some(s@),
            None => None::<Seq<char>>,
        }) == disk_text_for(*ctx, path@),
{
    let ds = &ctx.disk_texts;
    let mut k: usize = 0;
    while k < ds.len()
        invariant
            ds@ == ctx.disk_texts@,
            k <= ds@.len(),
            disk_text_in(ds@, path@, k as int) is None,
        decreases ds.len() - k,
    {
        if str_eq(ds[k].path.as_str(), path) {
            proof {
                lemma_disk_text_stable(ds@, path@, k + 1, ds@.len() as int);
            }
            return match &ds[k].text {
                Some(s) => Some(s),
                None => None,
            };
        }
        k = k + 1;
    }
    None
}

/// What a test's reported lines are: its own line when its file's text is
/// not at hand, else the call-site lines of the tree that tree-sitter's
/// Python grammar builds for that text.
pub open spec fn admissible_lines(ctx: RuleContext, t: TestFunction, ls: Seq<usize>, subprocess: bool) -> bool {
    match disk_text_for(ctx, t.file_path@) {
        None => ls == seq![t.line],
        Some(text) => exists|tr: SyntaxTree| python_tree(tr, text) && ls == #[trigger] site_lines(tr, t.line, subprocess),
    }
}

/// The one-line list `[x]`.
fn single_line(x: usize) -> (r: Vec<usize>)
    ensures
        r@ == seq![x],
{
    let mut v: Vec<usize> = Vec::new();
    v.push(x);
    assert(v@ =~= seq![x]);
    v
}

/// The lines at which to report the call sites of test `t`: found by
/// parsing the text of its file as it is on disk.
fn test_site_lines(ctx: &RuleContext, t: &TestFunction, subprocess: bool) -> (r: Vec<usize>)
    ensures
        admissible_lines(*ctx, *t, r@, subprocess),
{
    let src = match disk_text_exec(ctx, t.file_path.as_str()) {
        Some(s) => s,
        None => {
            return single_line(t.line);
        },
    };
    let mut parser = match PythonParser::new() {
        Ok(p) => p,
        Err(_) => {
            return single_line(t.line);
        },
    };
    match parser.syntax_tree(src.as_str()) {
        Some(tree) => {
            let r = site_lines_exec(&tree, t.line, subprocess);
            assert(python_tree(tree, src@) && r@ == site_lines(tree, t.line, subprocess));
            r
        },
        None => single_line(t.line),
    }
}

/// The lines of the random calls of test `t`, found in the tree of its
/// file's text on disk (its own line where that text is not at hand, or
/// where it makes none).
pub fn collect_random_call_lines(ctx: &RuleContext, t: &TestFunction) -> (r: Vec<usize>)
    ensures
        admissible_lines(*ctx, *t, r@, false),
{
    test_site_lines(ctx, t, false)
}

/// The lines of the process calls without a timeout of test `t`, found in
/// the tree of its file's text on disk (its own line where that text is not
/// at hand, or where it makes none).
pub fn collect_unguarded_subprocess_calls(ctx: &RuleContext, t: &TestFunction) -> (r: Vec<usize>)
    ensures
        admissible_lines(*ctx, *t, r@, true),
{
    test_site_lines(ctx, t, true)
}

/// The violations at the given lines.
pub open spec fn line_findings(
    id: Seq<char>,
    name: Seq<char>,
    m: ParsedModule,
    t: TestFunction,
    lines: Seq<usize>,
    message: Seq<char>,
    suggestion: Seq<char>,
) -> Seq<ViolationView> {
    lines.map_values(
        |l: usize| finding(id, name, Severity::Warning, Category::Flakiness, m.file_path@, l, message, suggestion, Some(t.name@)),
    )
}

/// What `RandomWithoutSeedRule` reports for the first `n` tests of `m`,
/// given the lines `ls` of each test's random calls.
pub open spec fn random_site_findings(m: ParsedModule, ls: Seq<Seq<usize>>, n: int) -> Seq<ViolationView>
    decreases n,
{
    if n <= 0 {
        Seq::empty()
    } else {
        let t = m.test_functions@[n - 1];
        let here = if t.uses_random && !t.has_random_seed {
            line_findings(
                "PYTEST-FLK-008"@,
                "RandomWithoutSeedRule"@,
                m,
                t,
                ls[n - 1],
                "Test '"@ + t.name@ + "' uses random without fixed seed — causes flaky tests"@,
                "Call random.seed() at the start of the test or use a fixture"@,
            )
        } else {
            Seq::empty()
        };
        random_site_findings(m, ls, n - 1) + here
    }
}

/// What `SubprocessWithoutTimeoutRule` reports for the first `n` tests of
/// `m`, given the lines `ls` of each test's unguarded process calls.
pub open spec fn subprocess_site_findings(m: ParsedModule, ls: Seq<Seq<usize>>, n: int) -> Seq<ViolationView>
    decreases n,
{
    if n <= 0 {
        Seq::empty()
    } else {
        let t = m.test_functions@[n - 1];
        let here = if t.uses_subprocess {
            line_findings(
                "PYTEST-FLK-009"@,
                "SubprocessWithoutTimeoutRule"@,
                m,
                t,
                ls[n - 1],
                "Test '"@ + t.name@ + "' uses subprocess without timeout — may hang indefinitely"@,
                "Add timeout parameter to subprocess calls"@,
            )
        } else {
            Seq::empty()
        };
        subprocess_site_findings(m, ls, n - 1) + here
    }
}

/// The line lists as sequences.
pub open spec fn line_lists(v: Seq<Vec<usize>>) -> Seq<Seq<usize>> {
    v.map_values(|l: Vec<usize>| l@)
}

/// Pushes one violation per line.
fn push_line_findings(
    out: &mut Vec<Violation>,
    id: &'static str,
    name: &'static str,
    module: &ParsedModule,
    t: &TestFunction,
    lines: &Vec<usize>,
    message: &String,
    suggestion: &'static str,
)
    ensures
        views(final(out)@) == views(old(out)@) + line_findings(id@, name@, *module, *t, lines@, message@, suggestion@),
{
    let ghost before = views(out@);
    let mut k: usize = 0;
    while k < lines.len()
        invariant
            k <= lines@.len(),
            views(out@) == before + line_findings(id@, name@, *module, *t, lines@.take(k as int), message@, suggestion@),
        decreases lines.len() - k,
    {
        let v = report(
            id,
            name,
            Severity::Warning,
            Category::Flakiness,
            module,
            lines[k],
            message.clone(),
            suggestion,
            Some(t.name.clone()),
        );
        push_violation(out, v);
        assert(lines@.take(k + 1) =~= lines@.take(k as int).push(lines@[k as int]));
        assert(line_findings(id@, name@, *module, *t, lines@.take(k + 1), message@, suggestion@) =~= line_findings(
            id@,
            name@,
            *module,
            *t,
            lines@.take(k as int),
            message@,
            suggestion@,
        ).push(v@));
        k = k + 1;
    }
    assert(lines@.take(lines@.len() as int) =~= lines@);
}

/// The random-call violations of `module`, given the lines of each test's
/// random calls.
pub fn random_site_violations(module: &ParsedModule, lines: &Vec<Vec<usize>>) -> (r: Vec<Violation>)
    requires
        lines@.len() == module.test_functions@.len(),
    ensures
        views(r@) == random_site_findings(*module, line_lists(lines@), lines@.len() as int),
{
    let mut out: Vec<Violation> = Vec::new();
    let mut i: usize = 0;
    while i < module.test_functions.len()
        invariant
            i <= module.test_functions@.len(),
            lines@.len() == module.test_functions@.len(),
            views(out@) == random_site_findings(*module, line_lists(lines@), i as int),
        decreases module.test_functions.len() - i,
    {
        let t = &module.test_functions[i];
        assert(line_lists(lines@)[i as int] == lines@[i as int]@);
        if t.uses_random && !t.has_random_seed {
            let msg = cat3("Test '", t.name.as_str(), "' uses random without fixed seed — causes flaky tests");
            push_line_findings(
                &mut out,
                "PYTEST-FLK-008",
                "RandomWithoutSeedRule",
                module,
                t,
                &lines[i],
                &msg,
                "Call random.seed() at the start of the test or use a fixture",
            );
        } else {
            assert(views(out@) =~= views(out@) + Seq::<ViolationView>::empty());
        }
        i = i + 1;
    }
    out
}

/// The unguarded-process violations of `module`, given the lines of each
/// test's process calls without a timeout.
pub fn subprocess_site_violations(module: &ParsedModule, lines: &Vec<Vec<usize>>) -> (r: Vec<Violation>)
    requires
        lines@.len() == module.test_functions@.len(),
    ensures
        views(r@) == subprocess_site_findings(*module, line_lists(lines@), lines@.len() as int),
{
    let mut out: Vec<Violation> = Vec::new();
    let mut i: usize = 0;
    while i < module.test_functions.len()
        invariant
            i <= module.test_functions@.len(),
            lines@.len() == module.test_functions@.len(),
            views(out@) == subprocess_site_findings(*module, line_lists(lines@), i as int),
        decreases module.test_functions.len() - i,
    {
        let t = &module.test_functions[i];
        assert(line_lists(lines@)[i as int] == lines@[i as int]@);
        if t.uses_subprocess {
            let msg = cat3("Test '", t.name.as_str(), "' uses subprocess without timeout — may hang indefinitely");
            push_line_findings(
                &mut out,
                "PYTEST-FLK-009",
                "SubprocessWithoutTimeoutRule",
                module,
                t,
                &lines[i],
                &msg,
                "Add timeout parameter to subprocess calls",
            );
        } else {
            assert(views(out@) =~= views(out@) + Seq::<ViolationView>::empty());
        }
        i = i + 1;
    }
    out
}

/// The site lines of each test of `module` that the rule examines (an empty
/// list for the others).
fn module_site_lines(module: &ParsedModule, ctx: &RuleContext, subprocess: bool) -> (r: Vec<Vec<usize>>)
    ensures
        r@.len() == module.test_functions@.len(),
        forall|k: int|
            0 <= k < r@.len() ==> (if subprocess {
                module.test_functions@[k].uses_subprocess
            } else {
                module.test_functions@[k].uses_random && !module.test_functions@[k].has_random_seed
            }) ==> admissible_lines(*ctx, module.test_functions@[k], #[trigger] r@[k]@, subprocess),
{
    let mut out: Vec<Vec<usize>> = Vec::new();
    let mut i: usize = 0;
    while i < module.test_functions.len()
        invariant
            i <= module.test_functions@.len(),
            out@.len() == i,
            forall|k: int|
                0 <= k < i ==> (if subprocess {
                    module.test_functions@[k].uses_subprocess
                } else {
                    module.test_functions@[k].uses_random && !module.test_functions@[k].has_random_seed
                }) ==> admissible_lines(*ctx, module.test_functions@[k], #[trigger] out@[k]@, subprocess),
        decreases module.test_functions.len() - i,
    {
        let t = &module.test_functions[i];
        let wanted = if subprocess {
            t.uses_subprocess
        } else {
            t.uses_random && !t.has_random_seed
        };
        if wanted {
            let lines = if subprocess {
                collect_unguarded_subprocess_calls(ctx, t)
            } else {
                collect_random_call_lines(ctx, t)
            };
            out.push(lines);
        } else {
            out.push(Vec::new());
        }
        i = i + 1;
    }
    out
}

/// Each random call of a test that uses `random` without seeding it.
pub struct RandomWithoutSeedRule;

impl Rule for RandomWithoutSeedRule {
    open spec fn rule_id(&self) -> Seq<char> {
        "PYTEST-FLK-008"@
    }

    open spec fn rule_name(&self) -> Seq<char> {
        "RandomWithoutSeedRule"@
    }

    open spec fn default_severity(&self) -> Severity {
        Severity::Warning
    }

    open spec fn rule_category(&self) -> Category {
        Category::Flakiness
    }

    fn id(&self) -> (r: &'static str) {
        "PYTEST-FLK-008"
    }

    fn name(&self) -> (r: &'static str) {
        "RandomWithoutSeedRule"
    }

    fn severity(&self) -> (r: Severity) {
        Severity::Warning
    }

    fn category(&self) -> (r: Category) {
        Category::Flakiness
    }

    /// Reports each random call of each test that uses `random` without
    /// calling `random.seed`, at the call's line (or at the test's line
    /// when its file cannot be read and parsed again).
    fn check(&self, module: &ParsedModule, _all_modules: &[ParsedModule], ctx: &RuleContext) -> (r: Vec<Violation>)
        ensures
            exists|ls: Seq<Seq<usize>>|
                ls.len() == module.test_functions@.len() && (forall|k: int|
                    0 <= k < ls.len() ==> module.test_functions@[k].uses_random && !module.test_functions@[k].has_random_seed
                        ==> admissible_lines(*ctx, module.test_functions@[k], #[trigger] ls[k], false)) && views(r@)
                    == random_site_findings(*module, ls, ls.len() as int),
    {
        let lines = module_site_lines(module, ctx, false);
        let r = random_site_violations(module, &lines);
        proof {
            let ls = line_lists(lines@);
            assert forall|k: int|
                0 <= k < ls.len() && module.test_functions@[k].uses_random && !module.test_functions@[k].has_random_seed
                    implies admissible_lines(*ctx, module.test_functions@[k], #[trigger] ls[k], false) by {
                assert(ls[k] == lines@[k]@);
            }
        }
        r
    }
}

/// Each process call without a timeout in a test that runs processes.
pub struct SubprocessWithoutTimeoutRule;

impl Rule for SubprocessWithoutTimeoutRule {
    open spec fn rule_id(&self) -> Seq<char> {
        "PYTEST-FLK-009"@
    }

    open spec fn rule_name(&self) -> Seq<char> {
        "SubprocessWithoutTimeoutRule"@
    }

    open spec fn default_severity(&self) -> Severity {
        Severity::Warning
    }

    open spec fn rule_category(&self) -> Category {
        Category::Flakiness
    }

    fn id(&self) -> (r: &'static str) {
        "PYTEST-FLK-009"
    }

    fn name(&self) -> (r: &'static str) {
        "SubprocessWithoutTimeoutRule"
    }

    fn severity(&self) -> (r: Severity) {
        Severity::Warning
    }

    fn category(&self) -> (r: Category) {
        Category::Flakiness
    }

    /// Reports each process call without a `timeout=` argument of each test
    /// that runs processes, at the call's line (or at the test's line when
    /// its file cannot be read and parsed again, or no such call is found).
    fn check(&self, module: &ParsedModule, _all_modules: &[ParsedModule], ctx: &RuleContext) -> (r: Vec<Violation>)
        ensures
            exists|ls: Seq<Seq<usize>>|
                ls.len() == module.test_functions@.len() && (forall|k: int|
                    0 <= k < ls.len() ==> module.test_functions@[k].uses_subprocess ==> admissible_lines(
                        *ctx,
                        module.test_functions@[k],
                        #[trigger] ls[k],
                        true,
                    )) && views(r@) == subprocess_site_findings(*module, ls, ls.len() as int),
    {
        let lines = module_site_lines(module, ctx, true);
        let r = subprocess_site_violations(module, &lines);
        proof {
            let ls = line_lists(lines@);
            assert forall|k: int|
                0 <= k < ls.len() && module.test_functions@[k].uses_subprocess implies admissible_lines(
                    *ctx,
                    module.test_functions@[k],
                    #[trigger] ls[k],
                    true,
                ) by {
                assert(ls[k] == lines@[k]@);
            }
        }
        r
    }
}

} // verus!
