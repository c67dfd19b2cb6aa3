//! Rules that find tests that are hard to maintain: logic in tests, magic
//! or missing assertions, mock-only verification, assertion roulette,
//! parametrize misuse, duplicated bodies and inline schemas.
use vstd::prelude::*;
use crate::grouping::{duplicate_values, group_by_key, group_views, grouped, lemma_grouped_bounded, sorted_duplicates};
use crate::models::{AssertionInfo, Category, ParsedModule, RuleContext, Severity, TestFunction, Violation, ViolationView, texts, views};
use crate::rules::{Rule, cat3, finding, flat_map, lemma_flat_map_all, lemma_flat_map_step, push_violation, report};
use crate::models::opt_text;
use crate::text::{
    chars_of, contains, contains_exec, decimal, ends_with, ends_with_exec, find, first_occurrence, join, join_exec,
    lines, lines_exec, lowercase, push_decimal, slice_chars, starts_with, starts_with_exec, str_eq,
    string_of_all, stable_hash, text_hash_of, trim, trim_exec, utf8_len, utf8_longer_than,
};

verus! {

/// Each test that contains conditional logic.
pub struct TestLogicRule;

/// What `TestLogicRule` reports for the test `t` of `m`.
pub open spec fn test_logic_finding(m: ParsedModule, t: TestFunction) -> Seq<ViolationView> {
    if t.has_conditional_logic {
        seq![finding(
            "PYTEST-MNT-001"@,
            "TestLogicRule"@,
            Severity::Warning,
            Category::Maintenance,
            m.file_path@,
            t.line,
            "Test '"@ + t.name@ + "' contains conditional logic (if statements)"@,
            "Split into separate tests or use parametrize"@,
            Some(t.name@),
        )]
    } else {
        Seq::empty()
    }
}

/// What `TestLogicRule` reports for `m`.
pub open spec fn test_logic_findings(m: ParsedModule) -> Seq<ViolationView> {
    flat_map(m.test_functions@, |t: TestFunction| test_logic_finding(m, t))
}

impl Rule for TestLogicRule {
    open spec fn rule_id(&self) -> Seq<char> {
        "PYTEST-MNT-001"@
    }

    open spec fn rule_name(&self) -> Seq<char> {
        "TestLogicRule"@
    }

    open spec fn default_severity(&self) -> Severity {
        Severity::Warning
    }

    open spec fn rule_category(&self) -> Category {
        Category::Maintenance
    }

    fn id(&self) -> (r: &'static str) {
        "PYTEST-MNT-001"
    }

    fn name(&self) -> (r: &'static str) {
        "TestLogicRule"
    }

    fn severity(&self) -> (r: Severity) {
        Severity::Warning
    }

    fn category(&self) -> (r: Category) {
        Category::Maintenance
    }

    /// Reports each test that contains conditional logic.
    fn check(&self, module: &ParsedModule, _all_modules: &[ParsedModule], _ctx: &RuleContext) -> (r: Vec<Violation>)
        ensures
            views(r@) == test_logic_findings(*module),
    {
        let ghost f = |t: TestFunction| test_logic_finding(*module, t);
        let mut out: Vec<Violation> = Vec::new();
        let mut i: usize = 0;
        while i < module.test_functions.len()
            invariant
                i <= module.test_functions@.len(),
                f == (|t: TestFunction| test_logic_finding(*module, t)),
                views(out@) == flat_map(module.test_functions@.take(i as int), f),
            decreases module.test_functions.len() - i,
        {
            let t = &module.test_functions[i];
            proof {
                lemma_flat_map_step(module.test_functions@, f, i as int);
            }
            if t.has_conditional_logic {
                let msg = cat3("Test '", t.name.as_str(), "' contains conditional logic (if statements)");
                let v = report(
                    self.id(),
                    self.name(),
                    self.severity(),
                    self.category(),
                    module,
                    t.line,
                    msg,
                    "Split into separate tests or use parametrize",
                    Some(t.name.clone()),
                );
                push_violation(&mut out, v);
            }
            i = i + 1;
        }
        proof {
            lemma_flat_map_all(module.test_functions@, f);
        }
        out
    }
}

/// Each test without assertions.
pub struct NoAssertionRule;

/// What `NoAssertionRule` reports for the test `t` of `m`.
pub open spec fn no_assertion_finding(m: ParsedModule, t: TestFunction) -> Seq<ViolationView> {
    if !t.has_assertions {
        seq![finding(
            "PYTEST-MNT-004"@,
            "NoAssertionRule"@,
            Severity::Error,
            Category::Maintenance,
            m.file_path@,
            t.line,
            "Test '"@ + t.name@ + "' has no assertions"@,
            "Add assertions to verify expected behavior"@,
            Some(t.name@),
        )]
    } else {
        Seq::empty()
    }
}

/// What `NoAssertionRule` reports for `m`.
pub open spec fn no_assertion_findings(m: ParsedModule) -> Seq<ViolationView> {
    flat_map(m.test_functions@, |t: TestFunction| no_assertion_finding(m, t))
}

impl Rule for NoAssertionRule {
    open spec fn rule_id(&self) -> Seq<char> {
        "PYTEST-MNT-004"@
    }

    open spec fn rule_name(&self) -> Seq<char> {
        "NoAssertionRule"@
    }

    open spec fn default_severity(&self) -> Severity {
        Severity::Error
    }

    open spec fn rule_category(&self) -> Category {
        Category::Maintenance
    }

    fn id(&self) -> (r: &'static str) {
        "PYTEST-MNT-004"
    }

    fn name(&self) -> (r: &'static str) {
        "NoAssertionRule"
    }

    fn severity(&self) -> (r: Severity) {
        Severity::Error
    }

    fn category(&self) -> (r: Category) {
        Category::Maintenance
    }

    /// Reports each test without assertions.
    fn check(&self, module: &ParsedModule, _all_modules: &[ParsedModule], _ctx: &RuleContext) -> (r: Vec<Violation>)
        ensures
            views(r@) == no_assertion_findings(*module),
    {
        let ghost f = |t: TestFunction| no_assertion_finding(*module, t);
        let mut out: Vec<Violation> = Vec::new();
        let mut i: usize = 0;
        while i < module.test_functions.len()
            invariant
                i <= module.test_functions@.len(),
                f == (|t: TestFunction| no_assertion_finding(*module, t)),
                views(out@) == flat_map(module.test_functions@.take(i as int), f),
            decreases module.test_functions.len() - i,
        {
            let t = &module.test_functions[i];
            proof {
                lemma_flat_map_step(module.test_functions@, f, i as int);
            }
            if !t.has_assertions {
                let msg = cat3("Test '", t.name.as_str(), "' has no assertions");
                let v = report(
                    self.id(),
                    self.name(),
                    self.severity(),
                    self.category(),
                    module,
                    t.line,
                    msg,
                    "Add assertions to verify expected behavior",
                    Some(t.name.clone()),
                );
                push_violation(&mut out, v);
            }
            i = i + 1;
        }
        proof {
            lemma_flat_map_all(module.test_functions@, f);
        }
        out
    }
}

/// Each test that is not parametrized and has more than three assertions.
pub struct AssertionRouletteRule;

/// What `AssertionRouletteRule` reports for the test `t` of `m`.
pub open spec fn assertion_roulette_finding(m: ParsedModule, t: TestFunction) -> Seq<ViolationView> {
    if t.assertion_count > 3 && !t.is_parametrized {
        seq![finding(
            "PYTEST-MNT-006"@,
            "AssertionRouletteRule"@,
            Severity::Warning,
            Category::Maintenance,
            m.file_path@,
            t.line,
            "Test '"@ + t.name@ + "' has "@ + decimal(t.assertion_count as nat) + " assertions (assertion roulette)"@,
            "Split into smaller, focused tests"@,
            Some(t.name@),
        )]
    } else {
        Seq::empty()
    }
}

/// What `AssertionRouletteRule` reports for `m`.
pub open spec fn assertion_roulette_findings(m: ParsedModule) -> Seq<ViolationView> {
    flat_map(m.test_functions@, |t: TestFunction| assertion_roulette_finding(m, t))
}

impl Rule for AssertionRouletteRule {
    open spec fn rule_id(&self) -> Seq<char> {
        "PYTEST-MNT-006"@
    }

    open spec fn rule_name(&self) -> Seq<char> {
        "AssertionRouletteRule"@
    }

    open spec fn default_severity(&self) -> Severity {
        Severity::Warning
    }

    open spec fn rule_category(&self) -> Category {
        Category::Maintenance
    }

    fn id(&self) -> (r: &'static str) {
        "PYTEST-MNT-006"
    }

    fn name(&self) -> (r: &'static str) {
        "AssertionRouletteRule"
    }

    fn severity(&self) -> (r: Severity) {
        Severity::Warning
    }

    fn category(&self) -> (r: Category) {
        Category::Maintenance
    }

    /// Reports each test that is not parametrized and has more than three assertions.
    fn check(&self, module: &ParsedModule, _all_modules: &[ParsedModule], _ctx: &RuleContext) -> (r: Vec<Violation>)
        ensures
            views(r@) == assertion_roulette_findings(*module),
    {
        let ghost f = |t: TestFunction| assertion_roulette_finding(*module, t);
        let mut out: Vec<Violation> = Vec::new();
        let mut i: usize = 0;
        while i < module.test_functions.len()
            invariant
                i <= module.test_functions@.len(),
                f == (|t: TestFunction| assertion_roulette_finding(*module, t)),
                views(out@) == flat_map(module.test_functions@.take(i as int), f),
            decreases module.test_functions.len() - i,
        {
            let t = &module.test_functions[i];
            proof {
                lemma_flat_map_step(module.test_functions@, f, i as int);
            }
            if t.assertion_count > 3 && !t.is_parametrized {
                let mut msg = String::from_str("Test '");
                msg.append(t.name.as_str());
                msg.append("' has ");
                push_decimal(&mut msg, t.assertion_count);
                msg.append(" assertions (assertion roulette)");
                let v = report(
                    self.id(),
                    self.name(),
                    self.severity(),
                    self.category(),
                    module,
                    t.line,
                    msg,
                    "Split into smaller, focused tests",
                    Some(t.name.clone()),
                );
                push_violation(&mut out, v);
            }
            i = i + 1;
        }
        proof {
            lemma_flat_map_all(module.test_functions@, f);
        }
        out
    }
}

/// Each test that uses try/except.
pub struct RawExceptionHandlingRule;

/// What `RawExceptionHandlingRule` reports for the test `t` of `m`.
pub open spec fn raw_exception_finding(m: ParsedModule, t: TestFunction) -> Seq<ViolationView> {
    if t.has_try_except {
        seq![finding(
            "PYTEST-MNT-007"@,
            "RawExceptionHandlingRule"@,
            Severity::Warning,
            Category::Maintenance,
            m.file_path@,
            t.line,
            "Test '"@ + t.name@ + "' uses try/except instead of pytest.raises"@,
            "Use pytest.raises() for exception testing"@,
            Some(t.name@),
        )]
    } else {
        Seq::empty()
    }
}

/// What `RawExceptionHandlingRule` reports for `m`.
pub open spec fn raw_exception_findings(m: ParsedModule) -> Seq<ViolationView> {
    flat_map(m.test_functions@, |t: TestFunction| raw_exception_finding(m, t))
}

impl Rule for RawExceptionHandlingRule {
    open spec fn rule_id(&self) -> Seq<char> {
        "PYTEST-MNT-007"@
    }

    open spec fn rule_name(&self) -> Seq<char> {
        "RawExceptionHandlingRule"@
    }

    open spec fn default_severity(&self) -> Severity {
        Severity::Warning
    }

    open spec fn rule_category(&self) -> Category {
        Category::Maintenance
    }

    fn id(&self) -> (r: &'static str) {
        "PYTEST-MNT-007"
    }

    fn name(&self) -> (r: &'static str) {
        "RawExceptionHandlingRule"
    }

    fn severity(&self) -> (r: Severity) {
        Severity::Warning
    }

    fn category(&self) -> (r: Category) {
        Category::Maintenance
    }

    /// Reports each test that uses try/except.
    fn check(&self, module: &ParsedModule, _all_modules: &[ParsedModule], _ctx: &RuleContext) -> (r: Vec<Violation>)
        ensures
            views(r@) == raw_exception_findings(*module),
    {
        let ghost f = |t: TestFunction| raw_exception_finding(*module, t);
        let mut out: Vec<Violation> = Vec::new();
        let mut i: usize = 0;
        while i < module.test_functions.len()
            invariant
                i <= module.test_functions@.len(),
                f == (|t: TestFunction| raw_exception_finding(*module, t)),
                views(out@) == flat_map(module.test_functions@.take(i as int), f),
            decreases module.test_functions.len() - i,
        {
            let t = &module.test_functions[i];
            proof {
                lemma_flat_map_step(module.test_functions@, f, i as int);
            }
            if t.has_try_except {
                let msg = cat3("Test '", t.name.as_str(), "' uses try/except instead of pytest.raises");
                let v = report(
                    self.id(),
                    self.name(),
                    self.severity(),
                    self.category(),
                    module,
                    t.line,
                    msg,
                    "Use pytest.raises() for exception testing",
                    Some(t.name.clone()),
                );
                push_violation(&mut out, v);
            }
            i = i + 1;
        }
        proof {
            lemma_flat_map_all(module.test_functions@, f);
        }
        out
    }
}

/// Each parametrized test with more than three cases, as a hint to use property-based testing.
pub struct PropertyTestHintRule;

/// What `PropertyTestHintRule` reports for the test `t` of `m`.
pub open spec fn property_hint_finding(m: ParsedModule, t: TestFunction) -> Seq<ViolationView> {
    if t.is_parametrized && t.parametrize_count is Some && t.parametrize_count->0 > 3 {
        seq![finding(
            "PYTEST-PBT-001"@,
            "PropertyTestHintRule"@,
            Severity::Info,
            Category::Enhancement,
            m.file_path@,
            t.line,
            "Test '"@ + t.name@ + "' has "@ + decimal(t.parametrize_count->0 as nat) + " parametrized cases — consider property-based testing"@,
            "Consider using hypothesis for property-based testing"@,
            Some(t.name@),
        )]
    } else {
        Seq::empty()
    }
}

/// What `PropertyTestHintRule` reports for `m`.
pub open spec fn property_hint_findings(m: ParsedModule) -> Seq<ViolationView> {
    flat_map(m.test_functions@, |t: TestFunction| property_hint_finding(m, t))
}

impl Rule for PropertyTestHintRule {
    open spec fn rule_id(&self) -> Seq<char> {
        "PYTEST-PBT-001"@
    }

    open spec fn rule_name(&self) -> Seq<char> {
        "PropertyTestHintRule"@
    }

    open spec fn default_severity(&self) -> Severity {
        Severity::Info
    }

    open spec fn rule_category(&self) -> Category {
        Category::Enhancement
    }

    fn id(&self) -> (r: &'static str) {
        "PYTEST-PBT-001"
    }

    fn name(&self) -> (r: &'static str) {
        "PropertyTestHintRule"
    }

    fn severity(&self) -> (r: Severity) {
        Severity::Info
    }

    fn category(&self) -> (r: Category) {
        Category::Enhancement
    }

    /// Reports each parametrized test with more than three cases, as a hint to use property-based testing.
    fn check(&self, module: &ParsedModule, _all_modules: &[ParsedModule], _ctx: &RuleContext) -> (r: Vec<Violation>)
        ensures
            views(r@) == property_hint_findings(*module),
    {
        let ghost f = |t: TestFunction| property_hint_finding(*module, t);
        let mut out: Vec<Violation> = Vec::new();
        let mut i: usize = 0;
        while i < module.test_functions.len()
            invariant
                i <= module.test_functions@.len(),
                f == (|t: TestFunction| property_hint_finding(*module, t)),
                views(out@) == flat_map(module.test_functions@.take(i as int), f),
            decreases module.test_functions.len() - i,
        {
            let t = &module.test_functions[i];
            proof {
                lemma_flat_map_step(module.test_functions@, f, i as int);
            }
            let count: usize = match t.parametrize_count {
                Some(c) => c,
                None => 0,
            };
            if t.is_parametrized && t.parametrize_count.is_some() && count > 3 {
                let mut msg = String::from_str("Test '");
                msg.append(t.name.as_str());
                msg.append("' has ");
                push_decimal(&mut msg, count);
                msg.append(" parametrized cases — consider property-based testing");
                let v = report(
                    self.id(),
                    self.name(),
                    self.severity(),
                    self.category(),
                    module,
                    t.line,
                    msg,
                    "Consider using hypothesis for property-based testing",
                    Some(t.name.clone()),
                );
                push_violation(&mut out, v);
            }
            i = i + 1;
        }
        proof {
            lemma_flat_map_all(module.test_functions@, f);
        }
        out
    }
}

/// Each parametrized test with at most one case.
pub struct ParametrizeEmptyRule;

/// What `ParametrizeEmptyRule` reports for the test `t` of `m`.
pub open spec fn parametrize_empty_finding(m: ParsedModule, t: TestFunction) -> Seq<ViolationView> {
    if t.is_parametrized && t.parametrize_count is Some && t.parametrize_count->0 <= 1 {
        seq![finding(
            "PYTEST-PARAM-001"@,
            "ParametrizeEmptyRule"@,
            Severity::Warning,
            Category::Maintenance,
            m.file_path@,
            t.line,
            "Test '"@ + t.name@ + "' is parametrized with only "@ + decimal(t.parametrize_count->0 as nat) + " case(s)"@,
            "Add more test cases or remove parametrize"@,
            Some(t.name@),
        )]
    } else {
        Seq::empty()
    }
}

/// What `ParametrizeEmptyRule` reports for `m`.
pub open spec fn parametrize_empty_findings(m: ParsedModule) -> Seq<ViolationView> {
    flat_map(m.test_functions@, |t: TestFunction| parametrize_empty_finding(m, t))
}

impl Rule for ParametrizeEmptyRule {
    open spec fn rule_id(&self) -> Seq<char> {
        "PYTEST-PARAM-001"@
    }

    open spec fn rule_name(&self) -> Seq<char> {
        "ParametrizeEmptyRule"@
    }

    open spec fn default_severity(&self) -> Severity {
        Severity::Warning
    }

    open spec fn rule_category(&self) -> Category {
        Category::Maintenance
    }

    fn id(&self) -> (r: &'static str) {
        "PYTEST-PARAM-001"
    }

    fn name(&self) -> (r: &'static str) {
        "ParametrizeEmptyRule"
    }

    fn severity(&self) -> (r: Severity) {
        Severity::Warning
    }

    fn category(&self) -> (r: Category) {
        Category::Maintenance
    }

    /// Reports each parametrized test with at most one case.
    fn check(&self, module: &ParsedModule, _all_modules: &[ParsedModule], _ctx: &RuleContext) -> (r: Vec<Violation>)
        ensures
            views(r@) == parametrize_empty_findings(*module),
    {
        let ghost f = |t: TestFunction| parametrize_empty_finding(*module, t);
        let mut out: Vec<Violation> = Vec::new();
        let mut i: usize = 0;
        while i < module.test_functions.len()
            invariant
                i <= module.test_functions@.len(),
                f == (|t: TestFunction| parametrize_empty_finding(*module, t)),
                views(out@) == flat_map(module.test_functions@.take(i as int), f),
            decreases module.test_functions.len() - i,
        {
            let t = &module.test_functions[i];
            proof {
                lemma_flat_map_step(module.test_functions@, f, i as int);
            }
            let count: usize = match t.parametrize_count {
                Some(c) => c,
                None => 0,
            };
            if t.is_parametrized && t.parametrize_count.is_some() && count <= 1 {
                let mut msg = String::from_str("Test '");
                msg.append(t.name.as_str());
                msg.append("' is parametrized with only ");
                push_decimal(&mut msg, count);
                msg.append(" case(s)");
                let v = report(
                    self.id(),
                    self.name(),
                    self.severity(),
                    self.category(),
                    module,
                    t.line,
                    msg,
                    "Add more test cases or remove parametrize",
                    Some(t.name.clone()),
                );
                push_violation(&mut out, v);
            }
            i = i + 1;
        }
        proof {
            lemma_flat_map_all(module.test_functions@, f);
        }
        out
    }
}

/// Each test with more than twenty parametrized cases.
pub struct ParametrizeExplosionRule;

/// What `ParametrizeExplosionRule` reports for the test `t` of `m`.
pub open spec fn parametrize_explosion_finding(m: ParsedModule, t: TestFunction) -> Seq<ViolationView> {
    if t.parametrize_count is Some && t.parametrize_count->0 > 20 {
        seq![finding(
            "PYTEST-PARAM-003"@,
            "ParametrizeExplosionRule"@,
            Severity::Warning,
            Category::Maintenance,
            m.file_path@,
            t.line,
            "Test '"@ + t.name@ + "' has "@ + decimal(t.parametrize_count->0 as nat) + " parametrized cases — combinatorial explosion"@,
            "Reduce test cases or use hypothesis"@,
            Some(t.name@),
        )]
    } else {
        Seq::empty()
    }
}

/// What `ParametrizeExplosionRule` reports for `m`.
pub open spec fn parametrize_explosion_findings(m: ParsedModule) -> Seq<ViolationView> {
    flat_map(m.test_functions@, |t: TestFunction| parametrize_explosion_finding(m, t))
}

impl Rule for ParametrizeExplosionRule {
    open spec fn rule_id(&self) -> Seq<char> {
        "PYTEST-PARAM-003"@
    }

    open spec fn rule_name(&self) -> Seq<char> {
        "ParametrizeExplosionRule"@
    }

    open spec fn default_severity(&self) -> Severity {
        Severity::Warning
    }

    open spec fn rule_category(&self) -> Category {
        Category::Maintenance
    }

    fn id(&self) -> (r: &'static str) {
        "PYTEST-PARAM-003"
    }

    fn name(&self) -> (r: &'static str) {
        "ParametrizeExplosionRule"
    }

    fn severity(&self) -> (r: Severity) {
        Severity::Warning
    }

    fn category(&self) -> (r: Category) {
        Category::Maintenance
    }

    /// Reports each test with more than twenty parametrized cases.
    fn check(&self, module: &ParsedModule, _all_modules: &[ParsedModule], _ctx: &RuleContext) -> (r: Vec<Violation>)
        ensures
            views(r@) == parametrize_explosion_findings(*module),
    {
        let ghost f = |t: TestFunction| parametrize_explosion_finding(*module, t);
        let mut out: Vec<Violation> = Vec::new();
        let mut i: usize = 0;
        while i < module.test_functions.len()
            invariant
                i <= module.test_functions@.len(),
                f == (|t: TestFunction| parametrize_explosion_finding(*module, t)),
                views(out@) == flat_map(module.test_functions@.take(i as int), f),
            decreases module.test_functions.len() - i,
        {
            let t = &module.test_functions[i];
            proof {
                lemma_flat_map_step(module.test_functions@, f, i as int);
            }
            let count: usize = match t.parametrize_count {
                Some(c) => c,
                None => 0,
            };
            if t.parametrize_count.is_some() && count > 20 {
                let mut msg = String::from_str("Test '");
                msg.append(t.name.as_str());
                msg.append("' has ");
                push_decimal(&mut msg, count);
                msg.append(" parametrized cases — combinatorial explosion");
                let v = report(
                    self.id(),
                    self.name(),
                    self.severity(),
                    self.category(),
                    module,
                    t.line,
                    msg,
                    "Reduce test cases or use hypothesis",
                    Some(t.name.clone()),
                );
                push_violation(&mut out, v);
            }
            i = i + 1;
        }
        proof {
            lemma_flat_map_all(module.test_functions@, f);
        }
        out
    }
}

/// Each parametrized test that contains conditional logic.
pub struct ConditionalLogicInTestRule;

/// What `ConditionalLogicInTestRule` reports for the test `t` of `m`.
pub open spec fn conditional_in_param_finding(m: ParsedModule, t: TestFunction) -> Seq<ViolationView> {
    if t.is_parametrized && t.has_conditional_logic {
        seq![finding(
            "PYTEST-MNT-014"@,
            "ConditionalLogicInTestRule"@,
            Severity::Warning,
            Category::Maintenance,
            m.file_path@,
            t.line,
            "Parametrized test '"@ + t.name@ + "' contains conditional logic (if/elif/else/for/while) — use separate parameter cases instead of branching"@,
            "Split into separate tests or use pytest.mark.parametrize"@,
            Some(t.name@),
        )]
    } else {
        Seq::empty()
    }
}

/// What `ConditionalLogicInTestRule` reports for `m`.
pub open spec fn conditional_in_param_findings(m: ParsedModule) -> Seq<ViolationView> {
    flat_map(m.test_functions@, |t: TestFunction| conditional_in_param_finding(m, t))
}

impl Rule for ConditionalLogicInTestRule {
    open spec fn rule_id(&self) -> Seq<char> {
        "PYTEST-MNT-014"@
    }

    open spec fn rule_name(&self) -> Seq<char> {
        "ConditionalLogicInTestRule"@
    }

    open spec fn default_severity(&self) -> Severity {
        Severity::Warning
    }

    open spec fn rule_category(&self) -> Category {
        Category::Maintenance
    }

    fn id(&self) -> (r: &'static str) {
        "PYTEST-MNT-014"
    }

    fn name(&self) -> (r: &'static str) {
        "ConditionalLogicInTestRule"
    }

    fn severity(&self) -> (r: Severity) {
        Severity::Warning
    }

    fn category(&self) -> (r: Category) {
        Category::Maintenance
    }

    /// Reports each parametrized test that contains conditional logic.
    fn check(&self, module: &ParsedModule, _all_modules: &[ParsedModule], _ctx: &RuleContext) -> (r: Vec<Violation>)
        ensures
            views(r@) == conditional_in_param_findings(*module),
    {
        let ghost f = |t: TestFunction| conditional_in_param_finding(*module, t);
        let mut out: Vec<Violation> = Vec::new();
        let mut i: usize = 0;
        while i < module.test_functions.len()
            invariant
                i <= module.test_functions@.len(),
                f == (|t: TestFunction| conditional_in_param_finding(*module, t)),
                views(out@) == flat_map(module.test_functions@.take(i as int), f),
            decreases module.test_functions.len() - i,
        {
            let t = &module.test_functions[i];
            proof {
                lemma_flat_map_step(module.test_functions@, f, i as int);
            }
            if t.is_parametrized && t.has_conditional_logic {
                let msg = cat3("Parametrized test '", t.name.as_str(), "' contains conditional logic (if/elif/else/for/while) — use separate parameter cases instead of branching");
                let v = report(
                    self.id(),
                    self.name(),
                    self.severity(),
                    self.category(),
                    module,
                    t.line,
                    msg,
                    "Split into separate tests or use pytest.mark.parametrize",
                    Some(t.name.clone()),
                );
                push_violation(&mut out, v);
            }
            i = i + 1;
        }
        proof {
            lemma_flat_map_all(module.test_functions@, f);
        }
        out
    }
}

/// Each test that sleeps for more than 0.1 s.
pub struct SleepWithValueRule;

/// What `SleepWithValueRule` reports for the test `t` of `m`.
pub open spec fn sleep_value_finding(m: ParsedModule, t: TestFunction) -> Seq<ViolationView> {
    if t.uses_time_sleep && t.sleep_exceeds_limit {
        seq![finding(
            "PYTEST-MNT-016"@,
            "SleepWithValueRule"@,
            Severity::Warning,
            Category::Maintenance,
            m.file_path@,
            t.line,
            "Test '"@ + t.name@ + "' uses time.sleep() with value > 0.1s — slows test suite"@,
            "Use mocking, async waits, or reduce sleep duration"@,
            Some(t.name@),
        )]
    } else {
        Seq::empty()
    }
}

/// What `SleepWithValueRule` reports for `m`.
pub open spec fn sleep_value_findings(m: ParsedModule) -> Seq<ViolationView> {
    flat_map(m.test_functions@, |t: TestFunction| sleep_value_finding(m, t))
}

impl Rule for SleepWithValueRule {
    open spec fn rule_id(&self) -> Seq<char> {
        "PYTEST-MNT-016"@
    }

    open spec fn rule_name(&self) -> Seq<char> {
        "SleepWithValueRule"@
    }

    open spec fn default_severity(&self) -> Severity {
        Severity::Warning
    }

    open spec fn rule_category(&self) -> Category {
        Category::Maintenance
    }

    fn id(&self) -> (r: &'static str) {
        "PYTEST-MNT-016"
    }

    fn name(&self) -> (r: &'static str) {
        "SleepWithValueRule"
    }

    fn severity(&self) -> (r: Severity) {
        Severity::Warning
    }

    fn category(&self) -> (r: Category) {
        Category::Maintenance
    }

    /// Reports each test that sleeps for more than 0.1 s.
    fn check(&self, module: &ParsedModule, _all_modules: &[ParsedModule], _ctx: &RuleContext) -> (r: Vec<Violation>)
        ensures
            views(r@) == sleep_value_findings(*module),
    {
        let ghost f = |t: TestFunction| sleep_value_finding(*module, t);
        let mut out: Vec<Violation> = Vec::new();
        let mut i: usize = 0;
        while i < module.test_functions.len()
            invariant
                i <= module.test_functions@.len(),
                f == (|t: TestFunction| sleep_value_finding(*module, t)),
                views(out@) == flat_map(module.test_functions@.take(i as int), f),
            decreases module.test_functions.len() - i,
        {
            let t = &module.test_functions[i];
            proof {
                lemma_flat_map_step(module.test_functions@, f, i as int);
            }
            if t.uses_time_sleep && t.sleep_exceeds_limit {
                let msg = cat3("Test '", t.name.as_str(), "' uses time.sleep() with value > 0.1s — slows test suite");
                let v = report(
                    self.id(),
                    self.name(),
                    self.severity(),
                    self.category(),
                    module,
                    t.line,
                    msg,
                    "Use mocking, async waits, or reduce sleep duration",
                    Some(t.name.clone()),
                );
                push_violation(&mut out, v);
            }
            i = i + 1;
        }
        proof {
            lemma_flat_map_all(module.test_functions@, f);
        }
        out
    }
}

/// Each test whose name is longer than eighty characters.
pub struct TestNameLengthRule;

/// What `TestNameLengthRule` reports for the test `t` of `m`.
pub open spec fn name_length_finding(m: ParsedModule, t: TestFunction) -> Seq<ViolationView> {
    if t.name@.len() > 80 {
        seq![finding(
            "PYTEST-MNT-017"@,
            "TestNameLengthRule"@,
            Severity::Info,
            Category::Maintenance,
            m.file_path@,
            t.line,
            "Test name '"@ + t.name@ + "' exceeds 80 characters ("@ + decimal(t.name@.len()) + " chars)"@,
            "Shorten the test name to be more concise"@,
            Some(t.name@),
        )]
    } else {
        Seq::empty()
    }
}

/// What `TestNameLengthRule` reports for `m`.
pub open spec fn name_length_findings(m: ParsedModule) -> Seq<ViolationView> {
    flat_map(m.test_functions@, |t: TestFunction| name_length_finding(m, t))
}

impl Rule for TestNameLengthRule {
    open spec fn rule_id(&self) -> Seq<char> {
        "PYTEST-MNT-017"@
    }

    open spec fn rule_name(&self) -> Seq<char> {
        "TestNameLengthRule"@
    }

    open spec fn default_severity(&self) -> Severity {
        Severity::Info
    }

    open spec fn rule_category(&self) -> Category {
        Category::Maintenance
    }

    fn id(&self) -> (r: &'static str) {
        "PYTEST-MNT-017"
    }

    fn name(&self) -> (r: &'static str) {
        "TestNameLengthRule"
    }

    fn severity(&self) -> (r: Severity) {
        Severity::Info
    }

    fn category(&self) -> (r: Category) {
        Category::Maintenance
    }

    /// Reports each test whose name is longer than eighty characters.
    fn check(&self, module: &ParsedModule, _all_modules: &[ParsedModule], _ctx: &RuleContext) -> (r: Vec<Violation>)
        ensures
            views(r@) == name_length_findings(*module),
    {
        let ghost f = |t: TestFunction| name_length_finding(*module, t);
        let mut out: Vec<Violation> = Vec::new();
        let mut i: usize = 0;
        while i < module.test_functions.len()
            invariant
                i <= module.test_functions@.len(),
                f == (|t: TestFunction| name_length_finding(*module, t)),
                views(out@) == flat_map(module.test_functions@.take(i as int), f),
            decreases module.test_functions.len() - i,
        {
            let t = &module.test_functions[i];
            proof {
                lemma_flat_map_step(module.test_functions@, f, i as int);
            }
            let n = crate::text::chars_of(t.name.as_str()).len();
            if n > 80 {
                let mut msg = String::from_str("Test name '");
                msg.append(t.name.as_str());
                msg.append("' exceeds 80 characters (");
                push_decimal(&mut msg, n);
                msg.append(" chars)");
                let v = report(
                    self.id(),
                    self.name(),
                    self.severity(),
                    self.category(),
                    module,
                    t.line,
                    msg,
                    "Shorten the test name to be more concise",
                    Some(t.name.clone()),
                );
                push_violation(&mut out, v);
            }
            i = i + 1;
        }
        proof {
            lemma_flat_map_all(module.test_functions@, f);
        }
        out
    }
}

/// Each test that is not parametrized and has no docstring mentioning given, when or then.
pub struct BddMissingScenarioRule;

/// What `BddMissingScenarioRule` reports for the test `t` of `m`.
pub open spec fn bdd_scenario_finding(m: ParsedModule, t: TestFunction) -> Seq<ViolationView> {
    if !t.is_parametrized && !has_gherkin(t.docstring) {
        seq![finding(
            "PYTEST-BDD-001"@,
            "BddMissingScenarioRule"@,
            Severity::Info,
            Category::Enhancement,
            m.file_path@,
            t.line,
            "Test '"@ + t.name@ + "' lacks a Gherkin-style docstring scenario"@,
            "Add a docstring with Given/When/Then structure"@,
            Some(t.name@),
        )]
    } else {
        Seq::empty()
    }
}

/// What `BddMissingScenarioRule` reports for `m`.
pub open spec fn bdd_scenario_findings(m: ParsedModule) -> Seq<ViolationView> {
    flat_map(m.test_functions@, |t: TestFunction| bdd_scenario_finding(m, t))
}

impl Rule for BddMissingScenarioRule {
    open spec fn rule_id(&self) -> Seq<char> {
        "PYTEST-BDD-001"@
    }

    open spec fn rule_name(&self) -> Seq<char> {
        "BddMissingScenarioRule"@
    }

    open spec fn default_severity(&self) -> Severity {
        Severity::Info
    }

    open spec fn rule_category(&self) -> Category {
        Category::Enhancement
    }

    fn id(&self) -> (r: &'static str) {
        "PYTEST-BDD-001"
    }

    fn name(&self) -> (r: &'static str) {
        "BddMissingScenarioRule"
    }

    fn severity(&self) -> (r: Severity) {
        Severity::Info
    }

    fn category(&self) -> (r: Category) {
        Category::Enhancement
    }

    /// Reports each test that is not parametrized and has no docstring mentioning given, when or then.
    fn check(&self, module: &ParsedModule, _all_modules: &[ParsedModule], _ctx: &RuleContext) -> (r: Vec<Violation>)
        ensures
            views(r@) == bdd_scenario_findings(*module),
    {
        let ghost f = |t: TestFunction| bdd_scenario_finding(*module, t);
        let mut out: Vec<Violation> = Vec::new();
        let mut i: usize = 0;
        while i < module.test_functions.len()
            invariant
                i <= module.test_functions@.len(),
                f == (|t: TestFunction| bdd_scenario_finding(*module, t)),
                views(out@) == flat_map(module.test_functions@.take(i as int), f),
            decreases module.test_functions.len() - i,
        {
            let t = &module.test_functions[i];
            proof {
                lemma_flat_map_step(module.test_functions@, f, i as int);
            }
            let gherkin = has_gherkin_exec(&t.docstring);
            if !t.is_parametrized && !gherkin {
                let msg = cat3("Test '", t.name.as_str(), "' lacks a Gherkin-style docstring scenario");
                let v = report(
                    self.id(),
                    self.name(),
                    self.severity(),
                    self.category(),
                    module,
                    t.line,
                    msg,
                    "Add a docstring with Given/When/Then structure",
                    Some(t.name.clone()),
                );
                push_violation(&mut out, v);
            }
            i = i + 1;
        }
        proof {
            lemma_flat_map_all(module.test_functions@, f);
        }
        out
    }
}

/// Each assertion on a magic value (a literal or a bare name that always passes or fails).
pub struct MagicAssertRule;

/// What `MagicAssertRule` reports for the assertion `a` of test `t`.
pub open spec fn magic_assert_item(m: ParsedModule, t: TestFunction, a: AssertionInfo) -> Seq<ViolationView> {
    if a.is_magic {
        seq![finding(
            "PYTEST-MNT-002"@,
            "MagicAssertRule"@,
            Severity::Warning,
            Category::Maintenance,
            m.file_path@,
            a.line,
            "Magic assertion at line "@ + decimal(a.line as nat) + ": '"@ + a.expression_text@ + "' — this always passes/fails"@,
            "Replace with a meaningful comparison"@,
            Some(t.name@),
        )]
    } else {
        Seq::empty()
    }
}

/// What `MagicAssertRule` reports for the test `t`.
pub open spec fn magic_assert_finding(m: ParsedModule, t: TestFunction) -> Seq<ViolationView> {
    flat_map(t.assertions@, |a: AssertionInfo| magic_assert_item(m, t, a))
}

/// What `MagicAssertRule` reports for `m`.
pub open spec fn magic_assert_findings(m: ParsedModule) -> Seq<ViolationView> {
    flat_map(m.test_functions@, |t: TestFunction| magic_assert_finding(m, t))
}

impl Rule for MagicAssertRule {
    open spec fn rule_id(&self) -> Seq<char> {
        "PYTEST-MNT-002"@
    }

    open spec fn rule_name(&self) -> Seq<char> {
        "MagicAssertRule"@
    }

    open spec fn default_severity(&self) -> Severity {
        Severity::Warning
    }

    open spec fn rule_category(&self) -> Category {
        Category::Maintenance
    }

    fn id(&self) -> (r: &'static str) {
        "PYTEST-MNT-002"
    }

    fn name(&self) -> (r: &'static str) {
        "MagicAssertRule"
    }

    fn severity(&self) -> (r: Severity) {
        Severity::Warning
    }

    fn category(&self) -> (r: Category) {
        Category::Maintenance
    }

    /// Reports each assertion on a magic value (a literal or a bare name that always passes or fails).
    fn check(&self, module: &ParsedModule, _all_modules: &[ParsedModule], _ctx: &RuleContext) -> (r: Vec<Violation>)
        ensures
            views(r@) == magic_assert_findings(*module),
    {
        let ghost f = |t: TestFunction| magic_assert_finding(*module, t);
        let mut out: Vec<Violation> = Vec::new();
        let mut i: usize = 0;
        while i < module.test_functions.len()
            invariant
                i <= module.test_functions@.len(),
                f == (|t: TestFunction| magic_assert_finding(*module, t)),
                views(out@) == flat_map(module.test_functions@.take(i as int), f),
            decreases module.test_functions.len() - i,
        {
            let t = &module.test_functions[i];
            proof {
                lemma_flat_map_step(module.test_functions@, f, i as int);
            }
            let ghost g = |a: AssertionInfo| magic_assert_item(*module, *t, a);
            let ghost before = views(out@);
            let mut j: usize = 0;
            while j < t.assertions.len()
                invariant
                    j <= t.assertions@.len(),
                    g == (|a: AssertionInfo| magic_assert_item(*module, *t, a)),
                    views(out@) == before + flat_map(t.assertions@.take(j as int), g),
                decreases t.assertions.len() - j,
            {
                let a = &t.assertions[j];
                proof {
                    lemma_flat_map_step(t.assertions@, g, j as int);
                }
                if a.is_magic {
                    let mut msg = String::from_str("Magic assertion at line ");
                    push_decimal(&mut msg, a.line);
                    msg.append(": '");
                    msg.append(a.expression_text.as_str());
                    msg.append("' — this always passes/fails");
                    let v = report(
                        self.id(),
                        self.name(),
                        self.severity(),
                        self.category(),
                        module,
                        a.line,
                        msg,
                        "Replace with a meaningful comparison",
                        Some(t.name.clone()),
                    );
                    push_violation(&mut out, v);
                }
                j = j + 1;
            }
            proof {
                lemma_flat_map_all(t.assertions@, g);
            }
            i = i + 1;
        }
        proof {
            lemma_flat_map_all(module.test_functions@, f);
        }
        out
    }
}

/// Each assertion written in a roundabout way.
pub struct SuboptimalAssertRule;

/// What `SuboptimalAssertRule` reports for the assertion `a` of test `t`.
pub open spec fn suboptimal_assert_item(m: ParsedModule, t: TestFunction, a: AssertionInfo) -> Seq<ViolationView> {
    if a.is_suboptimal {
        seq![finding(
            "PYTEST-MNT-003"@,
            "SuboptimalAssertRule"@,
            Severity::Info,
            Category::Enhancement,
            m.file_path@,
            a.line,
            "Suboptimal assertion at line "@ + decimal(a.line as nat) + ": '"@ + a.expression_text@ + "'"@,
            "Use a more direct assertion pattern"@,
            Some(t.name@),
        )]
    } else {
        Seq::empty()
    }
}

/// What `SuboptimalAssertRule` reports for the test `t`.
pub open spec fn suboptimal_assert_finding(m: ParsedModule, t: TestFunction) -> Seq<ViolationView> {
    flat_map(t.assertions@, |a: AssertionInfo| suboptimal_assert_item(m, t, a))
}

/// What `SuboptimalAssertRule` reports for `m`.
pub open spec fn suboptimal_assert_findings(m: ParsedModule) -> Seq<ViolationView> {
    flat_map(m.test_functions@, |t: TestFunction| suboptimal_assert_finding(m, t))
}

impl Rule for SuboptimalAssertRule {
    open spec fn rule_id(&self) -> Seq<char> {
        "PYTEST-MNT-003"@
    }

    open spec fn rule_name(&self) -> Seq<char> {
        "SuboptimalAssertRule"@
    }

    open spec fn default_severity(&self) -> Severity {
        Severity::Info
    }

    open spec fn rule_category(&self) -> Category {
        Category::Enhancement
    }

    fn id(&self) -> (r: &'static str) {
        "PYTEST-MNT-003"
    }

    fn name(&self) -> (r: &'static str) {
        "SuboptimalAssertRule"
    }

    fn severity(&self) -> (r: Severity) {
        Severity::Info
    }

    fn category(&self) -> (r: Category) {
        Category::Enhancement
    }

    /// Reports each assertion written in a roundabout way.
    fn check(&self, module: &ParsedModule, _all_modules: &[ParsedModule], _ctx: &RuleContext) -> (r: Vec<Violation>)
        ensures
            views(r@) == suboptimal_assert_findings(*module),
    {
        let ghost f = |t: TestFunction| suboptimal_assert_finding(*module, t);
        let mut out: Vec<Violation> = Vec::new();
        let mut i: usize = 0;
        while i < module.test_functions.len()
            invariant
                i <= module.test_functions@.len(),
                f == (|t: TestFunction| suboptimal_assert_finding(*module, t)),
                views(out@) == flat_map(module.test_functions@.take(i as int), f),
            decreases module.test_functions.len() - i,
        {
            let t = &module.test_functions[i];
            proof {
                lemma_flat_map_step(module.test_functions@, f, i as int);
            }
            let ghost g = |a: AssertionInfo| suboptimal_assert_item(*module, *t, a);
            let ghost before = views(out@);
            let mut j: usize = 0;
            while j < t.assertions.len()
                invariant
                    j <= t.assertions@.len(),
                    g == (|a: AssertionInfo| suboptimal_assert_item(*module, *t, a)),
                    views(out@) == before + flat_map(t.assertions@.take(j as int), g),
                decreases t.assertions.len() - j,
            {
                let a = &t.assertions[j];
                proof {
                    lemma_flat_map_step(t.assertions@, g, j as int);
                }
                if a.is_suboptimal {
                    let mut msg = String::from_str("Suboptimal assertion at line ");
                    push_decimal(&mut msg, a.line);
                    msg.append(": '");
                    msg.append(a.expression_text.as_str());
                    msg.append("'");
                    let v = report(
                        self.id(),
                        self.name(),
                        self.severity(),
                        self.category(),
                        module,
                        a.line,
                        msg,
                        "Use a more direct assertion pattern",
                        Some(t.name.clone()),
                    );
                    push_violation(&mut out, v);
                }
                j = j + 1;
            }
            proof {
                lemma_flat_map_all(t.assertions@, g);
            }
            i = i + 1;
        }
        proof {
            lemma_flat_map_all(module.test_functions@, f);
        }
        out
    }
}

/// Whether a docstring reads as a Given/When/Then scenario: its lowercase
/// form mentions "given", "when" or "then".
pub open spec fn has_gherkin(doc: Option<String>) -> bool {
    match doc {
        Some(ds) => {
            let lower = lowercase(ds@);
            contains(lower, "given"@) || contains(lower, "when"@) || contains(lower, "then"@)
        },
        None => false,
    }
}

fn has_gherkin_exec(doc: &Option<String>) -> (r: bool)
    ensures
        r == has_gherkin(*doc),
{
    match doc {
        Some(ds) => {
            let lower = crate::text::to_lowercase(ds.as_str());
            crate::text::str_contains(lower.as_str(), "given") || crate::text::str_contains(
                lower.as_str(),
                "when",
            ) || crate::text::str_contains(lower.as_str(), "then")
        },
        None => false,
    }
}

/// Reports, for each test: verifying mocks without checking state; mocking
/// standard-library modules; and weak assertion patterns.
pub struct MockOnlyVerifyRule;

/// What `MockOnlyVerifyRule` reports for the test `t` of `m`: up to three
/// violations, in this order.
pub open spec fn mock_only_finding(m: ParsedModule, t: TestFunction) -> Seq<ViolationView> {
    (if t.has_mock_verifications && !t.has_state_assertions {
        seq![finding(
            "PYTEST-MNT-005"@,
            "MockOnlyVerifyRule"@,
            Severity::Warning,
            Category::Maintenance,
            m.file_path@,
            t.line,
            "Test '"@ + t.name@ + "' only verifies mocks without checking state"@,
            "Add state assertions to verify actual outcomes"@,
            Some(t.name@),
        )]
    } else {
        Seq::empty()
    }) + (if t.mocks_stdlib_module {
        seq![finding(
            "PYTEST-MNT-005"@,
            "MockOnlyVerifyRule"@,
            Severity::Warning,
            Category::Maintenance,
            m.file_path@,
            t.line,
            "Test '"@ + t.name@ + "' mocks stdlib module(s): "@ + join(
                texts(t.mocked_stdlib_targets@),
                ", "@,
            ) + " — use dependency injection or test doubles instead"@,
            "Refactor to inject dependencies instead of patching stdlib internals"@,
            Some(t.name@),
        )]
    } else {
        Seq::empty()
    }) + (if t.has_weak_assertions && t.weak_assertion_details@.len() > 0 {
        seq![finding(
            "PYTEST-MNT-005"@,
            "MockOnlyVerifyRule"@,
            Severity::Warning,
            Category::Maintenance,
            m.file_path@,
            t.line,
            "Test '"@ + t.name@ + "' uses weak assertion patterns: "@ + join(
                texts(t.weak_assertion_details@),
                ", "@,
            ),
            "Use value-level assertions instead of type/existence/key-presence checks"@,
            Some(t.name@),
        )]
    } else {
        Seq::empty()
    })
}

/// What `MockOnlyVerifyRule` reports for `m`.
pub open spec fn mock_only_findings(m: ParsedModule) -> Seq<ViolationView> {
    flat_map(m.test_functions@, |t: TestFunction| mock_only_finding(m, t))
}

impl Rule for MockOnlyVerifyRule {
    open spec fn rule_id(&self) -> Seq<char> {
        "PYTEST-MNT-005"@
    }

    open spec fn rule_name(&self) -> Seq<char> {
        "MockOnlyVerifyRule"@
    }

    open spec fn default_severity(&self) -> Severity {
        Severity::Warning
    }

    open spec fn rule_category(&self) -> Category {
        Category::Maintenance
    }

    fn id(&self) -> (r: &'static str) {
        "PYTEST-MNT-005"
    }

    fn name(&self) -> (r: &'static str) {
        "MockOnlyVerifyRule"
    }

    fn severity(&self) -> (r: Severity) {
        Severity::Warning
    }

    fn category(&self) -> (r: Category) {
        Category::Maintenance
    }

    /// Reports mock-only verification, standard-library mocking and weak
    /// assertions, test by test.
    fn check(&self, module: &ParsedModule, _all_modules: &[ParsedModule], _ctx: &RuleContext) -> (r: Vec<Violation>)
        ensures
            views(r@) == mock_only_findings(*module),
    {
        let ghost f = |t: TestFunction| mock_only_finding(*module, t);
        let mut out: Vec<Violation> = Vec::new();
        let mut i: usize = 0;
        while i < module.test_functions.len()
            invariant
                i <= module.test_functions@.len(),
                f == (|t: TestFunction| mock_only_finding(*module, t)),
                views(out@) == flat_map(module.test_functions@.take(i as int), f),
            decreases module.test_functions.len() - i,
        {
            let t = &module.test_functions[i];
            proof {
                lemma_flat_map_step(module.test_functions@, f, i as int);
            }
            let ghost before = views(out@);
            if t.has_mock_verifications && !t.has_state_assertions {
                let msg = cat3("Test '", t.name.as_str(), "' only verifies mocks without checking state");
                let v = report(
                    self.id(),
                    self.name(),
                    self.severity(),
                    self.category(),
                    module,
                    t.line,
                    msg,
                    "Add state assertions to verify actual outcomes",
                    Some(t.name.clone()),
                );
                push_violation(&mut out, v);
            }
            let ghost mid = views(out@);
            if t.mocks_stdlib_module {
                let mut msg = String::from_str("Test '");
                msg.append(t.name.as_str());
                msg.append("' mocks stdlib module(s): ");
                let joined = crate::text::join_exec(&t.mocked_stdlib_targets, ", ");
                msg.append(joined.as_str());
                msg.append(" — use dependency injection or test doubles instead");
                let v = report(
                    self.id(),
                    self.name(),
                    self.severity(),
                    self.category(),
                    module,
                    t.line,
                    msg,
                    "Refactor to inject dependencies instead of patching stdlib internals",
                    Some(t.name.clone()),
                );
                push_violation(&mut out, v);
            }
            let ghost mid2 = views(out@);
            if t.has_weak_assertions && t.weak_assertion_details.len() > 0 {
                let mut msg = String::from_str("Test '");
                msg.append(t.name.as_str());
                msg.append("' uses weak assertion patterns: ");
                let joined = crate::text::join_exec(&t.weak_assertion_details, ", ");
                msg.append(joined.as_str());
                let v = report(
                    self.id(),
                    self.name(),
                    self.severity(),
                    self.category(),
                    module,
                    t.line,
                    msg,
                    "Use value-level assertions instead of type/existence/key-presence checks",
                    Some(t.name.clone()),
                );
                push_violation(&mut out, v);
            }
            proof {
                assert(views(out@) =~= before + mock_only_finding(*module, *t));
            }
            i = i + 1;
        }
        proof {
            lemma_flat_map_all(module.test_functions@, f);
        }
        out
    }
}

/// Reports each parametrize list of a test that holds a value more than once.
pub struct ParametrizeDuplicateRule;

/// What `ParametrizeDuplicateRule` reports for the value list `vals` of test `t`.
pub open spec fn param_dup_item(m: ParsedModule, t: TestFunction, vals: Vec<String>) -> Seq<ViolationView> {
    let dups = sorted_duplicates(texts(vals@));
    if dups.len() > 0 {
        seq![finding(
            "PYTEST-PARAM-002"@,
            "ParametrizeDuplicateRule"@,
            Severity::Warning,
            Category::Maintenance,
            m.file_path@,
            t.line,
            "Parametrize in test '"@ + t.name@ + "' has duplicate values: "@ + join(dups, ", "@),
            "Remove duplicate parametrize values"@,
            Some(t.name@),
        )]
    } else {
        Seq::empty()
    }
}

/// What `ParametrizeDuplicateRule` reports for the test `t`.
pub open spec fn param_dup_finding(m: ParsedModule, t: TestFunction) -> Seq<ViolationView> {
    flat_map(t.parametrize_values@, |vals: Vec<String>| param_dup_item(m, t, vals))
}

/// What `ParametrizeDuplicateRule` reports for `m`.
pub open spec fn param_dup_findings(m: ParsedModule) -> Seq<ViolationView> {
    flat_map(m.test_functions@, |t: TestFunction| param_dup_finding(m, t))
}

impl Rule for ParametrizeDuplicateRule {
    open spec fn rule_id(&self) -> Seq<char> {
        "PYTEST-PARAM-002"@
    }

    open spec fn rule_name(&self) -> Seq<char> {
        "ParametrizeDuplicateRule"@
    }

    open spec fn default_severity(&self) -> Severity {
        Severity::Warning
    }

    open spec fn rule_category(&self) -> Category {
        Category::Maintenance
    }

    fn id(&self) -> (r: &'static str) {
        "PYTEST-PARAM-002"
    }

    fn name(&self) -> (r: &'static str) {
        "ParametrizeDuplicateRule"
    }

    fn severity(&self) -> (r: Severity) {
        Severity::Warning
    }

    fn category(&self) -> (r: Category) {
        Category::Maintenance
    }

    /// Reports each parametrize value list with repeated values, naming the
    /// repeated values in increasing order.
    fn check(&self, module: &ParsedModule, _all_modules: &[ParsedModule], _ctx: &RuleContext) -> (r: Vec<Violation>)
        ensures
            views(r@) == param_dup_findings(*module),
    {
        let ghost f = |t: TestFunction| param_dup_finding(*module, t);
        let mut out: Vec<Violation> = Vec::new();
        let mut i: usize = 0;
        while i < module.test_functions.len()
            invariant
                i <= module.test_functions@.len(),
                f == (|t: TestFunction| param_dup_finding(*module, t)),
                views(out@) == flat_map(module.test_functions@.take(i as int), f),
            decreases module.test_functions.len() - i,
        {
            let t = &module.test_functions[i];
            proof {
                lemma_flat_map_step(module.test_functions@, f, i as int);
            }
            let ghost g = |vals: Vec<String>| param_dup_item(*module, *t, vals);
            let ghost before = views(out@);
            let mut j: usize = 0;
            while j < t.parametrize_values.len()
                invariant
                    j <= t.parametrize_values@.len(),
                    g == (|vals: Vec<String>| param_dup_item(*module, *t, vals)),
                    views(out@) == before + flat_map(t.parametrize_values@.take(j as int), g),
                decreases t.parametrize_values.len() - j,
            {
                let vals = &t.parametrize_values[j];
                proof {
                    lemma_flat_map_step(t.parametrize_values@, g, j as int);
                }
                let dups = duplicate_values(vals);
                if dups.len() > 0 {
                    let mut msg = String::from_str("Parametrize in test '");
                    msg.append(t.name.as_str());
                    msg.append("' has duplicate values: ");
                    let joined = join_exec(&dups, ", ");
                    msg.append(joined.as_str());
                    let v = report(
                        self.id(),
                        self.name(),
                        self.severity(),
                        self.category(),
                        module,
                        t.line,
                        msg,
                        "Remove duplicate parametrize values",
                        Some(t.name.clone()),
                    );
                    push_violation(&mut out, v);
                }
                j = j + 1;
            }
            proof {
                lemma_flat_map_all(t.parametrize_values@, g);
            }
            i = i + 1;
        }
        proof {
            lemma_flat_map_all(module.test_functions@, f);
        }
        out
    }
}

/// The items of `names` other than `name`, in order.
pub open spec fn without(names: Seq<Seq<char>>, name: Seq<char>) -> Seq<Seq<char>>
    decreases names.len(),
{
    if names.len() == 0 {
        Seq::empty()
    } else {
        let p = without(names.drop_last(), name);
        if names.last() == name {
            p
        } else {
            p.push(names.last())
        }
    }
}

fn without_exec(names: &Vec<String>, name: &str) -> (r: Vec<String>)
    ensures
        texts(r@) == without(texts(names@), name@),
{
    let ghost ns = texts(names@);
    let mut r: Vec<String> = Vec::new();
    let mut i: usize = 0;
    while i < names.len()
        invariant
            i <= names@.len(),
            ns == texts(names@),
            texts(r@) == without(ns.take(i as int), name@),
        decreases names.len() - i,
    {
        proof {
            assert(ns.take(i + 1).drop_last() =~= ns.take(i as int));
        }
        if !str_eq(names[i].as_str(), name) {
            let ghost old_r = texts(r@);
            r.push(names[i].clone());
            assert(texts(r@) =~= old_r.push(ns[i as int]));
        }
        i = i + 1;
    }
    assert(ns.take(names@.len() as int) =~= ns);
    r
}

/// The `(hash, index)` pairs of the first `n` tests that have a body hash.
pub open spec fn hashed_tests(tests: Seq<TestFunction>, n: int) -> Seq<(u64, usize)>
    decreases n,
{
    if n <= 0 {
        Seq::empty()
    } else {
        let prev = hashed_tests(tests, n - 1);
        match tests[n - 1].body_hash {
            Some(h) => prev.push((h, (n - 1) as usize)),
            None => prev,
        }
    }
}

proof fn lemma_hashed_tests_bounded(tests: Seq<TestFunction>, n: int)
    requires
        0 <= n <= tests.len(),
    ensures
        forall|k: int| 0 <= k < hashed_tests(tests, n).len() ==> (#[trigger] hashed_tests(tests, n)[k]).1 < n,
    decreases n,
{
    if n > 0 {
        lemma_hashed_tests_bounded(tests, n - 1);
        let prev = hashed_tests(tests, n - 1);
        let cur = hashed_tests(tests, n);
        assert forall|k: int| 0 <= k < cur.len() implies (#[trigger] cur[k]).1 < n by {
            if k < prev.len() {
                assert(cur[k] == prev[k]);
            }
        }
    }
}

/// The names of the tests at `members`.
pub open spec fn member_names(tests: Seq<TestFunction>, members: Seq<usize>) -> Seq<Seq<char>> {
    members.map_values(|i: usize| tests[i as int].name@)
}

/// The violation for test `t`, whose body is shared with the tests named `peers`.
pub open spec fn duplicate_body_view(m: ParsedModule, t: TestFunction, peers: Seq<Seq<char>>) -> ViolationView {
    finding(
        "PYTEST-MNT-015"@,
        "DuplicateTestBodiesRule"@,
        Severity::Info,
        Category::Maintenance,
        m.file_path@,
        t.line,
        "Test '"@ + t.name@ + "' has identical body to "@ + decimal(peers.len()) + " other test(s): "@ + join(
            peers,
            ", "@,
        ) + " (shared body hash)"@,
        "Consolidate or differentiate the test bodies"@,
        Some(t.name@),
    )
}

/// The violations for the first `k` members of one group, and the names
/// reported so far, starting from the names in `reported`: a test is
/// reported unless a test of the same name already was.
pub open spec fn group_reports(
    m: ParsedModule,
    members: Seq<usize>,
    reported: Seq<Seq<char>>,
    k: int,
) -> (Seq<ViolationView>, Seq<Seq<char>>)
    decreases k,
{
    if k <= 0 {
        (Seq::empty(), reported)
    } else {
        let prev = group_reports(m, members, reported, k - 1);
        let t = m.test_functions@[members[k - 1] as int];
        if prev.1.contains(t.name@) {
            prev
        } else {
            (
                prev.0.push(duplicate_body_view(m, t, without(member_names(m.test_functions@, members), t.name@))),
                prev.1.push(t.name@),
            )
        }
    }
}

/// The violations for the first `n` groups of tests sharing a body hash,
/// and the names reported; groups of one test are skipped.
pub open spec fn groups_reports(m: ParsedModule, groups: Seq<(u64, Seq<usize>)>, n: int) -> (Seq<ViolationView>, Seq<Seq<char>>)
    decreases n,
{
    if n <= 0 {
        (Seq::empty(), Seq::empty())
    } else {
        let prev = groups_reports(m, groups, n - 1);
        let members = groups[n - 1].1;
        if members.len() < 2 {
            prev
        } else {
            let here = group_reports(m, members, prev.1, members.len() as int);
            (prev.0 + here.0, here.1)
        }
    }
}

/// What `DuplicateTestBodiesRule` reports for `m`: the tests are grouped by
/// body hash in order of first appearance; within each group of two or
/// more, each test is reported in order unless a test of the same name was
/// reported before.
pub open spec fn duplicate_bodies_findings(m: ParsedModule) -> Seq<ViolationView> {
    let groups = grouped(hashed_tests(m.test_functions@, m.test_functions@.len() as int));
    groups_reports(m, groups, groups.len() as int).0
}

/// Reports tests whose bodies are identical (have the same hash).
pub struct DuplicateTestBodiesRule;

impl Rule for DuplicateTestBodiesRule {
    open spec fn rule_id(&self) -> Seq<char> {
        "PYTEST-MNT-015"@
    }

    open spec fn rule_name(&self) -> Seq<char> {
        "DuplicateTestBodiesRule"@
    }

    open spec fn default_severity(&self) -> Severity {
        Severity::Info
    }

    open spec fn rule_category(&self) -> Category {
        Category::Maintenance
    }

    fn id(&self) -> (r: &'static str) {
        "PYTEST-MNT-015"
    }

    fn name(&self) -> (r: &'static str) {
        "DuplicateTestBodiesRule"
    }

    fn severity(&self) -> (r: Severity) {
        Severity::Info
    }

    fn category(&self) -> (r: Category) {
        Category::Maintenance
    }

    /// Reports each test whose body hash it shares with another test, once
    /// per test name, naming the other tests of the group.
    fn check(&self, module: &ParsedModule, _all_modules: &[ParsedModule], _ctx: &RuleContext) -> (r: Vec<Violation>)
        ensures
            views(r@) == duplicate_bodies_findings(*module),
    {
        let tests = &module.test_functions;
        let mut items: Vec<(u64, usize)> = Vec::new();
        let mut i: usize = 0;
        while i < tests.len()
            invariant
                i <= tests@.len(),
                items@ == hashed_tests(tests@, i as int),
            decreases tests.len() - i,
        {
            match tests[i].body_hash {
                Some(h) => {
                    items.push((h, i));
                },
                None => {},
            }
            i = i + 1;
        }
        proof {
            lemma_hashed_tests_bounded(tests@, tests@.len() as int);
            lemma_grouped_bounded(items@, tests@.len());
        }
        let groups = group_by_key(&items);
        let ghost gv = group_views(groups@);
        let mut out: Vec<Violation> = Vec::new();
        let mut reported: Vec<String> = Vec::new();
        let mut gi: usize = 0;
        while gi < groups.len()
            invariant
                gi <= groups@.len(),
                gv == group_views(groups@),
                gv == grouped(hashed_tests(tests@, tests@.len() as int)),
                tests == &module.test_functions,
                forall|a: int, b: int| 0 <= a < gv.len() && 0 <= b < gv[a].1.len() ==> #[trigger] gv[a].1[b] < tests@.len(),
                views(out@) == groups_reports(*module, gv, gi as int).0,
                texts(reported@) == groups_reports(*module, gv, gi as int).1,
            decreases groups.len() - gi,
        {
            let members = &groups[gi].1;
            assert(members@ == gv[gi as int].1);
            if members.len() >= 2 {
                let mut names: Vec<String> = Vec::new();
                let mut k: usize = 0;
                while k < members.len()
                    invariant
                        k <= members@.len(),
                        members@ == gv[gi as int].1,
                        tests == &module.test_functions,
                        forall|b: int| 0 <= b < members@.len() ==> #[trigger] members@[b] < tests@.len(),
                        texts(names@) == member_names(tests@, members@.take(k as int)),
                    decreases members.len() - k,
                {
                    assert(members@[k as int] < tests@.len());
                    let ghost old_n = texts(names@);
                    names.push(tests[members[k]].name.clone());
                    proof {
                        assert(members@.take(k + 1) =~= members@.take(k as int).push(members@[k as int]));
                        assert(texts(names@) =~= old_n.push(tests@[members@[k as int] as int].name@));
                        assert(member_names(tests@, members@.take(k + 1)) =~= member_names(tests@, members@.take(k as int)).push(tests@[members@[k as int] as int].name@));
                    }
                    k = k + 1;
                }
                assert(members@.take(members@.len() as int) =~= members@);
                let ghost before = views(out@);
                let ghost rep0 = texts(reported@);
                let mut k: usize = 0;
                while k < members.len()
                    invariant
                        k <= members@.len(),
                        members@ == gv[gi as int].1,
                        tests == &module.test_functions,
                        forall|b: int| 0 <= b < members@.len() ==> #[trigger] members@[b] < tests@.len(),
                        texts(names@) == member_names(tests@, members@),
                        views(out@) == before + group_reports(*module, members@, rep0, k as int).0,
                        texts(reported@) == group_reports(*module, members@, rep0, k as int).1,
                    decreases members.len() - k,
                {
                    assert(members@[k as int] < tests@.len());
                    let t = &tests[members[k]];
                    if !crate::rules::texts_contain_exec(&reported, t.name.as_str()) {
                        proof {
                            if texts(reported@).contains(t.name@) {
                                let w = choose|w: int| 0 <= w < texts(reported@).len() && texts(reported@)[w] == t.name@;
                                assert(reported@[w]@ == t.name@);
                            }
                        }
                        let peers = without_exec(&names, t.name.as_str());
                        let mut msg = String::from_str("Test '");
                        msg.append(t.name.as_str());
                        msg.append("' has identical body to ");
                        push_decimal(&mut msg, peers.len());
                        msg.append(" other test(s): ");
                        let joined = join_exec(&peers, ", ");
                        msg.append(joined.as_str());
                        msg.append(" (shared body hash)");
                        let v = report(
                            self.id(),
                            self.name(),
                            self.severity(),
                            self.category(),
                            module,
                            t.line,
                            msg,
                            "Consolidate or differentiate the test bodies",
                            Some(t.name.clone()),
                        );
                        push_violation(&mut out, v);
                        let ghost old_rep = texts(reported@);
                        reported.push(t.name.clone());
                        assert(texts(reported@) =~= old_rep.push(t.name@));
                    } else {
                        proof {
                            let w = choose|w: int| 0 <= w < reported@.len() && #[trigger] reported@[w]@ == t.name@;
                            assert(texts(reported@)[w] == t.name@);
                            assert(texts(reported@).contains(t.name@));
                        }
                    }
                    k = k + 1;
                }
            }
            gi = gi + 1;
        }
        out
    }
}

/// `x` looks like a one-line dictionary literal: braces at both ends, a
/// colon inside, and more than 20 bytes of UTF-8.
pub open spec fn schema_like(x: Seq<char>) -> bool {
    starts_with(x, "{"@) && ends_with(x, "}"@) && utf8_len(x) > 20 && contains(x, ":"@)
}

/// The dictionary literal on `line`, if it has one: the text after `= ` when
/// the trimmed line holds `= {`, else the trimmed line itself.
#[verifier::opaque]
pub open spec fn dict_content(line: Seq<char>) -> Option<Seq<char>> {
    let t = trim(line);
    match first_occurrence(t, "= {"@) {
        Some(p) => {
            let rest = trim(t.subrange(p + 2, t.len() as int));
            if schema_like(rest) {
                Some(rest)
            } else {
                None
            }
        },
        None => if schema_like(t) {
            Some(t)
        } else {
            None
        },
    }
}

fn schema_like_exec(x: &Vec<char>) -> (r: bool)
    ensures
        r == schema_like(x@),
{
    starts_with_exec(x, &chars_of("{")) && ends_with_exec(x, &chars_of("}")) && utf8_longer_than(x, 20)
        && contains_exec(x, &chars_of(":"))
}

/// The dictionary literal on `line`, if it has one.
fn extract_dict_content(line: &str) -> (r: Option<String>)
    ensures
        opt_text(r) == dict_content(line@),
{
    let cs = chars_of(line);
    let t = trim_exec(&cs);
    let pat = chars_of("= {");
    proof {
        reveal_strlit("= {");
        assert(pat@.len() == 3);
    }
    let found = find(&t, &pat);
    match found {
        Some(p) => {
            let n = t.len();
            assert(p + 3 <= n);
            let q = p + 2;
            let rest = trim_exec(&slice_chars(&t, q, n));
            let ok = schema_like_exec(&rest);
            assert(dict_content(line@) == (if ok { Some(rest@) } else { None::<Seq<char>> })) by {
                reveal(dict_content);
            }
            if ok {
                Some(string_of_all(&rest))
            } else {
                None
            }
        },
        None => {
            let ok = schema_like_exec(&t);
            assert(dict_content(line@) == (if ok { Some(t@) } else { None::<Seq<char>> })) by {
                reveal(dict_content);
            }
            if ok {
                Some(string_of_all(&t))
            } else {
                None
            }
        },
    }
}

/// The index of the first source line of `t` (0-based).
pub open spec fn window_start(t: TestFunction) -> int {
    if t.line >= 1 {
        t.line - 1
    } else {
        0
    }
}

/// How many source lines belong to `t`: the lines it spans beyond its first,
/// and at least one.
pub open spec fn window_len(t: TestFunction) -> int {
    let d = if t.end_line >= t.line {
        t.end_line - t.line
    } else {
        0
    };
    if d >= 1 {
        d
    } else {
        1
    }
}

/// The source lines of `t` (as far as the source reaches).
pub open spec fn test_window(ls: Seq<Seq<char>>, t: TestFunction) -> Seq<Seq<char>> {
    let a = if window_start(t) <= ls.len() {
        window_start(t)
    } else {
        ls.len() as int
    };
    let b = if a + window_len(t) <= ls.len() {
        a + window_len(t)
    } else {
        ls.len() as int
    };
    ls.subrange(a, b)
}

/// The `(hash, test index)` pairs of the dictionary literals on the first
/// `n` lines of `w`, the window of test `ti`.
pub open spec fn window_items(w: Seq<Seq<char>>, ti: usize, n: int) -> Seq<(u64, usize)>
    decreases n,
{
    if n <= 0 {
        Seq::empty()
    } else {
        let prev = window_items(w, ti, n - 1);
        match dict_content(w[n - 1]) {
            Some(c) => prev.push((text_hash_of(c), ti)),
            None => prev,
        }
    }
}

/// The `(hash, test index)` pairs of the dictionary literals of the first
/// `n` tests, test by test and line by line.
pub open spec fn schema_items(tests: Seq<TestFunction>, ls: Seq<Seq<char>>, n: int) -> Seq<(u64, usize)>
    decreases n,
{
    if n <= 0 {
        Seq::empty()
    } else {
        let w = test_window(ls, tests[n - 1]);
        schema_items(tests, ls, n - 1) + window_items(w, (n - 1) as usize, w.len() as int)
    }
}

proof fn lemma_schema_items_bounded(tests: Seq<TestFunction>, ls: Seq<Seq<char>>, n: int)
    requires
        0 <= n <= tests.len(),
    ensures
        forall|k: int| 0 <= k < schema_items(tests, ls, n).len() ==> (#[trigger] schema_items(tests, ls, n)[k]).1 < n,
    decreases n,
{
    if n > 0 {
        lemma_schema_items_bounded(tests, ls, n - 1);
        let w = test_window(ls, tests[n - 1]);
        lemma_window_items_index(w, (n - 1) as usize, w.len() as int);
        let prev = schema_items(tests, ls, n - 1);
        let here = window_items(w, (n - 1) as usize, w.len() as int);
        assert forall|k: int| 0 <= k < schema_items(tests, ls, n).len() implies (#[trigger] schema_items(tests, ls, n)[k]).1 < n by {
            if k < prev.len() {
                assert(schema_items(tests, ls, n)[k] == prev[k]);
            } else {
                assert(schema_items(tests, ls, n)[k] == here[k - prev.len()]);
            }
        }
    }
}

proof fn lemma_window_items_index(w: Seq<Seq<char>>, ti: usize, n: int)
    ensures
        forall|k: int| 0 <= k < window_items(w, ti, n).len() ==> (#[trigger] window_items(w, ti, n)[k]).1 == ti,
    decreases n,
{
    if n > 0 {
        lemma_window_items_index(w, ti, n - 1);
        let prev = window_items(w, ti, n - 1);
        assert forall|k: int| 0 <= k < window_items(w, ti, n).len() implies (#[trigger] window_items(w, ti, n)[k]).1 == ti by {
            if k < prev.len() {
                assert(window_items(w, ti, n)[k] == prev[k]);
            }
        }
    }
}

/// The texts of `s` without repeats, each where it first appears.
pub open spec fn distinct_texts(s: Seq<Seq<char>>) -> Seq<Seq<char>>
    decreases s.len(),
{
    if s.len() == 0 {
        Seq::empty()
    } else {
        let d = distinct_texts(s.drop_last());
        if d.contains(s.last()) {
            d
        } else {
            d.push(s.last())
        }
    }
}

/// The texts of `names` without repeats, each where it first appears.
pub fn distinct_texts_exec(names: &Vec<String>) -> (r: Vec<String>)
    ensures
        texts(r@) == distinct_texts(texts(names@)),
{
    let ghost ns = texts(names@);
    let mut r: Vec<String> = Vec::new();
    let mut i: usize = 0;
    while i < names.len()
        invariant
            i <= names@.len(),
            ns == texts(names@),
            texts(r@) == distinct_texts(ns.take(i as int)),
        decreases names.len() - i,
    {
        assert(ns.take(i + 1).drop_last() =~= ns.take(i as int));
        let present = crate::rules::texts_contain_exec(&r, names[i].as_str());
        proof {
            if present {
                let w = choose|w: int| 0 <= w < r@.len() && #[trigger] r@[w]@ == names@[i as int]@;
                assert(texts(r@)[w] == ns[i as int]);
            } else if texts(r@).contains(ns[i as int]) {
                let w = choose|w: int| 0 <= w < texts(r@).len() && texts(r@)[w] == ns[i as int];
                assert(r@[w]@ == names@[i as int]@);
            }
        }
        if !present {
            let ghost before = texts(r@);
            r.push(names[i].clone());
            assert(texts(r@) =~= before.push(ns[i as int]));
        }
        i = i + 1;
    }
    assert(ns.take(names@.len() as int) =~= ns);
    r
}

/// The message for a dictionary literal shared by the tests `names`.
pub open spec fn schema_message(names: Seq<Seq<char>>) -> Seq<char> {
    "Inline schema redeclared across "@ + decimal(names.len()) + " tests: "@ + join(names, ", "@)
        + " — extract to a fixture"@
}

/// What one group of equal-hash dictionary literals gives: a violation on
/// line 1 when the literal appears in two or more distinct tests.
pub open spec fn schema_group_finding(m: ParsedModule, g: (u64, Seq<usize>)) -> Seq<ViolationView> {
    if g.1.len() < 2 {
        Seq::empty()
    } else {
        let u = distinct_texts(member_names(m.test_functions@, g.1));
        if u.len() < 2 {
            Seq::empty()
        } else {
            seq![
                finding(
                    "PYTEST-VAL-001"@,
                    "InlineSchemaRedeclaredRule"@,
                    Severity::Info,
                    Category::Enhancement,
                    m.file_path@,
                    1,
                    schema_message(u),
                    "Extract shared test data into a fixture or conftest"@,
                    None,
                ),
            ]
        }
    }
}

/// What `InlineSchemaRedeclaredRule` reports for `m`: nothing for fewer than
/// two tests; otherwise the dictionary literals on the tests' lines are
/// grouped by hash in order of first appearance, and each group that spans
/// two or more distinct tests gives one violation naming them in order of
/// first appearance.
pub open spec fn inline_schema_findings(m: ParsedModule) -> Seq<ViolationView> {
    if m.test_functions@.len() < 2 {
        Seq::empty()
    } else {
        let groups = grouped(schema_items(m.test_functions@, lines(m.source@), m.test_functions@.len() as int));
        flat_map(groups, |g: (u64, Seq<usize>)| schema_group_finding(m, g))
    }
}

/// Reports dictionary literals written out again in several tests.
pub struct InlineSchemaRedeclaredRule;

impl Rule for InlineSchemaRedeclaredRule {
    open spec fn rule_id(&self) -> Seq<char> {
        "PYTEST-VAL-001"@
    }

    open spec fn rule_name(&self) -> Seq<char> {
        "InlineSchemaRedeclaredRule"@
    }

    open spec fn default_severity(&self) -> Severity {
        Severity::Info
    }

    open spec fn rule_category(&self) -> Category {
        Category::Enhancement
    }

    fn id(&self) -> (r: &'static str) {
        "PYTEST-VAL-001"
    }

    fn name(&self) -> (r: &'static str) {
        "InlineSchemaRedeclaredRule"
    }

    fn severity(&self) -> (r: Severity) {
        Severity::Info
    }

    fn category(&self) -> (r: Category) {
        Category::Enhancement
    }

    /// Reports each dictionary literal that two or more distinct tests
    /// write out on their own lines.
    fn check(&self, module: &ParsedModule, _all_modules: &[ParsedModule], _ctx: &RuleContext) -> (r: Vec<Violation>)
        ensures
            views(r@) == inline_schema_findings(*module),
    {
        let tests = &module.test_functions;
        if tests.len() < 2 {
            return Vec::new();
        }
        let ls = lines_exec(module.source.as_str());
        let ghost lv = ls@.map_values(|l: String| l@);
        let mut items: Vec<(u64, usize)> = Vec::new();
        let mut ti: usize = 0;
        while ti < tests.len()
            invariant
                ti <= tests@.len(),
                tests == &module.test_functions,
                lv == ls@.map_values(|l: String| l@),
                lv == lines(module.source@),
                items@ == schema_items(tests@, lv, ti as int),
            decreases tests.len() - ti,
        {
            let t = &tests[ti];
            let start: usize = if t.line >= 1 { t.line - 1 } else { 0 };
            let d: usize = if t.end_line >= t.line { t.end_line - t.line } else { 0 };
            let wl: usize = if d >= 1 { d } else { 1 };
            let a: usize = if start <= ls.len() { start } else { ls.len() };
            let b: usize = if wl <= ls.len() - a { a + wl } else { ls.len() };
            let ghost w = test_window(lv, *t);
            assert(w == lv.subrange(a as int, b as int));
            let ghost base = items@;
            let mut k: usize = a;
            while k < b
                invariant
                    a <= k <= b <= ls@.len(),
                    lv == ls@.map_values(|l: String| l@),
                    w == lv.subrange(a as int, b as int),
                    items@ == base + window_items(w, ti, k - a),
                decreases b - k,
            {
                assert(w[k - a] == ls@[k as int]@);
                match extract_dict_content(ls[k].as_str()) {
                    Some(c) => {
                        let h = stable_hash(c.as_str());
                        items.push((h, ti));
                        assert(items@ =~= base + window_items(w, ti, k - a + 1));
                    },
                    None => {
                        assert(items@ =~= base + window_items(w, ti, k - a + 1));
                    },
                }
                k = k + 1;
            }
            assert(schema_items(tests@, lv, ti + 1) == schema_items(tests@, lv, ti as int) + window_items(w, ti, w.len() as int));
            ti = ti + 1;
        }
        proof {
            lemma_schema_items_bounded(tests@, lv, tests@.len() as int);
            lemma_grouped_bounded(items@, tests@.len());
        }
        let groups = group_by_key(&items);
        let ghost gv = group_views(groups@);
        let ghost f = |g: (u64, Seq<usize>)| schema_group_finding(*module, g);
        let mut out: Vec<Violation> = Vec::new();
        let mut gi: usize = 0;
        while gi < groups.len()
            invariant
                gi <= groups@.len(),
                gv == group_views(groups@),
                gv == grouped(schema_items(tests@, lines(module.source@), tests@.len() as int)),
                tests == &module.test_functions,
                forall|a: int, b: int| 0 <= a < gv.len() && 0 <= b < gv[a].1.len() ==> #[trigger] gv[a].1[b] < tests@.len(),
                f == |g: (u64, Seq<usize>)| schema_group_finding(*module, g),
                views(out@) == flat_map(gv.take(gi as int), f),
            decreases groups.len() - gi,
        {
            proof {
                lemma_flat_map_step(gv, f, gi as int);
            }
            let members = &groups[gi].1;
            assert(members@ == gv[gi as int].1);
            if members.len() >= 2 {
                let mut names: Vec<String> = Vec::new();
                let mut k: usize = 0;
                while k < members.len()
                    invariant
                        k <= members@.len(),
                        members@ == gv[gi as int].1,
                        tests == &module.test_functions,
                        forall|b: int| 0 <= b < members@.len() ==> #[trigger] members@[b] < tests@.len(),
                        texts(names@) == member_names(tests@, members@.take(k as int)),
                    decreases members.len() - k,
                {
                    assert(members@[k as int] < tests@.len());
                    let ghost old_n = texts(names@);
                    names.push(tests[members[k]].name.clone());
                    proof {
                        assert(members@.take(k + 1) =~= members@.take(k as int).push(members@[k as int]));
                        assert(texts(names@) =~= old_n.push(tests@[members@[k as int] as int].name@));
                        assert(member_names(tests@, members@.take(k + 1)) =~= member_names(tests@, members@.take(k as int)).push(tests@[members@[k as int] as int].name@));
                    }
                    k = k + 1;
                }
                assert(members@.take(members@.len() as int) =~= members@);
                let unique = distinct_texts_exec(&names);
                if unique.len() >= 2 {
                    let mut msg = String::from_str("Inline schema redeclared across ");
                    push_decimal(&mut msg, unique.len());
                    msg.append(" tests: ");
                    let joined = join_exec(&unique, ", ");
                    msg.append(joined.as_str());
                    msg.append(" — extract to a fixture");
                    let v = report(
                        self.id(),
                        self.name(),
                        self.severity(),
                        self.category(),
                        module,
                        1,
                        msg,
                        "Extract shared test data into a fixture or conftest",
                        None,
                    );
                    push_violation(&mut out, v);
                    assert(views(out@) =~= flat_map(gv.take(gi + 1), f));
                } else {
                    assert(views(out@) =~= flat_map(gv.take(gi + 1), f));
                }
            } else {
                assert(views(out@) =~= flat_map(gv.take(gi + 1), f));
            }
            gi = gi + 1;
        }
        proof {
            lemma_flat_map_all(gv, f);
        }
        out
    }
}

} // verus!
