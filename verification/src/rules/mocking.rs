//! Rules about mocking: patches aimed at the wrong module or at
//! constructors, `MagicMock` in async tests, and tests that mock far more
//! than they assert.
use vstd::prelude::*;
use crate::models::{Category, ParsedModule, RuleContext, Severity, TestFunction, Violation, ViolationView, views};
use crate::rules::{Rule, finding, flat_map, imports_contain, lemma_flat_map_all, lemma_flat_map_step, push_violation, report};
use crate::numeric::{mock_ratio, ratio_over_three, ratio_text, ratio_tenths};
use crate::text::{
    decimal, ends_with, is_uppercase, join, join_exec, push_decimal, push_decimal_wide, split, split_exec,
    str_ends_with, string_of_all, uppercase_char,
};

verus! {

/// `p` starts with an upper-case letter (as `char::is_uppercase` decides).
pub open spec fn capitalized(p: Seq<char>) -> bool {
    p.len() > 0 && uppercase_char(p[0])
}

/// The index of the first capitalized part among the first `n` of `parts`.
pub open spec fn first_capitalized(parts: Seq<Seq<char>>, n: int) -> Option<int>
    decreases n,
{
    if n <= 0 {
        None
    } else {
        match first_capitalized(parts, n - 1) {
            Some(k) => Some(k),
            None => if capitalized(parts[n - 1]) {
                Some(n - 1)
            } else {
                None
            },
        }
    }
}

proof fn lemma_first_capitalized_bound(parts: Seq<Seq<char>>, n: int)
    ensures
        first_capitalized(parts, n) matches Some(k) ==> 0 <= k < n && capitalized(parts[k]),
    decreases n,
{
    if n > 0 {
        lemma_first_capitalized_bound(parts, n - 1);
    }
}

/// The module that defines what a dotted patch target names: the parts
/// before the first capitalized one (the class), when the target has at
/// least three parts and the class is not the first part.
pub open spec fn definition_module(target: Seq<char>) -> Option<Seq<char>> {
    let parts = split(target, '.');
    if parts.len() < 3 {
        None
    } else {
        match first_capitalized(parts, parts.len() as int) {
            Some(k) => if k == 0 {
                None
            } else {
                Some(join(parts.take(k), "."@))
            },
            None => None,
        }
    }
}

/// The module that defines what the patch target `target` names.
pub fn find_patch_target_def_module(target: &str) -> (r: Option<String>)
    ensures
        crate::models::opt_text(r) == definition_module(target@),
{
    let cs = crate::text::chars_of(target);
    let parts = split_exec(&cs, '.');
    let ghost pv = parts@.map_values(|p: Vec<char>| p@);
    if parts.len() < 3 {
        return None;
    }
    let mut k: usize = 0;
    let mut found = false;
    while k < parts.len() && !found
        invariant
            k <= parts@.len(),
            pv == parts@.map_values(|p: Vec<char>| p@),
            !found ==> first_capitalized(pv, k as int) is None,
            found ==> k < parts@.len() && first_capitalized(pv, k + 1) == Some(k as int),
        decreases parts.len() - k + (if found { 0int } else { 1int }),
    {
        let p = &parts[k];
        assert(p@ == pv[k as int]);
        if p.len() > 0 && is_uppercase(p[0]) {
            found = true;
        } else {
            k = k + 1;
        }
    }
    if !found {
        assert(pv.len() == parts@.len());
        return None;
    }
    proof {
        lemma_first_capitalized_stable(pv, k + 1, pv.len() as int);
    }
    if k == 0 {
        return None;
    }
    let mut prefix: Vec<String> = Vec::new();
    let mut i: usize = 0;
    while i < k
        invariant
            i <= k < parts@.len(),
            pv == parts@.map_values(|p: Vec<char>| p@),
            prefix@.map_values(|s: String| s@) == pv.take(i as int),
        decreases k - i,
    {
        let s = string_of_all(&parts[i]);
        let ghost before = prefix@.map_values(|s: String| s@);
        prefix.push(s);
        assert(prefix@.map_values(|s: String| s@) =~= before.push(pv[i as int]));
        assert(pv.take(i + 1) =~= pv.take(i as int).push(pv[i as int]));
        i = i + 1;
    }
    Some(join_exec(&prefix, "."))
}

proof fn lemma_first_capitalized_stable(parts: Seq<Seq<char>>, a: int, b: int)
    requires
        0 <= a <= b,
        first_capitalized(parts, a) is Some,
    ensures
        first_capitalized(parts, b) == first_capitalized(parts, a),
    decreases b - a,
{
    if a < b {
        lemma_first_capitalized_stable(parts, a, b - 1);
    }
}

/// What `PatchTargetingDefinitionModuleRule` reports for the patch target
/// `target` of test `t`.
pub open spec fn patch_def_item(m: ParsedModule, t: TestFunction, target: Seq<char>) -> Seq<ViolationView> {
    match definition_module(target) {
        Some(dm) => if imports_contain(m.imports@, dm) {
            seq![finding(
                "PYTEST-MOC-001"@,
                "PatchTargetingDefinitionModuleRule"@,
                Severity::Warning,
                Category::Maintenance,
                m.file_path@,
                t.line,
                "Test '"@ + t.name@ + "' patches definition module '"@ + target + "' — patch the consumer instead"@,
                "Patch where the target is used, not where it is defined"@,
                Some(t.name@),
            )]
        } else {
            Seq::empty()
        },
        None => Seq::empty(),
    }
}

/// What `PatchTargetingDefinitionModuleRule` reports for test `t`.
pub open spec fn patch_def_finding(m: ParsedModule, t: TestFunction) -> Seq<ViolationView> {
    flat_map(t.patch_targets@, |x: String| patch_def_item(m, t, x@))
}

/// What `PatchTargetingDefinitionModuleRule` reports for `m`.
pub open spec fn patch_def_findings(m: ParsedModule) -> Seq<ViolationView> {
    flat_map(m.test_functions@, |t: TestFunction| patch_def_finding(m, t))
}

/// Each patch of a name in the module that defines it, where the test file
/// imports that module.
pub struct PatchTargetingDefinitionModuleRule;

impl Rule for PatchTargetingDefinitionModuleRule {
    open spec fn rule_id(&self) -> Seq<char> {
        "PYTEST-MOC-001"@
    }

    open spec fn rule_name(&self) -> Seq<char> {
        "PatchTargetingDefinitionModuleRule"@
    }

    open spec fn default_severity(&self) -> Severity {
        Severity::Warning
    }

    open spec fn rule_category(&self) -> Category {
        Category::Maintenance
    }

    fn id(&self) -> (r: &'static str) {
        "PYTEST-MOC-001"
    }

    fn name(&self) -> (r: &'static str) {
        "PatchTargetingDefinitionModuleRule"
    }

    fn severity(&self) -> (r: Severity) {
        Severity::Warning
    }

    fn category(&self) -> (r: Category) {
        Category::Maintenance
    }

    /// Reports each patch target whose defining module the file imports.
    fn check(&self, module: &ParsedModule, _all_modules: &[ParsedModule], _ctx: &RuleContext) -> (r: Vec<Violation>)
        ensures
            views(r@) == patch_def_findings(*module),
    {
        let ghost f = |t: TestFunction| patch_def_finding(*module, t);
        let mut out: Vec<Violation> = Vec::new();
        let mut i: usize = 0;
        while i < module.test_functions.len()
            invariant
                i <= module.test_functions@.len(),
                f == (|t: TestFunction| patch_def_finding(*module, t)),
                views(out@) == flat_map(module.test_functions@.take(i as int), f),
            decreases module.test_functions.len() - i,
        {
            let t = &module.test_functions[i];
            proof {
                lemma_flat_map_step(module.test_functions@, f, i as int);
            }
            let ghost g = |x: String| patch_def_item(*module, *t, x@);
            let ghost before = views(out@);
            let mut j: usize = 0;
            while j < t.patch_targets.len()
                invariant
                    j <= t.patch_targets@.len(),
                    g == (|x: String| patch_def_item(*module, *t, x@)),
                    views(out@) == before + flat_map(t.patch_targets@.take(j as int), g),
                decreases t.patch_targets.len() - j,
            {
                let target = &t.patch_targets[j];
                proof {
                    lemma_flat_map_step(t.patch_targets@, g, j as int);
                }
                match find_patch_target_def_module(target.as_str()) {
                    Some(dm) => {
                        if crate::rules::imports_contain_exec(&module.imports, dm.as_str()) {
                            let mut msg = String::from_str("Test '");
                            msg.append(t.name.as_str());
                            msg.append("' patches definition module '");
                            msg.append(target.as_str());
                            msg.append("' — patch the consumer instead");
                            let v = report(
                                self.id(),
                                self.name(),
                                self.severity(),
                                self.category(),
                                module,
                                t.line,
                                msg,
                                "Patch where the target is used, not where it is defined",
                                Some(t.name.clone()),
                            );
                            push_violation(&mut out, v);
                        }
                    },
                    None => {},
                }
                j = j + 1;
            }
            proof {
                lemma_flat_map_all(t.patch_targets@, g);
            }
            i = i + 1;
        }
        proof {
            lemma_flat_map_all(module.test_functions@, f);
        }
        out
    }
}

/// What `MagicMockOnAsyncRule` reports for test `t`.
pub open spec fn magic_mock_async_finding(m: ParsedModule, t: TestFunction) -> Seq<ViolationView> {
    if t.is_async && t.has_magic_mock {
        seq![finding(
            "PYTEST-MOC-002"@,
            "MagicMockOnAsyncRule"@,
            Severity::Error,
            Category::Maintenance,
            m.file_path@,
            t.line,
            "Async test '"@ + t.name@ + "' uses MagicMock instead of AsyncMock"@,
            "Use unittest.mock.AsyncMock for async functions"@,
            Some(t.name@),
        )]
    } else {
        Seq::empty()
    }
}

/// What `MagicMockOnAsyncRule` reports for `m`.
pub open spec fn magic_mock_async_findings(m: ParsedModule) -> Seq<ViolationView> {
    flat_map(m.test_functions@, |t: TestFunction| magic_mock_async_finding(m, t))
}

/// Each async test that uses `MagicMock`.
pub struct MagicMockOnAsyncRule;

impl Rule for MagicMockOnAsyncRule {
    open spec fn rule_id(&self) -> Seq<char> {
        "PYTEST-MOC-002"@
    }

    open spec fn rule_name(&self) -> Seq<char> {
        "MagicMockOnAsyncRule"@
    }

    open spec fn default_severity(&self) -> Severity {
        Severity::Error
    }

    open spec fn rule_category(&self) -> Category {
        Category::Maintenance
    }

    fn id(&self) -> (r: &'static str) {
        "PYTEST-MOC-002"
    }

    fn name(&self) -> (r: &'static str) {
        "MagicMockOnAsyncRule"
    }

    fn severity(&self) -> (r: Severity) {
        Severity::Error
    }

    fn category(&self) -> (r: Category) {
        Category::Maintenance
    }

    /// Reports each async test that uses `MagicMock`.
    fn check(&self, module: &ParsedModule, _all_modules: &[ParsedModule], _ctx: &RuleContext) -> (r: Vec<Violation>)
        ensures
            views(r@) == magic_mock_async_findings(*module),
    {
        let ghost f = |t: TestFunction| magic_mock_async_finding(*module, t);
        let mut out: Vec<Violation> = Vec::new();
        let mut i: usize = 0;
        while i < module.test_functions.len()
            invariant
                i <= module.test_functions@.len(),
                f == (|t: TestFunction| magic_mock_async_finding(*module, t)),
                views(out@) == flat_map(module.test_functions@.take(i as int), f),
            decreases module.test_functions.len() - i,
        {
            let t = &module.test_functions[i];
            proof {
                lemma_flat_map_step(module.test_functions@, f, i as int);
            }
            if t.is_async && t.has_magic_mock {
                let msg = crate::rules::cat3("Async test '", t.name.as_str(), "' uses MagicMock instead of AsyncMock");
                let v = report(
                    self.id(),
                    self.name(),
                    self.severity(),
                    self.category(),
                    module,
                    t.line,
                    msg,
                    "Use unittest.mock.AsyncMock for async functions",
                    Some(t.name.clone()),
                );
                push_violation(&mut out, v);
            }
            i = i + 1;
        }
        proof {
            lemma_flat_map_all(module.test_functions@, f);
        }
        out
    }
}

/// What `PatchInitBypassRule` reports for the patch target `target` of test `t`.
pub open spec fn patch_init_item(m: ParsedModule, t: TestFunction, target: Seq<char>) -> Seq<ViolationView> {
    if ends_with(target, ".__init__"@) {
        seq![finding(
            "PYTEST-MOC-003"@,
            "PatchInitBypassRule"@,
            Severity::Warning,
            Category::Maintenance,
            m.file_path@,
            t.line,
            "Test '"@ + t.name@ + "' patches __init__ on '"@ + target + "' — bypasses constructor validation"@,
            "Patch the class itself or use a factory fixture instead"@,
            Some(t.name@),
        )]
    } else {
        Seq::empty()
    }
}

/// What `PatchInitBypassRule` reports for test `t`.
pub open spec fn patch_init_finding(m: ParsedModule, t: TestFunction) -> Seq<ViolationView> {
    flat_map(t.patch_targets@, |x: String| patch_init_item(m, t, x@))
}

/// What `PatchInitBypassRule` reports for `m`.
pub open spec fn patch_init_findings(m: ParsedModule) -> Seq<ViolationView> {
    flat_map(m.test_functions@, |t: TestFunction| patch_init_finding(m, t))
}

/// Each patch of a constructor (`.__init__`).
pub struct PatchInitBypassRule;

impl Rule for PatchInitBypassRule {
    open spec fn rule_id(&self) -> Seq<char> {
        "PYTEST-MOC-003"@
    }

    open spec fn rule_name(&self) -> Seq<char> {
        "PatchInitBypassRule"@
    }

    open spec fn default_severity(&self) -> Severity {
        Severity::Warning
    }

    open spec fn rule_category(&self) -> Category {
        Category::Maintenance
    }

    fn id(&self) -> (r: &'static str) {
        "PYTEST-MOC-003"
    }

    fn name(&self) -> (r: &'static str) {
        "PatchInitBypassRule"
    }

    fn severity(&self) -> (r: Severity) {
        Severity::Warning
    }

    fn category(&self) -> (r: Category) {
        Category::Maintenance
    }

    /// Reports each patch target that ends in `.__init__`.
    fn check(&self, module: &ParsedModule, _all_modules: &[ParsedModule], _ctx: &RuleContext) -> (r: Vec<Violation>)
        ensures
            views(r@) == patch_init_findings(*module),
    {
        let ghost f = |t: TestFunction| patch_init_finding(*module, t);
        let mut out: Vec<Violation> = Vec::new();
        let mut i: usize = 0;
        while i < module.test_functions.len()
            invariant
                i <= module.test_functions@.len(),
                f == (|t: TestFunction| patch_init_finding(*module, t)),
                views(out@) == flat_map(module.test_functions@.take(i as int), f),
            decreases module.test_functions.len() - i,
        {
            let t = &module.test_functions[i];
            proof {
                lemma_flat_map_step(module.test_functions@, f, i as int);
            }
            let ghost g = |x: String| patch_init_item(*module, *t, x@);
            let ghost before = views(out@);
            let mut j: usize = 0;
            while j < t.patch_targets.len()
                invariant
                    j <= t.patch_targets@.len(),
                    g == (|x: String| patch_init_item(*module, *t, x@)),
                    views(out@) == before + flat_map(t.patch_targets@.take(j as int), g),
                decreases t.patch_targets.len() - j,
            {
                let target = &t.patch_targets[j];
                proof {
                    lemma_flat_map_step(t.patch_targets@, g, j as int);
                }
                if str_ends_with(target.as_str(), ".__init__") {
                    let mut msg = String::from_str("Test '");
                    msg.append(t.name.as_str());
                    msg.append("' patches __init__ on '");
                    msg.append(target.as_str());
                    msg.append("' — bypasses constructor validation");
                    let v = report(
                        self.id(),
                        self.name(),
                        self.severity(),
                        self.category(),
                        module,
                        t.line,
                        msg,
                        "Patch the class itself or use a factory fixture instead",
                        Some(t.name.clone()),
                    );
                    push_violation(&mut out, v);
                }
                j = j + 1;
            }
            proof {
                lemma_flat_map_all(t.patch_targets@, g);
            }
            i = i + 1;
        }
        proof {
            lemma_flat_map_all(module.test_functions@, f);
        }
        out
    }
}

/// What `MockRatioBudgetRule` reports for test `t`: a test with mocks and
/// assertions whose mock-to-assertion ratio (in double precision) exceeds
/// three, or a test with more than three mock operations and no assertion.
pub open spec fn mock_ratio_finding(m: ParsedModule, t: TestFunction) -> Seq<ViolationView> {
    let mc = t.mock_count as nat;
    let ac = t.assertion_count as nat;
    if mc > 0 && ac > 0 {
        if ratio_over_three(mc, ac) {
            seq![finding(
                "PYTEST-MOC-004"@,
                "MockRatioBudgetRule"@,
                Severity::Info,
                Category::Enhancement,
                m.file_path@,
                t.line,
                "Test '"@ + t.name@ + "' has mock-to-assertion ratio of "@ + ratio_text(mc, ac) + ":1 ("@ + decimal(mc)
                    + " mocks, "@ + decimal(ac) + " assertions) — over budget"@,
                "Reduce mock count or add more state assertions"@,
                Some(t.name@),
            )]
        } else {
            Seq::empty()
        }
    } else if mc > 3 && ac == 0 {
        seq![finding(
            "PYTEST-MOC-004"@,
            "MockRatioBudgetRule"@,
            Severity::Info,
            Category::Enhancement,
            m.file_path@,
            t.line,
            "Test '"@ + t.name@ + "' has "@ + decimal(mc) + " mock operations but zero assertions — over budget"@,
            "Add assertions to verify actual outcomes"@,
            Some(t.name@),
        )]
    } else {
        Seq::empty()
    }
}

/// What `MockRatioBudgetRule` reports for `m`.
pub open spec fn mock_ratio_findings(m: ParsedModule) -> Seq<ViolationView> {
    flat_map(m.test_functions@, |t: TestFunction| mock_ratio_finding(m, t))
}

/// Each test that mocks much more than it asserts.
pub struct MockRatioBudgetRule;

impl Rule for MockRatioBudgetRule {
    open spec fn rule_id(&self) -> Seq<char> {
        "PYTEST-MOC-004"@
    }

    open spec fn rule_name(&self) -> Seq<char> {
        "MockRatioBudgetRule"@
    }

    open spec fn default_severity(&self) -> Severity {
        Severity::Info
    }

    open spec fn rule_category(&self) -> Category {
        Category::Enhancement
    }

    fn id(&self) -> (r: &'static str) {
        "PYTEST-MOC-004"
    }

    fn name(&self) -> (r: &'static str) {
        "MockRatioBudgetRule"
    }

    fn severity(&self) -> (r: Severity) {
        Severity::Info
    }

    fn category(&self) -> (r: Category) {
        Category::Enhancement
    }

    /// Reports each test whose mock-to-assertion ratio exceeds three, and
    /// each test with more than three mock operations and no assertion.
    fn check(&self, module: &ParsedModule, _all_modules: &[ParsedModule], _ctx: &RuleContext) -> (r: Vec<Violation>)
        ensures
            views(r@) == mock_ratio_findings(*module),
    {
        let ghost f = |t: TestFunction| mock_ratio_finding(*module, t);
        let mut out: Vec<Violation> = Vec::new();
        let mut i: usize = 0;
        while i < module.test_functions.len()
            invariant
                i <= module.test_functions@.len(),
                f == (|t: TestFunction| mock_ratio_finding(*module, t)),
                views(out@) == flat_map(module.test_functions@.take(i as int), f),
            decreases module.test_functions.len() - i,
        {
            let t = &module.test_functions[i];
            proof {
                lemma_flat_map_step(module.test_functions@, f, i as int);
            }
            let mc = t.mock_count;
            let ac = t.assertion_count;
            if mc > 0 && ac > 0 {
                match mock_ratio(mc, ac) {
                    Some(tenths) => {
                        let mut msg = String::from_str("Test '");
                        msg.append(t.name.as_str());
                        msg.append("' has mock-to-assertion ratio of ");
                        push_decimal_wide(&mut msg, tenths / 10);
                        msg.append(".");
                        push_decimal_wide(&mut msg, tenths % 10);
                        msg.append(":1 (");
                        push_decimal(&mut msg, mc);
                        msg.append(" mocks, ");
                        push_decimal(&mut msg, ac);
                        msg.append(" assertions) — over budget");
                        assert(msg@ == "Test '"@ + t.name@ + "' has mock-to-assertion ratio of "@ + ratio_text(mc as nat, ac as nat) + ":1 ("@ + decimal(mc as nat)
                    + " mocks, "@ + decimal(ac as nat) + " assertions) — over budget"@);
                        let v = report(
                            self.id(),
                            self.name(),
                            self.severity(),
                            self.category(),
                            module,
                            t.line,
                            msg,
                            "Reduce mock count or add more state assertions",
                            Some(t.name.clone()),
                        );
                        push_violation(&mut out, v);
                    },
                    None => {},
                }
            } else if mc > 3 && ac == 0 {
                let mut msg = String::from_str("Test '");
                msg.append(t.name.as_str());
                msg.append("' has ");
                push_decimal(&mut msg, mc);
                msg.append(" mock operations but zero assertions — over budget");
                let v = report(
                    self.id(),
                    self.name(),
                    self.severity(),
                    self.category(),
                    module,
                    t.line,
                    msg,
                    "Add assertions to verify actual outcomes",
                    Some(t.name.clone()),
                );
                push_violation(&mut out, v);
            }
            i = i + 1;
        }
        proof {
            lemma_flat_map_all(module.test_functions@, f);
        }
        out
    }
}

} // verus!
