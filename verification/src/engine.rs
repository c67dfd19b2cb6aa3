//! The linter's core beyond the rules: building violations, dispatching
//! rules under a configuration, `# noqa` suppression, and cross-module
//! fixture facts.
use vstd::prelude::*;
use crate::config::{apply_overrides, rule_enabled, rule_severity_in, Config, ConfigError};
use crate::models::{Category, DiskText, Fixture, FixtureGroup, FixtureLocations, FixtureRef, FixtureScope, ParsedModule, scope_rank, RuleContext, Severity, Violation, ViolationView, opt_text, texts, views};
use crate::grouping::{text_less, text_lt};
use crate::parser::{python_module, ParserError, PythonParser};
use crate::syntax::{wf, SyntaxTree};
use crate::paths::{extension, file_name, opt_chars, path_extension, path_file_name, path_less, path_lt, same_path, same_path_exec};
use crate::rules::{texts_contain, texts_contain_exec};
use crate::text::{decimal, decimal_string, push_decimal, ends_with, starts_with, str_ends_with, str_starts_with, chars_of, find, first_occurrence, lines, lines_exec, occurs_at, slice_chars, split, split_exec, str_eq, str_in, string_of_all, trim, trim_exec};
use crate::rulemap::RuleConfig;
use crate::rules::registry::{all_rule_kinds, all_rules, kind_id, kind_reports, kind_severity, RuleKind};

verus! {

/// The view of the violation `make_violation` builds.
pub open spec fn violation_of(
    rule_id: Seq<char>,
    rule_name: Seq<char>,
    severity: Severity,
    category: Category,
    message: Seq<char>,
    file_path: Seq<char>,
    line: usize,
    suggestion: Option<Seq<char>>,
    test_name: Option<Seq<char>>,
) -> ViolationView {
    ViolationView {
        rule_id,
        rule_name,
        severity,
        category,
        message,
        file_path,
        line,
        col: None,
        suggestion,
        test_name,
    }
}

/// Builds a violation with no column.
pub fn make_violation(
    rule_id: &'static str,
    rule_name: &'static str,
    severity: Severity,
    category: Category,
    message: String,
    file_path: String,
    line: usize,
    suggestion: Option<String>,
    test_name: Option<String>,
) -> (v: Violation)
    ensures
        v@ == violation_of(
            rule_id@,
            rule_name@,
            severity,
            category,
            message@,
            file_path@,
            line,
            opt_text(suggestion),
            opt_text(test_name),
        ),
{
    Violation {
        rule_id: String::from_str(rule_id),
        rule_name: String::from_str(rule_name),
        severity,
        category,
        message,
        file_path,
        line,
        col: None,
        suggestion,
        test_name,
    }
}

/// `v` reported at severity `s`.
pub open spec fn at_severity(v: ViolationView, s: Severity) -> ViolationView {
    ViolationView {
        rule_id: v.rule_id,
        rule_name: v.rule_name,
        severity: s,
        category: v.category,
        message: v.message,
        file_path: v.file_path,
        line: v.line,
        col: v.col,
        suggestion: v.suggestion,
        test_name: v.test_name,
    }
}

/// `vs` with every violation reported at severity `s`.
pub open spec fn with_severity(vs: Seq<ViolationView>, s: Severity) -> Seq<ViolationView> {
    vs.map_values(|v: ViolationView| at_severity(v, s))
}

/// What rule `k` contributes under the settings `eff`, given that it
/// reported `out`: nothing when it is disabled, else `out` at its configured
/// severity.
pub open spec fn contribution(k: RuleKind, eff: Map<Seq<char>, RuleConfig>, out: Seq<ViolationView>) -> Seq<ViolationView> {
    if rule_enabled(eff, kind_id(k)) {
        with_severity(out, rule_severity_in(eff, kind_id(k), kind_severity(k)))
    } else {
        Seq::empty()
    }
}

/// The contributions of the rules `kinds`, in order, where `outs[i]` is
/// what `kinds[i]` reported.
pub open spec fn dispatched(kinds: Seq<RuleKind>, eff: Map<Seq<char>, RuleConfig>, outs: Seq<Seq<ViolationView>>) -> Seq<ViolationView>
    decreases kinds.len(),
{
    if kinds.len() == 0 {
        Seq::empty()
    } else {
        dispatched(kinds.drop_last(), eff, outs) + contribution(kinds.last(), eff, outs[kinds.len() - 1])
    }
}

/// Whether `out` is what the rules `kinds` report together for `module`
/// under the settings `eff`: each enabled rule's report, in order, at its
/// configured severity.
pub open spec fn module_report(
    kinds: Seq<RuleKind>,
    eff: Map<Seq<char>, RuleConfig>,
    module: ParsedModule,
    ctx: RuleContext,
    out: Seq<ViolationView>,
) -> bool {
    exists|per_rule: Seq<Seq<ViolationView>>|
        per_rule.len() == kinds.len() && (forall|i: int|
            0 <= i < kinds.len() && rule_enabled(eff, kind_id(kinds[i])) ==> kind_reports(kinds[i], module, ctx, #[trigger] per_rule[i]))
            && out == dispatched(kinds, eff, per_rule)
}

/// `dispatched` reads only the first `kinds.len()` reports.
proof fn lemma_dispatched_prefix(
    kinds: Seq<RuleKind>,
    eff: Map<Seq<char>, RuleConfig>,
    a: Seq<Seq<ViolationView>>,
    b: Seq<Seq<ViolationView>>,
)
    requires
        forall|i: int| 0 <= i < kinds.len() ==> #[trigger] a[i] == b[i],
    ensures
        dispatched(kinds, eff, a) == dispatched(kinds, eff, b),
    decreases kinds.len(),
{
    if kinds.len() > 0 {
        lemma_dispatched_prefix(kinds.drop_last(), eff, a, b);
        assert(a[kinds.len() - 1] == b[kinds.len() - 1]);
    }
}

/// Sets the severity of every violation in `vs` to `s`.
fn set_severity(vs: &mut Vec<Violation>, s: Severity)
    ensures
        views(final(vs)@) == with_severity(views(old(vs)@), s),
{
    let ghost orig = views(vs@);
    let mut j: usize = 0;
    while j < vs.len()
        invariant
            j <= vs@.len(),
            orig.len() == vs@.len(),
            forall|k: int| 0 <= k < j ==> #[trigger] views(vs@)[k] == at_severity(orig[k], s),
            forall|k: int| j <= k < vs@.len() ==> #[trigger] views(vs@)[k] == orig[k],
        decreases vs.len() - j,
    {
        let ghost before = vs@;
        vs[j].severity = s;
        proof {
            assert forall|k: int| 0 <= k < vs@.len() && k != j implies #[trigger] vs@[k] == before[k] by {}
            assert(views(vs@)[j as int] == at_severity(views(before)[j as int], s));
            assert forall|k: int| 0 <= k < vs@.len() && k != j implies #[trigger] views(vs@)[k] == views(before)[k] by {
                assert(vs@[k] == before[k]);
            }
        }
        j = j + 1;
    }
    assert(views(vs@) =~= with_severity(orig, s));
}

/// Runs every registered rule over one module in a single pass.
pub struct RuleDispatcher {
    all_rules: Vec<RuleKind>,
}

impl RuleDispatcher {
    /// The rules this dispatcher runs, in order.
    pub closed spec fn kinds(&self) -> Seq<RuleKind> {
        self.all_rules@
    }

    /// A dispatcher over every rule of the linter.
    pub fn new() -> (r: RuleDispatcher)
        ensures
            r.kinds() == all_rule_kinds(),
    {
        RuleDispatcher { all_rules: all_rules() }
    }

    /// Runs each rule on `module` under the settings that `config` gives
    /// for the module's file: a disabled rule does not run, and each
    /// violation of a rule that runs carries the rule's configured severity
    /// (its default where none is set). Fails where an override pattern of
    /// `config` is not a valid glob.
    pub fn check_module(
        &self,
        module: &ParsedModule,
        all_modules: &[ParsedModule],
        ctx: &RuleContext,
        config: &Config,
    ) -> (r: Result<Vec<Violation>, ConfigError>)
        ensures
            match apply_overrides(config.rules@, config.overrides@, config.config_dir, module.file_path@) {
                Ok(eff) => r matches Ok(vs) && module_report(self.kinds(), eff, *module, *ctx, views(vs@)),
                Err(p) => r matches Err(ConfigError::InvalidGlobPattern { pattern }) && pattern@ == p,
            },
    {
        let effective = match config.effective_rules_for_file(module.file_path.as_str()) {
            Ok(e) => e,
            Err(e) => {
                return Err(e);
            },
        };
        let ghost eff = effective@;
        let ghost kinds = self.all_rules@;
        let ghost mut outs: Seq<Seq<ViolationView>> = Seq::empty();
        let mut violations: Vec<Violation> = Vec::new();
        let mut i: usize = 0;
        while i < self.all_rules.len()
            invariant
                i <= kinds.len(),
                kinds == self.all_rules@,
                eff == effective@,
                outs.len() == i,
                forall|k: int|
                    0 <= k < i && rule_enabled(eff, kind_id(kinds[k])) ==> kind_reports(kinds[k], *module, *ctx, #[trigger] outs[k]),
                views(violations@) == dispatched(kinds.take(i as int), eff, outs),
            decreases self.all_rules.len() - i,
        {
            let rule = &self.all_rules[i];
            let id = rule.id();
            let enabled = match effective.get(id) {
                Some(rc) => match rc.enabled {
                    Some(e) => e,
                    None => true,
                },
                None => true,
            };
            let ghost prev = outs;
            proof {
                assert(kinds.take(i + 1).drop_last() =~= kinds.take(i as int));
                assert(kinds.take(i + 1).last() == kinds[i as int]);
            }
            if enabled {
                let default_severity = rule.severity();
                let severity = match effective.get(id) {
                    Some(rc) => match rc.severity {
                        Some(s) => s,
                        None => default_severity,
                    },
                    None => default_severity,
                };
                let mut v = rule.check(module, all_modules, ctx);
                let ghost reported = views(v@);
                set_severity(&mut v, severity);
                proof {
                    outs = prev.push(reported);
                    lemma_dispatched_prefix(kinds.take(i as int), eff, prev, outs);
                }
                let ghost before = views(violations@);
                violations.append(&mut v);
                proof {
                    assert(views(violations@) =~= before + with_severity(reported, severity));
                }
            } else {
                proof {
                    outs = prev.push(Seq::empty());
                    lemma_dispatched_prefix(kinds.take(i as int), eff, prev, outs);
                    assert(contribution(kinds[i as int], eff, outs[i as int]) =~= Seq::<ViolationView>::empty());
                }
            }
            i = i + 1;
        }
        assert(kinds.take(kinds.len() as int) =~= kinds);
        Ok(violations)
    }
}

/// The fixture definitions of module `i`, which has `n` fixtures.
pub open spec fn module_refs(i: usize, n: nat) -> Seq<FixtureRef> {
    Seq::new(n, |j: int| FixtureRef { module: i, fixture: j as usize })
}

/// Every fixture definition of `ms`, module by module, each module's in
/// order.
pub open spec fn all_fixture_refs(ms: Seq<ParsedModule>) -> Seq<FixtureRef>
    decreases ms.len(),
{
    if ms.len() == 0 {
        Seq::empty()
    } else {
        all_fixture_refs(ms.drop_last()) + module_refs((ms.len() - 1) as usize, ms.last().fixtures@.len())
    }
}

/// The name of the fixture that `r` points at.
pub open spec fn ref_name(ms: Seq<ParsedModule>, r: FixtureRef) -> Seq<char> {
    ms[r.module as int].fixtures@[r.fixture as int].name@
}

/// The definitions among `refs` whose name is `name`, in order.
pub open spec fn refs_named(ms: Seq<ParsedModule>, refs: Seq<FixtureRef>, name: Seq<char>) -> Seq<FixtureRef>
    decreases refs.len(),
{
    if refs.len() == 0 {
        Seq::empty()
    } else {
        refs_named(ms, refs.drop_last(), name) + if ref_name(ms, refs.last()) == name {
            seq![refs.last()]
        } else {
            Seq::empty()
        }
    }
}

/// Every definition of the fixture `name` across `ms`, in order.
pub open spec fn fixtures_named(ms: Seq<ParsedModule>, name: Seq<char>) -> Seq<FixtureRef> {
    refs_named(ms, all_fixture_refs(ms), name)
}

/// Whether `groups` holds, once per name, every definition of each
/// fixture name defined in `ms` (within `refs`), in order.
pub open spec fn groups_cover(ms: Seq<ParsedModule>, refs: Seq<FixtureRef>, groups: Seq<FixtureGroup>) -> bool {
    &&& forall|a: int, b: int|
        0 <= a < groups.len() && 0 <= b < groups.len() && a != b ==> #[trigger] groups[a].name@ != #[trigger] groups[b].name@
    &&& forall|a: int|
        0 <= a < groups.len() ==> (#[trigger] groups[a]).definitions@ == refs_named(ms, refs, groups[a].name@)
            && groups[a].definitions@.len() > 0
    &&& forall|name: Seq<char>|
        #[trigger] refs_named(ms, refs, name).len() > 0 ==> exists|a: int| 0 <= a < groups.len() && groups[a].name@ == name
}

/// Whether `groups` is the map from each fixture name defined in `ms` to
/// all its definitions, in order.
pub open spec fn fixture_map_of(ms: Seq<ParsedModule>, groups: Seq<FixtureGroup>) -> bool {
    groups_cover(ms, all_fixture_refs(ms), groups)
}

proof fn lemma_refs_named_push(ms: Seq<ParsedModule>, refs: Seq<FixtureRef>, r: FixtureRef, name: Seq<char>)
    ensures
        refs_named(ms, refs.push(r), name) == refs_named(ms, refs, name) + if ref_name(ms, r) == name {
            seq![r]
        } else {
            Seq::empty()
        },
{
    assert(refs.push(r).drop_last() =~= refs);
}

proof fn lemma_all_refs_step(ms: Seq<ParsedModule>, i: int)
    requires
        0 <= i < ms.len(),
        ms.len() <= usize::MAX,
    ensures
        all_fixture_refs(ms.take(i + 1)) == all_fixture_refs(ms.take(i)) + module_refs(i as usize, ms[i].fixtures@.len()),
{
    assert(ms.take(i + 1).drop_last() =~= ms.take(i));
    assert(ms.take(i + 1).last() == ms[i]);
}

/// The position of the group named `name`.
fn find_fixture_group(groups: &Vec<FixtureGroup>, name: &str) -> (r: Option<usize>)
    ensures
        r matches Some(k) ==> k < groups@.len() && groups@[k as int].name@ == name@,
        r is None ==> forall|a: int| 0 <= a < groups@.len() ==> groups@[a].name@ != name@,
{
    let mut k: usize = 0;
    while k < groups.len()
        invariant
            k <= groups@.len(),
            forall|a: int| 0 <= a < k ==> groups@[a].name@ != name@,
        decreases groups.len() - k,
    {
        if str_eq(groups[k].name.as_str(), name) {
            return Some(k);
        }
        k = k + 1;
    }
    None
}

/// Every fixture name defined in `modules`, each with all its definitions
/// in order.
pub fn collect_all_fixtures(modules: &[ParsedModule]) -> (r: Vec<FixtureGroup>)
    ensures
        fixture_map_of(modules@, r@),
{
    let ghost ms = modules@;
    let mut groups: Vec<FixtureGroup> = Vec::new();
    let mut i: usize = 0;
    while i < modules.len()
        invariant
            ms == modules@,
            i <= ms.len(),
            groups_cover(ms, all_fixture_refs(ms.take(i as int)), groups@),
        decreases modules.len() - i,
    {
        let fixtures = &modules[i].fixtures;
        let ghost base = all_fixture_refs(ms.take(i as int));
        let mut j: usize = 0;
        while j < fixtures.len()
            invariant
                ms == modules@,
                i < ms.len(),
                fixtures@ == ms[i as int].fixtures@,
                j <= fixtures@.len(),
                groups_cover(ms, base + module_refs(i, j as nat), groups@),
            decreases fixtures.len() - j,
        {
            let ghost seen = base + module_refs(i, j as nat);
            let r = FixtureRef { module: i, fixture: j };
            let name = &fixtures[j].name;
            assert(ref_name(ms, r) == name@);
            proof {
                assert(base + module_refs(i, j as nat + 1) =~= seen.push(r));
                assert forall|n: Seq<char>| #![trigger refs_named(ms, seen.push(r), n)]
                    true implies refs_named(ms, seen.push(r), n) == refs_named(ms, seen, n) + if ref_name(ms, r) == n {
                        seq![r]
                    } else {
                        Seq::empty()
                    } by {
                    lemma_refs_named_push(ms, seen, r, n);
                }
            }
            match find_fixture_group(&groups, name.as_str()) {
                Some(k) => {
                    let ghost old_groups = groups@;
                    groups[k].definitions.push(r);
                    proof {
                        assert forall|a: int| 0 <= a < groups@.len() && a != k implies #[trigger] groups@[a] == old_groups[a] by {}
                        assert forall|a: int|
                            0 <= a < groups@.len() implies (#[trigger] groups@[a]).definitions@ == refs_named(
                                ms,
                                seen.push(r),
                                groups@[a].name@,
                            ) && groups@[a].definitions@.len() > 0 by {
                            assert(refs_named(ms, seen.push(r), groups@[a].name@) == refs_named(ms, seen, groups@[a].name@) + if ref_name(ms, r) == groups@[a].name@ {
                                seq![r]
                            } else {
                                Seq::empty()
                            });
                            if a != k {
                                assert(groups@[a].name@ != name@);
                            }
                        }
                        assert forall|n: Seq<char>|
                            #[trigger] refs_named(ms, seen.push(r), n).len() > 0 implies exists|a: int|
                                0 <= a < groups@.len() && groups@[a].name@ == n by {
                            if refs_named(ms, seen, n).len() > 0 {
                                let a = choose|a: int| 0 <= a < old_groups.len() && old_groups[a].name@ == n;
                                assert(groups@[a].name@ == n);
                            } else {
                                assert(groups@[k as int].name@ == n);
                            }
                        }
                    }
                },
                None => {
                    let ghost old_groups = groups@;
                    proof {
                        if refs_named(ms, seen, name@).len() > 0 {
                            let a = choose|a: int| 0 <= a < old_groups.len() && old_groups[a].name@ == name@;
                            assert(false);
                        }
                    }
                    let mut defs: Vec<FixtureRef> = Vec::new();
                    defs.push(r);
                    groups.push(FixtureGroup { name: name.clone(), definitions: defs });
                    proof {
                        assert(refs_named(ms, seen, name@) =~= Seq::<FixtureRef>::empty());
                        assert forall|a: int|
                            0 <= a < groups@.len() implies (#[trigger] groups@[a]).definitions@ == refs_named(
                                ms,
                                seen.push(r),
                                groups@[a].name@,
                            ) && groups@[a].definitions@.len() > 0 by {
                            assert(refs_named(ms, seen.push(r), groups@[a].name@) == refs_named(ms, seen, groups@[a].name@) + if ref_name(ms, r) == groups@[a].name@ {
                                seq![r]
                            } else {
                                Seq::empty()
                            });
                            if a < old_groups.len() {
                                assert(groups@[a] == old_groups[a]);
                            } else {
                                assert(groups@[a].definitions@ =~= seq![r]);
                            }
                        }
                        assert forall|n: Seq<char>|
                            #[trigger] refs_named(ms, seen.push(r), n).len() > 0 implies exists|a: int|
                                0 <= a < groups@.len() && groups@[a].name@ == n by {
                            if refs_named(ms, seen, n).len() > 0 {
                                let a = choose|a: int| 0 <= a < old_groups.len() && old_groups[a].name@ == n;
                                assert(groups@[a].name@ == n);
                            } else {
                                assert(groups@[old_groups.len() as int].name@ == n);
                            }
                        }
                    }
                },
            }
            j = j + 1;
        }
        proof {
            lemma_all_refs_step(ms, i as int);
        }
        i = i + 1;
    }
    assert(ms.take(ms.len() as int) =~= ms);
    groups
}

/// Whether `r` points at a fixture of `ms`.
pub open spec fn valid_ref(ms: Seq<ParsedModule>, r: FixtureRef) -> bool {
    r.module < ms.len() && r.fixture < ms[r.module as int].fixtures@.len()
}

/// The fixture that `r` points at.
pub open spec fn fixture_at(ms: Seq<ParsedModule>, r: FixtureRef) -> Fixture {
    ms[r.module as int].fixtures@[r.fixture as int]
}

proof fn lemma_all_refs_valid(ms: Seq<ParsedModule>)
    requires
        ms.len() <= usize::MAX,
    ensures
        forall|k: int| 0 <= k < all_fixture_refs(ms).len() ==> valid_ref(ms, #[trigger] all_fixture_refs(ms)[k]),
    decreases ms.len(),
{
    if ms.len() > 0 {
        let init = ms.drop_last();
        lemma_all_refs_valid(init);
        let a = all_fixture_refs(init);
        let b = module_refs((ms.len() - 1) as usize, ms.last().fixtures@.len());
        assert forall|k: int| 0 <= k < all_fixture_refs(ms).len() implies valid_ref(ms, #[trigger] all_fixture_refs(ms)[k]) by {
            if k < a.len() {
                assert(all_fixture_refs(ms)[k] == a[k]);
                assert(valid_ref(init, a[k]));
                assert(init[a[k].module as int] == ms[a[k].module as int]);
            } else {
                assert(all_fixture_refs(ms)[k] == b[k - a.len()]);
            }
        }
    }
}

proof fn lemma_refs_named_from(ms: Seq<ParsedModule>, refs: Seq<FixtureRef>, name: Seq<char>)
    ensures
        forall|k: int|
            0 <= k < refs_named(ms, refs, name).len() ==> refs.contains(#[trigger] refs_named(ms, refs, name)[k])
                && ref_name(ms, refs_named(ms, refs, name)[k]) == name,
    decreases refs.len(),
{
    if refs.len() > 0 {
        let init = refs.drop_last();
        lemma_refs_named_from(ms, init, name);
        let a = refs_named(ms, init, name);
        assert forall|k: int|
            0 <= k < refs_named(ms, refs, name).len() implies refs.contains(#[trigger] refs_named(ms, refs, name)[k])
                && ref_name(ms, refs_named(ms, refs, name)[k]) == name by {
            if k < a.len() {
                assert(refs_named(ms, refs, name)[k] == a[k]);
                assert(init.contains(a[k]));
                let j = choose|j: int| 0 <= j < init.len() && init[j] == a[k];
                assert(refs[j] == a[k]);
            } else {
                assert(refs_named(ms, refs, name)[k] == refs.last());
                assert(refs[refs.len() - 1] == refs.last());
            }
        }
    }
}

/// Every definition in a group of a fixture map of `ms` points at a fixture
/// of `ms` with the group's name.
pub proof fn lemma_fixture_map_valid(ms: Seq<ParsedModule>, groups: Seq<FixtureGroup>)
    requires
        fixture_map_of(ms, groups),
        ms.len() <= usize::MAX,
    ensures
        forall|a: int, k: int|
            0 <= a < groups.len() && 0 <= k < groups[a].definitions@.len() ==> valid_ref(ms, #[trigger] groups[a].definitions@[k])
                && ref_name(ms, groups[a].definitions@[k]) == groups[a].name@,
{
    lemma_all_refs_valid(ms);
    assert forall|a: int, k: int|
        0 <= a < groups.len() && 0 <= k < groups[a].definitions@.len() implies valid_ref(ms, #[trigger] groups[a].definitions@[k])
            && ref_name(ms, groups[a].definitions@[k]) == groups[a].name@ by {
        assert(groups[a].definitions@ == refs_named(ms, all_fixture_refs(ms), groups[a].name@));
        lemma_refs_named_from(ms, all_fixture_refs(ms), groups[a].name@);
        let x = groups[a].definitions@[k];
        assert(all_fixture_refs(ms).contains(x));
        let j = choose|j: int| 0 <= j < all_fixture_refs(ms).len() && all_fixture_refs(ms)[j] == x;
        assert(valid_ref(ms, all_fixture_refs(ms)[j]));
    }
}

/// The files of the definitions `refs`, in order.
pub open spec fn ref_paths(ms: Seq<ParsedModule>, refs: Seq<FixtureRef>) -> Seq<Seq<char>> {
    refs.map_values(|r: FixtureRef| ms[r.module as int].file_path@)
}

/// Whether `locs` maps each fixture name defined in `ms`, once, to the file
/// of each of its definitions, in order.
pub open spec fn locations_of(ms: Seq<ParsedModule>, locs: Seq<FixtureLocations>) -> bool {
    &&& forall|a: int, b: int|
        0 <= a < locs.len() && 0 <= b < locs.len() && a != b ==> #[trigger] locs[a].name@ != #[trigger] locs[b].name@
    &&& forall|a: int|
        0 <= a < locs.len() ==> texts((#[trigger] locs[a]).paths@) == ref_paths(ms, fixtures_named(ms, locs[a].name@))
            && locs[a].paths@.len() > 0
    &&& forall|name: Seq<char>|
        #[trigger] fixtures_named(ms, name).len() > 0 ==> exists|a: int| 0 <= a < locs.len() && locs[a].name@ == name
}

/// Each fixture name defined in `modules`, with the file of each of its
/// definitions in order.
pub fn compute_fixture_locations(modules: &[ParsedModule]) -> (r: Vec<FixtureLocations>)
    ensures
        locations_of(modules@, r@),
{
    let ghost ms = modules@;
    let count = modules.len();
    assert(ms.len() <= usize::MAX);
    let groups = collect_all_fixtures(modules);
    proof {
        lemma_fixture_map_valid(ms, groups@);
    }
    let mut locs: Vec<FixtureLocations> = Vec::new();
    let mut a: usize = 0;
    while a < groups.len()
        invariant
            ms == modules@,
            fixture_map_of(ms, groups@),
            forall|x: int, k: int|
                0 <= x < groups@.len() && 0 <= k < groups@[x].definitions@.len() ==> valid_ref(ms, #[trigger] groups@[x].definitions@[k]),
            a <= groups@.len(),
            locs@.len() == a,
            forall|x: int|
                0 <= x < a ==> (#[trigger] locs@[x]).name@ == groups@[x].name@ && texts(locs@[x].paths@) == ref_paths(
                    ms,
                    groups@[x].definitions@,
                ),
        decreases groups.len() - a,
    {
        let defs = &groups[a].definitions;
        let mut paths: Vec<String> = Vec::new();
        let mut k: usize = 0;
        while k < defs.len()
            invariant
                ms == modules@,
                a < groups@.len(),
                defs@ == groups@[a as int].definitions@,
                forall|j: int| 0 <= j < defs@.len() ==> valid_ref(ms, #[trigger] defs@[j]),
                k <= defs@.len(),
                texts(paths@) == ref_paths(ms, defs@.take(k as int)),
            decreases defs.len() - k,
        {
            let r = defs[k];
            assert(valid_ref(ms, defs@[k as int]));
            let path = modules[r.module].file_path.clone();
            assert(path@ == ms[r.module as int].file_path@);
            let ghost before = paths@;
            paths.push(path);
            proof {
                assert(defs@.take(k + 1) =~= defs@.take(k as int).push(r));
                assert(ref_paths(ms, defs@.take(k + 1)) =~= ref_paths(ms, defs@.take(k as int)).push(path@));
                assert(texts(paths@) =~= texts(before).push(path@));
            }
            k = k + 1;
        }
        assert(defs@.take(defs@.len() as int) =~= defs@);
        locs.push(FixtureLocations { name: groups[a].name.clone(), paths });
        a = a + 1;
    }
    proof {
        assert forall|x: int|
            0 <= x < locs@.len() implies texts((#[trigger] locs@[x]).paths@) == ref_paths(ms, fixtures_named(ms, locs@[x].name@))
                && locs@[x].paths@.len() > 0 by {
            assert(groups@[x].definitions@ == fixtures_named(ms, groups@[x].name@));
            assert(texts(locs@[x].paths@).len() == locs@[x].paths@.len());
        }
        assert forall|x: int, y: int|
            0 <= x < locs@.len() && 0 <= y < locs@.len() && x != y implies #[trigger] locs@[x].name@ != #[trigger] locs@[y].name@ by {
            assert(groups@[x].name@ != groups@[y].name@);
        }
        assert forall|name: Seq<char>| #[trigger] fixtures_named(ms, name).len() > 0 implies exists|x: int|
            0 <= x < locs@.len() && locs@[x].name@ == name by {
            assert(refs_named(ms, all_fixture_refs(ms), name).len() > 0);
            let x = choose|x: int| 0 <= x < groups@.len() && groups@[x].name@ == name;
            assert(locs@[x].name@ == name);
        }
    }
    locs
}

/// Whether some fixture of `ms` named `name` is session-scoped and returns
/// mutable state.
pub open spec fn session_mutable(ms: Seq<ParsedModule>, name: Seq<char>) -> bool {
    exists|i: int, f: int|
        0 <= i < ms.len() && 0 <= f < ms[i].fixtures@.len() && #[trigger] ms[i].fixtures@[f].name@ == name
            && ms[i].fixtures@[f].scope == FixtureScope::Session && ms[i].fixtures@[f].returns_mutable
}

/// Whether `texts_contain` agrees with `contains` on the texts of `v`.
pub proof fn lemma_texts_contain(v: Seq<String>)
    ensures
        forall|n: Seq<char>| #![trigger texts(v).contains(n)] texts(v).contains(n) <==> texts_contain(v, n),
{
    assert forall|n: Seq<char>| #![trigger texts(v).contains(n)] texts(v).contains(n) <==> texts_contain(v, n) by {
        if texts(v).contains(n) {
            let j = choose|j: int| 0 <= j < texts(v).len() && texts(v)[j] == n;
            assert(v[j]@ == n);
        }
        if texts_contain(v, n) {
            let j = choose|j: int| 0 <= j < v.len() && #[trigger] v[j]@ == n;
            assert(texts(v)[j] == n);
        }
    }
}

/// Pushing `x` adds exactly `x`'s text.
pub proof fn lemma_texts_contain_push(v: Seq<String>, x: String)
    ensures
        forall|n: Seq<char>| #![trigger texts_contain(v.push(x), n)] texts_contain(v.push(x), n) <==> (texts_contain(v, n) || x@ == n),
{
    assert forall|n: Seq<char>| #![trigger texts_contain(v.push(x), n)] texts_contain(v.push(x), n) <==> (texts_contain(v, n) || x@ == n) by {
        if texts_contain(v.push(x), n) {
            let j = choose|j: int| 0 <= j < v.push(x).len() && #[trigger] v.push(x)[j]@ == n;
            if j < v.len() {
                assert(v[j]@ == n);
            }
        }
        if texts_contain(v, n) {
            let j = choose|j: int| 0 <= j < v.len() && #[trigger] v[j]@ == n;
            assert(v.push(x)[j]@ == n);
        }
        if x@ == n {
            assert(v.push(x)[v.len() as int]@ == n);
        }
    }
}

/// Whether fixture `f` of module `i` is session-scoped and returns mutable
/// state.
pub open spec fn is_session_mutable(ms: Seq<ParsedModule>, i: int, f: int) -> bool {
    ms[i].fixtures@[f].scope == FixtureScope::Session && ms[i].fixtures@[f].returns_mutable
}

/// The names of the session-scoped fixtures of `modules` that return
/// mutable state, each once.
pub fn compute_session_mutable_fixtures(modules: &[ParsedModule]) -> (r: Vec<String>)
    ensures
        texts(r@).no_duplicates(),
        forall|name: Seq<char>| texts(r@).contains(name) <==> session_mutable(modules@, name),
{
    let ghost ms = modules@;
    let mut names: Vec<String> = Vec::new();
    let mut i: usize = 0;
    while i < modules.len()
        invariant
            ms == modules@,
            i <= ms.len(),
            texts(names@).no_duplicates(),
            forall|name: Seq<char>|
                #![trigger texts_contain(names@, name)]
                texts_contain(names@, name) <==> exists|x: int, g: int|
                    0 <= x < i && 0 <= g < ms[x].fixtures@.len() && #[trigger] ms[x].fixtures@[g].name@ == name
                        && is_session_mutable(ms, x, g),
        decreases modules.len() - i,
    {
        let fixtures = &modules[i].fixtures;
        let mut f: usize = 0;
        while f < fixtures.len()
            invariant
                ms == modules@,
                i < ms.len(),
                fixtures@ == ms[i as int].fixtures@,
                f <= fixtures@.len(),
                texts(names@).no_duplicates(),
                forall|name: Seq<char>|
                    #![trigger texts_contain(names@, name)]
                    texts_contain(names@, name) <==> exists|x: int, g: int|
                        0 <= x <= i && 0 <= g < ms[x].fixtures@.len() && (x < i || g < f) && #[trigger] ms[x].fixtures@[g].name@
                            == name && is_session_mutable(ms, x, g),
            decreases fixtures.len() - f,
        {
            let fx = &fixtures[f];
            let hit = match fx.scope {
                FixtureScope::Session => fx.returns_mutable,
                _ => false,
            };
            assert(hit == is_session_mutable(ms, i as int, f as int));
            assert(ms[i as int].fixtures@[f as int].name@ == fx.name@);
            let ghost before = names@;
            if hit && !texts_contain_exec(&names, fx.name.as_str()) {
                let x = fx.name.clone();
                names.push(x);
                proof {
                    lemma_texts_contain_push(before, x);
                    assert(texts(names@) =~= texts(before).push(fx.name@));
                    lemma_texts_contain(before);
                }
            }
            proof {
                assert forall|name: Seq<char>|
                    #![trigger texts_contain(names@, name)]
                    texts_contain(names@, name) <==> exists|x: int, g: int|
                        0 <= x <= i && 0 <= g < ms[x].fixtures@.len() && (x < i || g < f + 1)
                            && #[trigger] ms[x].fixtures@[g].name@ == name && is_session_mutable(ms, x, g) by {
                    if exists|x: int, g: int|
                        0 <= x <= i && 0 <= g < ms[x].fixtures@.len() && (x < i || g < f + 1)
                            && #[trigger] ms[x].fixtures@[g].name@ == name && is_session_mutable(ms, x, g) {
                        let (x, g) = choose|x: int, g: int|
                            0 <= x <= i && 0 <= g < ms[x].fixtures@.len() && (x < i || g < f + 1)
                                && #[trigger] ms[x].fixtures@[g].name@ == name && is_session_mutable(ms, x, g);
                        if !(x == i && g == f) {
                            assert(texts_contain(before, name));
                        }
                    }
                }
            }
            f = f + 1;
        }
        i = i + 1;
    }
    proof {
        lemma_texts_contain(names@);
    }
    names
}

/// The position of the first group named `name`.
pub open spec fn group_named(groups: Seq<FixtureGroup>, name: Seq<char>) -> Option<int>
    decreases groups.len(),
{
    if groups.len() == 0 {
        None
    } else {
        match group_named(groups.drop_last(), name) {
            Some(a) => Some(a),
            None => if groups.last().name@ == name {
                Some(groups.len() - 1)
            } else {
                None
            },
        }
    }
}

/// The narrowest scope among the fixtures that `refs` points at, if any.
pub open spec fn narrowest_scope(ms: Seq<ParsedModule>, refs: Seq<FixtureRef>) -> Option<FixtureScope>
    decreases refs.len(),
{
    if refs.len() == 0 {
        None
    } else {
        let s = fixture_at(ms, refs.last()).scope;
        match narrowest_scope(ms, refs.drop_last()) {
            Some(m) => if scope_rank(s) < scope_rank(m) {
                Some(s)
            } else {
                Some(m)
            },
            None => Some(s),
        }
    }
}

fn scope_order(s: FixtureScope) -> (r: u8)
    ensures
        r == scope_rank(s),
{
    match s {
        FixtureScope::Function => 0,
        FixtureScope::Class => 1,
        FixtureScope::Module => 2,
        FixtureScope::Package => 3,
        FixtureScope::Session => 4,
    }
}

/// The narrowest scope among the definitions of the fixture `name` in the
/// fixture map `all_fixtures` of `modules`, or `None` where the map does not
/// hold the name.
pub fn fixture_scope_by_name(all_fixtures: &[FixtureGroup], modules: &[ParsedModule], name: &str) -> (r: Option<FixtureScope>)
    requires
        forall|a: int, k: int|
            0 <= a < all_fixtures@.len() && 0 <= k < all_fixtures@[a].definitions@.len() ==> valid_ref(
                modules@,
                #[trigger] all_fixtures@[a].definitions@[k],
            ),
    ensures
        r == match group_named(all_fixtures@, name@) {
            Some(a) => narrowest_scope(modules@, all_fixtures@[a].definitions@),
            None => None,
        },
{
    let ghost gs = all_fixtures@;
    let mut a: usize = 0;
    while a < all_fixtures.len()
        invariant
            gs == all_fixtures@,
            a <= gs.len(),
            group_named(gs.take(a as int), name@) is None,
            forall|x: int, k: int|
                0 <= x < gs.len() && 0 <= k < gs[x].definitions@.len() ==> valid_ref(modules@, #[trigger] gs[x].definitions@[k]),
        decreases all_fixtures.len() - a,
    {
        proof {
            assert(gs.take(a + 1).drop_last() =~= gs.take(a as int));
            assert(gs.take(a + 1).last() == gs[a as int]);
        }
        if str_eq(all_fixtures[a].name.as_str(), name) {
            proof {
                lemma_group_named_prefix(gs, a as int + 1, name@);
            }
            let defs = &all_fixtures[a].definitions;
            let mut best: Option<FixtureScope> = None;
            let mut k: usize = 0;
            while k < defs.len()
                invariant
                    a < gs.len(),
                    defs@ == gs[a as int].definitions@,
                    forall|j: int| 0 <= j < defs@.len() ==> valid_ref(modules@, #[trigger] defs@[j]),
                    k <= defs@.len(),
                    best == narrowest_scope(modules@, defs@.take(k as int)),
                decreases defs.len() - k,
            {
                let rf = defs[k];
                assert(valid_ref(modules@, defs@[k as int]));
                let sc = modules[rf.module].fixtures[rf.fixture].scope;
                proof {
                    assert(defs@.take(k + 1).drop_last() =~= defs@.take(k as int));
                    assert(defs@.take(k + 1).last() == rf);
                }
                best = match best {
                    Some(m) => if scope_order(sc) < scope_order(m) {
                        Some(sc)
                    } else {
                        Some(m)
                    },
                    None => Some(sc),
                };
                k = k + 1;
            }
            assert(defs@.take(defs@.len() as int) =~= defs@);
            return best;
        }
        a = a + 1;
    }
    assert(gs.take(gs.len() as int) =~= gs);
    None
}

proof fn lemma_group_named_prefix(gs: Seq<FixtureGroup>, i: int, name: Seq<char>)
    requires
        0 < i <= gs.len(),
        group_named(gs.take(i), name) is Some,
    ensures
        group_named(gs, name) == group_named(gs.take(i), name),
    decreases gs.len() - i,
{
    if i < gs.len() {
        assert(gs.take(i + 1).drop_last() =~= gs.take(i));
        lemma_group_named_prefix(gs, i + 1, name);
    } else {
        assert(gs.take(i) =~= gs);
    }
}

/// Whether some test of `ms` asks for the fixture `name`.
pub open spec fn requested_by_test(ms: Seq<ParsedModule>, name: Seq<char>) -> bool {
    exists|i: int, t: int|
        0 <= i < ms.len() && 0 <= t < ms[i].test_functions@.len() && texts_contain(
            #[trigger] ms[i].test_functions@[t].fixture_deps@,
            name,
        )
}

/// Whether some other fixture of `ms` depends on the fixture `name`.
pub open spec fn requested_by_fixture(ms: Seq<ParsedModule>, name: Seq<char>) -> bool {
    exists|i: int, f: int|
        0 <= i < ms.len() && 0 <= f < ms[i].fixtures@.len() && ms[i].fixtures@[f].name@ != name && texts_contain(
            #[trigger] ms[i].fixtures@[f].dependencies@,
            name,
        )
}

/// Whether a test, or another fixture, of `modules` asks for the fixture
/// `fixture_name`.
pub fn is_fixture_used_by_any_test_or_fixture(fixture_name: &str, modules: &[ParsedModule]) -> (r: bool)
    ensures
        r == (requested_by_test(modules@, fixture_name@) || requested_by_fixture(modules@, fixture_name@)),
{
    let ghost ms = modules@;
    let ghost name = fixture_name@;
    let mut i: usize = 0;
    while i < modules.len()
        invariant
            ms == modules@,
            name == fixture_name@,
            i <= ms.len(),
            forall|x: int, t: int|
                0 <= x < i && 0 <= t < ms[x].test_functions@.len() ==> !texts_contain(
                    #[trigger] ms[x].test_functions@[t].fixture_deps@,
                    name,
                ),
            forall|x: int, f: int|
                0 <= x < i && 0 <= f < ms[x].fixtures@.len() && ms[x].fixtures@[f].name@ != name ==> !texts_contain(
                    #[trigger] ms[x].fixtures@[f].dependencies@,
                    name,
                ),
        decreases modules.len() - i,
    {
        let module = &modules[i];
        let mut t: usize = 0;
        while t < module.test_functions.len()
            invariant
                ms == modules@,
                name == fixture_name@,
                i < ms.len(),
                *module == ms[i as int],
                t <= module.test_functions@.len(),
                forall|u: int| 0 <= u < t ==> !texts_contain(#[trigger] module.test_functions@[u].fixture_deps@, name),
            decreases module.test_functions.len() - t,
        {
            if texts_contain_exec(&module.test_functions[t].fixture_deps, fixture_name) {
                assert(texts_contain(ms[i as int].test_functions@[t as int].fixture_deps@, name));
                return true;
            }
            t = t + 1;
        }
        let mut f: usize = 0;
        while f < module.fixtures.len()
            invariant
                ms == modules@,
                name == fixture_name@,
                i < ms.len(),
                *module == ms[i as int],
                f <= module.fixtures@.len(),
                forall|g: int|
                    0 <= g < f && module.fixtures@[g].name@ != name ==> !texts_contain(
                        #[trigger] module.fixtures@[g].dependencies@,
                        name,
                    ),
            decreases module.fixtures.len() - f,
        {
            let other = &module.fixtures[f];
            if !str_eq(other.name.as_str(), fixture_name) && texts_contain_exec(&other.dependencies, fixture_name) {
                assert(texts_contain(ms[i as int].fixtures@[f as int].dependencies@, name));
                return true;
            }
            f = f + 1;
        }
        i = i + 1;
    }
    false
}

/// The definition of the fixture `name` whose dependencies count when
/// fixtures are resolved by name: the last one in `ms`.
pub open spec fn governing_definition(ms: Seq<ParsedModule>, name: Seq<char>) -> Option<FixtureRef> {
    let defs = fixtures_named(ms, name);
    if defs.len() == 0 {
        None
    } else {
        Some(defs.last())
    }
}

/// Whether the fixture `a` depends on `b`.
pub open spec fn depends_on(ms: Seq<ParsedModule>, a: Seq<char>, b: Seq<char>) -> bool {
    match governing_definition(ms, a) {
        Some(r) => texts_contain(fixture_at(ms, r).dependencies@, b),
        None => false,
    }
}

/// Whether `path` starts at a fixture that a test asks for, each name
/// depending on the next.
pub open spec fn dependency_chain(ms: Seq<ParsedModule>, path: Seq<Seq<char>>) -> bool {
    &&& path.len() > 0
    &&& requested_by_test(ms, path[0])
    &&& forall|k: int| 0 <= k < path.len() - 1 ==> #[trigger] depends_on(ms, path[k], path[k + 1])
}

/// Whether the fixture `name` is used: some test asks for it, directly or
/// through the dependencies of the fixtures it asks for.
pub open spec fn fixture_in_use(ms: Seq<ParsedModule>, name: Seq<char>) -> bool {
    exists|path: Seq<Seq<char>>| #[trigger] dependency_chain(ms, path) && path.last() == name
}

/// Extending a chain to a dependency of its last name gives a chain.
proof fn lemma_chain_extend(ms: Seq<ParsedModule>, a: Seq<char>, b: Seq<char>)
    requires
        fixture_in_use(ms, a),
        depends_on(ms, a, b),
    ensures
        fixture_in_use(ms, b),
{
    let p = choose|path: Seq<Seq<char>>| #[trigger] dependency_chain(ms, path) && path.last() == a;
    let q = p.push(b);
    assert forall|k: int| 0 <= k < q.len() - 1 implies #[trigger] depends_on(ms, q[k], q[k + 1]) by {
        if k < p.len() - 1 {
            assert(depends_on(ms, p[k], p[k + 1]));
        } else {
            assert(q[k] == a);
        }
    }
    assert(dependency_chain(ms, q));
}

/// A name that a test asks for is in use.
proof fn lemma_chain_start(ms: Seq<ParsedModule>, a: Seq<char>)
    requires
        requested_by_test(ms, a),
    ensures
        fixture_in_use(ms, a),
{
    let q = seq![a];
    assert(dependency_chain(ms, q));
}

/// A set of names that holds every fixture a test asks for and is closed
/// under dependencies holds every fixture in use.
proof fn lemma_closed_holds_chain(ms: Seq<ParsedModule>, used: Seq<String>, path: Seq<Seq<char>>)
    requires
        forall|n: Seq<char>| requested_by_test(ms, n) ==> #[trigger] texts_contain(used, n),
        forall|a: Seq<char>, b: Seq<char>|
            #[trigger] texts_contain(used, a) && #[trigger] depends_on(ms, a, b) ==> texts_contain(used, b),
        dependency_chain(ms, path),
    ensures
        texts_contain(used, path.last()),
    decreases path.len(),
{
    if path.len() > 1 {
        let p = path.drop_last();
        assert forall|k: int| 0 <= k < p.len() - 1 implies #[trigger] depends_on(ms, p[k], p[k + 1]) by {
            assert(depends_on(ms, path[k], path[k + 1]));
        }
        lemma_closed_holds_chain(ms, used, p);
        let k = path.len() - 2;
        assert(depends_on(ms, path[k], path[k + 1]));
        assert(path[k + 1] == path.last());
    }
}

/// The number of entries of `e` that are unset.
pub open spec fn unset_count(e: Seq<bool>) -> nat
    decreases e.len(),
{
    if e.len() == 0 {
        0
    } else {
        unset_count(e.drop_last()) + if e.last() {
            0nat
        } else {
            1nat
        }
    }
}

proof fn lemma_unset_count_set(e: Seq<bool>, k: int)
    requires
        0 <= k < e.len(),
        !e[k],
    ensures
        unset_count(e.update(k, true)) + 1 == unset_count(e),
    decreases e.len(),
{
    let f = e.update(k, true);
    if k == e.len() - 1 {
        assert(f.drop_last() =~= e.drop_last());
    } else {
        assert(f.drop_last() =~= e.drop_last().update(k, true));
        lemma_unset_count_set(e.drop_last(), k);
    }
}

/// The names of the fixtures of `modules` that are in use, each once: those
/// a test asks for, and, transitively, the dependencies of each (taken from
/// the last definition of a fixture name).
pub fn compute_used_fixture_names(modules: &[ParsedModule]) -> (r: Vec<String>)
    ensures
        texts(r@).no_duplicates(),
        forall|name: Seq<char>| texts(r@).contains(name) <==> fixture_in_use(modules@, name),
{
    let ghost ms = modules@;
    let count = modules.len();
    assert(ms.len() <= usize::MAX);
    let groups = collect_all_fixtures(modules);
    proof {
        lemma_fixture_map_valid(ms, groups@);
    }
    let mut used: Vec<String> = Vec::new();
    let mut worklist: Vec<String> = Vec::new();
    let mut i: usize = 0;
    while i < modules.len()
        invariant
            ms == modules@,
            i <= ms.len(),
            worklist@ == used@,
            texts(used@).no_duplicates(),
            forall|n: Seq<char>| #[trigger] texts_contain(used@, n) ==> fixture_in_use(ms, n),
            forall|x: int, t: int, n: Seq<char>|
                0 <= x < i && 0 <= t < ms[x].test_functions@.len() && texts_contain(
                    #[trigger] ms[x].test_functions@[t].fixture_deps@,
                    n,
                ) ==> #[trigger] texts_contain(used@, n),
        decreases modules.len() - i,
    {
        let tests = &modules[i].test_functions;
        let mut t: usize = 0;
        while t < tests.len()
            invariant
                ms == modules@,
                i < ms.len(),
                tests@ == ms[i as int].test_functions@,
                t <= tests@.len(),
                worklist@ == used@,
                texts(used@).no_duplicates(),
                forall|n: Seq<char>| #[trigger] texts_contain(used@, n) ==> fixture_in_use(ms, n),
                forall|x: int, u: int, n: Seq<char>|
                    0 <= x <= i && 0 <= u < ms[x].test_functions@.len() && (x < i || u < t) && texts_contain(
                        #[trigger] ms[x].test_functions@[u].fixture_deps@,
                        n,
                    ) ==> #[trigger] texts_contain(used@, n),
            decreases tests.len() - t,
        {
            let deps = &tests[t].fixture_deps;
            let mut d: usize = 0;
            while d < deps.len()
                invariant
                    ms == modules@,
                    i < ms.len(),
                    tests@ == ms[i as int].test_functions@,
                    t < tests@.len(),
                    deps@ == tests@[t as int].fixture_deps@,
                    d <= deps@.len(),
                    worklist@ == used@,
                    texts(used@).no_duplicates(),
                    forall|n: Seq<char>| #[trigger] texts_contain(used@, n) ==> fixture_in_use(ms, n),
                    forall|x: int, u: int, n: Seq<char>|
                        0 <= x <= i && 0 <= u < ms[x].test_functions@.len() && (x < i || u < t) && texts_contain(
                            #[trigger] ms[x].test_functions@[u].fixture_deps@,
                            n,
                        ) ==> #[trigger] texts_contain(used@, n),
                    forall|e: int| 0 <= e < d ==> texts_contain(used@, #[trigger] deps@[e]@),
                decreases deps.len() - d,
            {
                let dep = &deps[d];
                if !texts_contain_exec(&used, dep.as_str()) {
                    let ghost before = used@;
                    proof {
                        assert(texts_contain(ms[i as int].test_functions@[t as int].fixture_deps@, dep@));
                        assert(requested_by_test(ms, dep@));
                        lemma_chain_start(ms, dep@);
                        lemma_texts_contain(before);
                    }
                    used.push(dep.clone());
                    worklist.push(dep.clone());
                    proof {
                        lemma_texts_contain_push(before, used@.last());
                        assert(used@ == before.push(used@.last()));
                        assert(texts(used@) =~= texts(before).push(dep@));
                    }
                }
                d = d + 1;
            }
            proof {
                assert forall|x: int, u: int, n: Seq<char>|
                    0 <= x <= i && 0 <= u < ms[x].test_functions@.len() && (x < i || u < t + 1) && texts_contain(
                        #[trigger] ms[x].test_functions@[u].fixture_deps@,
                        n,
                    ) implies #[trigger] texts_contain(used@, n) by {
                    if x == i && u == t {
                        let e = choose|e: int| 0 <= e < deps@.len() && #[trigger] deps@[e]@ == n;
                        assert(texts_contain(used@, deps@[e]@));
                    }
                }
            }
            t = t + 1;
        }
        i = i + 1;
    }
    let ghost mut expanded: Seq<bool> = Seq::new(groups@.len(), |a: int| false);
    while worklist.len() > 0
        invariant
            ms == modules@,
            fixture_map_of(ms, groups@),
            forall|x: int, k: int|
                0 <= x < groups@.len() && 0 <= k < groups@[x].definitions@.len() ==> valid_ref(ms, #[trigger] groups@[x].definitions@[k])
                    && ref_name(ms, groups@[x].definitions@[k]) == groups@[x].name@,
            expanded.len() == groups@.len(),
            texts(used@).no_duplicates(),
            texts(worklist@).no_duplicates(),
            forall|n: Seq<char>| #[trigger] texts_contain(worklist@, n) ==> texts_contain(used@, n),
            forall|n: Seq<char>| #[trigger] texts_contain(used@, n) ==> fixture_in_use(ms, n),
            forall|n: Seq<char>| requested_by_test(ms, n) ==> #[trigger] texts_contain(used@, n),
            forall|a: Seq<char>, b: Seq<char>|
                #[trigger] texts_contain(used@, a) && !texts_contain(worklist@, a) && #[trigger] depends_on(ms, a, b)
                    ==> texts_contain(used@, b),
            forall|k: int|
                0 <= k < groups@.len() && #[trigger] expanded[k] ==> !texts_contain(worklist@, groups@[k].name@)
                    && texts_contain(used@, groups@[k].name@),
        decreases unset_count(expanded), worklist@.len(),
    {
        let ghost wl = worklist@;
        let name = match worklist.pop() {
            Some(n) => n,
            None => {
                return used;
            },
        };
        proof {
            assert(wl == worklist@.push(name));
            assert(texts_contain(wl, name@)) by {
                assert(wl[wl.len() - 1] == name);
            }
            assert forall|n: Seq<char>| texts_contain(wl, n) <==> (texts_contain(worklist@, n) || name@ == n) by {
                lemma_texts_contain_push(worklist@, name);
            }
            assert(!texts_contain(worklist@, name@)) by {
                if texts_contain(worklist@, name@) {
                    let j = choose|j: int| 0 <= j < worklist@.len() && #[trigger] worklist@[j]@ == name@;
                    assert(texts(wl)[j] == texts(wl)[wl.len() - 1]);
                }
            }
            assert(texts(worklist@) =~= texts(wl).drop_last());
            assert forall|n: Seq<char>| #[trigger] texts_contain(worklist@, n) implies texts_contain(used@, n) by {
                assert(texts_contain(wl, n));
            }
        }
        match find_fixture_group(&groups, name.as_str()) {
            Some(k) => {
                let defs = &groups[k].definitions;
                assert(defs@ == fixtures_named(ms, name@));
                assert(!expanded[k as int]);
                let rf = defs[defs.len() - 1];
                assert(valid_ref(ms, defs@[defs@.len() - 1]));
                assert(governing_definition(ms, name@) == Some(rf));
                let deps = &modules[rf.module].fixtures[rf.fixture].dependencies;
                assert(deps@ == fixture_at(ms, rf).dependencies@);
                proof {
                    lemma_unset_count_set(expanded, k as int);
                    expanded = expanded.update(k as int, true);
                }
                let mut d: usize = 0;
                while d < deps.len()
                    invariant
                        ms == modules@,
                        fixture_map_of(ms, groups@),
                        k < groups@.len(),
                        groups@[k as int].name@ == name@,
                        expanded.len() == groups@.len(),
                        expanded[k as int],
                        deps@ == fixture_at(ms, rf).dependencies@,
                        governing_definition(ms, name@) == Some(rf),
                        d <= deps@.len(),
                        texts_contain(used@, name@),
                        !texts_contain(worklist@, name@),
                        texts(used@).no_duplicates(),
                        texts(worklist@).no_duplicates(),
                        forall|n: Seq<char>| #[trigger] texts_contain(worklist@, n) ==> texts_contain(used@, n),
                        forall|n: Seq<char>| #[trigger] texts_contain(used@, n) ==> fixture_in_use(ms, n),
                        forall|n: Seq<char>| requested_by_test(ms, n) ==> #[trigger] texts_contain(used@, n),
                        forall|a: Seq<char>, b: Seq<char>|
                            #[trigger] texts_contain(used@, a) && !texts_contain(worklist@, a) && a != name@
                                && #[trigger] depends_on(ms, a, b) ==> texts_contain(used@, b),
                        forall|e: int| 0 <= e < d ==> texts_contain(used@, #[trigger] deps@[e]@),
                        forall|x: int|
                            0 <= x < groups@.len() && #[trigger] expanded[x] ==> !texts_contain(worklist@, groups@[x].name@)
                                && texts_contain(used@, groups@[x].name@),
                    decreases deps.len() - d,
                {
                    let dep = &deps[d];
                    if !texts_contain_exec(&used, dep.as_str()) {
                        let ghost bu = used@;
                        let ghost bw = worklist@;
                        proof {
                            assert(!texts_contain(bw, dep@));
                            assert(!texts(bw).contains(dep@)) by {
                                lemma_texts_contain(bw);
                            }
                            assert(texts_contain(fixture_at(ms, rf).dependencies@, dep@)) by {
                                assert(fixture_at(ms, rf).dependencies@[d as int]@ == dep@);
                            }
                            assert(depends_on(ms, name@, dep@));
                            lemma_chain_extend(ms, name@, dep@);
                            lemma_texts_contain(bu);
                            lemma_texts_contain(bw);
                        }
                        used.push(dep.clone());
                        worklist.push(dep.clone());
                        proof {
                            lemma_texts_contain_push(bu, used@.last());
                            lemma_texts_contain_push(bw, worklist@.last());
                            assert(used@ == bu.push(used@.last()));
                            assert(worklist@ == bw.push(worklist@.last()));
                            assert(texts(used@) =~= texts(bu).push(dep@));
                            assert(texts(worklist@) =~= texts(bw).push(dep@));
                            assert(texts(worklist@).no_duplicates()) by {
                                assert forall|x: int, y: int|
                                    0 <= x < texts(worklist@).len() && 0 <= y < texts(worklist@).len() && x != y implies texts(
                                        worklist@,
                                    )[x] != texts(worklist@)[y] by {
                                    if x < texts(bw).len() && y < texts(bw).len() {
                                    } else if x < texts(bw).len() {
                                        assert(texts(bw)[x] == texts(worklist@)[x]);
                                    } else if y < texts(bw).len() {
                                        assert(texts(bw)[y] == texts(worklist@)[y]);
                                    }
                                }
                            }
                            assert forall|x: int|
                                0 <= x < groups@.len() && #[trigger] expanded[x] implies !texts_contain(worklist@, groups@[x].name@)
                                    && texts_contain(used@, groups@[x].name@) by {
                                if groups@[x].name@ == dep@ {
                                    assert(texts_contain(bu, dep@));
                                }
                            }
                        }
                    }
                    d = d + 1;
                }
                proof {
                    assert forall|b: Seq<char>| #[trigger] depends_on(ms, name@, b) implies texts_contain(used@, b) by {
                        let e = choose|e: int| 0 <= e < deps@.len() && #[trigger] deps@[e]@ == b;
                        assert(texts_contain(used@, deps@[e]@));
                    }
                }
            },
            None => {
                proof {
                    assert forall|b: Seq<char>| !#[trigger] depends_on(ms, name@, b) by {
                        if fixtures_named(ms, name@).len() > 0 {
                            let a = choose|a: int| 0 <= a < groups@.len() && groups@[a].name@ == name@;
                        }
                    }
                }
            },
        }
    }
    proof {
        assert forall|a: Seq<char>, b: Seq<char>|
            #[trigger] texts_contain(used@, a) && #[trigger] depends_on(ms, a, b) implies texts_contain(used@, b) by {
            assert(!texts_contain(worklist@, a));
        }
        assert forall|n: Seq<char>| fixture_in_use(ms, n) implies texts_contain(used@, n) by {
            let p = choose|path: Seq<Seq<char>>| #[trigger] dependency_chain(ms, path) && path.last() == n;
            lemma_closed_holds_chain(ms, used@, p);
        }
        lemma_texts_contain(used@);
    }
    used
}

/// The non-empty pieces of `parts`, each trimmed, in order.
pub open spec fn trimmed_pieces(parts: Seq<Seq<char>>) -> Seq<Seq<char>>
    decreases parts.len(),
{
    if parts.len() == 0 {
        Seq::empty()
    } else {
        let t = trim(parts.last());
        trimmed_pieces(parts.drop_last()) + if t.len() > 0 {
            seq![t]
        } else {
            Seq::empty()
        }
    }
}

/// The rule list that stands for every rule.
pub open spec fn every_rule() -> Seq<Seq<char>> {
    seq!["*"@]
}

/// The rules a `# noqa` comment on `line` suppresses, if the line holds
/// one: after the first `# noqa` of the trimmed line, nothing (every rule),
/// or a colon and a comma-separated list of rule IDs (every rule where the
/// list holds none); anything else is no suppression.
pub open spec fn noqa_rules(line: Seq<char>) -> Option<Seq<Seq<char>>> {
    let t = trim(line);
    match first_occurrence(t, "# noqa"@) {
        None => None,
        Some(p) => {
            let after = trim(t.subrange(p + 6, t.len() as int));
            if after.len() == 0 {
                Some(every_rule())
            } else if after[0] == ':' {
                let listed = trimmed_pieces(split(trim(after.subrange(1, after.len() as int)), ','));
                if listed.len() == 0 {
                    Some(every_rule())
                } else {
                    Some(listed)
                }
            } else {
                None
            }
        },
    }
}

fn every_rule_exec() -> (r: Vec<String>)
    ensures
        texts(r@) == every_rule(),
{
    let mut r: Vec<String> = Vec::new();
    r.push(String::from_str("*"));
    assert(texts(r@) =~= every_rule());
    r
}

/// The rules a `# noqa` comment on `line` suppresses (`"*"` for every
/// rule), or `None` where the line holds no such comment.
pub fn parse_noqa_comment(line: &str) -> (r: Option<Vec<String>>)
    ensures
        match noqa_rules(line@) {
            None => r is None,
            Some(rs) => r matches Some(v) && texts(v@) == rs,
        },
{
    let t = trim_exec(&chars_of(line));
    let needle = chars_of("# noqa");
    proof {
        reveal_strlit("# noqa");
    }
    let p = match find(&t, &needle) {
        Some(p) => p,
        None => {
            return None;
        },
    };
    assert(occurs_at(t@, needle@, p as int));
    assert(needle@.len() == 6);
    let n = t.len();
    assert(p + 6 <= n);
    let rest = slice_chars(&t, p + 6, n);
    let after = trim_exec(&rest);
    if after.len() == 0 {
        return Some(every_rule_exec());
    }
    if after[0] != ':' {
        return None;
    }
    let inner = slice_chars(&after, 1, after.len());
    let listed = trim_exec(&inner);
    let parts = split_exec(&listed, ',');
    let ghost pv = parts@.map_values(|q: Vec<char>| q@);
    let mut rules: Vec<String> = Vec::new();
    let mut k: usize = 0;
    while k < parts.len()
        invariant
            pv == parts@.map_values(|q: Vec<char>| q@),
            k <= parts@.len(),
            texts(rules@) == trimmed_pieces(pv.take(k as int)),
        decreases parts.len() - k,
    {
        let piece = trim_exec(&parts[k]);
        proof {
            assert(pv.take(k + 1).drop_last() =~= pv.take(k as int));
            assert(pv.take(k + 1).last() == parts@[k as int]@);
        }
        if piece.len() > 0 {
            let ghost before = rules@;
            rules.push(string_of_all(&piece));
            proof {
                assert(texts(rules@) =~= texts(before).push(piece@));
            }
        } else {
            proof {
                assert(trimmed_pieces(pv.take(k + 1)) =~= trimmed_pieces(pv.take(k as int)));
            }
        }
        k = k + 1;
    }
    assert(pv.take(pv.len() as int) =~= pv);
    if rules.len() == 0 {
        Some(every_rule_exec())
    } else {
        Some(rules)
    }
}

/// The rules one `# noqa` comment suppresses at one line of one file.
#[derive(Debug, Clone)]
pub struct Suppression {
    pub file_path: String,
    pub line: usize,
    pub rules: Vec<String>,
    /// Made for the line after the comment: it covers that line only, and
    /// does not reach the line below it.
    pub carried: bool,
}

/// Everything the `# noqa` comments of a set of modules suppress.
#[derive(Debug, Clone)]
pub struct Suppressions {
    pub entries: Vec<Suppression>,
}

/// Whether `es` holds an entry for line `line` of `file`.
pub open spec fn holds_key(es: Seq<Suppression>, file: Seq<char>, line: int) -> bool {
    exists|e: int| 0 <= e < es.len() && #[trigger] es[e].file_path@ == file && es[e].line == line
}

/// Whether `es` suppresses the rule `rule` at line `line` of `file`.
pub open spec fn suppresses(es: Seq<Suppression>, file: Seq<char>, line: int, rule: Seq<char>) -> bool {
    exists|e: int|
        0 <= e < es.len() && #[trigger] es[e].file_path@ == file && es[e].line == line && texts_contain(es[e].rules@, rule)
}

/// Whether `es` suppresses the rule `rule` at line `line` of `file` by an
/// entry made for the comment's own line.
pub open spec fn suppresses_own(es: Seq<Suppression>, file: Seq<char>, line: int, rule: Seq<char>) -> bool {
    exists|e: int|
        0 <= e < es.len() && #[trigger] es[e].file_path@ == file && es[e].line == line && !es[e].carried
            && texts_contain(es[e].rules@, rule)
}

/// Whether line `l` (counting from 0) of module `x` holds a `# noqa`
/// comment that covers line `line` (counting from 1) of `file`: the
/// comment's own line and the next one.
pub open spec fn noqa_key(ms: Seq<ParsedModule>, x: int, l: int, file: Seq<char>, line: int) -> bool {
    &&& 0 <= x < ms.len()
    &&& ms[x].file_path@ == file
    &&& 0 <= l < lines(ms[x].source@).len()
    &&& line == l + 1 || line == l + 2
    &&& noqa_rules(lines(ms[x].source@)[l]) is Some
}

/// Whether that comment suppresses `rule`.
pub open spec fn noqa_hit(ms: Seq<ParsedModule>, x: int, l: int, file: Seq<char>, line: int, rule: Seq<char>) -> bool {
    &&& noqa_key(ms, x, l, file, line)
    &&& noqa_rules(lines(ms[x].source@)[l])->0.contains(rule)
}

/// Whether line `l` (counting from 0) of module `x` is line `line`
/// (counting from 1) of `file` and holds a `# noqa` comment that suppresses
/// `rule`.
pub open spec fn noqa_own_hit(ms: Seq<ParsedModule>, x: int, l: int, file: Seq<char>, line: int, rule: Seq<char>) -> bool {
    &&& noqa_hit(ms, x, l, file, line, rule)
    &&& line == l + 1
}

/// Whether a `# noqa` comment on line `line` of `file` suppresses `rule`.
pub open spec fn noqa_own_suppresses(ms: Seq<ParsedModule>, file: Seq<char>, line: int, rule: Seq<char>) -> bool {
    exists|x: int, l: int| #[trigger] noqa_own_hit(ms, x, l, file, line, rule)
}

/// Whether some `# noqa` comment of `ms` covers line `line` of `file`.
pub open spec fn noqa_covers(ms: Seq<ParsedModule>, file: Seq<char>, line: int) -> bool {
    exists|x: int, l: int| #[trigger] noqa_key(ms, x, l, file, line)
}

/// Whether some `# noqa` comment of `ms` suppresses `rule` at line `line`
/// of `file`.
pub open spec fn noqa_suppresses(ms: Seq<ParsedModule>, file: Seq<char>, line: int, rule: Seq<char>) -> bool {
    exists|x: int, l: int| #[trigger] noqa_hit(ms, x, l, file, line, rule)
}

proof fn lemma_entries_push(es: Seq<Suppression>, e: Suppression)
    ensures
        forall|file: Seq<char>, line: int|
            #![trigger holds_key(es.push(e), file, line)]
            holds_key(es.push(e), file, line) <==> (holds_key(es, file, line) || (e.file_path@ == file && e.line == line)),
        forall|file: Seq<char>, line: int, rule: Seq<char>|
            #![trigger suppresses(es.push(e), file, line, rule)]
            suppresses(es.push(e), file, line, rule) <==> (suppresses(es, file, line, rule) || (e.file_path@ == file
                && e.line == line && texts_contain(e.rules@, rule))),
        forall|file: Seq<char>, line: int, rule: Seq<char>|
            #![trigger suppresses_own(es.push(e), file, line, rule)]
            suppresses_own(es.push(e), file, line, rule) <==> (suppresses_own(es, file, line, rule) || (e.file_path@
                == file && e.line == line && !e.carried && texts_contain(e.rules@, rule))),
{
    let f = es.push(e);
    assert forall|file: Seq<char>, line: int|
        #![trigger holds_key(f, file, line)]
        holds_key(f, file, line) <==> (holds_key(es, file, line) || (e.file_path@ == file && e.line == line)) by {
        if holds_key(f, file, line) {
            let k = choose|k: int| 0 <= k < f.len() && #[trigger] f[k].file_path@ == file && f[k].line == line;
            if k < es.len() {
                assert(es[k] == f[k]);
            }
        }
        if holds_key(es, file, line) {
            let k = choose|k: int| 0 <= k < es.len() && #[trigger] es[k].file_path@ == file && es[k].line == line;
            assert(f[k] == es[k]);
        }
        if e.file_path@ == file && e.line == line {
            assert(f[es.len() as int] == e);
        }
    }
    assert forall|file: Seq<char>, line: int, rule: Seq<char>|
        #![trigger suppresses(f, file, line, rule)]
        suppresses(f, file, line, rule) <==> (suppresses(es, file, line, rule) || (e.file_path@ == file && e.line == line
            && texts_contain(e.rules@, rule))) by {
        if suppresses(f, file, line, rule) {
            let k = choose|k: int|
                0 <= k < f.len() && #[trigger] f[k].file_path@ == file && f[k].line == line && texts_contain(f[k].rules@, rule);
            if k < es.len() {
                assert(es[k] == f[k]);
            }
        }
        if suppresses(es, file, line, rule) {
            let k = choose|k: int|
                0 <= k < es.len() && #[trigger] es[k].file_path@ == file && es[k].line == line && texts_contain(es[k].rules@, rule);
            assert(f[k] == es[k]);
        }
        if e.file_path@ == file && e.line == line && texts_contain(e.rules@, rule) {
            assert(f[es.len() as int] == e);
        }
    }
    assert forall|file: Seq<char>, line: int, rule: Seq<char>|
        #![trigger suppresses_own(f, file, line, rule)]
        suppresses_own(f, file, line, rule) <==> (suppresses_own(es, file, line, rule) || (e.file_path@ == file
            && e.line == line && !e.carried && texts_contain(e.rules@, rule))) by {
        if suppresses_own(f, file, line, rule) {
            let k = choose|k: int|
                0 <= k < f.len() && #[trigger] f[k].file_path@ == file && f[k].line == line && !f[k].carried
                    && texts_contain(f[k].rules@, rule);
            if k < es.len() {
                assert(es[k] == f[k]);
            }
        }
        if suppresses_own(es, file, line, rule) {
            let k = choose|k: int|
                0 <= k < es.len() && #[trigger] es[k].file_path@ == file && es[k].line == line && !es[k].carried
                    && texts_contain(es[k].rules@, rule);
            assert(f[k] == es[k]);
        }
        if e.file_path@ == file && e.line == line && !e.carried && texts_contain(e.rules@, rule) {
            assert(f[es.len() as int] == e);
        }
    }
}

fn copy_texts(v: &Vec<String>) -> (r: Vec<String>)
    ensures
        texts(r@) == texts(v@),
{
    let mut r: Vec<String> = Vec::new();
    let mut k: usize = 0;
    while k < v.len()
        invariant
            k <= v@.len(),
            texts(r@) == texts(v@.take(k as int)),
        decreases v.len() - k,
    {
        let ghost before = r@;
        r.push(v[k].clone());
        proof {
            assert(texts(r@) =~= texts(before).push(v@[k as int]@));
            assert(texts(v@.take(k + 1)) =~= texts(v@.take(k as int)).push(v@[k as int]@));
        }
        k = k + 1;
    }
    assert(v@.take(v@.len() as int) =~= v@);
    r
}

/// What the `# noqa` comments of `modules` suppress: a comment's rules at
/// its own line and, carried, at the next one.
pub fn collect_suppressions(modules: &[ParsedModule]) -> (r: Suppressions)
    ensures
        forall|file: Seq<char>, line: usize, rule: Seq<char>|
            #![trigger suppresses_own(r.entries@, file, line as int, rule)]
            suppresses_own(r.entries@, file, line as int, rule) <==> noqa_own_suppresses(modules@, file, line as int, rule),
        forall|file: Seq<char>, line: usize|
            #![trigger holds_key(r.entries@, file, line as int)]
            holds_key(r.entries@, file, line as int) <==> noqa_covers(modules@, file, line as int),
        forall|file: Seq<char>, line: usize, rule: Seq<char>|
            #![trigger suppresses(r.entries@, file, line as int, rule)]
            suppresses(r.entries@, file, line as int, rule) <==> noqa_suppresses(modules@, file, line as int, rule),
{
    let ghost ms = modules@;
    let mut entries: Vec<Suppression> = Vec::new();
    let mut i: usize = 0;
    while i < modules.len()
        invariant
            ms == modules@,
            i <= ms.len(),
            forall|file: Seq<char>, line: usize|
                #![trigger holds_key(entries@, file, line as int)]
                holds_key(entries@, file, line as int) <==> exists|x: int, l: int|
                    x < i && #[trigger] noqa_key(ms, x, l, file, line as int),
            forall|file: Seq<char>, line: usize, rule: Seq<char>|
                #![trigger suppresses(entries@, file, line as int, rule)]
                suppresses(entries@, file, line as int, rule) <==> exists|x: int, l: int|
                    x < i && #[trigger] noqa_hit(ms, x, l, file, line as int, rule),
            forall|file: Seq<char>, line: usize, rule: Seq<char>|
                #![trigger suppresses_own(entries@, file, line as int, rule)]
                suppresses_own(entries@, file, line as int, rule) <==> exists|x: int, l: int|
                    x < i && #[trigger] noqa_own_hit(ms, x, l, file, line as int, rule),
        decreases modules.len() - i,
    {
        let module = &modules[i];
        let ls = lines_exec(module.source.as_str());
        let ghost lv = ls@.map_values(|q: String| q@);
        assert(lv == lines(ms[i as int].source@));
        let mut k: usize = 0;
        while k < ls.len()
            invariant
                ms == modules@,
                i < ms.len(),
                *module == ms[i as int],
                lv == ls@.map_values(|q: String| q@),
                lv == lines(ms[i as int].source@),
                k <= ls@.len(),
                forall|file: Seq<char>, line: usize|
                    #![trigger holds_key(entries@, file, line as int)]
                    holds_key(entries@, file, line as int) <==> exists|x: int, l: int|
                        (x < i || (x == i && l < k)) && #[trigger] noqa_key(ms, x, l, file, line as int),
                forall|file: Seq<char>, line: usize, rule: Seq<char>|
                    #![trigger suppresses(entries@, file, line as int, rule)]
                    suppresses(entries@, file, line as int, rule) <==> exists|x: int, l: int|
                        (x < i || (x == i && l < k)) && #[trigger] noqa_hit(ms, x, l, file, line as int, rule),
                forall|file: Seq<char>, line: usize, rule: Seq<char>|
                    #![trigger suppresses_own(entries@, file, line as int, rule)]
                    suppresses_own(entries@, file, line as int, rule) <==> exists|x: int, l: int|
                        (x < i || (x == i && l < k)) && #[trigger] noqa_own_hit(ms, x, l, file, line as int, rule),
            decreases ls.len() - k,
        {
            assert(lv[k as int] == ls@[k as int]@);
            match parse_noqa_comment(ls[k].as_str()) {
                Some(rules) => {
                    let ghost rs = texts(rules@);
                    proof {
                        lemma_texts_contain(rules@);
                    }
                    let ghost e0 = entries@;
                    entries.push(Suppression { file_path: module.file_path.clone(), line: k + 1, rules: copy_texts(&rules), carried: false });
                    proof {
                        lemma_entries_push(e0, entries@.last());
                        assert(entries@ == e0.push(entries@.last()));
                        lemma_texts_contain(entries@.last().rules@);
                    }
                    let ghost e1 = entries@;
                    let next = k.checked_add(2);
                    match next {
                        Some(n) => {
                            entries.push(Suppression { file_path: module.file_path.clone(), line: n, rules, carried: true });
                            proof {
                                lemma_entries_push(e1, entries@.last());
                                assert(entries@ == e1.push(entries@.last()));
                            }
                        },
                        None => {},
                    }
                    proof {
                        assert forall|file: Seq<char>, line: usize|
                            #![trigger holds_key(entries@, file, line as int)]
                            holds_key(entries@, file, line as int) <==> exists|x: int, l: int|
                                (x < i || (x == i && l < k + 1)) && #[trigger] noqa_key(ms, x, l, file, line as int) by {
                            if file == ms[i as int].file_path@ && (line == k + 1 || line == k + 2) {
                                assert(noqa_key(ms, i as int, k as int, file, line as int));
                            }
                            if exists|x: int, l: int| (x < i || (x == i && l < k + 1)) && #[trigger] noqa_key(ms, x, l, file, line as int) {
                                let (x, l) = choose|x: int, l: int|
                                    (x < i || (x == i && l < k + 1)) && #[trigger] noqa_key(ms, x, l, file, line as int);
                                if !(x == i && l == k) {
                                    assert(holds_key(e0, file, line as int));
                                }
                            }
                        }
                        assert forall|file: Seq<char>, line: usize, rule: Seq<char>|
                            #![trigger suppresses(entries@, file, line as int, rule)]
                            suppresses(entries@, file, line as int, rule) <==> exists|x: int, l: int|
                                (x < i || (x == i && l < k + 1)) && #[trigger] noqa_hit(ms, x, l, file, line as int, rule) by {
                            if file == ms[i as int].file_path@ && (line == k + 1 || line == k + 2) && rs.contains(rule) {
                                assert(noqa_hit(ms, i as int, k as int, file, line as int, rule));
                            }
                            if exists|x: int, l: int|
                                (x < i || (x == i && l < k + 1)) && #[trigger] noqa_hit(ms, x, l, file, line as int, rule) {
                                let (x, l) = choose|x: int, l: int|
                                    (x < i || (x == i && l < k + 1)) && #[trigger] noqa_hit(ms, x, l, file, line as int, rule);
                                if !(x == i && l == k) {
                                    assert(suppresses(e0, file, line as int, rule));
                                }
                            }
                        }
                        assert forall|file: Seq<char>, line: usize, rule: Seq<char>|
                            #![trigger suppresses_own(entries@, file, line as int, rule)]
                            suppresses_own(entries@, file, line as int, rule) <==> exists|x: int, l: int|
                                (x < i || (x == i && l < k + 1)) && #[trigger] noqa_own_hit(ms, x, l, file, line as int, rule) by {
                            if file == ms[i as int].file_path@ && line == k + 1 && rs.contains(rule) {
                                assert(noqa_own_hit(ms, i as int, k as int, file, line as int, rule));
                            }
                            if exists|x: int, l: int|
                                (x < i || (x == i && l < k + 1)) && #[trigger] noqa_own_hit(ms, x, l, file, line as int, rule) {
                                let (x, l) = choose|x: int, l: int|
                                    (x < i || (x == i && l < k + 1)) && #[trigger] noqa_own_hit(ms, x, l, file, line as int, rule);
                                if !(x == i && l == k) {
                                    assert(suppresses_own(e0, file, line as int, rule));
                                }
                            }
                        }
                    }
                },
                None => {
                    proof {
                        assert forall|file: Seq<char>, line: usize|
                            #![trigger holds_key(entries@, file, line as int)]
                            holds_key(entries@, file, line as int) <==> exists|x: int, l: int|
                                (x < i || (x == i && l < k + 1)) && #[trigger] noqa_key(ms, x, l, file, line as int) by {
                            if exists|x: int, l: int| (x < i || (x == i && l < k + 1)) && #[trigger] noqa_key(ms, x, l, file, line as int) {
                                let (x, l) = choose|x: int, l: int|
                                    (x < i || (x == i && l < k + 1)) && #[trigger] noqa_key(ms, x, l, file, line as int);
                                assert(!(x == i && l == k));
                            }
                        }
                        assert forall|file: Seq<char>, line: usize, rule: Seq<char>|
                            #![trigger suppresses(entries@, file, line as int, rule)]
                            suppresses(entries@, file, line as int, rule) <==> exists|x: int, l: int|
                                (x < i || (x == i && l < k + 1)) && #[trigger] noqa_hit(ms, x, l, file, line as int, rule) by {
                            if exists|x: int, l: int|
                                (x < i || (x == i && l < k + 1)) && #[trigger] noqa_hit(ms, x, l, file, line as int, rule) {
                                let (x, l) = choose|x: int, l: int|
                                    (x < i || (x == i && l < k + 1)) && #[trigger] noqa_hit(ms, x, l, file, line as int, rule);
                                assert(!(x == i && l == k));
                            }
                        }
                        assert forall|file: Seq<char>, line: usize, rule: Seq<char>|
                            #![trigger suppresses_own(entries@, file, line as int, rule)]
                            suppresses_own(entries@, file, line as int, rule) <==> exists|x: int, l: int|
                                (x < i || (x == i && l < k + 1)) && #[trigger] noqa_own_hit(ms, x, l, file, line as int, rule) by {
                            if exists|x: int, l: int|
                                (x < i || (x == i && l < k + 1)) && #[trigger] noqa_own_hit(ms, x, l, file, line as int, rule) {
                                let (x, l) = choose|x: int, l: int|
                                    (x < i || (x == i && l < k + 1)) && #[trigger] noqa_own_hit(ms, x, l, file, line as int, rule);
                                assert(!(x == i && l == k));
                            }
                        }
                    }
                },
            }
            k = k + 1;
        }
        proof {
            assert forall|file: Seq<char>, line: usize|
                #![trigger holds_key(entries@, file, line as int)]
                holds_key(entries@, file, line as int) <==> exists|x: int, l: int|
                    x < i + 1 && #[trigger] noqa_key(ms, x, l, file, line as int) by {
                if exists|x: int, l: int| x < i + 1 && #[trigger] noqa_key(ms, x, l, file, line as int) {
                    let (x, l) = choose|x: int, l: int| x < i + 1 && #[trigger] noqa_key(ms, x, l, file, line as int);
                    assert(x < i || (x == i && l < k));
                }
            }
            assert forall|file: Seq<char>, line: usize, rule: Seq<char>|
                #![trigger suppresses(entries@, file, line as int, rule)]
                suppresses(entries@, file, line as int, rule) <==> exists|x: int, l: int|
                    x < i + 1 && #[trigger] noqa_hit(ms, x, l, file, line as int, rule) by {
                if exists|x: int, l: int| x < i + 1 && #[trigger] noqa_hit(ms, x, l, file, line as int, rule) {
                    let (x, l) = choose|x: int, l: int| x < i + 1 && #[trigger] noqa_hit(ms, x, l, file, line as int, rule);
                    assert(x < i || (x == i && l < k));
                }
            }
            assert forall|file: Seq<char>, line: usize, rule: Seq<char>|
                #![trigger suppresses_own(entries@, file, line as int, rule)]
                suppresses_own(entries@, file, line as int, rule) <==> exists|x: int, l: int|
                    x < i + 1 && #[trigger] noqa_own_hit(ms, x, l, file, line as int, rule) by {
                if exists|x: int, l: int| x < i + 1 && #[trigger] noqa_own_hit(ms, x, l, file, line as int, rule) {
                    let (x, l) = choose|x: int, l: int| x < i + 1 && #[trigger] noqa_own_hit(ms, x, l, file, line as int, rule);
                    assert(x < i || (x == i && l < k));
                }
            }
        }
        i = i + 1;
    }
    Suppressions { entries }
}

impl Suppressions {
    /// No suppression at all.
    pub fn new() -> (r: Suppressions)
        ensures
            r.entries@.len() == 0,
    {
        Suppressions { entries: Vec::new() }
    }

    /// Adds the rules `rules` of a comment on line `line` of `file_path`.
    pub fn insert(&mut self, file_path: String, line: usize, rules: Vec<String>)
        ensures
            final(self).entries@ == old(self).entries@.push(Suppression { file_path, line, rules, carried: false }),
    {
        self.entries.push(Suppression { file_path, line, rules, carried: false });
    }

    /// Whether the rule `rule` is suppressed at line `line` of `file_path`
    /// by a comment on that line.
    pub fn contains_own_rule(&self, file_path: &str, line: usize, rule: &str) -> (r: bool)
        ensures
            r == suppresses_own(self.entries@, file_path@, line as int, rule@),
    {
        let mut e: usize = 0;
        while e < self.entries.len()
            invariant
                e <= self.entries@.len(),
                forall|k: int|
                    0 <= k < e ==> !(#[trigger] self.entries@[k].file_path@ == file_path@ && self.entries@[k].line == line
                        && !self.entries@[k].carried && texts_contain(self.entries@[k].rules@, rule@)),
            decreases self.entries.len() - e,
        {
            let en = &self.entries[e];
            if en.line == line && !en.carried && str_eq(en.file_path.as_str(), file_path) && texts_contain_exec(
                &en.rules,
                rule,
            ) {
                return true;
            }
            e = e + 1;
        }
        false
    }

    /// Whether any rule is suppressed at line `line` of `file_path`.
    pub fn contains_key(&self, file_path: &str, line: usize) -> (r: bool)
        ensures
            r == holds_key(self.entries@, file_path@, line as int),
    {
        let mut e: usize = 0;
        while e < self.entries.len()
            invariant
                e <= self.entries@.len(),
                forall|k: int|
                    0 <= k < e ==> !(#[trigger] self.entries@[k].file_path@ == file_path@ && self.entries@[k].line == line),
            decreases self.entries.len() - e,
        {
            if self.entries[e].line == line && str_eq(self.entries[e].file_path.as_str(), file_path) {
                return true;
            }
            e = e + 1;
        }
        false
    }

    /// Whether the rule `rule` (or `"*"` where that is given) is suppressed
    /// at line `line` of `file_path`.
    pub fn contains_rule(&self, file_path: &str, line: usize, rule: &str) -> (r: bool)
        ensures
            r == suppresses(self.entries@, file_path@, line as int, rule@),
    {
        let mut e: usize = 0;
        while e < self.entries.len()
            invariant
                e <= self.entries@.len(),
                forall|k: int|
                    0 <= k < e ==> !(#[trigger] self.entries@[k].file_path@ == file_path@ && self.entries@[k].line == line
                        && texts_contain(self.entries@[k].rules@, rule@)),
            decreases self.entries.len() - e,
        {
            let en = &self.entries[e];
            if en.line == line && str_eq(en.file_path.as_str(), file_path) && texts_contain_exec(&en.rules, rule) {
                return true;
            }
            e = e + 1;
        }
        false
    }
}

/// Whether `es` suppresses a violation of rule `rule` at line `line` of
/// `file`: by a suppression of that rule or of every rule at that line, or
/// by one made for a comment on the line before.
pub open spec fn suppressed_in(es: Seq<Suppression>, file: Seq<char>, line: int, rule: Seq<char>) -> bool {
    ||| suppresses(es, file, line, "*"@)
    ||| suppresses(es, file, line, rule)
    ||| line > 1 && (suppresses_own(es, file, line - 1, "*"@) || suppresses_own(es, file, line - 1, rule))
}

/// Whether `violation` is suppressed by `suppressions`: at its own line, or
/// by a comment on the line before.
pub fn is_suppressed(violation: &Violation, suppressions: &Suppressions) -> (r: bool)
    ensures
        r == suppressed_in(suppressions.entries@, violation.file_path@, violation.line as int, violation.rule_id@),
{
    let file = violation.file_path.as_str();
    let line = violation.line;
    if suppressions.contains_rule(file, line, "*") || suppressions.contains_rule(file, line, violation.rule_id.as_str()) {
        return true;
    }
    if line > 1 {
        if suppressions.contains_own_rule(file, line - 1, "*") || suppressions.contains_own_rule(
            file,
            line - 1,
            violation.rule_id.as_str(),
        ) {
            return true;
        }
    }
    false
}

/// Whether a file name follows pytest's naming for test files.
pub open spec fn test_file_name(name: Seq<char>) -> bool {
    starts_with(name, "test_"@) || ends_with(name, "_test.py"@) || name == "conftest.py"@
}

/// Whether `path` names a test file: its file name (empty where it has
/// none) starts with `test_`, ends with `_test.py`, or is `conftest.py`.
pub fn is_test_file(path: &str) -> (r: bool)
    ensures
        r == test_file_name(
            match path_file_name(path@) {
                Some(n) => n,
                None => Seq::empty(),
            },
        ),
{
    let name = match file_name(path) {
        Some(n) => n,
        None => String::new(),
    };
    let n = name.as_str();
    str_starts_with(n, "test_") || str_ends_with(n, "_test.py") || str_eq(n, "conftest.py")
}

/// Whether `path` is a Python test file: its extension is `py` and its name
/// follows pytest's naming for test files.
pub fn is_py_test_file(path: &str) -> (r: bool)
    ensures
        r == (path_extension(path@) == Some("py"@) && test_file_name(
            match path_file_name(path@) {
                Some(n) => n,
                None => Seq::empty(),
            },
        )),
{
    let py = match extension(path) {
        Some(e) => str_eq(e.as_str(), "py"),
        None => false,
    };
    py && is_test_file(path)
}

/// The estimated memory use, in MB, of linting `files`: 50000 bytes per
/// file, rounded down.
pub open spec fn estimated_mb(count: nat) -> nat {
    (count * 50000) / 1048576
}

/// The estimated memory use of linting `files`, in MB, and whether it is
/// strictly over `memory_limit_mb`.
pub fn exceeds_memory_budget(files: &[String], memory_limit_mb: usize) -> (r: (u64, bool))
    requires
        files@.len() * 50000 <= u64::MAX,
    ensures
        r.0 == estimated_mb(files@.len()),
        r.1 == (r.0 > memory_limit_mb),
{
    let count = files.len() as u64;
    let estimated_bytes: u64 = count * 50000;
    let mb = estimated_bytes / 1048576;
    (mb, mb > memory_limit_mb as u64)
}

/// A copy of `v`.
pub fn copy_violation(v: &Violation) -> (r: Violation)
    ensures
        r@ == v@,
{
    Violation {
        rule_id: v.rule_id.clone(),
        rule_name: v.rule_name.clone(),
        severity: v.severity,
        category: v.category,
        message: v.message.clone(),
        file_path: v.file_path.clone(),
        line: v.line,
        col: v.col,
        suggestion: match &v.suggestion {
            Some(x) => Some(x.clone()),
            None => None,
        },
        test_name: match &v.test_name {
            Some(x) => Some(x.clone()),
            None => None,
        },
    }
}

/// Whether `baseline` holds the file, line and rule of `v`.
pub open spec fn in_baseline(baseline: Seq<(String, usize, String)>, v: ViolationView) -> bool {
    exists|k: int|
        0 <= k < baseline.len() && #[trigger] baseline[k].0@ == v.file_path && baseline[k].1 == v.line && baseline[k].2@
            == v.rule_id
}

/// The violations of `vs` that `baseline` does not hold, in order.
pub open spec fn new_findings(vs: Seq<ViolationView>, baseline: Seq<(String, usize, String)>) -> Seq<ViolationView>
    decreases vs.len(),
{
    if vs.len() == 0 {
        Seq::empty()
    } else {
        new_findings(vs.drop_last(), baseline) + if in_baseline(baseline, vs.last()) {
            Seq::empty()
        } else {
            seq![vs.last()]
        }
    }
}

/// The violations that the baseline (a list of file, line and rule ID)
/// does not hold, in order.
pub fn filter_new_violations(violations: &[Violation], baseline: &[(String, usize, String)]) -> (r: Vec<Violation>)
    ensures
        views(r@) == new_findings(views(violations@), baseline@),
{
    let ghost vv = views(violations@);
    let mut out: Vec<Violation> = Vec::new();
    let mut i: usize = 0;
    while i < violations.len()
        invariant
            vv == views(violations@),
            i <= vv.len(),
            views(out@) == new_findings(vv.take(i as int), baseline@),
        decreases violations.len() - i,
    {
        let v = &violations[i];
        let mut known = false;
        let mut k: usize = 0;
        while k < baseline.len()
            invariant
                k <= baseline@.len(),
                known == exists|j: int|
                    0 <= j < k && #[trigger] baseline@[j].0@ == v.file_path@ && baseline@[j].1 == v.line && baseline@[j].2@
                        == v.rule_id@,
            decreases baseline.len() - k,
        {
            let entry = &baseline[k];
            if entry.1 == v.line && str_eq(entry.0.as_str(), v.file_path.as_str()) && str_eq(entry.2.as_str(), v.rule_id.as_str()) {
                known = true;
            }
            k = k + 1;
        }
        proof {
            assert(vv.take(i + 1).drop_last() =~= vv.take(i as int));
            assert(vv.take(i + 1).last() == v@);
            assert(known == in_baseline(baseline@, v@));
        }
        if !known {
            let ghost before = views(out@);
            out.push(copy_violation(v));
            assert(views(out@) =~= before.push(v@));
        }
        i = i + 1;
    }
    assert(vv.take(vv.len() as int) =~= vv);
    out
}

/// Whether `a` comes before `b` in report order: by file (in path order),
/// then line, then rule ID.
pub open spec fn report_before(a: ViolationView, b: ViolationView) -> bool {
    ||| path_lt(a.file_path, b.file_path)
    ||| same_path(a.file_path, b.file_path) && a.line < b.line
    ||| same_path(a.file_path, b.file_path) && a.line == b.line && text_lt(a.rule_id, b.rule_id)
}

/// `v` placed into `s` after every entry that does not come after it.
pub open spec fn insert_in_order(s: Seq<ViolationView>, v: ViolationView) -> Seq<ViolationView>
    decreases s.len(),
{
    if s.len() == 0 {
        seq![v]
    } else if report_before(v, s.last()) {
        insert_in_order(s.drop_last(), v).push(s.last())
    } else {
        s.push(v)
    }
}

/// `vs` in report order; violations that tie keep their order.
pub open spec fn in_report_order(vs: Seq<ViolationView>) -> Seq<ViolationView>
    decreases vs.len(),
{
    if vs.len() == 0 {
        Seq::empty()
    } else {
        insert_in_order(in_report_order(vs.drop_last()), vs.last())
    }
}

fn before_exec(a: &Violation, b: &Violation) -> (r: bool)
    ensures
        r == report_before(a@, b@),
{
    if path_less(a.file_path.as_str(), b.file_path.as_str()) {
        return true;
    }
    if !same_path_exec(a.file_path.as_str(), b.file_path.as_str()) {
        return false;
    }
    if a.line != b.line {
        return a.line < b.line;
    }
    text_less(a.rule_id.as_str(), b.rule_id.as_str())
}

proof fn lemma_insert_at(s: Seq<ViolationView>, v: ViolationView, j: int)
    requires
        0 <= j <= s.len(),
        forall|m: int| j <= m < s.len() ==> report_before(v, #[trigger] s[m]),
        j == 0 || !report_before(v, s[j - 1]),
    ensures
        insert_in_order(s, v) == s.take(j).push(v) + s.skip(j),
    decreases s.len(),
{
    if s.len() == 0 {
        assert(s.take(j).push(v) + s.skip(j) =~= seq![v]);
    } else if j == s.len() {
        assert(s.take(j) =~= s);
        assert(s.take(j).push(v) + s.skip(j) =~= s.push(v));
    } else {
        assert(report_before(v, s[s.len() - 1]));
        let init = s.drop_last();
        assert forall|m: int| j <= m < init.len() implies report_before(v, #[trigger] init[m]) by {
            assert(init[m] == s[m]);
        }
        if j > 0 {
            assert(init[j - 1] == s[j - 1]);
        }
        lemma_insert_at(init, v, j);
        assert(insert_in_order(s, v) == insert_in_order(init, v).push(s.last()));
        assert(s.take(j).push(v) + s.skip(j) =~= (init.take(j).push(v) + init.skip(j)).push(s.last()));
    }
}

/// `violations` in report order (by file, then line, then rule ID), a
/// stable sort.
pub fn sort_violations(violations: Vec<Violation>) -> (r: Vec<Violation>)
    ensures
        views(r@) == in_report_order(views(violations@)),
{
    let ghost all = views(violations@);
    let mut rest = violations;
    let mut out: Vec<Violation> = Vec::new();
    let ghost mut done: int = 0;
    while rest.len() > 0
        invariant
            0 <= done <= all.len(),
            views(rest@) == all.skip(done),
            views(out@) == in_report_order(all.take(done)),
        decreases rest.len(),
    {
        let ghost sorted = views(out@);
        let ghost old_rest = rest@;
        let v = rest.remove(0);
        proof {
            assert(v == old_rest[0]);
            assert(views(old_rest).len() == old_rest.len());
            assert(done < all.len());
            assert(views(old_rest)[0] == old_rest[0]@);
            assert(views(old_rest)[0] == all.skip(done)[0]);
            assert(all.skip(done)[0] == all[done]);
            assert(v@ == all[done]);
            assert(rest@ =~= old_rest.skip(1));
            assert(views(rest@) =~= views(old_rest).skip(1));
            assert(views(old_rest).skip(1) =~= all.skip(done + 1));
            assert(all.take(done + 1).drop_last() =~= all.take(done));
            assert(all.take(done + 1).last() == all[done]);
        }
        let mut j = out.len();
        while j > 0 && before_exec(&v, &out[j - 1])
            invariant
                j <= out@.len(),
                views(out@) == sorted,
                forall|m: int| j <= m < sorted.len() ==> report_before(v@, #[trigger] sorted[m]),
            decreases j,
        {
            j = j - 1;
        }
        proof {
            lemma_insert_at(sorted, v@, j as int);
        }
        out.insert(j, v);
        proof {
            assert(views(out@) =~= sorted.take(j as int).push(v@) + sorted.skip(j as int));
            done = done + 1;
        }
    }
    assert(all.take(done) =~= all);
    out
}

/// Whether `ctx` holds the facts the rules need about all of `ms`, and the
/// file texts `disk`.
pub open spec fn context_of(ms: Seq<ParsedModule>, disk: Seq<DiskText>, ctx: RuleContext) -> bool {
    &&& fixture_map_of(ms, ctx.fixture_map@)
    &&& texts(ctx.used_fixture_names@).no_duplicates()
    &&& forall|n: Seq<char>| texts(ctx.used_fixture_names@).contains(n) <==> fixture_in_use(ms, n)
    &&& locations_of(ms, ctx.fixture_locations@)
    &&& texts(ctx.session_mutable_fixtures@).no_duplicates()
    &&& forall|n: Seq<char>| texts(ctx.session_mutable_fixtures@).contains(n) <==> session_mutable(ms, n)
    &&& ctx.disk_texts@ == disk
}

/// The facts the rules need about all of `modules`, with the file texts
/// `disk_texts`.
pub fn rule_context(modules: &[ParsedModule], disk_texts: Vec<DiskText>) -> (r: RuleContext)
    ensures
        context_of(modules@, disk_texts@, r),
{
    RuleContext {
        fixture_map: collect_all_fixtures(modules),
        used_fixture_names: compute_used_fixture_names(modules),
        fixture_locations: compute_fixture_locations(modules),
        session_mutable_fixtures: compute_session_mutable_fixtures(modules),
        disk_texts,
    }
}

/// Why linting failed.
#[derive(Debug, Clone)]
pub enum EngineError {
    /// The Python parser could not be made.
    Parser(ParserError),
    /// The configuration could not be applied to a file.
    Config(ConfigError),
}

/// Whether `m` is what the parser gives for `source` at `path`: the module
/// of the tree tree-sitter's Python grammar builds for it.
pub open spec fn parsed_from(m: ParsedModule, source: Seq<char>, path: Seq<char>) -> bool {
    python_module(m, source, path)
}

/// The settings `config` gives for `file`, or the pattern of its first
/// invalid override.
pub open spec fn settings_for(config: Config, file: Seq<char>) -> Result<Map<Seq<char>, RuleConfig>, Seq<char>> {
    apply_overrides(config.rules@, config.overrides@, config.config_dir, file)
}

/// The pattern of the first invalid override met while linting `ms` in
/// order, if any.
pub open spec fn first_config_error(config: Config, ms: Seq<ParsedModule>) -> Option<Seq<char>>
    decreases ms.len(),
{
    if ms.len() == 0 {
        None
    } else {
        match first_config_error(config, ms.drop_last()) {
            Some(p) => Some(p),
            None => match settings_for(config, ms.last().file_path@) {
                Err(p) => Some(p),
                Ok(_) => None,
            },
        }
    }
}

/// The reports `outs`, one after the other.
pub open spec fn concat_reports(outs: Seq<Seq<ViolationView>>) -> Seq<ViolationView>
    decreases outs.len(),
{
    if outs.len() == 0 {
        Seq::empty()
    } else {
        concat_reports(outs.drop_last()) + outs.last()
    }
}

/// Whether a `# noqa` comment of `ms` silences `v`: one for its rule or for
/// every rule, on its line or the line before.
pub open spec fn noqa_silences(ms: Seq<ParsedModule>, v: ViolationView) -> bool {
    ||| noqa_suppresses(ms, v.file_path, v.line as int, "*"@)
    ||| noqa_suppresses(ms, v.file_path, v.line as int, v.rule_id)
    ||| v.line > 1 && (noqa_own_suppresses(ms, v.file_path, v.line - 1, "*"@) || noqa_own_suppresses(
        ms,
        v.file_path,
        v.line - 1,
        v.rule_id,
    ))
}

/// The violations of `vs` that no `# noqa` comment of `ms` silences, in
/// order.
pub open spec fn unsilenced(ms: Seq<ParsedModule>, vs: Seq<ViolationView>) -> Seq<ViolationView>
    decreases vs.len(),
{
    if vs.len() == 0 {
        Seq::empty()
    } else {
        unsilenced(ms, vs.drop_last()) + if noqa_silences(ms, vs.last()) {
            Seq::empty()
        } else {
            seq![vs.last()]
        }
    }
}

/// Whether each of the first `n` modules of `ms` is reported by `outs`
/// (its entry at the same position) under its file's settings.
pub open spec fn modules_reported(
    kinds: Seq<RuleKind>,
    config: Config,
    ms: Seq<ParsedModule>,
    ctx: RuleContext,
    outs: Seq<Seq<ViolationView>>,
    n: int,
) -> bool {
    forall|j: int| 0 <= j < n ==> #[trigger] reported_under(kinds, config, ms[j], ctx, outs[j])
}

/// Whether `out` is what the rules `kinds` report for `m` under the
/// settings `config` gives for its file.
pub open spec fn reported_under(kinds: Seq<RuleKind>, config: Config, m: ParsedModule, ctx: RuleContext, out: Seq<ViolationView>) -> bool {
    match settings_for(config, m.file_path@) {
        Ok(eff) => module_report(kinds, eff, m, ctx, out),
        Err(_) => false,
    }
}

/// The linter: every rule, run under a configuration.
pub struct LintEngine {
    dispatcher: RuleDispatcher,
    config: Config,
    memory_limit_mb: usize,
}

impl LintEngine {
    /// The rules the engine runs, in order.
    pub closed spec fn kinds(&self) -> Seq<RuleKind> {
        self.dispatcher.kinds()
    }

    /// The configuration the engine runs with.
    pub closed spec fn settings(&self) -> Config {
        self.config
    }

    /// The memory budget, in MB.
    pub closed spec fn budget(&self) -> usize {
        self.memory_limit_mb
    }

    /// An engine running every rule under `config`, with a 256 MB budget.
    pub fn new(config: Config) -> (r: Result<LintEngine, EngineError>)
        ensures
            r matches Ok(e) && e.kinds() == all_rule_kinds() && e.settings() == config && e.budget() == 256,
    {
        Ok(LintEngine { dispatcher: RuleDispatcher::new(), config, memory_limit_mb: 256 })
    }

    /// An engine running every rule under `config`, with a budget of
    /// `memory_limit_mb` MB.
    pub fn with_memory_limit(config: Config, memory_limit_mb: usize) -> (r: Result<LintEngine, EngineError>)
        ensures
            r matches Ok(e) && e.kinds() == all_rule_kinds() && e.settings() == config && e.budget() == memory_limit_mb,
    {
        Ok(LintEngine { dispatcher: RuleDispatcher::new(), config, memory_limit_mb })
    }

    /// The configuration the engine runs with.
    pub fn config(&self) -> (r: &Config)
        ensures
            *r == self.settings(),
    {
        &self.config
    }

    /// The memory budget, in MB.
    pub fn memory_limit_mb(&self) -> (r: usize)
        ensures
            r == self.budget(),
    {
        self.memory_limit_mb
    }

    /// Lints the parsed modules `modules` (with `disk_texts`, the texts of
    /// their files as they stand on disk): every rule on every module under
    /// its file's settings, then what the modules' `# noqa` comments
    /// suppress removed, then report order. Fails with the first invalid
    /// override pattern met.
    pub fn lint_modules(&self, modules: &[ParsedModule], disk_texts: Vec<DiskText>) -> (r: Result<Vec<Violation>, ConfigError>)
        ensures
            match first_config_error(self.settings(), modules@) {
                Some(p) => r matches Err(ConfigError::InvalidGlobPattern { pattern }) && pattern@ == p,
                None => r matches Ok(vs) && exists|ctx: RuleContext, outs: Seq<Seq<ViolationView>>|
                    #![trigger context_of(modules@, disk_texts@, ctx), concat_reports(outs)]
                    context_of(modules@, disk_texts@, ctx) && outs.len() == modules@.len() && modules_reported(
                        self.kinds(),
                        self.settings(),
                        modules@,
                        ctx,
                        outs,
                        outs.len() as int,
                    ) && views(vs@) == in_report_order(unsilenced(modules@, concat_reports(outs))),
            },
    {
        let ghost ms = modules@;
        let ctx = rule_context(modules, disk_texts);
        let ghost mut outs: Seq<Seq<ViolationView>> = Seq::empty();
        let mut violations: Vec<Violation> = Vec::new();
        let mut i: usize = 0;
        while i < modules.len()
            invariant
                ms == modules@,
                i <= ms.len(),
                first_config_error(self.settings(), ms.take(i as int)) is None,
                outs.len() == i,
                modules_reported(self.kinds(), self.settings(), ms, ctx, outs, i as int),
                views(violations@) == concat_reports(outs),
            decreases modules.len() - i,
        {
            proof {
                assert(ms.take(i + 1).drop_last() =~= ms.take(i as int));
                assert(ms.take(i + 1).last() == ms[i as int]);
            }
            let res = self.dispatcher.check_module(&modules[i], modules, &ctx, &self.config);
            let mut v = match res {
                Ok(v) => v,
                Err(e) => {
                    proof {
                        lemma_config_error_persists(self.settings(), ms, i as int + 1);
                    }
                    return Err(e);
                },
            };
            let ghost before = views(violations@);
            let ghost prev = outs;
            proof {
                assert(settings_for(self.settings(), ms[i as int].file_path@) == apply_overrides(
                    self.config.rules@,
                    self.config.overrides@,
                    self.config.config_dir,
                    modules@[i as int].file_path@,
                ));
                outs = prev.push(views(v@));
                assert(outs.drop_last() =~= prev);
                assert(outs[i as int] == views(v@));
                assert(self.kinds() == self.dispatcher.kinds());
                assert(reported_under(self.kinds(), self.settings(), ms[i as int], ctx, outs[i as int]));
                assert forall|j: int|
                    0 <= j < i + 1 implies #[trigger] reported_under(self.kinds(), self.settings(), ms[j], ctx, outs[j]) by {
                    if j < i {
                        assert(outs[j] == prev[j]);
                        assert(reported_under(self.kinds(), self.settings(), ms[j], ctx, prev[j]));
                    }
                }
                assert(modules_reported(self.kinds(), self.settings(), ms, ctx, outs, i + 1));
            }
            violations.append(&mut v);
            proof {
                assert(views(violations@) =~= before + outs.last());
            }
            assert(first_config_error(self.settings(), ms.take(i + 1)) is None);
            i = i + 1;
        }
        proof {
            assert(ms.take(ms.len() as int) =~= ms);
        }
        let suppressions = collect_suppressions(modules);
        let ghost all = views(violations@);
        let mut kept: Vec<Violation> = Vec::new();
        let mut rest = violations;
        let ghost mut k: int = 0;
        while rest.len() > 0
            invariant
                ms == modules@,
                0 <= k <= all.len(),
                views(rest@) == all.skip(k),
                views(kept@) == unsilenced(ms, all.take(k)),
                forall|file: Seq<char>, line: usize, rule: Seq<char>|
                    #![trigger suppresses(suppressions.entries@, file, line as int, rule)]
                    suppresses(suppressions.entries@, file, line as int, rule) <==> noqa_suppresses(ms, file, line as int, rule),
                forall|file: Seq<char>, line: usize, rule: Seq<char>|
                    #![trigger suppresses_own(suppressions.entries@, file, line as int, rule)]
                    suppresses_own(suppressions.entries@, file, line as int, rule) <==> noqa_own_suppresses(ms, file, line as int, rule),
            decreases rest.len(),
        {
            let ghost old_rest = rest@;
            let v = rest.remove(0);
            proof {
                assert(views(old_rest).len() == old_rest.len());
                assert(views(old_rest)[0] == old_rest[0]@);
                assert(views(old_rest)[0] == all.skip(k)[0]);
                assert(all.skip(k)[0] == all[k]);
                assert(rest@ =~= old_rest.skip(1));
                assert(views(rest@) =~= views(old_rest).skip(1));
                assert(views(old_rest).skip(1) =~= all.skip(k + 1));
                assert(all.take(k + 1).drop_last() =~= all.take(k));
                assert(all.take(k + 1).last() == all[k]);
                assert(suppresses(suppressions.entries@, v.file_path@, v.line as int, "*"@) == noqa_suppresses(ms, v.file_path@, v.line as int, "*"@));
                assert(suppresses(suppressions.entries@, v.file_path@, v.line as int, v.rule_id@) == noqa_suppresses(ms, v.file_path@, v.line as int, v.rule_id@));
                if v.line > 1 {
                    let pl = (v.line - 1) as usize;
                    assert(suppresses_own(suppressions.entries@, v.file_path@, pl as int, "*"@) == noqa_own_suppresses(ms, v.file_path@, pl as int, "*"@));
                    assert(suppresses_own(suppressions.entries@, v.file_path@, pl as int, v.rule_id@) == noqa_own_suppresses(ms, v.file_path@, pl as int, v.rule_id@));
                }
            }
            let silenced = is_suppressed(&v, &suppressions);
            assert(silenced == noqa_silences(ms, v@));
            if !silenced {
                let ghost before = views(kept@);
                kept.push(v);
                assert(views(kept@) =~= before.push(all[k]));
            }
            proof {
                k = k + 1;
            }
        }
        assert(all.take(k) =~= all);
        let sorted = sort_violations(kept);
        proof {
            assert(context_of(modules@, disk_texts@, ctx));
            assert(views(sorted@) == in_report_order(unsilenced(modules@, concat_reports(outs))));
        }
        Ok(sorted)
    }

    /// Lints `source` as the file `file_path`, with `disk_texts` the texts
    /// of files as they stand on disk: every rule on the parsed module under
    /// the file's settings.
    pub fn lint_source(&self, source: &str, file_path: &str, disk_texts: Vec<DiskText>) -> (r: Result<Vec<Violation>, EngineError>)
        ensures
            r matches Err(EngineError::Config(ConfigError::InvalidGlobPattern { pattern })) ==> settings_for(
                self.settings(),
                file_path@,
            ) == Err::<Map<Seq<char>, RuleConfig>, Seq<char>>(pattern@),
            settings_for(self.settings(), file_path@) is Err ==> r is Err,
            settings_for(self.settings(), file_path@) is Ok ==> r is Ok,
            r matches Ok(vs) ==> exists|m: ParsedModule, ctx: RuleContext|
                #![trigger parsed_from(m, source@, file_path@), context_of(seq![m], disk_texts@, ctx)]
                parsed_from(m, source@, file_path@) && context_of(seq![m], disk_texts@, ctx) && match settings_for(
                    self.settings(),
                    file_path@,
                ) {
                    Ok(eff) => module_report(self.kinds(), eff, m, ctx, views(vs@)),
                    Err(_) => false,
                },
    {
        let r = self.lint_source_with_context(source, file_path, Vec::new(), disk_texts);
        proof {
            assert(Seq::<ParsedModule>::empty().push(arbitrary()) =~= seq![arbitrary::<ParsedModule>()]) by {}
        }
        r
    }

    /// Lints `source` as the file `file_path` among the already parsed
    /// `context_modules`: every rule on the parsed module under the file's
    /// settings, with the facts about fixtures taken over all the modules.
    pub fn lint_source_with_context(
        &self,
        source: &str,
        file_path: &str,
        context_modules: Vec<ParsedModule>,
        disk_texts: Vec<DiskText>,
    ) -> (r: Result<Vec<Violation>, EngineError>)
        ensures
            r matches Err(EngineError::Config(ConfigError::InvalidGlobPattern { pattern })) ==> settings_for(
                self.settings(),
                file_path@,
            ) == Err::<Map<Seq<char>, RuleConfig>, Seq<char>>(pattern@),
            settings_for(self.settings(), file_path@) is Err ==> r is Err,
            settings_for(self.settings(), file_path@) is Ok ==> r is Ok,
            r matches Ok(vs) ==> exists|m: ParsedModule, ctx: RuleContext|
                #![trigger parsed_from(m, source@, file_path@), context_of(context_modules@.push(m), disk_texts@, ctx)]
                parsed_from(m, source@, file_path@) && context_of(context_modules@.push(m), disk_texts@, ctx) && match settings_for(
                    self.settings(),
                    file_path@,
                ) {
                    Ok(eff) => module_report(self.kinds(), eff, m, ctx, views(vs@)),
                    Err(_) => false,
                },
    {
        let mut parser = match PythonParser::new() {
            Ok(p) => p,
            Err(e) => {
                return Err(EngineError::Parser(e));
            },
        };
        let module = match parser.parse_source(source, file_path) {
            Ok(m) => m,
            Err(e) => {
                return Err(EngineError::Parser(e));
            },
        };
        let ghost m = module;
        assert(parsed_from(m, source@, file_path@));
        assert(module.file_path@ == file_path@);
        let ghost given = context_modules@;
        let mut all_modules = context_modules;
        all_modules.push(module);
        assert(all_modules@ == given.push(m));
        let ctx = rule_context(all_modules.as_slice(), disk_texts);
        let last = all_modules.len() - 1;
        let primary = &all_modules[last];
        assert(*primary == m);
        assert(settings_for(self.settings(), file_path@) == apply_overrides(
            self.config.rules@,
            self.config.overrides@,
            self.config.config_dir,
            primary.file_path@,
        ));
        match self.dispatcher.check_module(primary, all_modules.as_slice(), &ctx, &self.config) {
            Ok(vs) => {
                assert(context_of(given.push(m), disk_texts@, ctx));
                Ok(vs)
            },
            Err(e) => Err(EngineError::Config(e)),
        }
    }
}

/// Once an override pattern fails for a module, it is the first failure of
/// every longer run.
proof fn lemma_config_error_persists(config: Config, ms: Seq<ParsedModule>, i: int)
    requires
        0 < i <= ms.len(),
        first_config_error(config, ms.take(i - 1)) is None,
        settings_for(config, ms[i - 1].file_path@) is Err,
    ensures
        first_config_error(config, ms) == Some(settings_for(config, ms[i - 1].file_path@)->Err_0),
    decreases ms.len() - i,
{
    assert(ms.take(i).drop_last() =~= ms.take(i - 1));
    assert(ms.take(i).last() == ms[i - 1]);
    lemma_first_error_prefix(config, ms, i);
}

proof fn lemma_first_error_prefix(config: Config, ms: Seq<ParsedModule>, i: int)
    requires
        0 < i <= ms.len(),
        first_config_error(config, ms.take(i)) is Some,
    ensures
        first_config_error(config, ms) == first_config_error(config, ms.take(i)),
    decreases ms.len() - i,
{
    if i < ms.len() {
        assert(ms.take(i + 1).drop_last() =~= ms.take(i));
        lemma_first_error_prefix(config, ms, i + 1);
    } else {
        assert(ms.take(i) =~= ms);
    }
}

/// The number of violations of `vs` with severity `s`.
pub open spec fn count_severity(vs: Seq<ViolationView>, s: Severity) -> nat
    decreases vs.len(),
{
    if vs.len() == 0 {
        0
    } else {
        count_severity(vs.drop_last(), s) + if vs.last().severity == s {
            1nat
        } else {
            0nat
        }
    }
}

proof fn lemma_count_severity_bound(vs: Seq<ViolationView>, s: Severity)
    ensures
        count_severity(vs, s) <= vs.len(),
    decreases vs.len(),
{
    if vs.len() > 0 {
        lemma_count_severity_bound(vs.drop_last(), s);
    }
}

/// How many violations are errors, warnings and infos.
pub fn severity_counts(violations: &[Violation]) -> (r: (usize, usize, usize))
    ensures
        r.0 == count_severity(views(violations@), Severity::Error),
        r.1 == count_severity(views(violations@), Severity::Warning),
        r.2 == count_severity(views(violations@), Severity::Info),
{
    let ghost vv = views(violations@);
    let mut errors: usize = 0;
    let mut warnings: usize = 0;
    let mut infos: usize = 0;
    let mut i: usize = 0;
    while i < violations.len()
        invariant
            vv == views(violations@),
            i <= vv.len(),
            errors == count_severity(vv.take(i as int), Severity::Error),
            warnings == count_severity(vv.take(i as int), Severity::Warning),
            infos == count_severity(vv.take(i as int), Severity::Info),
        decreases violations.len() - i,
    {
        proof {
            assert(vv.take(i + 1).drop_last() =~= vv.take(i as int));
            assert(vv.take(i + 1).last() == violations@[i as int]@);
            lemma_count_severity_bound(vv.take(i as int), Severity::Error);
            lemma_count_severity_bound(vv.take(i as int), Severity::Warning);
            lemma_count_severity_bound(vv.take(i as int), Severity::Info);
        }
        match violations[i].severity {
            Severity::Error => {
                errors = errors + 1;
            },
            Severity::Warning => {
                warnings = warnings + 1;
            },
            Severity::Info => {
                infos = infos + 1;
            },
        }
        i = i + 1;
    }
    assert(vv.take(vv.len() as int) =~= vv);
    (errors, warnings, infos)
}

/// Whether any of `violations` is an error.
pub fn has_errors(violations: &[Violation]) -> (r: bool)
    ensures
        r == exists|k: int| 0 <= k < violations@.len() && #[trigger] violations@[k].severity == Severity::Error,
{
    let mut i: usize = 0;
    while i < violations.len()
        invariant
            i <= violations@.len(),
            forall|k: int| 0 <= k < i ==> #[trigger] violations@[k].severity != Severity::Error,
        decreases violations.len() - i,
    {
        match violations[i].severity {
            Severity::Error => {
                return true;
            },
            _ => {},
        }
        i = i + 1;
    }
    false
}

/// Where a violation is, as the terminal report writes it: file, line and
/// column (`-` where there is none), separated by colons.
pub open spec fn location_text(v: ViolationView) -> Seq<char> {
    v.file_path + ":"@ + decimal(v.line as nat) + ":"@ + match v.col {
        Some(c) => decimal(c as nat),
        None => "-"@,
    }
}

/// Where `v` is, as the terminal report writes it.
pub fn terminal_location(v: &Violation) -> (r: String)
    ensures
        r@ == location_text(v@),
{
    let mut s = v.file_path.clone();
    s.append(":");
    push_decimal(&mut s, v.line);
    s.append(":");
    match v.col {
        Some(c) => push_decimal(&mut s, c),
        None => s.append("-"),
    }
    s
}

/// The test files named in the output of `git diff --name-only`: each line,
/// trimmed, that is a Python test file.
pub open spec fn changed_files(diff_lines: Seq<Seq<char>>) -> Seq<Seq<char>>
    decreases diff_lines.len(),
{
    if diff_lines.len() == 0 {
        Seq::empty()
    } else {
        let p = trim(diff_lines.last());
        changed_files(diff_lines.drop_last()) + if path_extension(p) == Some("py"@) && test_file_name(
            match path_file_name(p) {
                Some(n) => n,
                None => Seq::empty(),
            },
        ) {
            seq![p]
        } else {
            Seq::empty()
        }
    }
}

/// The Python test files that `git diff --name-only` lists in `diff_output`,
/// in order.
pub fn changed_test_files(diff_output: &str) -> (r: Vec<String>)
    ensures
        texts(r@) == changed_files(lines(diff_output@)),
{
    let ls = lines_exec(diff_output);
    let ghost lv = ls@.map_values(|q: String| q@);
    let mut out: Vec<String> = Vec::new();
    let mut i: usize = 0;
    while i < ls.len()
        invariant
            lv == ls@.map_values(|q: String| q@),
            i <= lv.len(),
            texts(out@) == changed_files(lv.take(i as int)),
        decreases ls.len() - i,
    {
        let p = crate::text::str_trim(ls[i].as_str());
        proof {
            assert(lv.take(i + 1).drop_last() =~= lv.take(i as int));
            assert(lv.take(i + 1).last() == ls@[i as int]@);
        }
        if is_py_test_file(p.as_str()) {
            let ghost before = texts(out@);
            out.push(p);
            assert(texts(out@) =~= before.push(out@.last()@));
        }
        i = i + 1;
    }
    assert(lv.take(lv.len() as int) =~= lv);
    out
}

/// The directory names that file discovery always skips: version control,
/// virtual environments, package caches.
pub open spec fn default_excluded_names() -> Seq<Seq<char>> {
    seq![
        ".git"@,
        ".hg"@,
        ".svn"@,
        ".venv"@,
        "venv"@,
        "env"@,
        "__pypackages__"@,
        "site-packages"@,
        "node_modules"@,
        "__pycache__"@,
    ]
}

/// The directory names that file discovery always skips.
pub fn default_excluded_dirs() -> (r: Vec<&'static str>)
    ensures
        r@.map_values(|x: &'static str| x@) == default_excluded_names(),
{
    let r = vec![
        ".git",
        ".hg",
        ".svn",
        ".venv",
        "venv",
        "env",
        "__pypackages__",
        "site-packages",
        "node_modules",
        "__pycache__",
    ];
    assert(r@.map_values(|x: &'static str| x@) =~= default_excluded_names());
    r
}

/// Whether discovery skips a directory named `name`: it is one of the
/// names always skipped, or one of the configured `exclude_dirs`.
pub fn is_excluded_dir(name: &str, exclude_dirs: &Vec<String>) -> (r: bool)
    ensures
        r == (default_excluded_names().contains(name@) || texts_contain(exclude_dirs@, name@)),
{
    str_in(name, &default_excluded_dirs()) || texts_contain_exec(exclude_dirs, name)
}

/// `p` placed into `s` after every path that does not come after it.
pub open spec fn insert_path(s: Seq<Seq<char>>, p: Seq<char>) -> Seq<Seq<char>>
    decreases s.len(),
{
    if s.len() == 0 {
        seq![p]
    } else if path_lt(p, s.last()) {
        insert_path(s.drop_last(), p).push(s.last())
    } else {
        s.push(p)
    }
}

/// `ps` in path order; paths that are the same keep their order.
pub open spec fn paths_in_order(ps: Seq<Seq<char>>) -> Seq<Seq<char>>
    decreases ps.len(),
{
    if ps.len() == 0 {
        Seq::empty()
    } else {
        insert_path(paths_in_order(ps.drop_last()), ps.last())
    }
}

/// `ps` without each path that is the same path as the one kept before it.
pub open spec fn without_repeats(ps: Seq<Seq<char>>) -> Seq<Seq<char>>
    decreases ps.len(),
{
    if ps.len() == 0 {
        Seq::empty()
    } else {
        let d = without_repeats(ps.drop_last());
        if d.len() > 0 && same_path(d.last(), ps.last()) {
            d
        } else {
            d.push(ps.last())
        }
    }
}

proof fn lemma_insert_path_at(s: Seq<Seq<char>>, p: Seq<char>, j: int)
    requires
        0 <= j <= s.len(),
        forall|m: int| j <= m < s.len() ==> path_lt(p, #[trigger] s[m]),
        j == 0 || !path_lt(p, s[j - 1]),
    ensures
        insert_path(s, p) == s.take(j).push(p) + s.skip(j),
    decreases s.len(),
{
    if s.len() == 0 {
        assert(s.take(j).push(p) + s.skip(j) =~= seq![p]);
    } else if j == s.len() {
        assert(s.take(j) =~= s);
        assert(s.take(j).push(p) + s.skip(j) =~= s.push(p));
    } else {
        assert(path_lt(p, s[s.len() - 1]));
        let init = s.drop_last();
        assert forall|m: int| j <= m < init.len() implies path_lt(p, #[trigger] init[m]) by {
            assert(init[m] == s[m]);
        }
        if j > 0 {
            assert(init[j - 1] == s[j - 1]);
        }
        lemma_insert_path_at(init, p, j);
        assert(s.take(j).push(p) + s.skip(j) =~= (init.take(j).push(p) + init.skip(j)).push(s.last()));
    }
}

/// The discovered files in path order (a stable sort), each path once.
pub fn sorted_unique_files(files: &Vec<String>) -> (r: Vec<String>)
    ensures
        texts(r@) == without_repeats(paths_in_order(texts(files@))),
{
    let ghost all = texts(files@);
    let mut sorted: Vec<String> = Vec::new();
    let mut i: usize = 0;
    while i < files.len()
        invariant
            all == texts(files@),
            i <= files@.len(),
            texts(sorted@) == paths_in_order(all.take(i as int)),
        decreases files.len() - i,
    {
        let p = &files[i];
        let ghost cur = texts(sorted@);
        proof {
            assert(all.take(i + 1).drop_last() =~= all.take(i as int));
            assert(all.take(i + 1).last() == p@);
        }
        let mut j = sorted.len();
        while j > 0 && path_less(p.as_str(), sorted[j - 1].as_str())
            invariant
                j <= sorted@.len(),
                texts(sorted@) == cur,
                forall|m: int| j <= m < cur.len() ==> path_lt(p@, #[trigger] cur[m]),
            decreases j,
        {
            j = j - 1;
        }
        proof {
            lemma_insert_path_at(cur, p@, j as int);
        }
        sorted.insert(j, p.clone());
        proof {
            assert(texts(sorted@) =~= cur.take(j as int).push(p@) + cur.skip(j as int));
        }
        i = i + 1;
    }
    assert(all.take(all.len() as int) =~= all);
    let ghost ordered = texts(sorted@);
    let mut out: Vec<String> = Vec::new();
    let mut k: usize = 0;
    while k < sorted.len()
        invariant
            ordered == texts(sorted@),
            k <= sorted@.len(),
            texts(out@) == without_repeats(ordered.take(k as int)),
        decreases sorted.len() - k,
    {
        proof {
            assert(ordered.take(k + 1).drop_last() =~= ordered.take(k as int));
            assert(ordered.take(k + 1).last() == sorted@[k as int]@);
        }
        let keep = if out.len() == 0 {
            true
        } else {
            let last = out.len() - 1;
            !same_path_exec(out[last].as_str(), sorted[k].as_str())
        };
        if keep {
            let ghost before = texts(out@);
            out.push(sorted[k].clone());
            assert(texts(out@) =~= before.push(sorted@[k as int]@));
        }
        k = k + 1;
    }
    assert(ordered.take(ordered.len() as int) =~= ordered);
    out
}

/// The file, line and rule ID of each violation, in order: what a baseline
/// records.
pub open spec fn baseline_keys(vs: Seq<ViolationView>) -> Seq<(Seq<char>, usize, Seq<char>)> {
    vs.map_values(|v: ViolationView| (v.file_path, v.line, v.rule_id))
}

/// The texts of baseline entries.
pub open spec fn entry_keys(es: Seq<(String, usize, String)>) -> Seq<(Seq<char>, usize, Seq<char>)> {
    es.map_values(|e: (String, usize, String)| (e.0@, e.1, e.2@))
}

/// The baseline entries for `violations`: file, line and rule ID of each.
pub fn baseline_entries(violations: &[Violation]) -> (r: Vec<(String, usize, String)>)
    ensures
        entry_keys(r@) == baseline_keys(views(violations@)),
{
    let mut out: Vec<(String, usize, String)> = Vec::new();
    let mut i: usize = 0;
    while i < violations.len()
        invariant
            i <= violations@.len(),
            entry_keys(out@) == baseline_keys(views(violations@.take(i as int))),
        decreases violations.len() - i,
    {
        let v = &violations[i];
        let ghost before = out@;
        let f = v.file_path.clone();
        let id = v.rule_id.clone();
        out.push((f, v.line, id));
        proof {
            assert(views(violations@.take(i + 1)) =~= views(violations@.take(i as int)).push(v@));
            assert(entry_keys(out@) =~= entry_keys(before).push((v.file_path@, v.line, v.rule_id@)));
            assert(baseline_keys(views(violations@.take(i + 1))) =~= baseline_keys(views(violations@.take(i as int))).push(
                (v.file_path@, v.line, v.rule_id@),
            ));
        }
        i = i + 1;
    }
    assert(violations@.take(violations@.len() as int) =~= violations@);
    out
}

} // verus!
