//! Properties of the linter as a whole: how configurations layer, what the
//! dispatcher does with disabled rules and configured severities, what
//! `# noqa` comments silence, which fixtures count as used, the order of
//! reports, and what a baseline filters.
use vstd::prelude::*;
use crate::config::{Config, apply_overrides, default_rules, override_target, rule_enabled, rule_severity_in, OverrideConfig};
use crate::engine::{
    concat_reports, dispatched, module_report, modules_reported, reported_under, settings_for,
    insert_path, paths_in_order, without_repeats, at_severity, baseline_keys, contribution, depends_on, entry_keys, every_rule, fixture_at, fixture_in_use, in_baseline,
    in_report_order, insert_in_order, narrowest_scope, new_findings, noqa_hit, noqa_own_hit, noqa_own_suppresses, noqa_rules, noqa_silences, noqa_suppresses, report_before,
    requested_by_test, unsilenced,
};
use crate::grouping::{lemma_text_lt_irreflexive, lemma_text_lt_total, lemma_text_lt_transitive};
use crate::models::{same_finding, scope_rank, FixtureRef, ParsedModule, Severity, ViolationView};
use crate::rulemap::{layered_maps, RuleConfig};
use crate::rules::registry::{kind_id, kind_reports, kind_severity, RuleKind};
use crate::rule_reports::reports_name_their_rule_and_file;
use crate::models::RuleContext;
use crate::paths::{glob_path_matches, glob_pattern_ok, lemma_parts_order, path_lt, path_parts, same_path};
use crate::text::lines;

verus! {

/// Layering one set of rule settings over another: a value set in the
/// upper layer wins, and a value the upper layer leaves unset never
/// replaces one set below it.
pub proof fn set_values_win_and_unset_values_keep(
    lower: Map<Seq<char>, RuleConfig>,
    upper: Map<Seq<char>, RuleConfig>,
    id: Seq<char>,
)
    ensures
        layered_maps(lower, upper).dom().contains(id) <==> (lower.dom().contains(id) || upper.dom().contains(id)),
        upper.dom().contains(id) && upper[id].enabled is Some ==> layered_maps(lower, upper)[id].enabled == upper[id].enabled,
        upper.dom().contains(id) && upper[id].severity is Some ==> layered_maps(lower, upper)[id].severity
            == upper[id].severity,
        lower.dom().contains(id) && !(upper.dom().contains(id) && upper[id].enabled is Some) ==> layered_maps(
            lower,
            upper,
        )[id].enabled == lower[id].enabled,
        lower.dom().contains(id) && !(upper.dom().contains(id) && upper[id].severity is Some) ==> layered_maps(
            lower,
            upper,
        )[id].severity == lower[id].severity,
{
}

/// A rule runs unless its settings explicitly disable it.
pub proof fn rules_run_unless_disabled(m: Map<Seq<char>, RuleConfig>, id: Seq<char>)
    ensures
        rule_enabled(m, id) <==> !(m.dom().contains(id) && m[id].enabled == Some(false)),
{
}

/// Under the built-in settings every rule runs, at its default severity.
pub proof fn defaults_enable_every_rule(id: Seq<char>, default: Severity)
    ensures
        rule_enabled(default_rules(), id),
        rule_severity_in(default_rules(), id, default) == default,
{
}

/// Without overrides, every file gets the global settings.
pub proof fn no_overrides_give_global_settings(
    m: Map<Seq<char>, RuleConfig>,
    config_dir: Option<String>,
    file: Seq<char>,
)
    ensures
        apply_overrides(m, Seq::<OverrideConfig>::empty(), config_dir, file) == Ok::<Map<Seq<char>, RuleConfig>, Seq<char>>(m),
{
}

/// Overrides whose patterns are all valid and none of which matches a file
/// leave that file with the global settings.
pub proof fn unmatched_overrides_leave_global_settings(
    m: Map<Seq<char>, RuleConfig>,
    os: Seq<OverrideConfig>,
    config_dir: Option<String>,
    file: Seq<char>,
)
    requires
        forall|k: int| 0 <= k < os.len() ==> glob_pattern_ok(#[trigger] os[k].path@),
        forall|k: int|
            0 <= k < os.len() ==> !glob_path_matches(os[k].path@, #[trigger] override_target(os[k], config_dir, file)),
    ensures
        apply_overrides(m, os, config_dir, file) == Ok::<Map<Seq<char>, RuleConfig>, Seq<char>>(m),
    decreases os.len(),
{
    if os.len() > 0 {
        let last = os.len() - 1;
        assert(glob_pattern_ok(os[last].path@));
        assert(!glob_path_matches(os[last].path@, override_target(os[last], config_dir, file)));
        unmatched_overrides_leave_global_settings(m, os.drop_last(), config_dir, file);
    }
}

/// When the last override of a file's configuration matches the file, what
/// it sets for a rule (enabled or not, severity) is what the file gets,
/// whatever the settings and overrides before it said.
pub proof fn last_matching_override_wins(
    m: Map<Seq<char>, RuleConfig>,
    os: Seq<OverrideConfig>,
    config_dir: Option<String>,
    file: Seq<char>,
    id: Seq<char>,
    default: Severity,
)
    requires
        os.len() > 0,
        forall|k: int| 0 <= k < os.len() ==> glob_pattern_ok(#[trigger] os[k].path@),
        glob_path_matches(os.last().path@, override_target(os.last(), config_dir, file)),
    ensures
        apply_overrides(m, os, config_dir, file) is Ok,
        os.last().rules@.dom().contains(id) && os.last().rules@[id].enabled is Some ==> rule_enabled(
            apply_overrides(m, os, config_dir, file)->Ok_0,
            id,
        ) == os.last().rules@[id].enabled->Some_0,
        os.last().rules@.dom().contains(id) && os.last().rules@[id].severity is Some ==> rule_severity_in(
            apply_overrides(m, os, config_dir, file)->Ok_0,
            id,
            default,
        ) == os.last().rules@[id].severity->Some_0,
{
    lemma_valid_overrides_apply(m, os.drop_last(), config_dir, file);
    let last = os.len() - 1;
    assert(glob_pattern_ok(os[last].path@));
    let m2 = apply_overrides(m, os.drop_last(), config_dir, file)->Ok_0;
    set_values_win_and_unset_values_keep(m2, os.last().rules@, id);
}

/// Overrides whose patterns are all valid always apply without error.
proof fn lemma_valid_overrides_apply(
    m: Map<Seq<char>, RuleConfig>,
    os: Seq<OverrideConfig>,
    config_dir: Option<String>,
    file: Seq<char>,
)
    requires
        forall|k: int| 0 <= k < os.len() ==> glob_pattern_ok(#[trigger] os[k].path@),
    ensures
        apply_overrides(m, os, config_dir, file) is Ok,
    decreases os.len(),
{
    if os.len() > 0 {
        let last = os.len() - 1;
        assert(glob_pattern_ok(os[last].path@));
        assert forall|k: int| 0 <= k < os.drop_last().len() implies glob_pattern_ok(#[trigger] os.drop_last()[k].path@) by {
            assert(os.drop_last()[k] == os[k]);
        }
        lemma_valid_overrides_apply(m, os.drop_last(), config_dir, file);
    }
}

/// A standalone configuration file wins over `pyproject.toml`, which wins
/// over the built-in defaults: the settings that configuration discovery
/// layers are decided by the highest source that sets them.
pub proof fn standalone_wins_over_pyproject(
    pyproject: Map<Seq<char>, RuleConfig>,
    standalone: Map<Seq<char>, RuleConfig>,
    id: Seq<char>,
)
    ensures
        ({
            let r = layered_maps(layered_maps(default_rules(), pyproject), standalone);
            &&& standalone.dom().contains(id) && standalone[id].enabled is Some ==> r[id].enabled == standalone[id].enabled
            &&& !(standalone.dom().contains(id) && standalone[id].enabled is Some) && pyproject.dom().contains(id)
                && pyproject[id].enabled is Some ==> r[id].enabled == pyproject[id].enabled
            &&& rule_enabled(r, id) <==> ((standalone.dom().contains(id) && standalone[id].enabled is Some)
                ==> standalone[id].enabled == Some(true)) && (!(standalone.dom().contains(id)
                && standalone[id].enabled is Some) && pyproject.dom().contains(id) && pyproject[id].enabled is Some
                ==> pyproject[id].enabled == Some(true))
        }),
{
}

/// A disabled rule contributes nothing to a module's report.
pub proof fn disabled_rules_report_nothing(k: RuleKind, eff: Map<Seq<char>, RuleConfig>, out: Seq<ViolationView>)
    requires
        !rule_enabled(eff, kind_id(k)),
    ensures
        contribution(k, eff, out).len() == 0,
{
}

/// An enabled rule contributes exactly what it found, each violation at the
/// severity configured for the rule (its default where none is set).
pub proof fn enabled_rules_report_at_configured_severity(
    k: RuleKind,
    eff: Map<Seq<char>, RuleConfig>,
    out: Seq<ViolationView>,
    i: int,
)
    requires
        rule_enabled(eff, kind_id(k)),
        0 <= i < out.len(),
    ensures
        contribution(k, eff, out).len() == out.len(),
        contribution(k, eff, out)[i] == at_severity(out[i], rule_severity_in(eff, kind_id(k), kind_severity(k))),
        eff.dom().contains(kind_id(k)) && eff[kind_id(k)].severity is Some ==> contribution(k, eff, out)[i].severity
            == eff[kind_id(k)].severity->0,
{
}

/// A `# noqa` comment silences the rules it lists, and a bare one every
/// rule, on its own line and on the next.
pub proof fn noqa_silences_its_line_and_the_next(ms: Seq<ParsedModule>, x: int, l: int, v: ViolationView)
    requires
        0 <= x < ms.len(),
        0 <= l < lines(ms[x].source@).len(),
        v.file_path == ms[x].file_path@,
        v.line == l + 1 || v.line == l + 2,
        noqa_rules(lines(ms[x].source@)[l]) matches Some(rs) && (rs.contains(v.rule_id) || rs == every_rule()),
    ensures
        noqa_silences(ms, v),
{
    let rs = noqa_rules(lines(ms[x].source@)[l])->0;
    if rs.contains(v.rule_id) {
        assert(noqa_hit(ms, x, l, v.file_path, v.line as int, v.rule_id));
    } else {
        assert(rs[0] == "*"@);
        assert(noqa_hit(ms, x, l, v.file_path, v.line as int, "*"@));
    }
}

/// Whether line `l` (counting from 0) of module `x` holds a `# noqa` comment
/// for `v`'s rule or for every rule, on `v`'s line or the line before it.
pub open spec fn comment_reaches(ms: Seq<ParsedModule>, x: int, l: int, v: ViolationView) -> bool {
    &&& 0 <= x < ms.len()
    &&& ms[x].file_path@ == v.file_path
    &&& 0 <= l < lines(ms[x].source@).len()
    &&& v.line == l + 1 || v.line == l + 2
    &&& noqa_rules(lines(ms[x].source@)[l]) matches Some(rs) && (rs.contains(v.rule_id) || rs.contains("*"@))
}

/// A `# noqa` comment reaches no further than its own line and the next:
/// whatever is silenced has such a comment on its line or the line before.
pub proof fn noqa_reaches_only_its_line_and_the_next(ms: Seq<ParsedModule>, v: ViolationView)
    requires
        noqa_silences(ms, v),
    ensures
        exists|x: int, l: int| #[trigger] comment_reaches(ms, x, l, v),
{
    if noqa_suppresses(ms, v.file_path, v.line as int, "*"@) {
        let (x, l) = choose|x: int, l: int| #[trigger] noqa_hit(ms, x, l, v.file_path, v.line as int, "*"@);
        assert(comment_reaches(ms, x, l, v));
    } else if noqa_suppresses(ms, v.file_path, v.line as int, v.rule_id) {
        let (x, l) = choose|x: int, l: int| #[trigger] noqa_hit(ms, x, l, v.file_path, v.line as int, v.rule_id);
        assert(comment_reaches(ms, x, l, v));
    } else if noqa_own_suppresses(ms, v.file_path, v.line - 1, "*"@) {
        let (x, l) = choose|x: int, l: int| #[trigger] noqa_own_hit(ms, x, l, v.file_path, v.line - 1, "*"@);
        assert(comment_reaches(ms, x, l, v));
    } else {
        let (x, l) = choose|x: int, l: int| #[trigger] noqa_own_hit(ms, x, l, v.file_path, v.line - 1, v.rule_id);
        assert(comment_reaches(ms, x, l, v));
    }
}

/// Every fixture a test asks for is in use.
pub proof fn requested_fixtures_are_used(ms: Seq<ParsedModule>, name: Seq<char>)
    requires
        requested_by_test(ms, name),
    ensures
        fixture_in_use(ms, name),
{
    let q = seq![name];
    assert(crate::engine::dependency_chain(ms, q));
}

/// What a used fixture depends on is in use too.
pub proof fn dependencies_of_used_fixtures_are_used(ms: Seq<ParsedModule>, a: Seq<char>, b: Seq<char>)
    requires
        fixture_in_use(ms, a),
        depends_on(ms, a, b),
    ensures
        fixture_in_use(ms, b),
{
    let p = choose|path: Seq<Seq<char>>| #[trigger] crate::engine::dependency_chain(ms, path) && path.last() == a;
    let q = p.push(b);
    assert forall|k: int| 0 <= k < q.len() - 1 implies #[trigger] depends_on(ms, q[k], q[k + 1]) by {
        if k < p.len() - 1 {
            assert(depends_on(ms, p[k], p[k + 1]));
        } else {
            assert(q[k] == a);
        }
    }
    assert(crate::engine::dependency_chain(ms, q));
}

/// Whether no violation of `s` comes before an earlier one.
pub open spec fn in_order(s: Seq<ViolationView>) -> bool {
    forall|i: int, j: int| 0 <= i < j < s.len() ==> !report_before(#[trigger] s[j], #[trigger] s[i])
}

proof fn lemma_report_before_order(a: ViolationView, b: ViolationView, c: ViolationView)
    ensures
        !report_before(a, a),
        report_before(a, b) && report_before(b, c) ==> report_before(a, c),
        !report_before(a, b) && !report_before(b, c) ==> !report_before(a, c),
{
    let (pa, pb, pc) = (path_parts(a.file_path), path_parts(b.file_path), path_parts(c.file_path));
    lemma_parts_order(pa, pb, pc);
    lemma_parts_order(pb, pc, pa);
    lemma_parts_order(pc, pa, pb);
    lemma_parts_order(pa, pc, pb);
    lemma_parts_order(pb, pa, pc);
    lemma_parts_order(pc, pb, pa);
    lemma_text_lt_irreflexive(a.rule_id);
    lemma_text_lt_total(a.rule_id, b.rule_id);
    lemma_text_lt_total(b.rule_id, c.rule_id);
    lemma_text_lt_total(a.rule_id, c.rule_id);
    if text_lt_both(a.rule_id, b.rule_id, c.rule_id) {
        lemma_text_lt_transitive(a.rule_id, b.rule_id, c.rule_id);
    }
    if text_lt_both(c.rule_id, b.rule_id, a.rule_id) {
        lemma_text_lt_transitive(c.rule_id, b.rule_id, a.rule_id);
    }
    if text_lt_both(a.rule_id, c.rule_id, b.rule_id) {
        lemma_text_lt_transitive(a.rule_id, c.rule_id, b.rule_id);
    }
    if text_lt_both(b.rule_id, a.rule_id, c.rule_id) {
        lemma_text_lt_transitive(b.rule_id, a.rule_id, c.rule_id);
    }
}

spec fn text_lt_both(a: Seq<char>, b: Seq<char>, c: Seq<char>) -> bool {
    crate::grouping::text_lt(a, b) && crate::grouping::text_lt(b, c)
}

proof fn lemma_insert_in_order(s: Seq<ViolationView>, v: ViolationView)
    requires
        in_order(s),
    ensures
        in_order(insert_in_order(s, v)),
        insert_in_order(s, v).to_multiset() == s.to_multiset().insert(v),
        insert_in_order(s, v).len() == s.len() + 1,
        forall|i: int|
            0 <= i < insert_in_order(s, v).len() ==> #[trigger] insert_in_order(s, v)[i] == v || s.contains(
                insert_in_order(s, v)[i],
            ),
    decreases s.len(),
{
    broadcast use vstd::seq_lib::group_to_multiset_ensures;

    if s.len() == 0 {
        assert(insert_in_order(s, v) == seq![v]);
        assert(seq![v] == Seq::<ViolationView>::empty().push(v));
    } else if report_before(v, s.last()) {
        let init = s.drop_last();
        assert forall|i: int, j: int| 0 <= i < j < init.len() implies !report_before(#[trigger] init[j], #[trigger] init[i]) by {
            assert(init[j] == s[j] && init[i] == s[i]);
        }
        lemma_insert_in_order(init, v);
        let t = insert_in_order(init, v);
        let r = t.push(s.last());
        assert(insert_in_order(s, v) == r);
        assert forall|i: int, j: int| 0 <= i < j < r.len() implies !report_before(#[trigger] r[j], #[trigger] r[i]) by {
            if j == r.len() - 1 {
                assert(r[j] == s.last());
                assert(r[i] == t[i]);
                if t[i] == v {
                    lemma_report_before_order(s.last(), v, s.last());
                } else {
                    assert(init.contains(t[i]));
                    let k = choose|k: int| 0 <= k < init.len() && init[k] == t[i];
                    assert(s[k] == init[k]);
                    assert(!report_before(s[s.len() - 1], s[k]));
                }
            } else {
                assert(r[j] == t[j] && r[i] == t[i]);
            }
        }
        assert(s == init.push(s.last()));
        assert forall|i: int| 0 <= i < r.len() implies #[trigger] r[i] == v || s.contains(r[i]) by {
            if i < t.len() {
                assert(r[i] == t[i]);
                if t[i] != v {
                    let k = choose|k: int| 0 <= k < init.len() && init[k] == t[i];
                    assert(s[k] == init[k]);
                }
            } else {
                assert(s[s.len() - 1] == r[i]);
            }
        }
    } else {
        let r = s.push(v);
        assert(insert_in_order(s, v) == r);
        assert forall|i: int, j: int| 0 <= i < j < r.len() implies !report_before(#[trigger] r[j], #[trigger] r[i]) by {
            if j == r.len() - 1 {
                assert(r[j] == v && r[i] == s[i]);
                if i < s.len() - 1 {
                    assert(!report_before(s[s.len() - 1], s[i]));
                    lemma_report_before_order(v, s[s.len() - 1], s[i]);
                }
            } else {
                assert(r[j] == s[j] && r[i] == s[i]);
            }
        }
        assert forall|i: int| 0 <= i < r.len() implies #[trigger] r[i] == v || s.contains(r[i]) by {
            if i < s.len() {
                assert(r[i] == s[i]);
            }
        }
    }
}

/// Reports come out in order (by file, then line, then rule ID) and hold
/// exactly the violations that were found, each as often as it was found.
pub proof fn reports_are_ordered_permutations(vs: Seq<ViolationView>)
    ensures
        in_order(in_report_order(vs)),
        in_report_order(vs).to_multiset() == vs.to_multiset(),
    decreases vs.len(),
{
    broadcast use vstd::seq_lib::group_to_multiset_ensures;

    if vs.len() > 0 {
        reports_are_ordered_permutations(vs.drop_last());
        lemma_insert_in_order(in_report_order(vs.drop_last()), vs.last());
        assert(vs == vs.drop_last().push(vs.last()));
    }
}

/// Filtering violations against a baseline saved from those same
/// violations leaves none.
pub proof fn baseline_of_violations_filters_them_all(vs: Seq<ViolationView>, baseline: Seq<(String, usize, String)>)
    requires
        entry_keys(baseline) == baseline_keys(vs),
    ensures
        new_findings(vs, baseline).len() == 0,
    decreases vs.len(),
{
    if vs.len() > 0 {
        let k = vs.len() - 1;
        assert(entry_keys(baseline).len() == baseline.len());
        assert(entry_keys(baseline)[k] == baseline_keys(vs)[k]);
        assert(baseline[k].0@ == vs[k].file_path && baseline[k].1 == vs[k].line && baseline[k].2@ == vs[k].rule_id);
        assert(in_baseline(baseline, vs.last()));
        let b2 = baseline.drop_last();
        assert forall|j: int| 0 <= j < b2.len() implies #[trigger] entry_keys(b2)[j] == baseline_keys(vs.drop_last())[j] by {
            assert(entry_keys(baseline)[j] == baseline_keys(vs)[j]);
            assert(b2[j] == baseline[j]);
            assert(vs.drop_last()[j] == vs[j]);
        }
        assert(entry_keys(b2) =~= baseline_keys(vs.drop_last()));
        baseline_filter_monotone(vs.drop_last(), b2, baseline);
        baseline_of_violations_filters_them_all(vs.drop_last(), b2);
    }
}

/// A larger baseline filters at least as much.
proof fn baseline_filter_monotone(vs: Seq<ViolationView>, small: Seq<(String, usize, String)>, big: Seq<(String, usize, String)>)
    requires
        small.len() <= big.len(),
        forall|k: int| 0 <= k < small.len() ==> #[trigger] small[k] == big[k],
    ensures
        new_findings(vs, big).len() <= new_findings(vs, small).len(),
    decreases vs.len(),
{
    if vs.len() > 0 {
        baseline_filter_monotone(vs.drop_last(), small, big);
        if in_baseline(small, vs.last()) {
            let k = choose|k: int|
                0 <= k < small.len() && #[trigger] small[k].0@ == vs.last().file_path && small[k].1 == vs.last().line
                    && small[k].2@ == vs.last().rule_id;
            assert(big[k] == small[k]);
        }
    }
}

/// A baseline filters exactly the violations whose file, line and rule it
/// records.
pub proof fn baseline_filters_exactly_recorded(vs: Seq<ViolationView>, baseline: Seq<(String, usize, String)>, v: ViolationView)
    ensures
        new_findings(vs, baseline).contains(v) <==> vs.contains(v) && !in_baseline(baseline, v),
    decreases vs.len(),
{
    if vs.len() > 0 {
        baseline_filters_exactly_recorded(vs.drop_last(), baseline, v);
        let init = vs.drop_last();
        let a = new_findings(init, baseline);
        let r = new_findings(vs, baseline);
        if r.contains(v) {
            let i = choose|i: int| 0 <= i < r.len() && r[i] == v;
            if i < a.len() {
                assert(a[i] == r[i]);
                assert(a.contains(v));
                let j = choose|j: int| 0 <= j < init.len() && init[j] == v;
                assert(vs[j] == init[j]);
            } else {
                assert(vs[vs.len() - 1] == v);
            }
        }
        if vs.contains(v) && !in_baseline(baseline, v) {
            let j = choose|j: int| 0 <= j < vs.len() && vs[j] == v;
            if j < init.len() {
                assert(init[j] == vs[j]);
                assert(init.contains(v));
                let i = choose|i: int| 0 <= i < a.len() && a[i] == v;
                assert(r[i] == a[i]);
            } else {
                assert(r[r.len() - 1] == v);
            }
        }
    }
}

/// No violation that a `# noqa` comment silences is reported, and every
/// other violation found is.
pub proof fn reports_hold_exactly_the_unsilenced(ms: Seq<ParsedModule>, vs: Seq<ViolationView>, v: ViolationView)
    ensures
        in_report_order(unsilenced(ms, vs)).contains(v) <==> vs.contains(v) && !noqa_silences(ms, v),
{
    broadcast use vstd::seq_lib::group_to_multiset_ensures;

    reports_are_ordered_permutations(unsilenced(ms, vs));
    unsilenced_members(ms, vs, v);
    assert(in_report_order(unsilenced(ms, vs)).to_multiset().count(v) == unsilenced(ms, vs).to_multiset().count(v));
}

proof fn unsilenced_members(ms: Seq<ParsedModule>, vs: Seq<ViolationView>, v: ViolationView)
    ensures
        unsilenced(ms, vs).contains(v) <==> vs.contains(v) && !noqa_silences(ms, v),
    decreases vs.len(),
{
    if vs.len() > 0 {
        unsilenced_members(ms, vs.drop_last(), v);
        let init = vs.drop_last();
        let a = unsilenced(ms, init);
        let r = unsilenced(ms, vs);
        if r.contains(v) {
            let i = choose|i: int| 0 <= i < r.len() && r[i] == v;
            if i < a.len() {
                assert(a[i] == r[i]);
                assert(a.contains(v));
                let j = choose|j: int| 0 <= j < init.len() && init[j] == v;
                assert(vs[j] == init[j]);
            } else {
                assert(vs[vs.len() - 1] == v);
            }
        }
        if vs.contains(v) && !noqa_silences(ms, v) {
            let j = choose|j: int| 0 <= j < vs.len() && vs[j] == v;
            if j < init.len() {
                assert(init[j] == vs[j]);
                assert(init.contains(v));
                let i = choose|i: int| 0 <= i < a.len() && a[i] == v;
                assert(r[i] == a[i]);
            } else {
                assert(r[r.len() - 1] == v);
            }
        }
    }
}

/// Violations are equal when they name the same rule at the same line of
/// the same file, whatever else they say; this equality is an equivalence.
pub proof fn violation_equality_is_an_equivalence(a: ViolationView, b: ViolationView, c: ViolationView)
    ensures
        same_finding(a, a),
        same_finding(a, b) ==> same_finding(b, a),
        same_finding(a, b) && same_finding(b, c) ==> same_finding(a, c),
        (a.rule_id == b.rule_id && a.file_path == b.file_path && a.line == b.line) ==> same_finding(a, b),
{
}

/// The narrowest scope among some fixture definitions is the scope of one
/// of them, and no definition among them has a narrower one; there is none
/// only when there are no definitions.
pub proof fn narrowest_scope_is_a_minimum(ms: Seq<ParsedModule>, refs: Seq<FixtureRef>)
    ensures
        narrowest_scope(ms, refs) is None <==> refs.len() == 0,
        narrowest_scope(ms, refs) matches Some(s) ==> (exists|k: int|
            0 <= k < refs.len() && #[trigger] fixture_at(ms, refs[k]).scope == s) && forall|k: int|
            0 <= k < refs.len() ==> scope_rank(s) <= scope_rank(#[trigger] fixture_at(ms, refs[k]).scope),
    decreases refs.len(),
{
    if refs.len() > 0 {
        let init = refs.drop_last();
        narrowest_scope_is_a_minimum(ms, init);
        let last = refs.len() - 1;
        assert(refs[last] == refs.last());
        match narrowest_scope(ms, init) {
            Some(m) => {
                let k0 = choose|k: int| 0 <= k < init.len() && #[trigger] fixture_at(ms, init[k]).scope == m;
                assert(refs[k0] == init[k0]);
                assert forall|k: int| 0 <= k < refs.len() implies scope_rank(narrowest_scope(ms, refs)->0) <= scope_rank(
                    #[trigger] fixture_at(ms, refs[k]).scope,
                ) by {
                    if k < init.len() {
                        assert(refs[k] == init[k]);
                    }
                }
            },
            None => {
                assert(fixture_at(ms, refs[last]).scope == narrowest_scope(ms, refs)->0);
            },
        }
    }
}

proof fn lemma_path_order(a: Seq<char>, b: Seq<char>, c: Seq<char>)
    ensures
        !path_lt(a, a),
        !same_path(a, b) ==> (path_lt(a, b) || path_lt(b, a)),
        same_path(a, b) ==> !path_lt(a, b),
        path_lt(a, b) && path_lt(b, c) ==> path_lt(a, c),
        !path_lt(a, b) && !path_lt(b, c) ==> !path_lt(a, c),
{
    let (pa, pb, pc) = (path_parts(a), path_parts(b), path_parts(c));
    lemma_parts_order(pa, pb, pc);
    lemma_parts_order(pb, pc, pa);
    lemma_parts_order(pc, pa, pb);
    lemma_parts_order(pa, pc, pb);
    lemma_parts_order(pb, pa, pc);
    lemma_parts_order(pc, pb, pa);
}

/// Whether no path of `s` comes before an earlier one.
pub open spec fn paths_sorted(s: Seq<Seq<char>>) -> bool {
    forall|i: int, j: int| 0 <= i < j < s.len() ==> !path_lt(#[trigger] s[j], #[trigger] s[i])
}

proof fn lemma_insert_path(s: Seq<Seq<char>>, p: Seq<char>)
    requires
        paths_sorted(s),
    ensures
        paths_sorted(insert_path(s, p)),
        insert_path(s, p).to_multiset() == s.to_multiset().insert(p),
    decreases s.len(),
{
    broadcast use vstd::seq_lib::group_to_multiset_ensures;

    if s.len() == 0 {
        assert(insert_path(s, p) == Seq::<Seq<char>>::empty().push(p));
    } else if path_lt(p, s.last()) {
        let init = s.drop_last();
        assert forall|i: int, j: int| 0 <= i < j < init.len() implies !path_lt(#[trigger] init[j], #[trigger] init[i]) by {
            assert(init[j] == s[j] && init[i] == s[i]);
        }
        lemma_insert_path(init, p);
        let t = insert_path(init, p);
        let r = t.push(s.last());
        assert(t.to_multiset() == init.to_multiset().insert(p));
        assert forall|i: int, j: int| 0 <= i < j < r.len() implies !path_lt(#[trigger] r[j], #[trigger] r[i]) by {
            if j == r.len() - 1 {
                assert(r[j] == s.last() && r[i] == t[i]);
                assert(t.to_multiset().count(t[i]) > 0);
                if t[i] == p {
                    lemma_path_order(s.last(), p, s.last());
                } else {
                    assert(init.to_multiset().count(t[i]) > 0);
                    assert(init.contains(t[i]));
                    let k = choose|k: int| 0 <= k < init.len() && init[k] == t[i];
                    assert(s[k] == init[k]);
                    assert(!path_lt(s[s.len() - 1], s[k]));
                }
            } else {
                assert(r[j] == t[j] && r[i] == t[i]);
            }
        }
        assert(s == init.push(s.last()));
    } else {
        let r = s.push(p);
        assert forall|i: int, j: int| 0 <= i < j < r.len() implies !path_lt(#[trigger] r[j], #[trigger] r[i]) by {
            if j == r.len() - 1 {
                assert(r[j] == p && r[i] == s[i]);
                if i < s.len() - 1 {
                    lemma_path_order(p, s[s.len() - 1], s[i]);
                }
            } else {
                assert(r[j] == s[j] && r[i] == s[i]);
            }
        }
    }
}

proof fn lemma_paths_in_order(ps: Seq<Seq<char>>)
    ensures
        paths_sorted(paths_in_order(ps)),
        paths_in_order(ps).to_multiset() == ps.to_multiset(),
    decreases ps.len(),
{
    broadcast use vstd::seq_lib::group_to_multiset_ensures;

    if ps.len() > 0 {
        lemma_paths_in_order(ps.drop_last());
        lemma_insert_path(paths_in_order(ps.drop_last()), ps.last());
        assert(ps == ps.drop_last().push(ps.last()));
    }
}

#[verifier::rlimit(40)]
#[verifier::spinoff_prover]
proof fn lemma_without_repeats(s: Seq<Seq<char>>)
    requires
        paths_sorted(s),
    ensures
        forall|i: int, j: int|
            0 <= i < j < without_repeats(s).len() ==> path_lt(#[trigger] without_repeats(s)[i], #[trigger] without_repeats(s)[j]),
        forall|k: int| 0 <= k < without_repeats(s).len() ==> s.contains(#[trigger] without_repeats(s)[k]),
        forall|k: int|
            #![trigger s[k]]
            0 <= k < s.len() ==> exists|m: int| 0 <= m < without_repeats(s).len() && same_path(#[trigger] without_repeats(s)[m], s[k]),
        s.len() > 0 ==> without_repeats(s).len() > 0 && same_path(without_repeats(s).last(), s.last()),
    decreases s.len(),
{
    if s.len() > 0 {
        let init = s.drop_last();
        assert forall|i: int, j: int| 0 <= i < j < init.len() implies !path_lt(#[trigger] init[j], #[trigger] init[i]) by {
            assert(init[j] == s[j] && init[i] == s[i]);
        }
        lemma_without_repeats(init);
        let d = without_repeats(init);
        let r = without_repeats(s);
        let x = s.last();
        assert forall|k: int| 0 <= k < d.len() implies s.contains(#[trigger] d[k]) by {
            assert(init.contains(d[k]));
            let m = choose|m: int| 0 <= m < init.len() && init[m] == d[k];
            assert(s[m] == init[m]);
        }
        if d.len() > 0 && same_path(d.last(), x) {
            assert(r == d);
            assert forall|k: int| #![trigger s[k]] 0 <= k < s.len() implies exists|m: int| 0 <= m < r.len() && same_path(#[trigger] r[m], s[k]) by {
                if k < init.len() {
                    assert(init[k] == s[k]);
                } else {
                    assert(same_path(r[d.len() - 1], s[k]));
                }
            }
        } else {
            assert(r == d.push(x));
            if d.len() > 0 {
                assert(same_path(d.last(), init.last()));
                let n = s.len();
                assert(!path_lt(s[n - 1], s[n - 2]));
                assert(init.last() == s[n - 2]);
                lemma_path_order(d.last(), init.last(), x);
                lemma_path_order(init.last(), x, d.last());
                lemma_path_order(x, init.last(), x);
                lemma_path_order(d.last(), x, d.last());
                assert(path_lt(d.last(), x));
            }
            assert forall|i: int, j: int| 0 <= i < j < r.len() implies path_lt(#[trigger] r[i], #[trigger] r[j]) by {
                if j == r.len() - 1 {
                    assert(r[j] == x);
                    if i < d.len() - 1 {
                        assert(path_lt(d[i], d[d.len() - 1]));
                        lemma_path_order(d[i], d[d.len() - 1], x);
                    }
                    assert(r[i] == d[i]);
                } else {
                    assert(r[i] == d[i] && r[j] == d[j]);
                }
            }
            assert forall|k: int| 0 <= k < r.len() implies s.contains(#[trigger] r[k]) by {
                if k < d.len() {
                    assert(r[k] == d[k]);
                } else {
                    assert(s[s.len() - 1] == r[k]);
                }
            }
            assert forall|k: int| #![trigger s[k]] 0 <= k < s.len() implies exists|m: int| 0 <= m < r.len() && same_path(#[trigger] r[m], s[k]) by {
                if k < init.len() {
                    assert(init[k] == s[k]);
                    let m = choose|m: int| 0 <= m < d.len() && same_path(#[trigger] d[m], init[k]);
                    assert(r[m] == d[m]);
                } else {
                    assert(r[d.len() as int] == s[k]);
                }
            }
        }
    }
}

/// Discovered files come out in strictly increasing path order, so each
/// path once; each of them was discovered, and every discovered path is
/// among them.
pub proof fn discovered_files_are_sorted_and_distinct(ps: Seq<Seq<char>>)
    ensures
        forall|i: int, j: int|
            0 <= i < j < without_repeats(paths_in_order(ps)).len() ==> path_lt(
                #[trigger] without_repeats(paths_in_order(ps))[i],
                #[trigger] without_repeats(paths_in_order(ps))[j],
            ),
        forall|k: int|
            0 <= k < without_repeats(paths_in_order(ps)).len() ==> ps.contains(#[trigger] without_repeats(paths_in_order(ps))[k]),
        forall|k: int|
            #![trigger ps[k]]
            0 <= k < ps.len() ==> exists|m: int|
                0 <= m < without_repeats(paths_in_order(ps)).len() && same_path(
                    #[trigger] without_repeats(paths_in_order(ps))[m],
                    ps[k],
                ),
{
    broadcast use vstd::seq_lib::group_to_multiset_ensures;

    let s = paths_in_order(ps);
    lemma_paths_in_order(ps);
    lemma_without_repeats(s);
    let r = without_repeats(s);
    assert forall|k: int| 0 <= k < r.len() implies ps.contains(#[trigger] r[k]) by {
        assert(s.contains(r[k]));
        assert(s.to_multiset().count(r[k]) > 0);
        assert(ps.to_multiset().count(r[k]) > 0);
    }
    assert forall|k: int| #![trigger ps[k]] 0 <= k < ps.len() implies exists|m: int| 0 <= m < r.len() && same_path(#[trigger] r[m], ps[k]) by {
        assert(ps.to_multiset().count(ps[k]) > 0);
        assert(s.to_multiset().count(ps[k]) > 0);
        assert(s.contains(ps[k]));
        let j = choose|j: int| 0 <= j < s.len() && s[j] == ps[k];
        let m = choose|m: int| 0 <= m < r.len() && same_path(#[trigger] r[m], s[j]);
    }
}

proof fn lemma_dispatched_from_enabled(
    kinds: Seq<RuleKind>,
    eff: Map<Seq<char>, RuleConfig>,
    outs: Seq<Seq<ViolationView>>,
    m: ParsedModule,
    ctx: RuleContext,
)
    requires
        outs.len() >= kinds.len(),
        forall|i: int|
            0 <= i < kinds.len() && rule_enabled(eff, kind_id(kinds[i])) ==> kind_reports(kinds[i], m, ctx, #[trigger] outs[i]),
    ensures
        forall|j: int|
            0 <= j < dispatched(kinds, eff, outs).len() ==> rule_enabled(eff, (#[trigger] dispatched(kinds, eff, outs)[j]).rule_id)
                && dispatched(kinds, eff, outs)[j].file_path == m.file_path@,
    decreases kinds.len(),
{
    if kinds.len() > 0 {
        let init = kinds.drop_last();
        assert forall|i: int|
            0 <= i < init.len() && rule_enabled(eff, kind_id(init[i])) implies kind_reports(init[i], m, ctx, #[trigger] outs[i]) by {
            assert(init[i] == kinds[i]);
        }
        lemma_dispatched_from_enabled(init, eff, outs, m, ctx);
        let n = kinds.len() - 1;
        let k = kinds.last();
        let c = contribution(k, eff, outs[n]);
        let d = dispatched(init, eff, outs);
        assert(dispatched(kinds, eff, outs) == d + c);
        if rule_enabled(eff, kind_id(k)) {
            assert(kinds[n] == k);
            reports_name_their_rule_and_file(k, m, ctx, outs[n]);
        }
        assert forall|j: int|
            0 <= j < (d + c).len() implies rule_enabled(eff, (#[trigger] (d + c)[j]).rule_id) && (d + c)[j].file_path == m.file_path@ by {
            if j < d.len() {
                assert((d + c)[j] == d[j]);
            } else {
                assert((d + c)[j] == c[j - d.len()]);
                assert(rule_enabled(eff, kind_id(k)));
                assert(c[j - d.len()] == at_severity(outs[n][j - d.len()], rule_severity_in(eff, kind_id(k), kind_severity(k))));
            }
        }
    }
}

/// Every violation of a module's report comes from a rule that the file's
/// settings enable, and names the module's file: a disabled rule's ID never
/// appears in the report.
pub proof fn reports_come_only_from_enabled_rules(
    kinds: Seq<RuleKind>,
    eff: Map<Seq<char>, RuleConfig>,
    m: ParsedModule,
    ctx: RuleContext,
    out: Seq<ViolationView>,
)
    requires
        module_report(kinds, eff, m, ctx, out),
    ensures
        forall|j: int| 0 <= j < out.len() ==> rule_enabled(eff, (#[trigger] out[j]).rule_id) && out[j].file_path == m.file_path@,
{
    let outs = choose|per_rule: Seq<Seq<ViolationView>>|
        per_rule.len() == kinds.len() && (forall|i: int|
            0 <= i < kinds.len() && rule_enabled(eff, kind_id(kinds[i])) ==> kind_reports(kinds[i], m, ctx, #[trigger] per_rule[i]))
            && out == dispatched(kinds, eff, per_rule);
    lemma_dispatched_from_enabled(kinds, eff, outs, m, ctx);
}

proof fn lemma_concat_member(outs: Seq<Seq<ViolationView>>, v: ViolationView)
    requires
        concat_reports(outs).contains(v),
    ensures
        exists|i: int| 0 <= i < outs.len() && (#[trigger] outs[i]).contains(v),
    decreases outs.len(),
{
    let init = outs.drop_last();
    let a = concat_reports(init);
    let r = concat_reports(outs);
    let k = choose|k: int| 0 <= k < r.len() && r[k] == v;
    if k < a.len() {
        assert(a[k] == r[k]);
        assert(a.contains(v));
        lemma_concat_member(init, v);
        let i = choose|i: int| 0 <= i < init.len() && (#[trigger] init[i]).contains(v);
        assert(outs[i] == init[i]);
    } else {
        assert(outs.last()[k - a.len()] == v);
        assert(outs[outs.len() - 1].contains(v));
    }
}

/// A lint's report never holds a violation of a rule that the settings for
/// its file disable, nor one that a `# noqa` comment silences.
pub proof fn lint_reports_respect_settings_and_noqa(
    config: Config,
    kinds: Seq<RuleKind>,
    ms: Seq<ParsedModule>,
    ctx: RuleContext,
    outs: Seq<Seq<ViolationView>>,
    v: ViolationView,
)
    requires
        outs.len() == ms.len(),
        modules_reported(kinds, config, ms, ctx, outs, outs.len() as int),
        in_report_order(unsilenced(ms, concat_reports(outs))).contains(v),
    ensures
        settings_for(config, v.file_path) matches Ok(eff) && rule_enabled(eff, v.rule_id),
        !noqa_silences(ms, v),
{
    reports_hold_exactly_the_unsilenced(ms, concat_reports(outs), v);
    lemma_concat_member(outs, v);
    let i = choose|i: int| 0 <= i < outs.len() && (#[trigger] outs[i]).contains(v);
    assert(reported_under(kinds, config, ms[i], ctx, outs[i]));
    let eff = settings_for(config, ms[i].file_path@)->Ok_0;
    reports_come_only_from_enabled_rules(kinds, eff, ms[i], ctx, outs[i]);
    let j = choose|j: int| 0 <= j < outs[i].len() && outs[i][j] == v;
    assert(rule_enabled(eff, outs[i][j].rule_id));
}

} // verus!
