//! What the rules report, stated over the tests of a module: which tests,
//! value lists and patch targets each rule reports, and which it never
//! does; and which calls make a test's assertions weak.
use vstd::prelude::*;
use crate::grouping::{duplicated, lemma_sorted_set, sorted_duplicates, sorted_set, strictly_sorted};
use crate::models::{ParsedModule, TestFunction, ViolationView, texts};
use crate::rules::flat_map;
use crate::rules::flakiness::{
    cwd_dependency_findings, datetime_assertion_findings, file_io_findings, mystery_guest_findings, socket_timeout_findings,
    time_sleep_findings,
};
use crate::rules::maintenance::{
    assertion_roulette_findings, bdd_scenario_findings, conditional_in_param_findings, name_length_findings,
    no_assertion_findings, param_dup_findings, parametrize_empty_findings, parametrize_explosion_findings,
    property_hint_findings, raw_exception_findings, sleep_value_findings, test_logic_findings,
};
use crate::rules::mocking::{magic_mock_async_findings, patch_init_findings};
use crate::rules::flakiness::{fixture_io_findings, network_import_findings, network_modules, mock_layer_libs};
use crate::rules::maintenance::mock_only_findings;
use crate::models::{Fixture, FixtureScope};
use crate::text::{ends_with, starts_with};
use crate::text::lowercase;
use crate::rules::mocking::{definition_module, patch_def_findings};
use crate::text::{contains, occurs_at, trim};
use crate::parser::{add_category, call_function, test_function_of, weak_call, weak_comparison, weak_details, weak_ops, weak_types};
use crate::syntax::{SyntaxTree, end, field_child, text};

verus! {

/// Whether `v` is a violation of the rule `id` in `file`, reported at the
/// test `t`.
pub open spec fn names_test(v: ViolationView, id: Seq<char>, file: Seq<char>, t: TestFunction) -> bool {
    &&& v.rule_id == id
    &&& v.file_path == file
    &&& v.line == t.line
    &&& v.test_name == Some(t.name@)
}

/// What a concatenation over items holds is what the part of some item
/// holds.
pub proof fn lemma_flat_map_contains<A>(s: Seq<A>, f: spec_fn(A) -> Seq<ViolationView>, v: ViolationView)
    ensures
        flat_map(s, f).contains(v) <==> exists|i: int| 0 <= i < s.len() && #[trigger] f(s[i]).contains(v),
    decreases s.len(),
{
    if s.len() > 0 {
        let init = s.drop_last();
        lemma_flat_map_contains(init, f, v);
        let a = flat_map(init, f);
        let b = f(s.last());
        let all = flat_map(s, f);
        assert(all == a + b);
        if all.contains(v) {
            let k = choose|k: int| 0 <= k < all.len() && all[k] == v;
            if k < a.len() {
                assert(a[k] == v);
                assert(a.contains(v));
                let i = choose|i: int| 0 <= i < init.len() && #[trigger] f(init[i]).contains(v);
                assert(init[i] == s[i]);
            } else {
                assert(b[k - a.len()] == v);
                assert(f(s[s.len() - 1]).contains(v));
            }
        }
        if exists|i: int| 0 <= i < s.len() && #[trigger] f(s[i]).contains(v) {
            let i = choose|i: int| 0 <= i < s.len() && #[trigger] f(s[i]).contains(v);
            if i < init.len() {
                assert(init[i] == s[i]);
                assert(a.contains(v));
                let k = choose|k: int| 0 <= k < a.len() && a[k] == v;
                assert(all[k] == v);
            } else {
                let k = choose|k: int| 0 <= k < b.len() && b[k] == v;
                assert(all[a.len() + k] == v);
            }
        }
    }
}

/// Assertion roulette: a test is reported exactly when it is not
/// parametrized and has more than three assertions. Every such test is
/// reported, and every report is of such a test.
#[verifier::rlimit(60)]
#[verifier::spinoff_prover]
pub proof fn assertion_roulette_reports_large_unparametrized_tests(m: ParsedModule, out: Seq<ViolationView>)
    requires
        out == assertion_roulette_findings(m),
    ensures
        forall|i: int|
            0 <= i < m.test_functions@.len() && (#[trigger] m.test_functions@[i]).assertion_count > 3
                && !m.test_functions@[i].is_parametrized ==> exists|v: ViolationView|
                out.contains(v) && #[trigger] names_test(v, "PYTEST-MNT-006"@, m.file_path@, m.test_functions@[i]),
        forall|v: ViolationView|
            #[trigger] out.contains(v) ==> exists|i: int|
                0 <= i < m.test_functions@.len() && (#[trigger] m.test_functions@[i]).assertion_count > 3
                    && !m.test_functions@[i].is_parametrized && names_test(v, "PYTEST-MNT-006"@, m.file_path@, m.test_functions@[i]),
{
    let ts = m.test_functions@;
    let f = |t: TestFunction| crate::rules::maintenance::assertion_roulette_finding(m, t);
    assert forall|i: int|
        0 <= i < ts.len() && (#[trigger] ts[i]).assertion_count > 3 && !ts[i].is_parametrized implies exists|v: ViolationView|
        out.contains(v) && #[trigger] names_test(v, "PYTEST-MNT-006"@, m.file_path@, ts[i]) by {
        let v = f(ts[i])[0];
        assert(f(ts[i]).contains(v));
        lemma_flat_map_contains(ts, f, v);
        assert(names_test(v, "PYTEST-MNT-006"@, m.file_path@, ts[i]));
    }
    assert forall|v: ViolationView| #[trigger] out.contains(v) implies exists|i: int|
        0 <= i < ts.len() && (#[trigger] ts[i]).assertion_count > 3 && !ts[i].is_parametrized && names_test(
            v,
            "PYTEST-MNT-006"@,
            m.file_path@,
            ts[i],
        ) by {
        lemma_flat_map_contains(ts, f, v);
        let i = choose|i: int| 0 <= i < ts.len() && #[trigger] f(ts[i]).contains(v);
        assert(f(ts[i]).len() > 0);
        assert(f(ts[i])[0] == v);
    }
}

/// Whether some value occurs twice in `vals`.
pub open spec fn has_repeat(vals: Seq<Seq<char>>) -> bool {
    exists|a: int, b: int| 0 <= a < b < vals.len() && #[trigger] vals[a] == #[trigger] vals[b]
}

/// The items of `s` that occur twice in `all`, in order.
spec fn repeated_in(s: Seq<Seq<char>>, all: Seq<Seq<char>>) -> Seq<Seq<char>>
    decreases s.len(),
{
    if s.len() == 0 {
        Seq::empty()
    } else {
        let p = repeated_in(s.drop_last(), all);
        if duplicated(all, s.last()) {
            p.push(s.last())
        } else {
            p
        }
    }
}

proof fn lemma_repeated_in(s: Seq<Seq<char>>, all: Seq<Seq<char>>)
    ensures
        forall|x: Seq<char>| #[trigger] repeated_in(s, all).contains(x) <==> s.contains(x) && duplicated(all, x),
    decreases s.len(),
{
    if s.len() > 0 {
        let init = s.drop_last();
        lemma_repeated_in(init, all);
        let p = repeated_in(init, all);
        let r = repeated_in(s, all);
        assert forall|x: Seq<char>| #[trigger] r.contains(x) <==> s.contains(x) && duplicated(all, x) by {
            if r.contains(x) {
                let k = choose|k: int| 0 <= k < r.len() && r[k] == x;
                if k < p.len() {
                    assert(p[k] == x);
                    assert(p.contains(x));
                    let j = choose|j: int| 0 <= j < init.len() && init[j] == x;
                    assert(s[j] == x);
                } else {
                    assert(s[s.len() - 1] == x);
                }
            }
            if s.contains(x) && duplicated(all, x) {
                let j = choose|j: int| 0 <= j < s.len() && s[j] == x;
                if j < init.len() {
                    assert(init[j] == x);
                    assert(p.contains(x));
                    let k = choose|k: int| 0 <= k < p.len() && p[k] == x;
                    assert(r[k] == x);
                } else {
                    assert(r[r.len() - 1] == x);
                }
            }
        }
    }
}

/// The repeated values of a list are exactly the values it holds twice.
pub proof fn lemma_sorted_duplicates(all: Seq<Seq<char>>)
    ensures
        forall|x: Seq<char>| #[trigger] sorted_duplicates(all).contains(x) <==> duplicated(all, x),
        sorted_duplicates(all).len() > 0 <==> has_repeat(all),
{
    let d = repeated_in(all, all);
    lemma_repeated_in(all, all);
    lemma_sorted_set(d);
    let w = sorted_set(d);
    assert forall|x: Seq<char>| w.contains(x) <==> duplicated(all, x) by {
        if duplicated(all, x) {
            let (a, b) = choose|a: int, b: int| 0 <= a < b < all.len() && #[trigger] all[a] == x && #[trigger] all[b] == x;
            assert(all.contains(x));
        }
    }
    assert(strictly_sorted(w) && forall|x: Seq<char>| w.contains(x) <==> duplicated(all, x));
    let r = sorted_duplicates(all);
    assert(strictly_sorted(r) && forall|x: Seq<char>| r.contains(x) <==> duplicated(all, x));
    if r.len() > 0 {
        assert(r.contains(r[0]));
        let (a, b) = choose|a: int, b: int| 0 <= a < b < all.len() && #[trigger] all[a] == r[0] && #[trigger] all[b] == r[0];
        assert(has_repeat(all));
    }
    if has_repeat(all) {
        let (a, b) = choose|a: int, b: int| 0 <= a < b < all.len() && #[trigger] all[a] == #[trigger] all[b];
        assert(duplicated(all, all[a]));
        assert(r.contains(all[a]));
    }
}

/// Duplicate parametrize values: a test is reported for each of its value
/// lists that holds some value twice, and every report is of such a list.
#[verifier::rlimit(60)]
#[verifier::spinoff_prover]
pub proof fn parametrize_duplicates_report_repeated_values(m: ParsedModule, out: Seq<ViolationView>)
    requires
        out == param_dup_findings(m),
    ensures
        forall|i: int, k: int|
            0 <= i < m.test_functions@.len() && 0 <= k < m.test_functions@[i].parametrize_values@.len() && has_repeat(
                texts(#[trigger] m.test_functions@[i].parametrize_values@[k]@),
            ) ==> exists|v: ViolationView|
                out.contains(v) && #[trigger] names_test(v, "PYTEST-PARAM-002"@, m.file_path@, m.test_functions@[i]),
        forall|v: ViolationView|
            #[trigger] out.contains(v) ==> exists|i: int, k: int|
                0 <= i < m.test_functions@.len() && 0 <= k < m.test_functions@[i].parametrize_values@.len() && has_repeat(
                    texts(#[trigger] m.test_functions@[i].parametrize_values@[k]@),
                ) && names_test(v, "PYTEST-PARAM-002"@, m.file_path@, m.test_functions@[i]),
{
    let ts = m.test_functions@;
    let g = |t: TestFunction| crate::rules::maintenance::param_dup_finding(m, t);
    assert forall|i: int, k: int|
        0 <= i < ts.len() && 0 <= k < ts[i].parametrize_values@.len() && has_repeat(
            texts(#[trigger] ts[i].parametrize_values@[k]@),
        ) implies exists|v: ViolationView| out.contains(v) && #[trigger] names_test(v, "PYTEST-PARAM-002"@, m.file_path@, ts[i]) by {
        let t = ts[i];
        let vals = t.parametrize_values@[k];
        let h = |vs: Vec<String>| crate::rules::maintenance::param_dup_item(m, t, vs);
        lemma_sorted_duplicates(texts(vals@));
        let v = h(vals)[0];
        assert(h(t.parametrize_values@[k]).contains(v));
        lemma_flat_map_contains(t.parametrize_values@, h, v);
        assert(g(ts[i]).contains(v));
        lemma_flat_map_contains(ts, g, v);
        assert(names_test(v, "PYTEST-PARAM-002"@, m.file_path@, ts[i]));
    }
    assert forall|v: ViolationView| #[trigger] out.contains(v) implies exists|i: int, k: int|
        0 <= i < ts.len() && 0 <= k < ts[i].parametrize_values@.len() && has_repeat(
            texts(#[trigger] ts[i].parametrize_values@[k]@),
        ) && names_test(v, "PYTEST-PARAM-002"@, m.file_path@, ts[i]) by {
        lemma_flat_map_contains(ts, g, v);
        let i = choose|i: int| 0 <= i < ts.len() && #[trigger] g(ts[i]).contains(v);
        let t = ts[i];
        let h = |vs: Vec<String>| crate::rules::maintenance::param_dup_item(m, t, vs);
        lemma_flat_map_contains(t.parametrize_values@, h, v);
        let k = choose|k: int| 0 <= k < t.parametrize_values@.len() && #[trigger] h(t.parametrize_values@[k]).contains(v);
        let vals = t.parametrize_values@[k];
        lemma_sorted_duplicates(texts(vals@));
        assert(h(vals).len() > 0);
        assert(h(vals)[0] == v);
        assert(has_repeat(texts(ts[i].parametrize_values@[k]@)));
    }
}

/// Whether no fixture dependency of `t` is a temporary-path fixture
/// (`tmp_path`, `tmpdir` or `tmp_path_factory`).
pub open spec fn no_tmp_path_fixture(t: TestFunction) -> bool {
    forall|k: int|
        0 <= k < t.fixture_deps@.len() ==> #[trigger] t.fixture_deps@[k]@ != "tmp_path"@ && t.fixture_deps@[k]@
            != "tmpdir"@ && t.fixture_deps@[k]@ != "tmp_path_factory"@
}

/// File I/O: a test is reported exactly when it uses file I/O and takes
/// none of `tmp_path`, `tmpdir` and `tmp_path_factory`; a test with one of
/// these fixtures is never reported.
#[verifier::rlimit(60)]
#[verifier::spinoff_prover]
pub proof fn file_io_reports_tests_without_tmp_path(m: ParsedModule, out: Seq<ViolationView>)
    requires
        out == file_io_findings(m),
    ensures
        forall|i: int|
            0 <= i < m.test_functions@.len() && (#[trigger] m.test_functions@[i]).uses_file_io && no_tmp_path_fixture(
                m.test_functions@[i],
            ) ==> exists|v: ViolationView| out.contains(v) && #[trigger] names_test(v, "PYTEST-FLK-002"@, m.file_path@, m.test_functions@[i]),
        forall|v: ViolationView|
            #[trigger] out.contains(v) ==> exists|i: int|
                0 <= i < m.test_functions@.len() && (#[trigger] m.test_functions@[i]).uses_file_io && no_tmp_path_fixture(
                    m.test_functions@[i],
                ) && names_test(v, "PYTEST-FLK-002"@, m.file_path@, m.test_functions@[i]),
{
    let ts = m.test_functions@;
    let f = |t: TestFunction| crate::rules::flakiness::file_io_finding(m, t);
    assert forall|i: int|
        0 <= i < ts.len() && (#[trigger] ts[i]).uses_file_io && no_tmp_path_fixture(ts[i]) implies exists|v: ViolationView|
        out.contains(v) && #[trigger] names_test(v, "PYTEST-FLK-002"@, m.file_path@, ts[i]) by {
        let t = ts[i];
        assert(!crate::rules::has_tmp_fixture(t.fixture_deps@)) by {
            if crate::rules::has_tmp_fixture(t.fixture_deps@) {
                let k = choose|k: int|
                    0 <= k < t.fixture_deps@.len() && crate::rules::is_tmp_fixture_name(#[trigger] t.fixture_deps@[k]@);
                assert(t.fixture_deps@[k]@ != "tmp_path"@);
            }
        }
        let v = f(t)[0];
        assert(f(ts[i]).contains(v));
        lemma_flat_map_contains(ts, f, v);
        assert(names_test(v, "PYTEST-FLK-002"@, m.file_path@, ts[i]));
    }
    assert forall|v: ViolationView| #[trigger] out.contains(v) implies exists|i: int|
        0 <= i < ts.len() && (#[trigger] ts[i]).uses_file_io && no_tmp_path_fixture(ts[i]) && names_test(
            v,
            "PYTEST-FLK-002"@,
            m.file_path@,
            ts[i],
        ) by {
        lemma_flat_map_contains(ts, f, v);
        let i = choose|i: int| 0 <= i < ts.len() && #[trigger] f(ts[i]).contains(v);
        let t = ts[i];
        assert(f(t).len() > 0);
        assert(f(t)[0] == v);
        assert forall|k: int| 0 <= k < t.fixture_deps@.len() implies #[trigger] t.fixture_deps@[k]@ != "tmp_path"@
            && t.fixture_deps@[k]@ != "tmpdir"@ && t.fixture_deps@[k]@ != "tmp_path_factory"@ by {
            if !(t.fixture_deps@[k]@ != "tmp_path"@ && t.fixture_deps@[k]@ != "tmpdir"@ && t.fixture_deps@[k]@
                != "tmp_path_factory"@) {
                assert(crate::rules::is_tmp_fixture_name(t.fixture_deps@[k]@));
            }
        }
    }
}

/// `b` occurs in `a + b + c`.
proof fn lemma_contains_middle(a: Seq<char>, b: Seq<char>, c: Seq<char>)
    ensures
        contains(a + b + c, b),
{
    assert((a + b + c).subrange(a.len() as int, (a.len() + b.len()) as int) =~= b);
    assert(occurs_at(a + b + c, b, a.len() as int));
}

/// Whether the import list `imports` has an import that contains `dm`.
pub open spec fn some_import_contains(imports: Seq<String>, dm: Seq<char>) -> bool {
    exists|j: int| 0 <= j < imports.len() && contains(#[trigger] imports[j]@, dm)
}

/// Patching the definition module: a patch target is reported exactly when
/// it has a definition module that some import of the file contains; the
/// report names the target. A target whose definition module no import
/// contains is never reported.
#[verifier::rlimit(40)]
#[verifier::spinoff_prover]
pub proof fn patch_targets_reported_when_definition_module_imported(m: ParsedModule, out: Seq<ViolationView>)
    requires
        out == patch_def_findings(m),
    ensures
        forall|i: int, k: int|
            0 <= i < m.test_functions@.len() && 0 <= k < m.test_functions@[i].patch_targets@.len() && (definition_module(
                #[trigger] m.test_functions@[i].patch_targets@[k]@,
            ) matches Some(dm) && some_import_contains(m.imports@, dm)) ==> exists|v: ViolationView|
                out.contains(v) && #[trigger] names_test(v, "PYTEST-MOC-001"@, m.file_path@, m.test_functions@[i]) && contains(
                    v.message,
                    m.test_functions@[i].patch_targets@[k]@,
                ),
        forall|v: ViolationView|
            #[trigger] out.contains(v) ==> exists|i: int, k: int|
                0 <= i < m.test_functions@.len() && 0 <= k < m.test_functions@[i].patch_targets@.len() && (definition_module(
                    #[trigger] m.test_functions@[i].patch_targets@[k]@,
                ) matches Some(dm) && some_import_contains(m.imports@, dm)) && names_test(
                    v,
                    "PYTEST-MOC-001"@,
                    m.file_path@,
                    m.test_functions@[i],
                ) && contains(v.message, m.test_functions@[i].patch_targets@[k]@),
{
    let ts = m.test_functions@;
    let g = |t: TestFunction| crate::rules::mocking::patch_def_finding(m, t);
    assert forall|i: int, k: int|
        0 <= i < ts.len() && 0 <= k < ts[i].patch_targets@.len() && (definition_module(
            #[trigger] ts[i].patch_targets@[k]@,
        ) matches Some(dm) && some_import_contains(m.imports@, dm)) implies exists|v: ViolationView|
        out.contains(v) && #[trigger] names_test(v, "PYTEST-MOC-001"@, m.file_path@, ts[i]) && contains(
            v.message,
            ts[i].patch_targets@[k]@,
        ) by {
        let t = ts[i];
        let tg = t.patch_targets@[k];
        let h = |x: String| crate::rules::mocking::patch_def_item(m, t, x@);
        let dm = definition_module(tg@)->Some_0;
        assert(crate::rules::imports_contain(m.imports@, dm)) by {
            let j = choose|j: int| 0 <= j < m.imports@.len() && contains(#[trigger] m.imports@[j]@, dm);
        }
        let v = h(tg)[0];
        assert(h(t.patch_targets@[k]).contains(v));
        lemma_flat_map_contains(t.patch_targets@, h, v);
        assert(g(ts[i]).contains(v));
        lemma_flat_map_contains(ts, g, v);
        lemma_contains_middle("Test '"@ + t.name@ + "' patches definition module '"@, tg@, "' — patch the consumer instead"@);
        assert(names_test(v, "PYTEST-MOC-001"@, m.file_path@, ts[i]));
        assert(contains(v.message, ts[i].patch_targets@[k]@));
    }
    assert forall|v: ViolationView| #[trigger] out.contains(v) implies exists|i: int, k: int|
        0 <= i < ts.len() && 0 <= k < ts[i].patch_targets@.len() && (definition_module(
            #[trigger] ts[i].patch_targets@[k]@,
        ) matches Some(dm) && some_import_contains(m.imports@, dm)) && names_test(v, "PYTEST-MOC-001"@, m.file_path@, ts[i])
            && contains(v.message, ts[i].patch_targets@[k]@) by {
        lemma_flat_map_contains(ts, g, v);
        let i = choose|i: int| 0 <= i < ts.len() && #[trigger] g(ts[i]).contains(v);
        let t = ts[i];
        let h = |x: String| crate::rules::mocking::patch_def_item(m, t, x@);
        lemma_flat_map_contains(t.patch_targets@, h, v);
        let k = choose|k: int| 0 <= k < t.patch_targets@.len() && #[trigger] h(t.patch_targets@[k]).contains(v);
        let tg = t.patch_targets@[k];
        assert(h(tg).len() > 0);
        assert(h(tg)[0] == v);
        let dm = definition_module(tg@)->Some_0;
        assert(crate::rules::imports_contain(m.imports@, dm));
        let j = choose|j: int| 0 <= j < m.imports@.len() && contains(#[trigger] m.imports@[j]@, dm);
        assert(some_import_contains(m.imports@, dm));
        lemma_contains_middle("Test '"@ + t.name@ + "' patches definition module '"@, tg@, "' — patch the consumer instead"@);
    }
}

proof fn lemma_add_category(d: Seq<Seq<char>>, c: Seq<char>)
    ensures
        add_category(d, c).contains(c),
        forall|x: Seq<char>| d.contains(x) ==> #[trigger] add_category(d, c).contains(x),
{
    if !d.contains(c) {
        assert(d.push(c)[d.len() as int] == c);
        assert forall|x: Seq<char>| d.contains(x) implies #[trigger] add_category(d, c).contains(x) by {
            let k = choose|k: int| 0 <= k < d.len() && d[k] == x;
            assert(d.push(c)[k] == x);
        }
    }
}

proof fn lemma_weak_ops_keeps(ops: Seq<Seq<char>>, n: int, d: Seq<Seq<char>>, x: Seq<char>)
    requires
        d.contains(x),
    ensures
        weak_ops(ops, n, d).contains(x),
    decreases n,
{
    if n > 0 {
        lemma_weak_ops_keeps(ops, n - 1, d, x);
        let p = weak_ops(ops, n - 1, d);
        lemma_add_category(p, "key-presence-only assertion"@);
        let p1 = if ops[n - 1] == "in"@ {
            add_category(p, "key-presence-only assertion"@)
        } else {
            p
        };
        lemma_add_category(p1, "existence-only assertion"@);
    }
}

proof fn lemma_weak_types_keeps(t: SyntaxTree, cs: Seq<usize>, n: int, d: Seq<Seq<char>>, x: Seq<char>)
    requires
        d.contains(x),
    ensures
        weak_types(t, cs, n, d).contains(x),
    decreases n,
{
    if n > 0 {
        lemma_weak_types_keeps(t, cs, n - 1, d, x);
        lemma_add_category(weak_types(t, cs, n - 1, d), "type-only assertion"@);
    }
}

/// Checking a node for weak assertion patterns keeps what was found.
proof fn lemma_weak_step_keeps(t: SyntaxTree, j: int, d: Seq<Seq<char>>, x: Seq<char>)
    requires
        d.contains(x),
    ensures
        weak_comparison(t, j, weak_call(t, j, d)).contains(x),
{
    match call_function(t, j) {
        Some(f) => {
            let ft = text(t, f);
            lemma_add_category(d, "type-only assertion"@);
            let d1 = if contains(ft, "assertIsInstance"@) { add_category(d, "type-only assertion"@) } else { d };
            lemma_add_category(d1, "type-only assertion"@);
            let d2 = if contains(ft, "isinstance"@) { add_category(d1, "type-only assertion"@) } else { d1 };
            lemma_add_category(d2, "existence-only assertion"@);
            let d3 = if contains(ft, "assertTrue"@) { add_category(d2, "existence-only assertion"@) } else { d2 };
            lemma_add_category(d3, "existence-only assertion"@);
            let d4 = if contains(ft, "assertIsNotNone"@) { add_category(d3, "existence-only assertion"@) } else { d3 };
            lemma_add_category(d4, "key-presence-only assertion"@);
        },
        None => {},
    }
    let w = weak_call(t, j, d);
    assert(w.contains(x));
    if crate::syntax::kind(t, j) == "comparison_operator"@ {
        let cs = crate::syntax::children(t, j);
        let ops = crate::parser::trimmed_texts(t, cs);
        lemma_weak_ops_keeps(ops, ops.len() as int, w, x);
        lemma_weak_types_keeps(t, cs, cs.len() as int, weak_ops(ops, ops.len() as int, w), x);
    }
}

/// What is found in the first nodes stays found when more nodes are scanned.
proof fn lemma_weak_details_keeps(t: SyntaxTree, a: int, b1: int, b2: int, x: Seq<char>)
    requires
        a <= b1 <= b2,
        weak_details(t, a, b1).contains(x),
    ensures
        weak_details(t, a, b2).contains(x),
    decreases b2 - b1,
{
    if b1 < b2 {
        lemma_weak_details_keeps(t, a, b1, b2 - 1, x);
        lemma_weak_step_keeps(t, b2 - 1, weak_details(t, a, b2 - 1), x);
    }
}

/// A call to `isinstance` in a test's body makes the test's assertions
/// weak: its record lists a type-only assertion.
pub proof fn isinstance_calls_are_type_only_assertions(
    tf: TestFunction,
    t: SyntaxTree,
    f: int,
    p: int,
    path: Seq<char>,
    j: int,
)
    requires
        test_function_of(tf, t, f, p, path),
        field_child(t, f, "body"@) matches Some(b) && b <= j < end(t, b),
        call_function(t, j) matches Some(g) && contains(text(t, g), "isinstance"@),
    ensures
        texts(tf.weak_assertion_details@).contains("type-only assertion"@),
        tf.has_weak_assertions,
{
    let b = field_child(t, f, "body"@)->Some_0;
    let g = call_function(t, j)->Some_0;
    let d = weak_details(t, b, j);
    let ft = text(t, g);
    let d1 = if contains(ft, "assertIsInstance"@) { add_category(d, "type-only assertion"@) } else { d };
    lemma_add_category(d1, "type-only assertion"@);
    let d2 = add_category(d1, "type-only assertion"@);
    assert(d2.contains("type-only assertion"@));
    lemma_add_category(d2, "existence-only assertion"@);
    let d3 = if contains(ft, "assertTrue"@) { add_category(d2, "existence-only assertion"@) } else { d2 };
    assert(d3.contains("type-only assertion"@));
    lemma_add_category(d3, "existence-only assertion"@);
    let d4 = if contains(ft, "assertIsNotNone"@) { add_category(d3, "existence-only assertion"@) } else { d3 };
    assert(d4.contains("type-only assertion"@));
    lemma_add_category(d4, "key-presence-only assertion"@);
    assert(weak_call(t, j, d).contains("type-only assertion"@));
    if crate::syntax::kind(t, j) == "comparison_operator"@ {
        let cs = crate::syntax::children(t, j);
        let ops = crate::parser::trimmed_texts(t, cs);
        let w = weak_call(t, j, d);
        lemma_weak_ops_keeps(ops, ops.len() as int, w, "type-only assertion"@);
        lemma_weak_types_keeps(t, cs, cs.len() as int, weak_ops(ops, ops.len() as int, w), "type-only assertion"@);
    }
    assert(weak_details(t, b, j + 1).contains("type-only assertion"@));
    lemma_weak_details_keeps(t, b, j + 1, end(t, b), "type-only assertion"@);
    assert(texts(tf.weak_assertion_details@).len() > 0);
}

/// Whether `out` reports exactly the tests of `m` that meet `cond`, each
/// as a violation of the rule `id` at the test: every such test is
/// reported, and every report is of such a test.
pub open spec fn reports_tests_where(
    out: Seq<ViolationView>,
    m: ParsedModule,
    id: Seq<char>,
    cond: spec_fn(TestFunction) -> bool,
) -> bool {
    &&& forall|i: int|
        0 <= i < m.test_functions@.len() && cond(#[trigger] m.test_functions@[i]) ==> exists|v: ViolationView|
            out.contains(v) && #[trigger] names_test(v, id, m.file_path@, m.test_functions@[i])
    &&& forall|v: ViolationView|
        #[trigger] out.contains(v) ==> exists|i: int|
            0 <= i < m.test_functions@.len() && cond(#[trigger] m.test_functions@[i]) && names_test(
                v,
                id,
                m.file_path@,
                m.test_functions@[i],
            )
}

/// A rule that reports one violation at each test meeting `cond`, and
/// nothing at the others, reports exactly those tests.
proof fn lemma_reports_tests_where(
    m: ParsedModule,
    id: Seq<char>,
    f: spec_fn(TestFunction) -> Seq<ViolationView>,
    cond: spec_fn(TestFunction) -> bool,
)
    requires
        forall|t: TestFunction|
            cond(t) ==> (#[trigger] f(t)).len() == 1 && names_test(f(t)[0], id, m.file_path@, t),
        forall|t: TestFunction| !cond(t) ==> (#[trigger] f(t)).len() == 0,
    ensures
        reports_tests_where(flat_map(m.test_functions@, f), m, id, cond),
{
    let ts = m.test_functions@;
    let out = flat_map(ts, f);
    assert forall|i: int| 0 <= i < ts.len() && cond(#[trigger] ts[i]) implies exists|v: ViolationView|
        out.contains(v) && #[trigger] names_test(v, id, m.file_path@, ts[i]) by {
        let v = f(ts[i])[0];
        assert(f(ts[i]).contains(v));
        lemma_flat_map_contains(ts, f, v);
        assert(names_test(v, id, m.file_path@, ts[i]));
    }
    assert forall|v: ViolationView| #[trigger] out.contains(v) implies exists|i: int|
        0 <= i < ts.len() && cond(#[trigger] ts[i]) && names_test(v, id, m.file_path@, ts[i]) by {
        lemma_flat_map_contains(ts, f, v);
        let i = choose|i: int| 0 <= i < ts.len() && #[trigger] f(ts[i]).contains(v);
        if !cond(ts[i]) {
            assert(f(ts[i]).len() == 0);
        }
        assert(f(ts[i])[0] == v);
    }
}

/// `time.sleep`: exactly the tests that call it are reported.
pub proof fn time_sleep_reports_sleeping_tests(m: ParsedModule, out: Seq<ViolationView>)
    requires
        out == time_sleep_findings(m),
    ensures
        reports_tests_where(out, m, "PYTEST-FLK-001"@, |t: TestFunction| t.uses_time_sleep),
{
    lemma_reports_tests_where(
        m,
        "PYTEST-FLK-001"@,
        |t: TestFunction| crate::rules::flakiness::time_sleep_finding(m, t),
        |t: TestFunction| t.uses_time_sleep,
    );
}

/// Working-directory dependence: exactly the tests that depend on it are
/// reported.
pub proof fn cwd_dependency_reports_cwd_tests(m: ParsedModule, out: Seq<ViolationView>)
    requires
        out == cwd_dependency_findings(m),
    ensures
        reports_tests_where(out, m, "PYTEST-FLK-004"@, |t: TestFunction| t.uses_cwd_dependency),
{
    lemma_reports_tests_where(
        m,
        "PYTEST-FLK-004"@,
        |t: TestFunction| crate::rules::flakiness::cwd_dependency_finding(m, t),
        |t: TestFunction| t.uses_cwd_dependency,
    );
}

/// Mystery guest: exactly the tests that use file I/O without a
/// temporary-path fixture are reported.
pub proof fn mystery_guest_reports_file_tests_without_tmp_path(m: ParsedModule, out: Seq<ViolationView>)
    requires
        out == mystery_guest_findings(m),
    ensures
        reports_tests_where(out, m, "PYTEST-FLK-005"@, |t: TestFunction| t.uses_file_io && no_tmp_path_fixture(t)),
{
    assert forall|t: TestFunction| #[trigger] no_tmp_path_fixture(t) == !crate::rules::has_tmp_fixture(t.fixture_deps@) by {
        lemma_no_tmp(t);
    }
    lemma_reports_tests_where(
        m,
        "PYTEST-FLK-005"@,
        |t: TestFunction| crate::rules::flakiness::mystery_guest_finding(m, t),
        |t: TestFunction| t.uses_file_io && no_tmp_path_fixture(t),
    );
}

proof fn lemma_no_tmp(t: TestFunction)
    ensures
        no_tmp_path_fixture(t) == !crate::rules::has_tmp_fixture(t.fixture_deps@),
{
    if crate::rules::has_tmp_fixture(t.fixture_deps@) {
        let k = choose|k: int| 0 <= k < t.fixture_deps@.len() && crate::rules::is_tmp_fixture_name(#[trigger] t.fixture_deps@[k]@);
        assert(!(t.fixture_deps@[k]@ != "tmp_path"@ && t.fixture_deps@[k]@ != "tmpdir"@ && t.fixture_deps@[k]@
            != "tmp_path_factory"@));
    }
    if !no_tmp_path_fixture(t) {
        let k = choose|k: int|
            0 <= k < t.fixture_deps@.len() && !(#[trigger] t.fixture_deps@[k]@ != "tmp_path"@ && t.fixture_deps@[k]@ != "tmpdir"@
                && t.fixture_deps@[k]@ != "tmp_path_factory"@);
        assert(crate::rules::is_tmp_fixture_name(t.fixture_deps@[k]@));
    }
}

/// Network use without a socket timeout: where the file imports `socket`,
/// exactly the tests that use the network are reported; elsewhere nothing.
pub proof fn socket_timeout_reports_network_tests(m: ParsedModule, out: Seq<ViolationView>)
    requires
        out == socket_timeout_findings(m),
    ensures
        some_import_contains(m.imports@, "socket"@) ==> reports_tests_where(out, m, "PYTEST-FLK-010"@, |t: TestFunction| t.uses_network),
        !some_import_contains(m.imports@, "socket"@) ==> out.len() == 0,
{
    if some_import_contains(m.imports@, "socket"@) {
        assert(crate::rules::imports_contain(m.imports@, "socket"@));
        lemma_reports_tests_where(
            m,
            "PYTEST-FLK-010"@,
            |t: TestFunction| crate::rules::flakiness::socket_timeout_finding(m, t),
            |t: TestFunction| t.uses_network,
        );
    } else {
        assert(!crate::rules::imports_contain(m.imports@, "socket"@));
    }
}

/// Datetime in assertions: where the file imports `datetime`, exactly the
/// tests that assert are reported; elsewhere nothing.
pub proof fn datetime_reports_asserting_tests(m: ParsedModule, out: Seq<ViolationView>)
    requires
        out == datetime_assertion_findings(m),
    ensures
        some_import_contains(m.imports@, "datetime"@) ==> reports_tests_where(out, m, "PYTEST-FLK-011"@, |t: TestFunction| t.has_assertions),
        !some_import_contains(m.imports@, "datetime"@) ==> out.len() == 0,
{
    if some_import_contains(m.imports@, "datetime"@) {
        assert(crate::rules::imports_contain(m.imports@, "datetime"@));
        lemma_reports_tests_where(
            m,
            "PYTEST-FLK-011"@,
            |t: TestFunction| crate::rules::flakiness::datetime_assertion_finding(m, t),
            |t: TestFunction| t.has_assertions,
        );
    } else {
        assert(!crate::rules::imports_contain(m.imports@, "datetime"@));
    }
}

/// Conditional logic: exactly the tests with branches are reported.
pub proof fn test_logic_reports_branching_tests(m: ParsedModule, out: Seq<ViolationView>)
    requires
        out == test_logic_findings(m),
    ensures
        reports_tests_where(out, m, "PYTEST-MNT-001"@, |t: TestFunction| t.has_conditional_logic),
{
    lemma_reports_tests_where(
        m,
        "PYTEST-MNT-001"@,
        |t: TestFunction| crate::rules::maintenance::test_logic_finding(m, t),
        |t: TestFunction| t.has_conditional_logic,
    );
}

/// Missing assertions: exactly the tests without assertions are reported.
pub proof fn no_assertion_reports_tests_without_assertions(m: ParsedModule, out: Seq<ViolationView>)
    requires
        out == no_assertion_findings(m),
    ensures
        reports_tests_where(out, m, "PYTEST-MNT-004"@, |t: TestFunction| !t.has_assertions),
{
    lemma_reports_tests_where(
        m,
        "PYTEST-MNT-004"@,
        |t: TestFunction| crate::rules::maintenance::no_assertion_finding(m, t),
        |t: TestFunction| !t.has_assertions,
    );
}

/// Raw exception handling: exactly the tests with `try`/`except` are
/// reported.
pub proof fn raw_exception_reports_try_tests(m: ParsedModule, out: Seq<ViolationView>)
    requires
        out == raw_exception_findings(m),
    ensures
        reports_tests_where(out, m, "PYTEST-MNT-007"@, |t: TestFunction| t.has_try_except),
{
    lemma_reports_tests_where(
        m,
        "PYTEST-MNT-007"@,
        |t: TestFunction| crate::rules::maintenance::raw_exception_finding(m, t),
        |t: TestFunction| t.has_try_except,
    );
}

/// Property-test hint: exactly the parametrized tests with more than three
/// cases are reported.
pub proof fn property_hint_reports_many_case_tests(m: ParsedModule, out: Seq<ViolationView>)
    requires
        out == property_hint_findings(m),
    ensures
        reports_tests_where(
            out,
            m,
            "PYTEST-PBT-001"@,
            |t: TestFunction| t.is_parametrized && (t.parametrize_count matches Some(c) && c > 3),
        ),
{
    lemma_reports_tests_where(
        m,
        "PYTEST-PBT-001"@,
        |t: TestFunction| crate::rules::maintenance::property_hint_finding(m, t),
        |t: TestFunction| t.is_parametrized && (t.parametrize_count matches Some(c) && c > 3),
    );
}

/// Single-case parametrize: exactly the parametrized tests with at most one
/// case are reported.
pub proof fn parametrize_empty_reports_single_case_tests(m: ParsedModule, out: Seq<ViolationView>)
    requires
        out == parametrize_empty_findings(m),
    ensures
        reports_tests_where(
            out,
            m,
            "PYTEST-PARAM-001"@,
            |t: TestFunction| t.is_parametrized && (t.parametrize_count matches Some(c) && c <= 1),
        ),
{
    lemma_reports_tests_where(
        m,
        "PYTEST-PARAM-001"@,
        |t: TestFunction| crate::rules::maintenance::parametrize_empty_finding(m, t),
        |t: TestFunction| t.is_parametrized && (t.parametrize_count matches Some(c) && c <= 1),
    );
}

/// Parametrize explosion: exactly the tests with more than twenty cases
/// are reported.
pub proof fn parametrize_explosion_reports_large_tests(m: ParsedModule, out: Seq<ViolationView>)
    requires
        out == parametrize_explosion_findings(m),
    ensures
        reports_tests_where(out, m, "PYTEST-PARAM-003"@, |t: TestFunction| t.parametrize_count matches Some(c) && c > 20),
{
    lemma_reports_tests_where(
        m,
        "PYTEST-PARAM-003"@,
        |t: TestFunction| crate::rules::maintenance::parametrize_explosion_finding(m, t),
        |t: TestFunction| t.parametrize_count matches Some(c) && c > 20,
    );
}

/// Conditional logic in a parametrized test: exactly the parametrized tests
/// with branches are reported.
pub proof fn conditional_in_param_reports_branching_parametrized(m: ParsedModule, out: Seq<ViolationView>)
    requires
        out == conditional_in_param_findings(m),
    ensures
        reports_tests_where(out, m, "PYTEST-MNT-014"@, |t: TestFunction| t.is_parametrized && t.has_conditional_logic),
{
    lemma_reports_tests_where(
        m,
        "PYTEST-MNT-014"@,
        |t: TestFunction| crate::rules::maintenance::conditional_in_param_finding(m, t),
        |t: TestFunction| t.is_parametrized && t.has_conditional_logic,
    );
}

/// Sleep with a value: exactly the sleeping tests whose sleep exceeds the
/// limit are reported.
pub proof fn sleep_value_reports_long_sleeps(m: ParsedModule, out: Seq<ViolationView>)
    requires
        out == sleep_value_findings(m),
    ensures
        reports_tests_where(out, m, "PYTEST-MNT-016"@, |t: TestFunction| t.uses_time_sleep && t.sleep_exceeds_limit),
{
    lemma_reports_tests_where(
        m,
        "PYTEST-MNT-016"@,
        |t: TestFunction| crate::rules::maintenance::sleep_value_finding(m, t),
        |t: TestFunction| t.uses_time_sleep && t.sleep_exceeds_limit,
    );
}

/// Test name length: exactly the tests whose names are longer than eighty
/// characters are reported.
pub proof fn name_length_reports_long_names(m: ParsedModule, out: Seq<ViolationView>)
    requires
        out == name_length_findings(m),
    ensures
        reports_tests_where(out, m, "PYTEST-MNT-017"@, |t: TestFunction| t.name@.len() > 80),
{
    lemma_reports_tests_where(
        m,
        "PYTEST-MNT-017"@,
        |t: TestFunction| crate::rules::maintenance::name_length_finding(m, t),
        |t: TestFunction| t.name@.len() > 80,
    );
}

/// Whether a docstring (in lower case) mentions given, when or then.
pub open spec fn gherkin_docstring(doc: Option<String>) -> bool {
    doc matches Some(d) && (contains(lowercase(d@), "given"@) || contains(lowercase(d@), "when"@) || contains(
        lowercase(d@),
        "then"@,
    ))
}

/// BDD scenario: exactly the tests that are not parametrized and whose
/// docstring (if any) mentions none of given, when and then are reported.
pub proof fn bdd_reports_tests_without_scenario(m: ParsedModule, out: Seq<ViolationView>)
    requires
        out == bdd_scenario_findings(m),
    ensures
        reports_tests_where(out, m, "PYTEST-BDD-001"@, |t: TestFunction| !t.is_parametrized && !gherkin_docstring(t.docstring)),
{
    lemma_reports_tests_where(
        m,
        "PYTEST-BDD-001"@,
        |t: TestFunction| crate::rules::maintenance::bdd_scenario_finding(m, t),
        |t: TestFunction| !t.is_parametrized && !gherkin_docstring(t.docstring),
    );
}

/// MagicMock on async tests: exactly the async tests that use MagicMock are
/// reported.
pub proof fn magic_mock_async_reports_async_magic_mock(m: ParsedModule, out: Seq<ViolationView>)
    requires
        out == magic_mock_async_findings(m),
    ensures
        reports_tests_where(out, m, "PYTEST-MOC-002"@, |t: TestFunction| t.is_async && t.has_magic_mock),
{
    lemma_reports_tests_where(
        m,
        "PYTEST-MOC-002"@,
        |t: TestFunction| crate::rules::mocking::magic_mock_async_finding(m, t),
        |t: TestFunction| t.is_async && t.has_magic_mock,
    );
}

/// Patching `__init__`: a patch target is reported exactly when it ends in
/// `.__init__`; the report names the target. Other targets are never
/// reported.
#[verifier::rlimit(60)]
#[verifier::spinoff_prover]
pub proof fn patch_init_reports_init_targets(m: ParsedModule, out: Seq<ViolationView>)
    requires
        out == patch_init_findings(m),
    ensures
        forall|i: int, k: int|
            0 <= i < m.test_functions@.len() && 0 <= k < m.test_functions@[i].patch_targets@.len() && ends_with(
                #[trigger] m.test_functions@[i].patch_targets@[k]@,
                ".__init__"@,
            ) ==> exists|v: ViolationView|
                out.contains(v) && #[trigger] names_test(v, "PYTEST-MOC-003"@, m.file_path@, m.test_functions@[i]) && contains(
                    v.message,
                    m.test_functions@[i].patch_targets@[k]@,
                ),
        forall|v: ViolationView|
            #[trigger] out.contains(v) ==> exists|i: int, k: int|
                0 <= i < m.test_functions@.len() && 0 <= k < m.test_functions@[i].patch_targets@.len() && ends_with(
                    #[trigger] m.test_functions@[i].patch_targets@[k]@,
                    ".__init__"@,
                ) && names_test(v, "PYTEST-MOC-003"@, m.file_path@, m.test_functions@[i]) && contains(
                    v.message,
                    m.test_functions@[i].patch_targets@[k]@,
                ),
{
    let ts = m.test_functions@;
    let g = |t: TestFunction| crate::rules::mocking::patch_init_finding(m, t);
    assert forall|i: int, k: int|
        0 <= i < ts.len() && 0 <= k < ts[i].patch_targets@.len() && ends_with(#[trigger] ts[i].patch_targets@[k]@, ".__init__"@)
        implies exists|v: ViolationView|
        out.contains(v) && #[trigger] names_test(v, "PYTEST-MOC-003"@, m.file_path@, ts[i]) && contains(
            v.message,
            ts[i].patch_targets@[k]@,
        ) by {
        let t = ts[i];
        let tg = t.patch_targets@[k];
        let h = |x: String| crate::rules::mocking::patch_init_item(m, t, x@);
        let v = h(tg)[0];
        assert(h(t.patch_targets@[k]).contains(v));
        lemma_flat_map_contains(t.patch_targets@, h, v);
        assert(g(ts[i]).contains(v));
        lemma_flat_map_contains(ts, g, v);
        lemma_contains_middle("Test '"@ + t.name@ + "' patches __init__ on '"@, tg@, "' — bypasses constructor validation"@);
        assert(names_test(v, "PYTEST-MOC-003"@, m.file_path@, ts[i]));
        assert(contains(v.message, ts[i].patch_targets@[k]@));
    }
    assert forall|v: ViolationView| #[trigger] out.contains(v) implies exists|i: int, k: int|
        0 <= i < ts.len() && 0 <= k < ts[i].patch_targets@.len() && ends_with(#[trigger] ts[i].patch_targets@[k]@, ".__init__"@)
            && names_test(v, "PYTEST-MOC-003"@, m.file_path@, ts[i]) && contains(v.message, ts[i].patch_targets@[k]@) by {
        lemma_flat_map_contains(ts, g, v);
        let i = choose|i: int| 0 <= i < ts.len() && #[trigger] g(ts[i]).contains(v);
        let t = ts[i];
        let h = |x: String| crate::rules::mocking::patch_init_item(m, t, x@);
        lemma_flat_map_contains(t.patch_targets@, h, v);
        let k = choose|k: int| 0 <= k < t.patch_targets@.len() && #[trigger] h(t.patch_targets@[k]).contains(v);
        let tg = t.patch_targets@[k];
        assert(h(tg).len() > 0);
        assert(h(tg)[0] == v);
        lemma_contains_middle("Test '"@ + t.name@ + "' patches __init__ on '"@, tg@, "' — bypasses constructor validation"@);
    }
}

/// File I/O in session fixtures: a fixture is reported exactly when it is
/// session-scoped and uses file I/O, at its line and by its name.
#[verifier::rlimit(60)]
#[verifier::spinoff_prover]
pub proof fn fixture_io_reports_session_io_fixtures(m: ParsedModule, out: Seq<ViolationView>)
    requires
        out == fixture_io_findings(m),
    ensures
        forall|i: int|
            0 <= i < m.fixtures@.len() && (#[trigger] m.fixtures@[i]).scope == FixtureScope::Session && m.fixtures@[i].uses_file_io
                ==> exists|v: ViolationView|
                out.contains(v) && v.rule_id == "PYTEST-XDIST-002"@ && v.line == m.fixtures@[i].line && contains(
                    v.message,
                    m.fixtures@[i].name@,
                ),
        forall|v: ViolationView|
            #[trigger] out.contains(v) ==> exists|i: int|
                0 <= i < m.fixtures@.len() && (#[trigger] m.fixtures@[i]).scope == FixtureScope::Session
                    && m.fixtures@[i].uses_file_io && v.rule_id == "PYTEST-XDIST-002"@ && v.line == m.fixtures@[i].line
                    && contains(v.message, m.fixtures@[i].name@),
{
    let fs = m.fixtures@;
    let f = |fx: Fixture| crate::rules::flakiness::fixture_io_finding(m, fx);
    assert forall|i: int| 0 <= i < fs.len() && (#[trigger] fs[i]).scope == FixtureScope::Session && fs[i].uses_file_io implies exists|
        v: ViolationView,
    | out.contains(v) && v.rule_id == "PYTEST-XDIST-002"@ && v.line == fs[i].line && contains(v.message, fs[i].name@) by {
        let fx = fs[i];
        let v = f(fx)[0];
        assert(f(fs[i]).contains(v));
        lemma_flat_map_contains(fs, f, v);
        lemma_contains_middle("Session-scoped fixture '"@, fx.name@, "' uses file I/O — may conflict with xdist workers"@);
    }
    assert forall|v: ViolationView| #[trigger] out.contains(v) implies exists|i: int|
        0 <= i < fs.len() && (#[trigger] fs[i]).scope == FixtureScope::Session && fs[i].uses_file_io && v.rule_id
            == "PYTEST-XDIST-002"@ && v.line == fs[i].line && contains(v.message, fs[i].name@) by {
        lemma_flat_map_contains(fs, f, v);
        let i = choose|i: int| 0 <= i < fs.len() && #[trigger] f(fs[i]).contains(v);
        let fx = fs[i];
        assert(f(fx).len() > 0);
        assert(f(fx)[0] == v);
        lemma_contains_middle("Session-scoped fixture '"@, fx.name@, "' uses file I/O — may conflict with xdist workers"@);
    }
}

/// Whether some import contains one of the names `names`.
pub open spec fn imports_name_one_of(imports: Seq<String>, names: Seq<Seq<char>>) -> bool {
    exists|i: int, j: int| 0 <= i < imports.len() && 0 <= j < names.len() && contains(#[trigger] imports[i]@, #[trigger] names[j])
}

/// Network imports: a file is reported (once, at line 1) exactly when an
/// import names a network library and none names a network-mocking
/// library.
pub proof fn network_import_reports_unmocked_network_files(m: ParsedModule, out: Seq<ViolationView>)
    requires
        out == network_import_findings(m),
    ensures
        out.len() <= 1,
        out.len() == 1 <==> imports_name_one_of(m.imports@, network_modules()) && !imports_name_one_of(
            m.imports@,
            mock_layer_libs(),
        ),
        forall|k: int| 0 <= k < out.len() ==> #[trigger] out[k].rule_id == "PYTEST-FLK-003"@ && out[k].line == 1 && out[k].file_path
            == m.file_path@,
{
    assert(imports_name_one_of(m.imports@, network_modules()) == crate::rules::any_text_contains(m.imports@, network_modules()));
    assert(imports_name_one_of(m.imports@, mock_layer_libs()) == crate::rules::any_text_contains(m.imports@, mock_layer_libs()));
}

/// Mock-only and weak verification: a test that verifies mocks without
/// checking state, one that mocks standard-library modules, and one with
/// weak assertion patterns is each reported, with a message that says
/// which; and every report is one of these.
#[verifier::rlimit(60)]
#[verifier::spinoff_prover]
pub proof fn mock_only_reports_weak_verification(m: ParsedModule, out: Seq<ViolationView>)
    requires
        out == mock_only_findings(m),
    ensures
        forall|i: int|
            0 <= i < m.test_functions@.len() && (#[trigger] m.test_functions@[i]).has_mock_verifications
                && !m.test_functions@[i].has_state_assertions ==> exists|v: ViolationView|
                out.contains(v) && #[trigger] names_test(v, "PYTEST-MNT-005"@, m.file_path@, m.test_functions@[i]) && v.message
                    == "Test '"@ + m.test_functions@[i].name@ + "' only verifies mocks without checking state"@,
        forall|i: int|
            0 <= i < m.test_functions@.len() && (#[trigger] m.test_functions@[i]).mocks_stdlib_module ==> exists|v: ViolationView|
                out.contains(v) && #[trigger] names_test(v, "PYTEST-MNT-005"@, m.file_path@, m.test_functions@[i]) && starts_with(
                    v.message,
                    "Test '"@ + m.test_functions@[i].name@ + "' mocks stdlib module(s): "@,
                ),
        forall|i: int|
            0 <= i < m.test_functions@.len() && (#[trigger] m.test_functions@[i]).has_weak_assertions
                && m.test_functions@[i].weak_assertion_details@.len() > 0 ==> exists|v: ViolationView|
                out.contains(v) && #[trigger] names_test(v, "PYTEST-MNT-005"@, m.file_path@, m.test_functions@[i]) && starts_with(
                    v.message,
                    "Test '"@ + m.test_functions@[i].name@ + "' uses weak assertion patterns: "@,
                ),
        forall|v: ViolationView|
            #[trigger] out.contains(v) ==> exists|i: int|
                0 <= i < m.test_functions@.len() && names_test(v, "PYTEST-MNT-005"@, m.file_path@, #[trigger] m.test_functions@[i])
                    && {
                    let t = m.test_functions@[i];
                    ||| t.has_mock_verifications && !t.has_state_assertions
                    ||| t.mocks_stdlib_module
                    ||| t.has_weak_assertions && t.weak_assertion_details@.len() > 0
                },
{
    let ts = m.test_functions@;
    let f = |t: TestFunction| crate::rules::maintenance::mock_only_finding(m, t);
    assert forall|i: int|
        0 <= i < ts.len() && (#[trigger] ts[i]).has_mock_verifications && !ts[i].has_state_assertions implies exists|
        v: ViolationView,
    | out.contains(v) && #[trigger] names_test(v, "PYTEST-MNT-005"@, m.file_path@, ts[i]) && v.message == "Test '"@
        + ts[i].name@ + "' only verifies mocks without checking state"@ by {
        let v = f(ts[i])[0];
        assert(f(ts[i]).contains(v));
        lemma_flat_map_contains(ts, f, v);
        assert(names_test(v, "PYTEST-MNT-005"@, m.file_path@, ts[i]));
    }
    assert forall|i: int| 0 <= i < ts.len() && (#[trigger] ts[i]).mocks_stdlib_module implies exists|v: ViolationView|
        out.contains(v) && #[trigger] names_test(v, "PYTEST-MNT-005"@, m.file_path@, ts[i]) && starts_with(
            v.message,
            "Test '"@ + ts[i].name@ + "' mocks stdlib module(s): "@,
        ) by {
        let t = ts[i];
        let a = if t.has_mock_verifications && !t.has_state_assertions { 1int } else { 0int };
        let v = f(t)[a];
        assert(f(ts[i]).contains(v));
        lemma_flat_map_contains(ts, f, v);
        assert(names_test(v, "PYTEST-MNT-005"@, m.file_path@, ts[i]));
        let p = "Test '"@ + t.name@ + "' mocks stdlib module(s): "@;
        assert(v.message.subrange(0, p.len() as int) =~= p);
    }
    assert forall|i: int|
        0 <= i < ts.len() && (#[trigger] ts[i]).has_weak_assertions && ts[i].weak_assertion_details@.len() > 0 implies exists|
        v: ViolationView,
    | out.contains(v) && #[trigger] names_test(v, "PYTEST-MNT-005"@, m.file_path@, ts[i]) && starts_with(
        v.message,
        "Test '"@ + ts[i].name@ + "' uses weak assertion patterns: "@,
    ) by {
        let t = ts[i];
        let a = (if t.has_mock_verifications && !t.has_state_assertions { 1int } else { 0int }) + (if t.mocks_stdlib_module {
            1int
        } else {
            0int
        });
        let v = f(t)[a];
        assert(f(ts[i]).contains(v));
        lemma_flat_map_contains(ts, f, v);
        assert(names_test(v, "PYTEST-MNT-005"@, m.file_path@, ts[i]));
        let p = "Test '"@ + t.name@ + "' uses weak assertion patterns: "@;
        assert(v.message.subrange(0, p.len() as int) =~= p);
    }
    assert forall|v: ViolationView| #[trigger] out.contains(v) implies exists|i: int|
        0 <= i < ts.len() && names_test(v, "PYTEST-MNT-005"@, m.file_path@, #[trigger] ts[i]) && {
            let t = ts[i];
            ||| t.has_mock_verifications && !t.has_state_assertions
            ||| t.mocks_stdlib_module
            ||| t.has_weak_assertions && t.weak_assertion_details@.len() > 0
        } by {
        lemma_flat_map_contains(ts, f, v);
        let i = choose|i: int| 0 <= i < ts.len() && #[trigger] f(ts[i]).contains(v);
        let w = f(ts[i]);
        let k = choose|k: int| 0 <= k < w.len() && #[trigger] w[k] == v;
    }
}

/// Whether a call whose function's text contains `pat` makes an assertion
/// weak of the kind `cat`: the patterns of weak assertion helpers.
pub open spec fn weak_call_pattern(pat: Seq<char>, cat: Seq<char>) -> bool {
    ||| pat == "assertIsInstance"@ && cat == "type-only assertion"@
    ||| pat == "isinstance"@ && cat == "type-only assertion"@
    ||| pat == "assertTrue"@ && cat == "existence-only assertion"@
    ||| pat == "assertIsNotNone"@ && cat == "existence-only assertion"@
    ||| pat == "assertIn"@ && cat == "key-presence-only assertion"@
}

/// Checking a call whose function's text holds a weak pattern records the
/// pattern's kind.
proof fn lemma_weak_call_adds(t: SyntaxTree, j: int, d: Seq<Seq<char>>, pat: Seq<char>, cat: Seq<char>)
    requires
        call_function(t, j) matches Some(g) && contains(text(t, g), pat),
        weak_call_pattern(pat, cat),
    ensures
        weak_call(t, j, d).contains(cat),
{
    let g = call_function(t, j)->Some_0;
    let ft = text(t, g);
    lemma_add_category(d, "type-only assertion"@);
    let d1 = if contains(ft, "assertIsInstance"@) { add_category(d, "type-only assertion"@) } else { d };
    lemma_add_category(d1, "type-only assertion"@);
    let d2 = if contains(ft, "isinstance"@) { add_category(d1, "type-only assertion"@) } else { d1 };
    lemma_add_category(d2, "existence-only assertion"@);
    let d3 = if contains(ft, "assertTrue"@) { add_category(d2, "existence-only assertion"@) } else { d2 };
    lemma_add_category(d3, "existence-only assertion"@);
    let d4 = if contains(ft, "assertIsNotNone"@) { add_category(d3, "existence-only assertion"@) } else { d3 };
    lemma_add_category(d4, "key-presence-only assertion"@);
    let d5 = if contains(ft, "assertIn"@) { add_category(d4, "key-presence-only assertion"@) } else { d4 };
    assert(d5 == weak_call(t, j, d));
    lemma_add_category(d5, cat);
    if pat == "assertIsInstance"@ && cat == "type-only assertion"@ {
        assert(d1.contains(cat));
        assert(d2.contains(cat));
        assert(d3.contains(cat));
        assert(d4.contains(cat));
        assert(d5.contains(cat));
    } else if pat == "isinstance"@ && cat == "type-only assertion"@ {
        assert(d2.contains(cat));
        assert(d3.contains(cat));
        assert(d4.contains(cat));
        assert(d5.contains(cat));
    } else if pat == "assertTrue"@ && cat == "existence-only assertion"@ {
        assert(d3.contains(cat));
        assert(d4.contains(cat));
        assert(d5.contains(cat));
    } else if pat == "assertIsNotNone"@ && cat == "existence-only assertion"@ {
        assert(d4.contains(cat));
        assert(d5.contains(cat));
    } else {
        assert(d5.contains(cat));
    }
}

/// A call in a test's body to a weak assertion helper (`assertIsInstance`,
/// `isinstance`, `assertTrue`, `assertIsNotNone`, `assertIn`) makes the
/// test's assertions weak: its record lists the helper's kind.
pub proof fn weak_helper_calls_make_assertions_weak(
    tf: TestFunction,
    t: SyntaxTree,
    f: int,
    p: int,
    path: Seq<char>,
    j: int,
    pat: Seq<char>,
    cat: Seq<char>,
)
    requires
        test_function_of(tf, t, f, p, path),
        field_child(t, f, "body"@) matches Some(b) && b <= j < end(t, b),
        call_function(t, j) matches Some(g) && contains(text(t, g), pat),
        weak_call_pattern(pat, cat),
    ensures
        texts(tf.weak_assertion_details@).contains(cat),
        tf.has_weak_assertions,
{
    let b = field_child(t, f, "body"@)->Some_0;
    let d = weak_details(t, b, j);
    lemma_weak_call_adds(t, j, d, pat, cat);
    let w = weak_call(t, j, d);
    if crate::syntax::kind(t, j) == "comparison_operator"@ {
        let cs = crate::syntax::children(t, j);
        let ops = crate::parser::trimmed_texts(t, cs);
        lemma_weak_ops_keeps(ops, ops.len() as int, w, cat);
        lemma_weak_types_keeps(t, cs, cs.len() as int, weak_ops(ops, ops.len() as int, w), cat);
    }
    assert(weak_details(t, b, j + 1).contains(cat));
    lemma_weak_details_keeps(t, b, j + 1, end(t, b), cat);
    assert(texts(tf.weak_assertion_details@).len() > 0);
}

proof fn lemma_weak_ops_adds(ops: Seq<Seq<char>>, n: int, d: Seq<Seq<char>>, k: int, cat: Seq<char>)
    requires
        0 <= k < n <= ops.len(),
        (ops[k] == "in"@ && cat == "key-presence-only assertion"@) || (ops[k] == "is not"@ && ops.contains("None"@) && cat
            == "existence-only assertion"@),
    ensures
        weak_ops(ops, n, d).contains(cat),
    decreases n,
{
    let p = weak_ops(ops, n - 1, d);
    lemma_add_category(p, "key-presence-only assertion"@);
    let p1 = if ops[n - 1] == "in"@ { add_category(p, "key-presence-only assertion"@) } else { p };
    lemma_add_category(p1, "existence-only assertion"@);
    if k < n - 1 {
        lemma_weak_ops_adds(ops, n - 1, d, k, cat);
        assert(p1.contains(cat));
    } else if ops[k] == "in"@ && cat == "key-presence-only assertion"@ {
        assert(p1.contains(cat));
    }
}

proof fn lemma_weak_types_adds(t: SyntaxTree, cs: Seq<usize>, n: int, d: Seq<Seq<char>>, k: int)
    requires
        0 <= k < n <= cs.len(),
        k + 1 < cs.len(),
        text(t, cs[k] as int) == "type"@,
        text(t, cs[k + 1] as int) == "=="@ || text(t, cs[k + 1] as int) == "is"@,
    ensures
        weak_types(t, cs, n, d).contains("type-only assertion"@),
    decreases n,
{
    let p = weak_types(t, cs, n - 1, d);
    lemma_add_category(p, "type-only assertion"@);
    if k < n - 1 {
        lemma_weak_types_adds(t, cs, n - 1, d, k);
    }
}

/// Whether the comparison `j` has, among its children, an operator `in`
/// (a key-presence check), an `is not` against `None` (an existence
/// check), or `type(..)` compared with `==` or `is` (a type check); and
/// which kind of weak assertion that is.
pub open spec fn weak_comparison_pattern(t: SyntaxTree, j: int, k: int, cat: Seq<char>) -> bool {
    let cs = crate::syntax::children(t, j);
    &&& crate::syntax::kind(t, j) == "comparison_operator"@
    &&& 0 <= k < cs.len()
    &&& {
        ||| trim(text(t, cs[k] as int)) == "in"@ && cat == "key-presence-only assertion"@
        ||| trim(text(t, cs[k] as int)) == "is not"@ && (exists|c: int| 0 <= c < cs.len() && trim(text(t, #[trigger] cs[c] as int))
            == "None"@) && cat == "existence-only assertion"@
        ||| text(t, cs[k] as int) == "type"@ && k + 1 < cs.len() && (text(t, cs[k + 1] as int) == "=="@ || text(
            t,
            cs[k + 1] as int,
        ) == "is"@) && cat == "type-only assertion"@
    }
}

/// A comparison in a test's body that only checks membership, existence
/// or type makes the test's assertions weak: its record lists that kind.
pub proof fn weak_comparisons_make_assertions_weak(
    tf: TestFunction,
    t: SyntaxTree,
    f: int,
    p: int,
    path: Seq<char>,
    j: int,
    k: int,
    cat: Seq<char>,
)
    requires
        test_function_of(tf, t, f, p, path),
        field_child(t, f, "body"@) matches Some(b) && b <= j < end(t, b),
        weak_comparison_pattern(t, j, k, cat),
    ensures
        texts(tf.weak_assertion_details@).contains(cat),
        tf.has_weak_assertions,
{
    let b = field_child(t, f, "body"@)->Some_0;
    let d = weak_details(t, b, j);
    let w = weak_call(t, j, d);
    let cs = crate::syntax::children(t, j);
    let ops = crate::parser::trimmed_texts(t, cs);
    assert(ops[k] == trim(text(t, cs[k] as int)));
    if text(t, cs[k] as int) == "type"@ && k + 1 < cs.len() && (text(t, cs[k + 1] as int) == "=="@ || text(t, cs[k + 1] as int)
        == "is"@) && cat == "type-only assertion"@ {
        lemma_weak_types_adds(t, cs, cs.len() as int, weak_ops(ops, ops.len() as int, w), k);
    } else {
        if trim(text(t, cs[k] as int)) == "is not"@ && (exists|c: int|
            0 <= c < cs.len() && trim(text(t, #[trigger] cs[c] as int)) == "None"@) && cat == "existence-only assertion"@ {
            let c = choose|c: int| 0 <= c < cs.len() && trim(text(t, #[trigger] cs[c] as int)) == "None"@;
            assert(ops[c] == trim(text(t, cs[c] as int)));
            assert(ops.contains("None"@));
        }
        lemma_weak_ops_adds(ops, ops.len() as int, w, k, cat);
        lemma_weak_types_keeps(t, cs, cs.len() as int, weak_ops(ops, ops.len() as int, w), cat);
    }
    assert(weak_details(t, b, j + 1).contains(cat));
    lemma_weak_details_keeps(t, b, j + 1, end(t, b), cat);
    assert(texts(tf.weak_assertion_details@).len() > 0);
}

} // verus!
