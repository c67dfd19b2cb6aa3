//! What every rule's report is made of: each violation a rule reports
//! carries the rule's ID and names the file of the module it was found in.
use vstd::prelude::*;
use crate::grouping::grouped;
use crate::models::{AssertionInfo, Fixture, ParsedModule, RuleContext, TestFunction, ViolationView};
use crate::rules::flat_map;
use crate::rules::registry::{kind_id, kind_reports, RuleKind};
use crate::rules::flakiness::{admissible_lines, cwd_dependency_finding, cwd_dependency_findings, datetime_assertion_finding, datetime_assertion_findings, file_io_finding, file_io_findings, fixture_io_finding, fixture_io_findings, line_findings, mystery_guest_finding, mystery_guest_findings, network_import_findings, random_site_findings, shared_state_dep_finding, shared_state_finding, shared_state_findings, socket_timeout_finding, socket_timeout_findings, subprocess_site_findings, time_sleep_finding, time_sleep_findings};
use crate::rules::maintenance::{assertion_roulette_finding, assertion_roulette_findings, bdd_scenario_finding, bdd_scenario_findings, conditional_in_param_finding, conditional_in_param_findings, duplicate_bodies_findings, duplicate_body_view, group_reports, groups_reports, hashed_tests, inline_schema_findings, magic_assert_finding, magic_assert_findings, magic_assert_item, mock_only_finding, mock_only_findings, name_length_finding, name_length_findings, no_assertion_finding, no_assertion_findings, param_dup_finding, param_dup_findings, param_dup_item, parametrize_empty_finding, parametrize_empty_findings, parametrize_explosion_finding, parametrize_explosion_findings, property_hint_finding, property_hint_findings, raw_exception_finding, raw_exception_findings, schema_group_finding, schema_items, sleep_value_finding, sleep_value_findings, suboptimal_assert_finding, suboptimal_assert_findings, suboptimal_assert_item, test_logic_finding, test_logic_findings};
use crate::rules::mocking::{magic_mock_async_finding, magic_mock_async_findings, mock_ratio_finding, mock_ratio_findings, patch_def_finding, patch_def_findings, patch_def_item, patch_init_finding, patch_init_findings, patch_init_item};

verus! {

/// Whether every violation of `vs` is of the rule `id` and in the file
/// `file`.
pub open spec fn tagged(vs: Seq<ViolationView>, id: Seq<char>, file: Seq<char>) -> bool {
    forall|j: int| 0 <= j < vs.len() ==> (#[trigger] vs[j]).rule_id == id && vs[j].file_path == file
}

proof fn lemma_concat_tagged(a: Seq<ViolationView>, b: Seq<ViolationView>, id: Seq<char>, file: Seq<char>)
    requires
        tagged(a, id, file),
        tagged(b, id, file),
    ensures
        tagged(a + b, id, file),
{
    assert forall|j: int| 0 <= j < (a + b).len() implies (#[trigger] (a + b)[j]).rule_id == id && (a + b)[j].file_path == file by {
        if j < a.len() {
            assert((a + b)[j] == a[j]);
        } else {
            assert((a + b)[j] == b[j - a.len()]);
        }
    }
}

proof fn lemma_flat_map_tagged<A>(s: Seq<A>, f: spec_fn(A) -> Seq<ViolationView>, id: Seq<char>, file: Seq<char>)
    requires
        forall|x: A| tagged(#[trigger] f(x), id, file),
    ensures
        tagged(flat_map(s, f), id, file),
    decreases s.len(),
{
    if s.len() > 0 {
        lemma_flat_map_tagged(s.drop_last(), f, id, file);
        lemma_concat_tagged(flat_map(s.drop_last(), f), f(s.last()), id, file);
    }
}

proof fn tagged_time_sleep_findings(m: ParsedModule)
    ensures
        tagged(time_sleep_findings(m), "PYTEST-FLK-001"@, m.file_path@),
{
    assert forall|t: TestFunction| tagged(#[trigger] time_sleep_finding(m, t), "PYTEST-FLK-001"@, m.file_path@) by {}
    lemma_flat_map_tagged(m.test_functions@, |t: TestFunction| time_sleep_finding(m, t), "PYTEST-FLK-001"@, m.file_path@);
}

proof fn tagged_file_io_findings(m: ParsedModule)
    ensures
        tagged(file_io_findings(m), "PYTEST-FLK-002"@, m.file_path@),
{
    assert forall|t: TestFunction| tagged(#[trigger] file_io_finding(m, t), "PYTEST-FLK-002"@, m.file_path@) by {}
    lemma_flat_map_tagged(m.test_functions@, |t: TestFunction| file_io_finding(m, t), "PYTEST-FLK-002"@, m.file_path@);
}

proof fn tagged_cwd_dependency_findings(m: ParsedModule)
    ensures
        tagged(cwd_dependency_findings(m), "PYTEST-FLK-004"@, m.file_path@),
{
    assert forall|t: TestFunction| tagged(#[trigger] cwd_dependency_finding(m, t), "PYTEST-FLK-004"@, m.file_path@) by {}
    lemma_flat_map_tagged(m.test_functions@, |t: TestFunction| cwd_dependency_finding(m, t), "PYTEST-FLK-004"@, m.file_path@);
}

proof fn tagged_mystery_guest_findings(m: ParsedModule)
    ensures
        tagged(mystery_guest_findings(m), "PYTEST-FLK-005"@, m.file_path@),
{
    assert forall|t: TestFunction| tagged(#[trigger] mystery_guest_finding(m, t), "PYTEST-FLK-005"@, m.file_path@) by {}
    lemma_flat_map_tagged(m.test_functions@, |t: TestFunction| mystery_guest_finding(m, t), "PYTEST-FLK-005"@, m.file_path@);
}

proof fn tagged_socket_timeout_findings(m: ParsedModule)
    ensures
        tagged(socket_timeout_findings(m), "PYTEST-FLK-010"@, m.file_path@),
{
    assert forall|t: TestFunction| tagged(#[trigger] socket_timeout_finding(m, t), "PYTEST-FLK-010"@, m.file_path@) by {}
    lemma_flat_map_tagged(m.test_functions@, |t: TestFunction| socket_timeout_finding(m, t), "PYTEST-FLK-010"@, m.file_path@);
}

proof fn tagged_datetime_assertion_findings(m: ParsedModule)
    ensures
        tagged(datetime_assertion_findings(m), "PYTEST-FLK-011"@, m.file_path@),
{
    assert forall|t: TestFunction| tagged(#[trigger] datetime_assertion_finding(m, t), "PYTEST-FLK-011"@, m.file_path@) by {}
    lemma_flat_map_tagged(m.test_functions@, |t: TestFunction| datetime_assertion_finding(m, t), "PYTEST-FLK-011"@, m.file_path@);
}

proof fn tagged_shared_state_findings(m: ParsedModule, ctx: RuleContext)
    ensures
        tagged(shared_state_findings(m, ctx), "PYTEST-XDIST-001"@, m.file_path@),
{
    assert forall|t: TestFunction| tagged(#[trigger] shared_state_finding(m, ctx, t), "PYTEST-XDIST-001"@, m.file_path@) by {
        lemma_flat_map_tagged(t.mutates_fixture_deps@, |d: String| shared_state_dep_finding(m, ctx, t, d), "PYTEST-XDIST-001"@, m.file_path@);
    }
    lemma_flat_map_tagged(m.test_functions@, |t: TestFunction| shared_state_finding(m, ctx, t), "PYTEST-XDIST-001"@, m.file_path@);
}

proof fn tagged_fixture_io_findings(m: ParsedModule)
    ensures
        tagged(fixture_io_findings(m), "PYTEST-XDIST-002"@, m.file_path@),
{
    assert forall|fx: Fixture| tagged(#[trigger] fixture_io_finding(m, fx), "PYTEST-XDIST-002"@, m.file_path@) by {}
    lemma_flat_map_tagged(m.fixtures@, |fx: Fixture| fixture_io_finding(m, fx), "PYTEST-XDIST-002"@, m.file_path@);
}

proof fn tagged_test_logic_findings(m: ParsedModule)
    ensures
        tagged(test_logic_findings(m), "PYTEST-MNT-001"@, m.file_path@),
{
    assert forall|t: TestFunction| tagged(#[trigger] test_logic_finding(m, t), "PYTEST-MNT-001"@, m.file_path@) by {}
    lemma_flat_map_tagged(m.test_functions@, |t: TestFunction| test_logic_finding(m, t), "PYTEST-MNT-001"@, m.file_path@);
}

proof fn tagged_magic_assert_findings(m: ParsedModule)
    ensures
        tagged(magic_assert_findings(m), "PYTEST-MNT-002"@, m.file_path@),
{
    assert forall|t: TestFunction| tagged(#[trigger] magic_assert_finding(m, t), "PYTEST-MNT-002"@, m.file_path@) by {
        lemma_flat_map_tagged(t.assertions@, |a: AssertionInfo| magic_assert_item(m, t, a), "PYTEST-MNT-002"@, m.file_path@);
    }
    lemma_flat_map_tagged(m.test_functions@, |t: TestFunction| magic_assert_finding(m, t), "PYTEST-MNT-002"@, m.file_path@);
}

proof fn tagged_no_assertion_findings(m: ParsedModule)
    ensures
        tagged(no_assertion_findings(m), "PYTEST-MNT-004"@, m.file_path@),
{
    assert forall|t: TestFunction| tagged(#[trigger] no_assertion_finding(m, t), "PYTEST-MNT-004"@, m.file_path@) by {}
    lemma_flat_map_tagged(m.test_functions@, |t: TestFunction| no_assertion_finding(m, t), "PYTEST-MNT-004"@, m.file_path@);
}

proof fn tagged_mock_only_findings(m: ParsedModule)
    ensures
        tagged(mock_only_findings(m), "PYTEST-MNT-005"@, m.file_path@),
{
    assert forall|t: TestFunction| tagged(#[trigger] mock_only_finding(m, t), "PYTEST-MNT-005"@, m.file_path@) by {}
    lemma_flat_map_tagged(m.test_functions@, |t: TestFunction| mock_only_finding(m, t), "PYTEST-MNT-005"@, m.file_path@);
}

proof fn tagged_assertion_roulette_findings(m: ParsedModule)
    ensures
        tagged(assertion_roulette_findings(m), "PYTEST-MNT-006"@, m.file_path@),
{
    assert forall|t: TestFunction| tagged(#[trigger] assertion_roulette_finding(m, t), "PYTEST-MNT-006"@, m.file_path@) by {}
    lemma_flat_map_tagged(m.test_functions@, |t: TestFunction| assertion_roulette_finding(m, t), "PYTEST-MNT-006"@, m.file_path@);
}

proof fn tagged_raw_exception_findings(m: ParsedModule)
    ensures
        tagged(raw_exception_findings(m), "PYTEST-MNT-007"@, m.file_path@),
{
    assert forall|t: TestFunction| tagged(#[trigger] raw_exception_finding(m, t), "PYTEST-MNT-007"@, m.file_path@) by {}
    lemma_flat_map_tagged(m.test_functions@, |t: TestFunction| raw_exception_finding(m, t), "PYTEST-MNT-007"@, m.file_path@);
}

proof fn tagged_conditional_in_param_findings(m: ParsedModule)
    ensures
        tagged(conditional_in_param_findings(m), "PYTEST-MNT-014"@, m.file_path@),
{
    assert forall|t: TestFunction| tagged(#[trigger] conditional_in_param_finding(m, t), "PYTEST-MNT-014"@, m.file_path@) by {}
    lemma_flat_map_tagged(m.test_functions@, |t: TestFunction| conditional_in_param_finding(m, t), "PYTEST-MNT-014"@, m.file_path@);
}

proof fn tagged_sleep_value_findings(m: ParsedModule)
    ensures
        tagged(sleep_value_findings(m), "PYTEST-MNT-016"@, m.file_path@),
{
    assert forall|t: TestFunction| tagged(#[trigger] sleep_value_finding(m, t), "PYTEST-MNT-016"@, m.file_path@) by {}
    lemma_flat_map_tagged(m.test_functions@, |t: TestFunction| sleep_value_finding(m, t), "PYTEST-MNT-016"@, m.file_path@);
}

proof fn tagged_name_length_findings(m: ParsedModule)
    ensures
        tagged(name_length_findings(m), "PYTEST-MNT-017"@, m.file_path@),
{
    assert forall|t: TestFunction| tagged(#[trigger] name_length_finding(m, t), "PYTEST-MNT-017"@, m.file_path@) by {}
    lemma_flat_map_tagged(m.test_functions@, |t: TestFunction| name_length_finding(m, t), "PYTEST-MNT-017"@, m.file_path@);
}

proof fn tagged_parametrize_empty_findings(m: ParsedModule)
    ensures
        tagged(parametrize_empty_findings(m), "PYTEST-PARAM-001"@, m.file_path@),
{
    assert forall|t: TestFunction| tagged(#[trigger] parametrize_empty_finding(m, t), "PYTEST-PARAM-001"@, m.file_path@) by {}
    lemma_flat_map_tagged(m.test_functions@, |t: TestFunction| parametrize_empty_finding(m, t), "PYTEST-PARAM-001"@, m.file_path@);
}

proof fn tagged_param_dup_findings(m: ParsedModule)
    ensures
        tagged(param_dup_findings(m), "PYTEST-PARAM-002"@, m.file_path@),
{
    assert forall|t: TestFunction| tagged(#[trigger] param_dup_finding(m, t), "PYTEST-PARAM-002"@, m.file_path@) by {
        lemma_flat_map_tagged(t.parametrize_values@, |vals: Vec<String>| param_dup_item(m, t, vals), "PYTEST-PARAM-002"@, m.file_path@);
    }
    lemma_flat_map_tagged(m.test_functions@, |t: TestFunction| param_dup_finding(m, t), "PYTEST-PARAM-002"@, m.file_path@);
}

proof fn tagged_parametrize_explosion_findings(m: ParsedModule)
    ensures
        tagged(parametrize_explosion_findings(m), "PYTEST-PARAM-003"@, m.file_path@),
{
    assert forall|t: TestFunction| tagged(#[trigger] parametrize_explosion_finding(m, t), "PYTEST-PARAM-003"@, m.file_path@) by {}
    lemma_flat_map_tagged(m.test_functions@, |t: TestFunction| parametrize_explosion_finding(m, t), "PYTEST-PARAM-003"@, m.file_path@);
}

proof fn tagged_patch_def_findings(m: ParsedModule)
    ensures
        tagged(patch_def_findings(m), "PYTEST-MOC-001"@, m.file_path@),
{
    assert forall|t: TestFunction| tagged(#[trigger] patch_def_finding(m, t), "PYTEST-MOC-001"@, m.file_path@) by {
        lemma_flat_map_tagged(t.patch_targets@, |x: String| patch_def_item(m, t, x@), "PYTEST-MOC-001"@, m.file_path@);
    }
    lemma_flat_map_tagged(m.test_functions@, |t: TestFunction| patch_def_finding(m, t), "PYTEST-MOC-001"@, m.file_path@);
}

proof fn tagged_magic_mock_async_findings(m: ParsedModule)
    ensures
        tagged(magic_mock_async_findings(m), "PYTEST-MOC-002"@, m.file_path@),
{
    assert forall|t: TestFunction| tagged(#[trigger] magic_mock_async_finding(m, t), "PYTEST-MOC-002"@, m.file_path@) by {}
    lemma_flat_map_tagged(m.test_functions@, |t: TestFunction| magic_mock_async_finding(m, t), "PYTEST-MOC-002"@, m.file_path@);
}

proof fn tagged_patch_init_findings(m: ParsedModule)
    ensures
        tagged(patch_init_findings(m), "PYTEST-MOC-003"@, m.file_path@),
{
    assert forall|t: TestFunction| tagged(#[trigger] patch_init_finding(m, t), "PYTEST-MOC-003"@, m.file_path@) by {
        lemma_flat_map_tagged(t.patch_targets@, |x: String| patch_init_item(m, t, x@), "PYTEST-MOC-003"@, m.file_path@);
    }
    lemma_flat_map_tagged(m.test_functions@, |t: TestFunction| patch_init_finding(m, t), "PYTEST-MOC-003"@, m.file_path@);
}

proof fn tagged_suboptimal_assert_findings(m: ParsedModule)
    ensures
        tagged(suboptimal_assert_findings(m), "PYTEST-MNT-003"@, m.file_path@),
{
    assert forall|t: TestFunction| tagged(#[trigger] suboptimal_assert_finding(m, t), "PYTEST-MNT-003"@, m.file_path@) by {
        lemma_flat_map_tagged(t.assertions@, |a: AssertionInfo| suboptimal_assert_item(m, t, a), "PYTEST-MNT-003"@, m.file_path@);
    }
    lemma_flat_map_tagged(m.test_functions@, |t: TestFunction| suboptimal_assert_finding(m, t), "PYTEST-MNT-003"@, m.file_path@);
}

proof fn tagged_bdd_scenario_findings(m: ParsedModule)
    ensures
        tagged(bdd_scenario_findings(m), "PYTEST-BDD-001"@, m.file_path@),
{
    assert forall|t: TestFunction| tagged(#[trigger] bdd_scenario_finding(m, t), "PYTEST-BDD-001"@, m.file_path@) by {}
    lemma_flat_map_tagged(m.test_functions@, |t: TestFunction| bdd_scenario_finding(m, t), "PYTEST-BDD-001"@, m.file_path@);
}

proof fn tagged_property_hint_findings(m: ParsedModule)
    ensures
        tagged(property_hint_findings(m), "PYTEST-PBT-001"@, m.file_path@),
{
    assert forall|t: TestFunction| tagged(#[trigger] property_hint_finding(m, t), "PYTEST-PBT-001"@, m.file_path@) by {}
    lemma_flat_map_tagged(m.test_functions@, |t: TestFunction| property_hint_finding(m, t), "PYTEST-PBT-001"@, m.file_path@);
}

proof fn tagged_mock_ratio_findings(m: ParsedModule)
    ensures
        tagged(mock_ratio_findings(m), "PYTEST-MOC-004"@, m.file_path@),
{
    assert forall|t: TestFunction| tagged(#[trigger] mock_ratio_finding(m, t), "PYTEST-MOC-004"@, m.file_path@) by {}
    lemma_flat_map_tagged(m.test_functions@, |t: TestFunction| mock_ratio_finding(m, t), "PYTEST-MOC-004"@, m.file_path@);
}

proof fn tagged_network_import_findings(m: ParsedModule)
    ensures
        tagged(network_import_findings(m), "PYTEST-FLK-003"@, m.file_path@),
{
}

proof fn tagged_random_sites(m: ParsedModule, ls: Seq<Seq<usize>>, n: int)
    ensures
        tagged(random_site_findings(m, ls, n), "PYTEST-FLK-008"@, m.file_path@),
    decreases n,
{
    if n > 0 {
        tagged_random_sites(m, ls, n - 1);
        let t = m.test_functions@[n - 1];
        let here = if t.uses_random && !t.has_random_seed {
            line_findings(
                "PYTEST-FLK-008"@,
                "RandomWithoutSeedRule"@,
                m,
                t,
                ls[n - 1],
                "Test '"@ + t.name@ + "' uses random without fixed seed — causes flaky tests"@,
                "Call random.seed() at the start of the test or use a fixture"@,
            )
        } else {
            Seq::empty()
        };
        lemma_concat_tagged(random_site_findings(m, ls, n - 1), here, "PYTEST-FLK-008"@, m.file_path@);
    }
}

proof fn tagged_subprocess_sites(m: ParsedModule, ls: Seq<Seq<usize>>, n: int)
    ensures
        tagged(subprocess_site_findings(m, ls, n), "PYTEST-FLK-009"@, m.file_path@),
    decreases n,
{
    if n > 0 {
        tagged_subprocess_sites(m, ls, n - 1);
        let t = m.test_functions@[n - 1];
        let here = if t.uses_subprocess {
            line_findings(
                "PYTEST-FLK-009"@,
                "SubprocessWithoutTimeoutRule"@,
                m,
                t,
                ls[n - 1],
                "Test '"@ + t.name@ + "' uses subprocess without timeout — may hang indefinitely"@,
                "Add timeout parameter to subprocess calls"@,
            )
        } else {
            Seq::empty()
        };
        lemma_concat_tagged(subprocess_site_findings(m, ls, n - 1), here, "PYTEST-FLK-009"@, m.file_path@);
    }
}

proof fn tagged_group_reports(m: ParsedModule, members: Seq<usize>, reported: Seq<Seq<char>>, k: int)
    ensures
        tagged(group_reports(m, members, reported, k).0, "PYTEST-MNT-015"@, m.file_path@),
    decreases k,
{
    if k > 0 {
        tagged_group_reports(m, members, reported, k - 1);
    }
}

proof fn tagged_groups_reports(m: ParsedModule, groups: Seq<(u64, Seq<usize>)>, n: int)
    ensures
        tagged(groups_reports(m, groups, n).0, "PYTEST-MNT-015"@, m.file_path@),
    decreases n,
{
    if n > 0 {
        tagged_groups_reports(m, groups, n - 1);
        let prev = groups_reports(m, groups, n - 1);
        let members = groups[n - 1].1;
        if members.len() >= 2 {
            tagged_group_reports(m, members, prev.1, members.len() as int);
            lemma_concat_tagged(prev.0, group_reports(m, members, prev.1, members.len() as int).0, "PYTEST-MNT-015"@, m.file_path@);
        }
    }
}

proof fn tagged_duplicate_bodies_findings(m: ParsedModule)
    ensures
        tagged(duplicate_bodies_findings(m), "PYTEST-MNT-015"@, m.file_path@),
{
    let groups = grouped(hashed_tests(m.test_functions@, m.test_functions@.len() as int));
    tagged_groups_reports(m, groups, groups.len() as int);
}

proof fn tagged_inline_schema_findings(m: ParsedModule)
    ensures
        tagged(inline_schema_findings(m), "PYTEST-VAL-001"@, m.file_path@),
{
    assert forall|g: (u64, Seq<usize>)| tagged(#[trigger] schema_group_finding(m, g), "PYTEST-VAL-001"@, m.file_path@) by {}
    if m.test_functions@.len() >= 2 {
        let groups = grouped(schema_items(m.test_functions@, crate::text::lines(m.source@), m.test_functions@.len() as int));
        lemma_flat_map_tagged(groups, |g: (u64, Seq<usize>)| schema_group_finding(m, g), "PYTEST-VAL-001"@, m.file_path@);
    }
}

/// Every violation a rule reports carries the rule's ID and names the file
/// of the module it was found in.
pub proof fn reports_name_their_rule_and_file(k: RuleKind, m: ParsedModule, ctx: RuleContext, out: Seq<ViolationView>)
    requires
        kind_reports(k, m, ctx, out),
    ensures
        tagged(out, kind_id(k), m.file_path@),
{
    match k {
        RuleKind::TimeSleep => {
            tagged_time_sleep_findings(m);
        },
        RuleKind::FileIo => {
            tagged_file_io_findings(m);
        },
        RuleKind::NetworkImport => {
            tagged_network_import_findings(m);
        },
        RuleKind::CwdDependency => {
            tagged_cwd_dependency_findings(m);
        },
        RuleKind::MysteryGuest => {
            tagged_mystery_guest_findings(m);
        },
        RuleKind::RandomWithoutSeed => {
            let ls = choose|ls: Seq<Seq<usize>>|
                ls.len() == m.test_functions@.len() && (forall|k: int|
                    0 <= k < ls.len() ==> m.test_functions@[k].uses_random && !m.test_functions@[k].has_random_seed
                        ==> admissible_lines(ctx, m.test_functions@[k], #[trigger] ls[k], false)) && out
                    == random_site_findings(m, ls, ls.len() as int);
            tagged_random_sites(m, ls, ls.len() as int);
        },
        RuleKind::SubprocessWithoutTimeout => {
            let ls = choose|ls: Seq<Seq<usize>>|
                ls.len() == m.test_functions@.len() && (forall|k: int|
                    0 <= k < ls.len() ==> m.test_functions@[k].uses_subprocess ==> admissible_lines(
                        ctx,
                        m.test_functions@[k],
                        #[trigger] ls[k],
                        true,
                    )) && out == subprocess_site_findings(m, ls, ls.len() as int);
            tagged_subprocess_sites(m, ls, ls.len() as int);
        },
        RuleKind::SocketWithoutBindTimeout => {
            tagged_socket_timeout_findings(m);
        },
        RuleKind::DatetimeInAssertion => {
            tagged_datetime_assertion_findings(m);
        },
        RuleKind::XdistSharedState => {
            tagged_shared_state_findings(m, ctx);
        },
        RuleKind::XdistFixtureIo => {
            tagged_fixture_io_findings(m);
        },
        RuleKind::TestLogic => {
            tagged_test_logic_findings(m);
        },
        RuleKind::MagicAssert => {
            tagged_magic_assert_findings(m);
        },
        RuleKind::NoAssertion => {
            tagged_no_assertion_findings(m);
        },
        RuleKind::MockOnlyVerify => {
            tagged_mock_only_findings(m);
        },
        RuleKind::AssertionRoulette => {
            tagged_assertion_roulette_findings(m);
        },
        RuleKind::RawExceptionHandling => {
            tagged_raw_exception_findings(m);
        },
        RuleKind::ConditionalLogicInTest => {
            tagged_conditional_in_param_findings(m);
        },
        RuleKind::DuplicateTestBodies => {
            tagged_duplicate_bodies_findings(m);
        },
        RuleKind::SleepWithValue => {
            tagged_sleep_value_findings(m);
        },
        RuleKind::TestNameLength => {
            tagged_name_length_findings(m);
        },
        RuleKind::ParametrizeEmpty => {
            tagged_parametrize_empty_findings(m);
        },
        RuleKind::ParametrizeDuplicate => {
            tagged_param_dup_findings(m);
        },
        RuleKind::ParametrizeExplosion => {
            tagged_parametrize_explosion_findings(m);
        },
        RuleKind::PatchTargetingDefinitionModule => {
            tagged_patch_def_findings(m);
        },
        RuleKind::MagicMockOnAsync => {
            tagged_magic_mock_async_findings(m);
        },
        RuleKind::PatchInitBypass => {
            tagged_patch_init_findings(m);
        },
        RuleKind::SuboptimalAssert => {
            tagged_suboptimal_assert_findings(m);
        },
        RuleKind::BddMissingScenario => {
            tagged_bdd_scenario_findings(m);
        },
        RuleKind::PropertyTestHint => {
            tagged_property_hint_findings(m);
        },
        RuleKind::InlineSchemaRedeclared => {
            tagged_inline_schema_findings(m);
        },
        RuleKind::MockRatioBudget => {
            tagged_mock_ratio_findings(m);
        },
    }
}

} // verus!
