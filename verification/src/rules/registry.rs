//! The registry of rules: every rule the linter runs, in the order it
//! runs them, and a check that dispatches to each.
use vstd::prelude::*;
use crate::models::{Category, ParsedModule, RuleContext, Severity, Violation, ViolationView, views};
use crate::rules::Rule;
use crate::rules::flakiness::{CwdDependencyRule, DatetimeInAssertionRule, FileIoRule, MysteryGuestRule, NetworkImportRule, RandomWithoutSeedRule, SocketWithoutBindTimeoutRule, SubprocessWithoutTimeoutRule, TimeSleepRule, XdistFixtureIoRule, XdistSharedStateRule, admissible_lines, cwd_dependency_findings, datetime_assertion_findings, file_io_findings, fixture_io_findings, mystery_guest_findings, network_import_findings, random_site_findings, shared_state_findings, socket_timeout_findings, subprocess_site_findings, time_sleep_findings};
use crate::rules::maintenance::{AssertionRouletteRule, BddMissingScenarioRule, ConditionalLogicInTestRule, DuplicateTestBodiesRule, InlineSchemaRedeclaredRule, MagicAssertRule, MockOnlyVerifyRule, NoAssertionRule, ParametrizeDuplicateRule, ParametrizeEmptyRule, ParametrizeExplosionRule, PropertyTestHintRule, RawExceptionHandlingRule, SleepWithValueRule, SuboptimalAssertRule, TestLogicRule, TestNameLengthRule, assertion_roulette_findings, bdd_scenario_findings, conditional_in_param_findings, duplicate_bodies_findings, inline_schema_findings, magic_assert_findings, mock_only_findings, name_length_findings, no_assertion_findings, param_dup_findings, parametrize_empty_findings, parametrize_explosion_findings, property_hint_findings, raw_exception_findings, sleep_value_findings, suboptimal_assert_findings, test_logic_findings};
use crate::rules::mocking::{MagicMockOnAsyncRule, MockRatioBudgetRule, PatchInitBypassRule, PatchTargetingDefinitionModuleRule, magic_mock_async_findings, mock_ratio_findings, patch_def_findings, patch_init_findings};

verus! {

/// One of the rules the linter runs.
#[derive(Debug, Clone, Copy, PartialEq, Eq, Structural)]
pub enum RuleKind {
    TimeSleep,
    FileIo,
    NetworkImport,
    CwdDependency,
    MysteryGuest,
    RandomWithoutSeed,
    SubprocessWithoutTimeout,
    SocketWithoutBindTimeout,
    DatetimeInAssertion,
    XdistSharedState,
    XdistFixtureIo,
    TestLogic,
    MagicAssert,
    NoAssertion,
    MockOnlyVerify,
    AssertionRoulette,
    RawExceptionHandling,
    ConditionalLogicInTest,
    DuplicateTestBodies,
    SleepWithValue,
    TestNameLength,
    ParametrizeEmpty,
    ParametrizeDuplicate,
    ParametrizeExplosion,
    PatchTargetingDefinitionModule,
    MagicMockOnAsync,
    PatchInitBypass,
    SuboptimalAssert,
    BddMissingScenario,
    PropertyTestHint,
    InlineSchemaRedeclared,
    MockRatioBudget,
}

/// Every rule, in the order the linter runs them.
pub open spec fn all_rule_kinds() -> Seq<RuleKind> {
    seq![
        RuleKind::TimeSleep,
        RuleKind::FileIo,
        RuleKind::NetworkImport,
        RuleKind::CwdDependency,
        RuleKind::MysteryGuest,
        RuleKind::RandomWithoutSeed,
        RuleKind::SubprocessWithoutTimeout,
        RuleKind::SocketWithoutBindTimeout,
        RuleKind::DatetimeInAssertion,
        RuleKind::XdistSharedState,
        RuleKind::XdistFixtureIo,
        RuleKind::TestLogic,
        RuleKind::MagicAssert,
        RuleKind::NoAssertion,
        RuleKind::MockOnlyVerify,
        RuleKind::AssertionRoulette,
        RuleKind::RawExceptionHandling,
        RuleKind::ConditionalLogicInTest,
        RuleKind::DuplicateTestBodies,
        RuleKind::SleepWithValue,
        RuleKind::TestNameLength,
        RuleKind::ParametrizeEmpty,
        RuleKind::ParametrizeDuplicate,
        RuleKind::ParametrizeExplosion,
        RuleKind::PatchTargetingDefinitionModule,
        RuleKind::MagicMockOnAsync,
        RuleKind::PatchInitBypass,
        RuleKind::SuboptimalAssert,
        RuleKind::BddMissingScenario,
        RuleKind::PropertyTestHint,
        RuleKind::InlineSchemaRedeclared,
        RuleKind::MockRatioBudget,
    ]
}

/// The ID of rule `k`.
pub open spec fn kind_id(k: RuleKind) -> Seq<char> {
    match k {
        RuleKind::TimeSleep => TimeSleepRule.rule_id(),
        RuleKind::FileIo => FileIoRule.rule_id(),
        RuleKind::NetworkImport => NetworkImportRule.rule_id(),
        RuleKind::CwdDependency => CwdDependencyRule.rule_id(),
        RuleKind::MysteryGuest => MysteryGuestRule.rule_id(),
        RuleKind::RandomWithoutSeed => RandomWithoutSeedRule.rule_id(),
        RuleKind::SubprocessWithoutTimeout => SubprocessWithoutTimeoutRule.rule_id(),
        RuleKind::SocketWithoutBindTimeout => SocketWithoutBindTimeoutRule.rule_id(),
        RuleKind::DatetimeInAssertion => DatetimeInAssertionRule.rule_id(),
        RuleKind::XdistSharedState => XdistSharedStateRule.rule_id(),
        RuleKind::XdistFixtureIo => XdistFixtureIoRule.rule_id(),
        RuleKind::TestLogic => TestLogicRule.rule_id(),
        RuleKind::MagicAssert => MagicAssertRule.rule_id(),
        RuleKind::NoAssertion => NoAssertionRule.rule_id(),
        RuleKind::MockOnlyVerify => MockOnlyVerifyRule.rule_id(),
        RuleKind::AssertionRoulette => AssertionRouletteRule.rule_id(),
        RuleKind::RawExceptionHandling => RawExceptionHandlingRule.rule_id(),
        RuleKind::ConditionalLogicInTest => ConditionalLogicInTestRule.rule_id(),
        RuleKind::DuplicateTestBodies => DuplicateTestBodiesRule.rule_id(),
        RuleKind::SleepWithValue => SleepWithValueRule.rule_id(),
        RuleKind::TestNameLength => TestNameLengthRule.rule_id(),
        RuleKind::ParametrizeEmpty => ParametrizeEmptyRule.rule_id(),
        RuleKind::ParametrizeDuplicate => ParametrizeDuplicateRule.rule_id(),
        RuleKind::ParametrizeExplosion => ParametrizeExplosionRule.rule_id(),
        RuleKind::PatchTargetingDefinitionModule => PatchTargetingDefinitionModuleRule.rule_id(),
        RuleKind::MagicMockOnAsync => MagicMockOnAsyncRule.rule_id(),
        RuleKind::PatchInitBypass => PatchInitBypassRule.rule_id(),
        RuleKind::SuboptimalAssert => SuboptimalAssertRule.rule_id(),
        RuleKind::BddMissingScenario => BddMissingScenarioRule.rule_id(),
        RuleKind::PropertyTestHint => PropertyTestHintRule.rule_id(),
        RuleKind::InlineSchemaRedeclared => InlineSchemaRedeclaredRule.rule_id(),
        RuleKind::MockRatioBudget => MockRatioBudgetRule.rule_id(),
    }
}

/// The severity rule `k` reports with unless configured otherwise.
pub open spec fn kind_severity(k: RuleKind) -> Severity {
    match k {
        RuleKind::TimeSleep => TimeSleepRule.default_severity(),
        RuleKind::FileIo => FileIoRule.default_severity(),
        RuleKind::NetworkImport => NetworkImportRule.default_severity(),
        RuleKind::CwdDependency => CwdDependencyRule.default_severity(),
        RuleKind::MysteryGuest => MysteryGuestRule.default_severity(),
        RuleKind::RandomWithoutSeed => RandomWithoutSeedRule.default_severity(),
        RuleKind::SubprocessWithoutTimeout => SubprocessWithoutTimeoutRule.default_severity(),
        RuleKind::SocketWithoutBindTimeout => SocketWithoutBindTimeoutRule.default_severity(),
        RuleKind::DatetimeInAssertion => DatetimeInAssertionRule.default_severity(),
        RuleKind::XdistSharedState => XdistSharedStateRule.default_severity(),
        RuleKind::XdistFixtureIo => XdistFixtureIoRule.default_severity(),
        RuleKind::TestLogic => TestLogicRule.default_severity(),
        RuleKind::MagicAssert => MagicAssertRule.default_severity(),
        RuleKind::NoAssertion => NoAssertionRule.default_severity(),
        RuleKind::MockOnlyVerify => MockOnlyVerifyRule.default_severity(),
        RuleKind::AssertionRoulette => AssertionRouletteRule.default_severity(),
        RuleKind::RawExceptionHandling => RawExceptionHandlingRule.default_severity(),
        RuleKind::ConditionalLogicInTest => ConditionalLogicInTestRule.default_severity(),
        RuleKind::DuplicateTestBodies => DuplicateTestBodiesRule.default_severity(),
        RuleKind::SleepWithValue => SleepWithValueRule.default_severity(),
        RuleKind::TestNameLength => TestNameLengthRule.default_severity(),
        RuleKind::ParametrizeEmpty => ParametrizeEmptyRule.default_severity(),
        RuleKind::ParametrizeDuplicate => ParametrizeDuplicateRule.default_severity(),
        RuleKind::ParametrizeExplosion => ParametrizeExplosionRule.default_severity(),
        RuleKind::PatchTargetingDefinitionModule => PatchTargetingDefinitionModuleRule.default_severity(),
        RuleKind::MagicMockOnAsync => MagicMockOnAsyncRule.default_severity(),
        RuleKind::PatchInitBypass => PatchInitBypassRule.default_severity(),
        RuleKind::SuboptimalAssert => SuboptimalAssertRule.default_severity(),
        RuleKind::BddMissingScenario => BddMissingScenarioRule.default_severity(),
        RuleKind::PropertyTestHint => PropertyTestHintRule.default_severity(),
        RuleKind::InlineSchemaRedeclared => InlineSchemaRedeclaredRule.default_severity(),
        RuleKind::MockRatioBudget => MockRatioBudgetRule.default_severity(),
    }
}

/// Whether `out` is what rule `k` reports for `module` under `ctx`.
pub open spec fn kind_reports(k: RuleKind, module: ParsedModule, ctx: RuleContext, out: Seq<ViolationView>) -> bool {
    match k {
        RuleKind::TimeSleep => out == time_sleep_findings(module),
        RuleKind::FileIo => out == file_io_findings(module),
        RuleKind::NetworkImport => out == network_import_findings(module),
        RuleKind::CwdDependency => out == cwd_dependency_findings(module),
        RuleKind::MysteryGuest => out == mystery_guest_findings(module),
        RuleKind::RandomWithoutSeed => (exists|ls: Seq<Seq<usize>>| ls.len() == module.test_functions@.len() && (forall|k: int| 0 <= k < ls.len() ==> module.test_functions@[k].uses_random && !module.test_functions@[k].has_random_seed ==> admissible_lines(ctx, module.test_functions@[k], #[trigger] ls[k], false)) && out == random_site_findings(module, ls, ls.len() as int)),
        RuleKind::SubprocessWithoutTimeout => (exists|ls: Seq<Seq<usize>>| ls.len() == module.test_functions@.len() && (forall|k: int| 0 <= k < ls.len() ==> module.test_functions@[k].uses_subprocess ==> admissible_lines( ctx, module.test_functions@[k], #[trigger] ls[k], true, )) && out == subprocess_site_findings(module, ls, ls.len() as int)),
        RuleKind::SocketWithoutBindTimeout => out == socket_timeout_findings(module),
        RuleKind::DatetimeInAssertion => out == datetime_assertion_findings(module),
        RuleKind::XdistSharedState => out == shared_state_findings(module, ctx),
        RuleKind::XdistFixtureIo => out == fixture_io_findings(module),
        RuleKind::TestLogic => out == test_logic_findings(module),
        RuleKind::MagicAssert => out == magic_assert_findings(module),
        RuleKind::NoAssertion => out == no_assertion_findings(module),
        RuleKind::MockOnlyVerify => out == mock_only_findings(module),
        RuleKind::AssertionRoulette => out == assertion_roulette_findings(module),
        RuleKind::RawExceptionHandling => out == raw_exception_findings(module),
        RuleKind::ConditionalLogicInTest => out == conditional_in_param_findings(module),
        RuleKind::DuplicateTestBodies => out == duplicate_bodies_findings(module),
        RuleKind::SleepWithValue => out == sleep_value_findings(module),
        RuleKind::TestNameLength => out == name_length_findings(module),
        RuleKind::ParametrizeEmpty => out == parametrize_empty_findings(module),
        RuleKind::ParametrizeDuplicate => out == param_dup_findings(module),
        RuleKind::ParametrizeExplosion => out == parametrize_explosion_findings(module),
        RuleKind::PatchTargetingDefinitionModule => out == patch_def_findings(module),
        RuleKind::MagicMockOnAsync => out == magic_mock_async_findings(module),
        RuleKind::PatchInitBypass => out == patch_init_findings(module),
        RuleKind::SuboptimalAssert => out == suboptimal_assert_findings(module),
        RuleKind::BddMissingScenario => out == bdd_scenario_findings(module),
        RuleKind::PropertyTestHint => out == property_hint_findings(module),
        RuleKind::InlineSchemaRedeclared => out == inline_schema_findings(module),
        RuleKind::MockRatioBudget => out == mock_ratio_findings(module),
    }
}

/// The rules the linter runs, in order.
pub fn all_rules() -> (r: Vec<RuleKind>)
    ensures
        r@ == all_rule_kinds(),
{
    let r = vec![
        RuleKind::TimeSleep,
        RuleKind::FileIo,
        RuleKind::NetworkImport,
        RuleKind::CwdDependency,
        RuleKind::MysteryGuest,
        RuleKind::RandomWithoutSeed,
        RuleKind::SubprocessWithoutTimeout,
        RuleKind::SocketWithoutBindTimeout,
        RuleKind::DatetimeInAssertion,
        RuleKind::XdistSharedState,
        RuleKind::XdistFixtureIo,
        RuleKind::TestLogic,
        RuleKind::MagicAssert,
        RuleKind::NoAssertion,
        RuleKind::MockOnlyVerify,
        RuleKind::AssertionRoulette,
        RuleKind::RawExceptionHandling,
        RuleKind::ConditionalLogicInTest,
        RuleKind::DuplicateTestBodies,
        RuleKind::SleepWithValue,
        RuleKind::TestNameLength,
        RuleKind::ParametrizeEmpty,
        RuleKind::ParametrizeDuplicate,
        RuleKind::ParametrizeExplosion,
        RuleKind::PatchTargetingDefinitionModule,
        RuleKind::MagicMockOnAsync,
        RuleKind::PatchInitBypass,
        RuleKind::SuboptimalAssert,
        RuleKind::BddMissingScenario,
        RuleKind::PropertyTestHint,
        RuleKind::InlineSchemaRedeclared,
        RuleKind::MockRatioBudget,
    ];
    assert(r@ =~= all_rule_kinds());
    r
}

impl RuleKind {
    /// The rule's ID.
    pub fn id(&self) -> (r: &'static str)
        ensures
            r@ == kind_id(*self),
    {
        match self {
            RuleKind::TimeSleep => TimeSleepRule.id(),
            RuleKind::FileIo => FileIoRule.id(),
            RuleKind::NetworkImport => NetworkImportRule.id(),
            RuleKind::CwdDependency => CwdDependencyRule.id(),
            RuleKind::MysteryGuest => MysteryGuestRule.id(),
            RuleKind::RandomWithoutSeed => RandomWithoutSeedRule.id(),
            RuleKind::SubprocessWithoutTimeout => SubprocessWithoutTimeoutRule.id(),
            RuleKind::SocketWithoutBindTimeout => SocketWithoutBindTimeoutRule.id(),
            RuleKind::DatetimeInAssertion => DatetimeInAssertionRule.id(),
            RuleKind::XdistSharedState => XdistSharedStateRule.id(),
            RuleKind::XdistFixtureIo => XdistFixtureIoRule.id(),
            RuleKind::TestLogic => TestLogicRule.id(),
            RuleKind::MagicAssert => MagicAssertRule.id(),
            RuleKind::NoAssertion => NoAssertionRule.id(),
            RuleKind::MockOnlyVerify => MockOnlyVerifyRule.id(),
            RuleKind::AssertionRoulette => AssertionRouletteRule.id(),
            RuleKind::RawExceptionHandling => RawExceptionHandlingRule.id(),
            RuleKind::ConditionalLogicInTest => ConditionalLogicInTestRule.id(),
            RuleKind::DuplicateTestBodies => DuplicateTestBodiesRule.id(),
            RuleKind::SleepWithValue => SleepWithValueRule.id(),
            RuleKind::TestNameLength => TestNameLengthRule.id(),
            RuleKind::ParametrizeEmpty => ParametrizeEmptyRule.id(),
            RuleKind::ParametrizeDuplicate => ParametrizeDuplicateRule.id(),
            RuleKind::ParametrizeExplosion => ParametrizeExplosionRule.id(),
            RuleKind::PatchTargetingDefinitionModule => PatchTargetingDefinitionModuleRule.id(),
            RuleKind::MagicMockOnAsync => MagicMockOnAsyncRule.id(),
            RuleKind::PatchInitBypass => PatchInitBypassRule.id(),
            RuleKind::SuboptimalAssert => SuboptimalAssertRule.id(),
            RuleKind::BddMissingScenario => BddMissingScenarioRule.id(),
            RuleKind::PropertyTestHint => PropertyTestHintRule.id(),
            RuleKind::InlineSchemaRedeclared => InlineSchemaRedeclaredRule.id(),
            RuleKind::MockRatioBudget => MockRatioBudgetRule.id(),
        }
    }

    /// The rule's default severity.
    pub fn severity(&self) -> (r: Severity)
        ensures
            r == kind_severity(*self),
    {
        match self {
            RuleKind::TimeSleep => TimeSleepRule.severity(),
            RuleKind::FileIo => FileIoRule.severity(),
            RuleKind::NetworkImport => NetworkImportRule.severity(),
            RuleKind::CwdDependency => CwdDependencyRule.severity(),
            RuleKind::MysteryGuest => MysteryGuestRule.severity(),
            RuleKind::RandomWithoutSeed => RandomWithoutSeedRule.severity(),
            RuleKind::SubprocessWithoutTimeout => SubprocessWithoutTimeoutRule.severity(),
            RuleKind::SocketWithoutBindTimeout => SocketWithoutBindTimeoutRule.severity(),
            RuleKind::DatetimeInAssertion => DatetimeInAssertionRule.severity(),
            RuleKind::XdistSharedState => XdistSharedStateRule.severity(),
            RuleKind::XdistFixtureIo => XdistFixtureIoRule.severity(),
            RuleKind::TestLogic => TestLogicRule.severity(),
            RuleKind::MagicAssert => MagicAssertRule.severity(),
            RuleKind::NoAssertion => NoAssertionRule.severity(),
            RuleKind::MockOnlyVerify => MockOnlyVerifyRule.severity(),
            RuleKind::AssertionRoulette => AssertionRouletteRule.severity(),
            RuleKind::RawExceptionHandling => RawExceptionHandlingRule.severity(),
            RuleKind::ConditionalLogicInTest => ConditionalLogicInTestRule.severity(),
            RuleKind::DuplicateTestBodies => DuplicateTestBodiesRule.severity(),
            RuleKind::SleepWithValue => SleepWithValueRule.severity(),
            RuleKind::TestNameLength => TestNameLengthRule.severity(),
            RuleKind::ParametrizeEmpty => ParametrizeEmptyRule.severity(),
            RuleKind::ParametrizeDuplicate => ParametrizeDuplicateRule.severity(),
            RuleKind::ParametrizeExplosion => ParametrizeExplosionRule.severity(),
            RuleKind::PatchTargetingDefinitionModule => PatchTargetingDefinitionModuleRule.severity(),
            RuleKind::MagicMockOnAsync => MagicMockOnAsyncRule.severity(),
            RuleKind::PatchInitBypass => PatchInitBypassRule.severity(),
            RuleKind::SuboptimalAssert => SuboptimalAssertRule.severity(),
            RuleKind::BddMissingScenario => BddMissingScenarioRule.severity(),
            RuleKind::PropertyTestHint => PropertyTestHintRule.severity(),
            RuleKind::InlineSchemaRedeclared => InlineSchemaRedeclaredRule.severity(),
            RuleKind::MockRatioBudget => MockRatioBudgetRule.severity(),
        }
    }

    /// Runs the rule on `module`.
    pub fn check(&self, module: &ParsedModule, all_modules: &[ParsedModule], ctx: &RuleContext) -> (r: Vec<Violation>)
        ensures
            kind_reports(*self, *module, *ctx, views(r@)),
    {
        match self {
            RuleKind::TimeSleep => TimeSleepRule.check(module, all_modules, ctx),
            RuleKind::FileIo => FileIoRule.check(module, all_modules, ctx),
            RuleKind::NetworkImport => NetworkImportRule.check(module, all_modules, ctx),
            RuleKind::CwdDependency => CwdDependencyRule.check(module, all_modules, ctx),
            RuleKind::MysteryGuest => MysteryGuestRule.check(module, all_modules, ctx),
            RuleKind::RandomWithoutSeed => RandomWithoutSeedRule.check(module, all_modules, ctx),
            RuleKind::SubprocessWithoutTimeout => SubprocessWithoutTimeoutRule.check(module, all_modules, ctx),
            RuleKind::SocketWithoutBindTimeout => SocketWithoutBindTimeoutRule.check(module, all_modules, ctx),
            RuleKind::DatetimeInAssertion => DatetimeInAssertionRule.check(module, all_modules, ctx),
            RuleKind::XdistSharedState => XdistSharedStateRule.check(module, all_modules, ctx),
            RuleKind::XdistFixtureIo => XdistFixtureIoRule.check(module, all_modules, ctx),
            RuleKind::TestLogic => TestLogicRule.check(module, all_modules, ctx),
            RuleKind::MagicAssert => MagicAssertRule.check(module, all_modules, ctx),
            RuleKind::NoAssertion => NoAssertionRule.check(module, all_modules, ctx),
            RuleKind::MockOnlyVerify => MockOnlyVerifyRule.check(module, all_modules, ctx),
            RuleKind::AssertionRoulette => AssertionRouletteRule.check(module, all_modules, ctx),
            RuleKind::RawExceptionHandling => RawExceptionHandlingRule.check(module, all_modules, ctx),
            RuleKind::ConditionalLogicInTest => ConditionalLogicInTestRule.check(module, all_modules, ctx),
            RuleKind::DuplicateTestBodies => DuplicateTestBodiesRule.check(module, all_modules, ctx),
            RuleKind::SleepWithValue => SleepWithValueRule.check(module, all_modules, ctx),
            RuleKind::TestNameLength => TestNameLengthRule.check(module, all_modules, ctx),
            RuleKind::ParametrizeEmpty => ParametrizeEmptyRule.check(module, all_modules, ctx),
            RuleKind::ParametrizeDuplicate => ParametrizeDuplicateRule.check(module, all_modules, ctx),
            RuleKind::ParametrizeExplosion => ParametrizeExplosionRule.check(module, all_modules, ctx),
            RuleKind::PatchTargetingDefinitionModule => PatchTargetingDefinitionModuleRule.check(module, all_modules, ctx),
            RuleKind::MagicMockOnAsync => MagicMockOnAsyncRule.check(module, all_modules, ctx),
            RuleKind::PatchInitBypass => PatchInitBypassRule.check(module, all_modules, ctx),
            RuleKind::SuboptimalAssert => SuboptimalAssertRule.check(module, all_modules, ctx),
            RuleKind::BddMissingScenario => BddMissingScenarioRule.check(module, all_modules, ctx),
            RuleKind::PropertyTestHint => PropertyTestHintRule.check(module, all_modules, ctx),
            RuleKind::InlineSchemaRedeclared => InlineSchemaRedeclaredRule.check(module, all_modules, ctx),
            RuleKind::MockRatioBudget => MockRatioBudgetRule.check(module, all_modules, ctx),
        }
    }
}

} // verus!
