//! The rule interface and what all rules share.
use vstd::prelude::*;
use crate::engine::{make_violation, violation_of};
use crate::models::{Category, ParsedModule, RuleContext, Severity, Violation, ViolationView, opt_text, views};
use crate::text::{contains, str_contains, str_eq};

pub mod flakiness;
pub mod maintenance;
pub mod mocking;
pub mod registry;

verus! {

/// A lint rule: an identity, a default severity and category, and a check
/// that reports the violations it finds in one module.
pub trait Rule {
    spec fn rule_id(&self) -> Seq<char>;

    spec fn rule_name(&self) -> Seq<char>;

    spec fn default_severity(&self) -> Severity;

    spec fn rule_category(&self) -> Category;

    fn id(&self) -> (r: &'static str)
        ensures
            r@ == self.rule_id(),
    ;

    fn name(&self) -> (r: &'static str)
        ensures
            r@ == self.rule_name(),
    ;

    fn severity(&self) -> (r: Severity)
        ensures
            r == self.default_severity(),
    ;

    fn category(&self) -> (r: Category)
        ensures
            r == self.rule_category(),
    ;

    fn check(&self, module: &ParsedModule, all_modules: &[ParsedModule], ctx: &RuleContext) -> Vec<Violation>;
}

/// The concatenation of `f` over the items of `s`, in order.
pub open spec fn flat_map<A>(s: Seq<A>, f: spec_fn(A) -> Seq<ViolationView>) -> Seq<ViolationView>
    decreases s.len(),
{
    if s.len() == 0 {
        Seq::empty()
    } else {
        flat_map(s.drop_last(), f) + f(s.last())
    }
}

pub proof fn lemma_flat_map_step<A>(s: Seq<A>, f: spec_fn(A) -> Seq<ViolationView>, i: int)
    requires
        0 <= i < s.len(),
    ensures
        flat_map(s.take(i + 1), f) == flat_map(s.take(i), f) + f(s[i]),
{
    assert(s.take(i + 1).drop_last() =~= s.take(i));
}

pub proof fn lemma_flat_map_all<A>(s: Seq<A>, f: spec_fn(A) -> Seq<ViolationView>)
    ensures
        flat_map(s.take(s.len() as int), f) == flat_map(s, f),
{
    assert(s.take(s.len() as int) =~= s);
}

/// The view of a violation of the rule `id` in the file `file`.
pub open spec fn finding(
    id: Seq<char>,
    name: Seq<char>,
    severity: Severity,
    category: Category,
    file: Seq<char>,
    line: usize,
    message: Seq<char>,
    suggestion: Seq<char>,
    test_name: Option<Seq<char>>,
) -> ViolationView {
    violation_of(id, name, severity, category, message, file, line, Some(suggestion), test_name)
}

/// Builds a violation of the rule `id` in `module`.
pub fn report(
    id: &'static str,
    name: &'static str,
    severity: Severity,
    category: Category,
    module: &ParsedModule,
    line: usize,
    message: String,
    suggestion: &str,
    test_name: Option<String>,
) -> (v: Violation)
    ensures
        v@ == finding(id@, name@, severity, category, module.file_path@, line, message@, suggestion@, opt_text(test_name)),
{
    make_violation(
        id,
        name,
        severity,
        category,
        message,
        module.file_path.clone(),
        line,
        Some(String::from_str(suggestion)),
        test_name,
    )
}

/// Appends `v` to `out`.
pub fn push_violation(out: &mut Vec<Violation>, v: Violation)
    ensures
        views(final(out)@) == views(old(out)@).push(v@),
{
    out.push(v);
    assert(views(out@) =~= views(old(out)@).push(v@));
}

/// The text `a + b + c`.
pub fn cat3(a: &str, b: &str, c: &str) -> (r: String)
    ensures
        r@ == a@ + b@ + c@,
{
    let mut r = String::from_str(a);
    r.append(b);
    r.append(c);
    r
}

/// Whether `name` is one of pytest's temporary-path fixtures.
pub open spec fn is_tmp_fixture_name(name: Seq<char>) -> bool {
    name == "tmp_path"@ || name == "tmpdir"@ || name == "tmp_path_factory"@
}

/// Whether the fixture names `deps` include a temporary-path fixture.
pub open spec fn has_tmp_fixture(deps: Seq<String>) -> bool {
    exists|i: int| 0 <= i < deps.len() && is_tmp_fixture_name(#[trigger] deps[i]@)
}

pub fn has_tmp_fixture_exec(deps: &Vec<String>) -> (r: bool)
    ensures
        r == has_tmp_fixture(deps@),
{
    let mut i: usize = 0;
    while i < deps.len()
        invariant
            i <= deps@.len(),
            forall|j: int| 0 <= j < i ==> !is_tmp_fixture_name(#[trigger] deps@[j]@),
        decreases deps.len() - i,
    {
        let d = deps[i].as_str();
        if str_eq(d, "tmp_path") || str_eq(d, "tmpdir") || str_eq(d, "tmp_path_factory") {
            return true;
        }
        i = i + 1;
    }
    false
}

/// Whether some item of `items` contains `needle`.
pub open spec fn imports_contain(items: Seq<String>, needle: Seq<char>) -> bool {
    exists|i: int| 0 <= i < items.len() && contains(#[trigger] items[i]@, needle)
}

pub fn imports_contain_exec(items: &Vec<String>, needle: &str) -> (r: bool)
    ensures
        r == imports_contain(items@, needle@),
{
    let mut i: usize = 0;
    while i < items.len()
        invariant
            i <= items@.len(),
            forall|j: int| 0 <= j < i ==> !contains(#[trigger] items@[j]@, needle@),
        decreases items.len() - i,
    {
        if str_contains(items[i].as_str(), needle) {
            return true;
        }
        i = i + 1;
    }
    false
}

/// Whether some item of `items` contains some text of `needles`.
pub open spec fn any_text_contains(items: Seq<String>, needles: Seq<Seq<char>>) -> bool {
    exists|i: int, j: int|
        0 <= i < items.len() && 0 <= j < needles.len() && contains(#[trigger] items[i]@, #[trigger] needles[j])
}

pub fn any_text_contains_exec(items: &Vec<String>, needles: &Vec<&'static str>) -> (r: bool)
    ensures
        r == any_text_contains(items@, needles@.map_values(|s: &'static str| s@)),
{
    let ghost ns = needles@.map_values(|s: &'static str| s@);
    let mut i: usize = 0;
    while i < items.len()
        invariant
            i <= items@.len(),
            ns == needles@.map_values(|s: &'static str| s@),
            forall|a: int, b: int| 0 <= a < i && 0 <= b < ns.len() ==> !contains(#[trigger] items@[a]@, #[trigger] ns[b]),
        decreases items.len() - i,
    {
        let mut j: usize = 0;
        while j < needles.len()
            invariant
                i < items@.len(),
                j <= needles@.len(),
                ns == needles@.map_values(|s: &'static str| s@),
                forall|a: int, b: int| 0 <= a < i && 0 <= b < ns.len() ==> !contains(#[trigger] items@[a]@, #[trigger] ns[b]),
                forall|b: int| 0 <= b < j ==> !contains(items@[i as int]@, #[trigger] ns[b]),
            decreases needles.len() - j,
        {
            if str_contains(items[i].as_str(), needles[j]) {
                assert(contains(items@[i as int]@, ns[j as int]));
                return true;
            }
            j = j + 1;
        }
        i = i + 1;
    }
    false
}

/// Whether `items` holds the text `t`.
pub open spec fn texts_contain(items: Seq<String>, t: Seq<char>) -> bool {
    exists|i: int| 0 <= i < items.len() && #[trigger] items[i]@ == t
}

pub fn texts_contain_exec(items: &Vec<String>, t: &str) -> (r: bool)
    ensures
        r == texts_contain(items@, t@),
{
    let mut i: usize = 0;
    while i < items.len()
        invariant
            i <= items@.len(),
            forall|j: int| 0 <= j < i ==> #[trigger] items@[j]@ != t@,
        decreases items.len() - i,
    {
        if str_eq(items[i].as_str(), t) {
            return true;
        }
        i = i + 1;
    }
    false
}

} // verus!
