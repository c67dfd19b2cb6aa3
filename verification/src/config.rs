//! Linter configuration: per-rule settings, per-glob overrides, and how
//! configurations from several sources are layered.
use vstd::prelude::*;
use crate::models::Severity;
use crate::paths::{absolute_path, glob_matches, glob_path_matches, glob_pattern_ok, is_absolute, join_path, joined_path, opt_chars, path_after_prefix, strip_path_prefix};
use crate::rulemap::{layered_maps, RuleConfig, RuleMap};
use crate::text::{chars_of, trim, trim_exec};

verus! {

/// Rule overrides for the files that a glob pattern matches.
#[derive(Debug, Clone)]
pub struct OverrideConfig {
    pub path: String,
    pub rules: RuleMap,
    /// The directory the pattern is relative to (the directory of the file
    /// that declared it).
    pub base_dir: Option<String>,
}

/// The `[tool.pytest-linter]` table of a `pyproject.toml`, or the top level
/// of a standalone `pytest-linter.toml`.
#[derive(Debug, Clone)]
pub struct ToolConfig {
    pub rules: Option<RuleMap>,
    pub format: Option<String>,
    pub output: Option<String>,
    pub overrides: Option<Vec<OverrideConfig>>,
    pub excludes: Option<Vec<String>>,
}

/// What the `tool.pytest-linter` entry of a `pyproject.toml` holds.
#[derive(Debug, Clone)]
pub enum ToolSection {
    /// The entry is there but is not a table.
    NotATable,
    /// The entry is missing, or is an empty table.
    Empty,
    /// The entry is a non-empty table, read as a `ToolConfig`.
    Table(ToolConfig),
}

/// The merged configuration the linter runs with.
#[derive(Debug, Clone)]
pub struct Config {
    pub rules: RuleMap,
    pub format: Option<String>,
    pub output: Option<String>,
    pub overrides: Vec<OverrideConfig>,
    pub config_dir: Option<String>,
    pub excludes: Vec<String>,
}

/// Why a configuration could not be applied.
#[derive(Debug, Clone)]
pub enum ConfigError {
    /// An override's `path` is not a valid glob pattern.
    InvalidGlobPattern { pattern: String },
}

/// A setting that sets nothing.
pub open spec fn unset() -> RuleConfig {
    RuleConfig { enabled: None, severity: None }
}

/// The IDs of the rules that are configured by default.
pub open spec fn default_ids() -> Seq<Seq<char>> {
    seq![
        "PYTEST-FLK-001"@,
        "PYTEST-FLK-002"@,
        "PYTEST-FLK-003"@,
        "PYTEST-FLK-004"@,
        "PYTEST-FLK-005"@,
        "PYTEST-FLK-008"@,
        "PYTEST-FLK-009"@,
        "PYTEST-FLK-010"@,
        "PYTEST-FLK-011"@,
        "PYTEST-XDIST-001"@,
        "PYTEST-XDIST-002"@,
        "PYTEST-MNT-001"@,
        "PYTEST-MNT-002"@,
        "PYTEST-MNT-003"@,
        "PYTEST-MNT-004"@,
        "PYTEST-MNT-005"@,
        "PYTEST-MNT-006"@,
        "PYTEST-MNT-007"@,
        "PYTEST-MNT-015"@,
        "PYTEST-MNT-016"@,
        "PYTEST-MNT-017"@,
        "PYTEST-BDD-001"@,
        "PYTEST-PBT-001"@,
        "PYTEST-PARAM-001"@,
        "PYTEST-PARAM-002"@,
        "PYTEST-PARAM-003"@,
        "PYTEST-DBC-001"@,
        "PYTEST-FIX-001"@,
        "PYTEST-FIX-003"@,
        "PYTEST-FIX-004"@,
        "PYTEST-FIX-005"@,
        "PYTEST-FIX-006"@,
        "PYTEST-FIX-007"@,
        "PYTEST-FIX-008"@,
        "PYTEST-FIX-009"@,
        "PYTEST-FIX-010"@,
        "PYTEST-FIX-011"@,
        "PYTEST-FIX-012"@,
        "PYTEST-FIX-013"@,
    ]
}

/// The default rule settings: every default rule, with nothing set.
pub open spec fn default_rules() -> Map<Seq<char>, RuleConfig> {
    Map::new(|k: Seq<char>| default_ids().contains(k), |k: Seq<char>| unset())
}

/// Whether a rule runs under the settings `m`: unless it is explicitly
/// disabled, it does.
pub open spec fn rule_enabled(m: Map<Seq<char>, RuleConfig>, id: Seq<char>) -> bool {
    if m.dom().contains(id) {
        match m[id].enabled {
            Some(e) => e,
            None => true,
        }
    } else {
        true
    }
}

/// The severity a rule reports with under the settings `m`.
pub open spec fn rule_severity_in(m: Map<Seq<char>, RuleConfig>, id: Seq<char>, default: Severity) -> Severity {
    if m.dom().contains(id) {
        match m[id].severity {
            Some(s) => s,
            None => default,
        }
    } else {
        default
    }
}

/// The path that an override's pattern is matched against: the file's path
/// relative to the override's base directory (or the configuration's
/// directory) where it lies under it, else the path itself.
pub open spec fn override_target(o: OverrideConfig, config_dir: Option<String>, file: Seq<char>) -> Seq<char> {
    let base = match o.base_dir {
        Some(d) => Some(d),
        None => config_dir,
    };
    match base {
        Some(d) => match path_after_prefix(file, d@) {
            Some(rest) => rest,
            None => file,
        },
        None => file,
    }
}

/// The settings for one file: the overrides applied in order on top of `m`,
/// or the pattern of the first override whose pattern is invalid.
pub open spec fn apply_overrides(
    m: Map<Seq<char>, RuleConfig>,
    os: Seq<OverrideConfig>,
    config_dir: Option<String>,
    file: Seq<char>,
) -> Result<Map<Seq<char>, RuleConfig>, Seq<char>>
    decreases os.len(),
{
    if os.len() == 0 {
        Ok(m)
    } else {
        match apply_overrides(m, os.drop_last(), config_dir, file) {
            Err(p) => Err(p),
            Ok(m2) => {
                let o = os.last();
                if !glob_pattern_ok(o.path@) {
                    Err(o.path@)
                } else if glob_path_matches(o.path@, override_target(o, config_dir, file)) {
                    Ok(layered_maps(m2, o.rules@))
                } else {
                    Ok(m2)
                }
            },
        }
    }
}

/// The output path a tool table asks for, resolved against `dir`; an empty
/// output means standard output, so no path.
pub open spec fn resolved_output(output: Option<String>, dir: Seq<char>) -> Option<Seq<char>> {
    match output {
        Some(o) => if o@.len() == 0 {
            None
        } else if absolute_path(o@) {
            Some(o@)
        } else {
            Some(joined_path(dir, o@))
        },
        None => None,
    }
}

/// The excludes a tool table lists (none where it lists none).
pub open spec fn table_excludes(t: ToolConfig) -> Seq<String> {
    match t.excludes {
        Some(v) => v@,
        None => Seq::empty(),
    }
}

/// Whether `c` is the configuration that the tool table `t` gives with paths
/// resolved against `dir`: the default rules with the table's rules laid
/// over them, its format, its output resolved against `dir`, its overrides in
/// order with `dir` as their base, `dir` as the configuration directory, and
/// its excludes.
pub open spec fn built_from_table(c: Config, t: ToolConfig, dir: Seq<char>) -> bool {
    &&& c.rules@ == match t.rules {
        Some(m) => layered_maps(default_rules(), m@),
        None => default_rules(),
    }
    &&& c.format == t.format
    &&& opt_chars(c.output) == resolved_output(t.output, dir)
    &&& c.overrides@.len() == match t.overrides {
        Some(v) => v@.len(),
        None => 0,
    }
    &&& forall|i: int|
        #![trigger c.overrides@[i]]
        0 <= i < c.overrides@.len() ==> {
            &&& c.overrides@[i].path == t.overrides->0@[i].path
            &&& c.overrides@[i].rules@ == t.overrides->0@[i].rules@
            &&& opt_chars(c.overrides@[i].base_dir) == Some(dir)
        }
    &&& opt_chars(c.config_dir) == Some(dir)
    &&& c.excludes@ == table_excludes(t)
}

/// The overrides of an optional configuration (none where there is none).
pub open spec fn overrides_of(c: Option<Config>) -> Seq<OverrideConfig> {
    match c {
        Some(c) => c.overrides@,
        None => Seq::empty(),
    }
}

/// The excludes of an optional configuration (none where there is none).
pub open spec fn excludes_of(c: Option<Config>) -> Seq<String> {
    match c {
        Some(c) => c.excludes@,
        None => Seq::empty(),
    }
}

impl Config {
    /// The IDs of the rules that are configured by default.
    pub fn default_rule_ids() -> (r: Vec<&'static str>)
        ensures
            r@.map_values(|s: &'static str| s@) == default_ids(),
    {
        let r = vec![
            "PYTEST-FLK-001",
            "PYTEST-FLK-002",
            "PYTEST-FLK-003",
            "PYTEST-FLK-004",
            "PYTEST-FLK-005",
            "PYTEST-FLK-008",
            "PYTEST-FLK-009",
            "PYTEST-FLK-010",
            "PYTEST-FLK-011",
            "PYTEST-XDIST-001",
            "PYTEST-XDIST-002",
            "PYTEST-MNT-001",
            "PYTEST-MNT-002",
            "PYTEST-MNT-003",
            "PYTEST-MNT-004",
            "PYTEST-MNT-005",
            "PYTEST-MNT-006",
            "PYTEST-MNT-007",
            "PYTEST-MNT-015",
            "PYTEST-MNT-016",
            "PYTEST-MNT-017",
            "PYTEST-BDD-001",
            "PYTEST-PBT-001",
            "PYTEST-PARAM-001",
            "PYTEST-PARAM-002",
            "PYTEST-PARAM-003",
            "PYTEST-DBC-001",
            "PYTEST-FIX-001",
            "PYTEST-FIX-003",
            "PYTEST-FIX-004",
            "PYTEST-FIX-005",
            "PYTEST-FIX-006",
            "PYTEST-FIX-007",
            "PYTEST-FIX-008",
            "PYTEST-FIX-009",
            "PYTEST-FIX-010",
            "PYTEST-FIX-011",
            "PYTEST-FIX-012",
            "PYTEST-FIX-013",
        ];
        assert(r@.map_values(|s: &'static str| s@) =~= default_ids());
        r
    }

    /// The default rule settings.
    pub fn default_rules() -> (r: RuleMap)
        ensures
            r@ == default_rules(),
    {
        let ids = Self::default_rule_ids();
        let ghost idv = ids@.map_values(|s: &'static str| s@);
        let mut rules = RuleMap::new();
        let mut i: usize = 0;
        while i < ids.len()
            invariant
                i <= ids@.len(),
                idv == default_ids(),
                idv == ids@.map_values(|s: &'static str| s@),
                rules@ == Map::new(|k: Seq<char>| idv.take(i as int).contains(k), |k: Seq<char>| unset()),
            decreases ids.len() - i,
        {
            rules.insert(String::from_str(ids[i]), RuleConfig { enabled: None, severity: None });
            proof {
                assert(idv.take(i + 1) =~= idv.take(i as int).push(idv[i as int]));
                assert(idv[i as int] == ids@[i as int]@);
                let t0 = idv.take(i as int);
                let t1 = idv.take(i + 1);
                assert forall|k: Seq<char>| t1.contains(k) <==> (t0.contains(k) || k == idv[i as int]) by {
                    if t1.contains(k) {
                        let j = choose|j: int| 0 <= j < t1.len() && t1[j] == k;
                        if j < i {
                            assert(t0[j] == k);
                        }
                    }
                    if t0.contains(k) {
                        let j = choose|j: int| 0 <= j < t0.len() && t0[j] == k;
                        assert(t1[j] == k);
                    }
                    if k == idv[i as int] {
                        assert(t1[i as int] == k);
                    }
                }
                assert(rules@ =~= Map::new(|k: Seq<char>| idv.take(i + 1).contains(k), |k: Seq<char>| unset()));
            }
            i = i + 1;
        }
        assert(idv.take(ids@.len() as int) =~= idv);
        assert(rules@ =~= default_rules());
        rules
    }

    /// Whether a rule runs: unknown rules run, and known rules run unless
    /// explicitly disabled.
    pub fn is_rule_enabled(&self, rule_id: &str) -> (r: bool)
        ensures
            r == rule_enabled(self.rules@, rule_id@),
    {
        match self.rules.get(rule_id) {
            Some(rc) => match rc.enabled {
                Some(e) => e,
                None => true,
            },
            None => true,
        }
    }

    /// The severity of a rule: its configured severity, else `default`.
    pub fn rule_severity(&self, rule_id: &str, default: Severity) -> (r: Severity)
        ensures
            r == rule_severity_in(self.rules@, rule_id@, default),
    {
        match self.rules.get(rule_id) {
            Some(rc) => match rc.severity {
                Some(s) => s,
                None => default,
            },
            None => default,
        }
    }

    /// Lays the rule settings `rules` over those of `cfg`.
    pub fn merge_rule_configs(rules: RuleMap, cfg: &mut Config)
        ensures
            final(cfg).rules@ == layered_maps(old(cfg).rules@, rules@),
            final(cfg).format == old(cfg).format,
            final(cfg).output == old(cfg).output,
            final(cfg).overrides == old(cfg).overrides,
            final(cfg).config_dir == old(cfg).config_dir,
            final(cfg).excludes == old(cfg).excludes,
    {
        cfg.rules.layer(&rules);
    }

    /// The configuration a tool table gives, with paths resolved against
    /// `config_dir`: default rules with the table's rules laid over them,
    /// its format, its output path made absolute against `config_dir` (an
    /// empty output meaning standard output), its overrides with
    /// `config_dir` as their base, and its excludes.
    pub fn build_from_tool_config(tool_config: ToolConfig, config_dir: &str) -> (r: Config)
        ensures
            built_from_table(r, tool_config, config_dir@),
    {
        let mut cfg = Config::default();
        let ghost t0 = tool_config;
        let ToolConfig { rules, format, output, overrides, excludes } = tool_config;
        match rules {
            Some(rules) => Self::merge_rule_configs(rules, &mut cfg),
            None => {},
        }
        cfg.format = format;
        cfg.output = match output {
            Some(o) => if o.as_str().unicode_len() == 0 {
                None
            } else if is_absolute(o.as_str()) {
                Some(o)
            } else {
                Some(join_path(config_dir, o.as_str()))
            },
            None => None,
        };
        let given = match overrides {
            Some(v) => v,
            None => Vec::new(),
        };
        let mut placed: Vec<OverrideConfig> = Vec::new();
        let mut i: usize = 0;
        while i < given.len()
            invariant
                i <= given@.len(),
                placed@.len() == i,
                forall|j: int|
                    #![trigger placed@[j]]
                    0 <= j < i ==> {
                        &&& placed@[j].path == given@[j].path
                        &&& placed@[j].rules@ == given@[j].rules@
                        &&& opt_chars(placed@[j].base_dir) == Some(config_dir@)
                    },
            decreases given.len() - i,
        {
            let o = &given[i];
            placed.push(
                OverrideConfig {
                    path: o.path.clone(),
                    rules: o.rules.copy(),
                    base_dir: Some(String::from_str(config_dir)),
                },
            );
            i = i + 1;
        }
        cfg.overrides = placed;
        cfg.config_dir = Some(String::from_str(config_dir));
        cfg.excludes = match excludes {
            Some(v) => v,
            None => Vec::new(),
        };
        assert(cfg.excludes@ == table_excludes(t0));
        cfg
    }

    /// The configuration of the nearest `pyproject.toml` that configures
    /// the linter. `candidates` holds, from the start directory upward, the
    /// directory of each `pyproject.toml` found and what its
    /// `tool.pytest-linter` entry holds; the first entry that is a table
    /// gives the configuration, with its directory as the base.
    pub fn from_pyproject(candidates: Vec<(String, ToolSection)>) -> (r: Option<Config>)
        ensures
            match first_table(candidates@) {
                Some(i) => r matches Some(c) && built_from_table(
                    c,
                    candidates@[i].1->Table_0,
                    candidates@[i].0@,
                ),
                None => r is None,
            },
    {
        let mut i: usize = 0;
        let n = candidates.len();
        let mut rest = candidates;
        let ghost all = rest@;
        let mut found: Option<Config> = None;
        while i < n
            invariant
                n == all.len(),
                i <= n,
                rest@.len() == n,
                forall|j: int| i <= j < n ==> #[trigger] rest@[j] == all[j],
                found is None ==> first_table(all.take(i as int)) is None,
                found is Some ==> first_table(all) == first_table(all.take(i as int)),
                found matches Some(c) ==> match first_table(all) {
                    Some(k) => built_from_table(c, all[k].1->Table_0, all[k].0@),
                    None => false,
                },
            decreases n - i,
        {
            proof {
                assert(all.take(i + 1).drop_last() =~= all.take(i as int));
                assert(all.take(i + 1).last() == all[i as int]);
            }
            if found.is_none() {
                let (dir, section) = take_candidate(&mut rest, i);
                match section {
                    ToolSection::Table(t) => {
                        found = Some(Self::build_from_tool_config(t, dir.as_str()));
                        proof {
                            lemma_first_table_prefix(all, i as int + 1);
                        }
                    },
                    _ => {},
                }
            }
            i = i + 1;
        }
        assert(all.take(n as int) =~= all);
        found
    }

    /// Lays `other` over this configuration: each rule setting, format,
    /// output and configuration directory that `other` sets wins; overrides
    /// and excludes of both are kept, this one's first.
    pub fn merge(self, other: Config) -> (r: Config)
        ensures
            r.rules@ == layered_maps(self.rules@, other.rules@),
            r.format == (if other.format is Some { other.format } else { self.format }),
            r.output == (if other.output is Some { other.output } else { self.output }),
            r.overrides@ == self.overrides@ + other.overrides@,
            r.config_dir == (if other.config_dir is Some { other.config_dir } else { self.config_dir }),
            r.excludes@ == self.excludes@ + other.excludes@,
    {
        let mut s = self;
        let Config { rules, format, output, overrides, config_dir, excludes } = other;
        s.rules.layer(&rules);
        if format.is_some() {
            s.format = format;
        }
        if output.is_some() {
            s.output = output;
        }
        let mut ov = overrides;
        s.overrides.append(&mut ov);
        if config_dir.is_some() {
            s.config_dir = config_dir;
        }
        let mut ex = excludes;
        s.excludes.append(&mut ex);
        s
    }

    /// The configuration found from `start_dir`: the defaults, with the
    /// `pyproject.toml` configuration laid over them and the standalone one
    /// over that; `start_dir` is the configuration directory where neither
    /// gives one.
    pub fn discover(
        start_dir: &str,
        pyproject: Option<Config>,
        standalone: Option<Config>,
    ) -> (r: Config)
        ensures
            r.rules@ == match (pyproject, standalone) {
                (Some(p), Some(s)) => layered_maps(layered_maps(default_rules(), p.rules@), s.rules@),
                (Some(p), None) => layered_maps(default_rules(), p.rules@),
                (None, Some(s)) => layered_maps(default_rules(), s.rules@),
                (None, None) => default_rules(),
            },
            r.format == match (pyproject, standalone) {
                (_, Some(s)) if s.format is Some => s.format,
                (Some(p), _) => p.format,
                _ => None,
            },
            r.output == match (pyproject, standalone) {
                (_, Some(s)) if s.output is Some => s.output,
                (Some(p), _) => p.output,
                _ => None,
            },
            r.overrides@ == overrides_of(pyproject) + overrides_of(standalone),
            r.excludes@ == excludes_of(pyproject) + excludes_of(standalone),
            r.config_dir is Some,
            (match (pyproject, standalone) {
                (_, Some(s)) if s.config_dir is Some => r.config_dir == s.config_dir,
                (Some(p), _) if p.config_dir is Some => r.config_dir == p.config_dir,
                _ => opt_chars(r.config_dir) == Some(start_dir@),
            }),
    {
        let mut config = Config::default();
        match pyproject {
            Some(p) => {
                config = config.merge(p);
            },
            None => {},
        }
        match standalone {
            Some(s) => {
                config = config.merge(s);
            },
            None => {},
        }
        if config.config_dir.is_none() {
            config.config_dir = Some(String::from_str(start_dir));
        }
        config
    }

    /// The rule settings for one file: the global settings with every
    /// override whose pattern matches the file laid over them in order; an
    /// error names the first override pattern that is not a valid glob.
    pub fn effective_rules_for_file(&self, file_path: &str) -> (r: Result<RuleMap, ConfigError>)
        ensures
            match apply_overrides(self.rules@, self.overrides@, self.config_dir, file_path@) {
                Ok(m) => r matches Ok(rm) && rm@ == m,
                Err(p) => r matches Err(ConfigError::InvalidGlobPattern { pattern }) && pattern@ == p,
            },
    {
        let mut effective = self.rules.copy();
        let mut i: usize = 0;
        while i < self.overrides.len()
            invariant
                i <= self.overrides@.len(),
                apply_overrides(self.rules@, self.overrides@.take(i as int), self.config_dir, file_path@)
                    == Ok::<Map<Seq<char>, RuleConfig>, Seq<char>>(effective@),
            decreases self.overrides.len() - i,
        {
            let o = &self.overrides[i];
            proof {
                assert(self.overrides@.take(i + 1).drop_last() =~= self.overrides@.take(i as int));
                assert(self.overrides@.take(i + 1).last() == self.overrides@[i as int]);
            }
            let base: Option<&String> = match &o.base_dir {
                Some(d) => Some(d),
                None => match &self.config_dir {
                    Some(d) => Some(d),
                    None => None,
                },
            };
            let target: String = match base {
                Some(d) => match strip_path_prefix(file_path, d.as_str()) {
                    Some(rest) => rest,
                    None => String::from_str(file_path),
                },
                None => String::from_str(file_path),
            };
            assert(target@ == override_target(*o, self.config_dir, file_path@));
            match glob_matches(o.path.as_str(), target.as_str()) {
                None => {
                    proof {
                        lemma_overrides_error_persists(self.rules@, self.overrides@, self.config_dir, file_path@, i as int + 1);
                    }
                    return Err(ConfigError::InvalidGlobPattern { pattern: o.path.clone() });
                },
                Some(true) => {
                    effective.layer(&o.rules);
                },
                Some(false) => {},
            }
            i = i + 1;
        }
        assert(self.overrides@.take(self.overrides@.len() as int) =~= self.overrides@);
        Ok(effective)
    }

    /// Applies command-line settings: a given format or output replaces the
    /// configured one, and given excludes are added.
    pub fn merge_cli(self, format: Option<String>, output: Option<String>, excludes: Vec<String>) -> (r: Config)
        ensures
            r.rules@ == self.rules@,
            r.format == (if format is Some { format } else { self.format }),
            r.output == (if output is Some { output } else { self.output }),
            r.overrides == self.overrides,
            r.config_dir == self.config_dir,
            r.excludes@ == self.excludes@ + excludes@,
    {
        let mut s = self;
        if format.is_some() {
            s.format = format;
        }
        if output.is_some() {
            s.output = output;
        }
        let mut ex = excludes;
        s.excludes.append(&mut ex);
        s
    }
}

/// Whether a standalone configuration file holds nothing but white space;
/// such a file configures nothing, and the search goes on above it.
pub fn is_blank_config(contents: &str) -> (r: bool)
    ensures
        r == (trim(contents@).len() == 0),
{
    trim_exec(&chars_of(contents)).len() == 0
}

/// The index of the first candidate whose section is a table.
pub open spec fn first_table(cs: Seq<(String, ToolSection)>) -> Option<int>
    decreases cs.len(),
{
    if cs.len() == 0 {
        None
    } else {
        match first_table(cs.drop_last()) {
            Some(i) => Some(i),
            None => if cs.last().1 is Table {
                Some(cs.len() - 1)
            } else {
                None
            },
        }
    }
}

/// Once a prefix holds a table, longer sequences find the same one.
proof fn lemma_first_table_prefix(cs: Seq<(String, ToolSection)>, i: int)
    requires
        0 < i <= cs.len(),
        first_table(cs.take(i)) is Some,
    ensures
        first_table(cs) == first_table(cs.take(i)),
    decreases cs.len() - i,
{
    if i < cs.len() {
        assert(cs.take(i + 1).drop_last() =~= cs.take(i));
        lemma_first_table_prefix(cs, i + 1);
    } else {
        assert(cs.take(i) =~= cs);
    }
}

/// Takes candidate `i` out of `v`, leaving an empty entry in its place.
fn take_candidate(v: &mut Vec<(String, ToolSection)>, i: usize) -> (r: (String, ToolSection))
    requires
        i < old(v)@.len(),
    ensures
        r.0@ == old(v)@[i as int].0@,
        r.1 == old(v)@[i as int].1,
        final(v)@.len() == old(v)@.len(),
        forall|j: int| 0 <= j < old(v)@.len() && j != i ==> #[trigger] final(v)@[j] == old(v)@[j],
{
    let mut slot = (String::new(), ToolSection::Empty);
    std::mem::swap(&mut slot, &mut v[i]);
    slot
}

/// Once an override pattern is invalid, applying more overrides keeps the
/// same error.
proof fn lemma_overrides_error_persists(
    m: Map<Seq<char>, RuleConfig>,
    os: Seq<OverrideConfig>,
    config_dir: Option<String>,
    file: Seq<char>,
    i: int,
)
    requires
        0 < i <= os.len(),
        apply_overrides(m, os.take(i), config_dir, file) is Err,
    ensures
        apply_overrides(m, os, config_dir, file) == apply_overrides(m, os.take(i), config_dir, file),
    decreases os.len() - i,
{
    if i < os.len() {
        assert(os.take(i + 1).drop_last() =~= os.take(i));
        lemma_overrides_error_persists(m, os, config_dir, file, i + 1);
    } else {
        assert(os.take(i) =~= os);
    }
}

impl Default for Config {
    /// The built-in configuration: every default rule with nothing set, no
    /// format, output, overrides, configuration directory or excludes.
    fn default() -> (r: Config)
        ensures
            r.rules@ == default_rules(),
            r.format is None,
            r.output is None,
            r.overrides@.len() == 0,
            r.config_dir is None,
            r.excludes@.len() == 0,
    {
        Config {
            rules: Config::default_rules(),
            format: None,
            output: None,
            overrides: Vec::new(),
            config_dir: None,
            excludes: Vec::new(),
        }
    }
}

} // verus!
