//! Project configuration: the settings read from `foundry.toml` and the mutation
//! targets of `dregs.toml`, with the checks a `dregs.toml` must pass.
use vstd::prelude::*;

use crate::external::{io_error_text, toml_error_text};
use crate::text::{
    chars_of, decimal, decimal_chars, lines, push_all, split_lines, str_views, string_of, views,
};

verus! {

/// How the tests that may kill a mutant are run.
#[derive(Debug, Clone, PartialEq)]
pub enum TestCommand {
    /// `forge test` with these extra arguments.
    Foundry { args: Vec<String> },
    /// An arbitrary command (program and arguments) run in the project copy;
    /// `symlinks` names top-level directories linked into the copy instead of copied.
    Custom { command: Vec<String>, symlinks: Vec<String> },
}

impl View for TestCommand {
    /// Whether it runs `forge test`; its arguments (or its program and
    /// arguments); the directories it symlinks.
    type V = (bool, Seq<Seq<char>>, Seq<Seq<char>>);

    open spec fn view(&self) -> Self::V {
        match self {
            TestCommand::Foundry { args } => (true, str_views(args@), Seq::empty()),
            TestCommand::Custom { command, symlinks } => (
                false,
                str_views(command@),
                str_views(symlinks@),
            ),
        }
    }
}

/// The views of a sequence of test commands.
pub open spec fn commands_view(cs: Seq<TestCommand>) -> Seq<(bool, Seq<Seq<char>>, Seq<Seq<char>>)> {
    cs.map_values(|c: TestCommand| c@)
}

/// Errors in reading the project's configuration files.
#[derive(Debug)]
pub enum ConfigError {
    Read(std::io::Error),
    Parse(toml::de::Error),
    DregsConfig(String),
}

impl ConfigError {
    /// The error's message.
    pub fn to_string(&self) -> (r: String)
        ensures
            self matches ConfigError::DregsConfig(m) ==> r@ == "invalid dregs.toml: "@ + m@,
            self matches ConfigError::Read(_) ==> crate::text::starts_with(
                r@,
                "failed to read foundry.toml: "@,
            ),
            self matches ConfigError::Parse(_) ==> crate::text::starts_with(
                r@,
                "failed to parse foundry.toml: "@,
            ),
    {
        match self {
            ConfigError::Read(e) => {
                let mut v = chars_of("failed to read foundry.toml: ");
                let ghost head = v@;
                let t = io_error_text(e);
                push_all(&mut v, &chars_of(t.as_str()));
                assert(v@.take(head.len() as int) == head);
                string_of(&v)
            },
            ConfigError::Parse(e) => {
                let mut v = chars_of("failed to parse foundry.toml: ");
                let ghost head = v@;
                let t = toml_error_text(e);
                push_all(&mut v, &chars_of(t.as_str()));
                assert(v@.take(head.len() as int) == head);
                string_of(&v)
            },
            ConfigError::DregsConfig(m) => {
                let mut v = chars_of("invalid dregs.toml: ");
                push_all(&mut v, &chars_of(m.as_str()));
                string_of(&v)
            },
        }
    }
}

/// The compiler settings of a Foundry project that mutant generation uses.
#[derive(Debug, Clone)]
pub struct FoundryConfig {
    pub solc: Option<String>,
    pub optimizer: bool,
    pub evm_version: Option<String>,
    pub via_ir: bool,
    pub remappings: Vec<String>,
}

impl Default for FoundryConfig {
    fn default() -> (r: Self)
        ensures
            r.solc is None,
            !r.optimizer,
            r.evm_version is None,
            !r.via_ir,
            r.remappings@.len() == 0,
    {
        FoundryConfig {
            solc: None,
            optimizer: false,
            evm_version: None,
            via_ir: false,
            remappings: Vec::new(),
        }
    }
}

/// One `[profile.<name>]` table of `foundry.toml`, each key optional.
#[derive(Debug, Clone)]
pub struct ProfileConfig {
    pub solc: Option<String>,
    pub optimizer: Option<bool>,
    pub evm_version: Option<String>,
    pub via_ir: Option<bool>,
    pub remappings: Option<Vec<String>>,
}

impl Default for ProfileConfig {
    fn default() -> (r: Self)
        ensures
            r.solc is None,
            r.optimizer is None,
            r.evm_version is None,
            r.via_ir is None,
            r.remappings is None,
    {
        ProfileConfig {
            solc: None,
            optimizer: None,
            evm_version: None,
            via_ir: None,
            remappings: None,
        }
    }
}

/// A profile table with no keys.
pub open spec fn empty_profile() -> ProfileConfig {
    ProfileConfig {
        solc: None,
        optimizer: None,
        evm_version: None,
        via_ir: None,
        remappings: None,
    }
}

/// Index of the first profile named `default`, or -1.
pub open spec fn default_profile_index(ps: Seq<(String, ProfileConfig)>, i: int) -> int
    decreases ps.len() - i,
{
    if i < 0 || i >= ps.len() {
        -1
    } else if ps[i].0@ == "default"@ {
        i
    } else {
        default_profile_index(ps, i + 1)
    }
}

/// The settings a profile gives: its values, with `false` for an absent
/// `optimizer` or `via_ir` and no remappings for absent `remappings`.
pub open spec fn settings_of(p: ProfileConfig, r: FoundryConfig) -> bool {
    &&& r.solc == p.solc
    &&& r.optimizer == (p.optimizer == Some(true))
    &&& r.evm_version == p.evm_version
    &&& r.via_ir == (p.via_ir == Some(true))
    &&& r.remappings@ == (match p.remappings {
        Some(v) => v@,
        None => Seq::empty(),
    })
}

/// The settings of a profile (`unwrap_or` defaults for the absent keys).
pub fn foundry_config_from_profile(p: ProfileConfig) -> (r: FoundryConfig)
    ensures
        settings_of(p, r),
{
    let optimizer = match p.optimizer {
        Some(b) => b,
        None => false,
    };
    let via_ir = match p.via_ir {
        Some(b) => b,
        None => false,
    };
    let remappings = match p.remappings {
        Some(v) => v,
        None => Vec::new(),
    };
    FoundryConfig {
        solc: p.solc,
        optimizer,
        evm_version: p.evm_version,
        via_ir,
        remappings,
    }
}

/// The settings of a parsed `foundry.toml`, given its profile tables (`None` when
/// the file has no `profile` table): those of the profile named `default`, or,
/// when there is none, those of an empty profile.
pub fn foundry_config_from_profiles(profiles: Option<Vec<(String, ProfileConfig)>>) -> (r:
    FoundryConfig)
    ensures
        match profiles {
            Some(ps) => {
                let k = default_profile_index(ps@, 0);
                if k >= 0 {
                    settings_of(ps@[k].1, r)
                } else {
                    settings_of(empty_profile(), r)
                }
            },
            None => settings_of(empty_profile(), r),
        },
{
    let name = chars_of("default");
    match profiles {
        None => foundry_config_from_profile(ProfileConfig::default()),
        Some(ps) => {
            let ghost old_ps = ps;
            let ghost all = ps@;
            let mut ps = ps;
            let mut i: usize = 0;
            while i < ps.len()
                invariant
                    i <= ps.len(),
                    ps@ == all,
                    profiles == Some(old_ps),
                    old_ps@ == all,
                    name@ == "default"@,
                    default_profile_index(all, 0) == default_profile_index(all, i as int),
                decreases ps.len() - i,
            {
                let is_default = {
                    let k = chars_of(ps[i].0.as_str());
                    crate::text::matches_at(&k, &name, 0) && k.len() == name.len()
                };
                proof {
                    let k = ps@[i as int].0@;
                    if is_default {
                        assert(k.subrange(0, name@.len() as int) == k);
                        assert(k == name@);
                        assert(default_profile_index(all, i as int) == i);
                    } else if k == name@ {
                        assert(k.subrange(0, name@.len() as int) == k);
                    }
                }
                if is_default {
                    let p = ps.swap_remove(i);
                    assert(p == all[i as int]);
                    assert(default_profile_index(all, 0) == i as int);
                    return foundry_config_from_profile(p.1);
                }
                i += 1;
            }
            foundry_config_from_profile(ProfileConfig::default())
        },
    }
}

/// A `[[target]]` table of `dregs.toml`.
#[derive(Debug, Clone)]
pub struct TargetConfig {
    pub files: Vec<String>,
    pub contracts: Option<Vec<String>>,
    pub functions: Option<Vec<String>>,
    pub exclude_functions: Option<Vec<String>>,
    pub forge_args: Option<Vec<String>>,
}

/// The contents of `dregs.toml`.
#[derive(Debug, Clone)]
pub struct DregsConfig {
    pub targets: Vec<TargetConfig>,
}

/// The message for a target (at 0-based position `i`) that breaks a rule, if it does.
pub open spec fn target_problem(t: TargetConfig, i: int) -> Option<Seq<char>> {
    if t.files@.len() == 0 {
        Some("target "@ + decimal((i + 1) as nat) + " has no files"@)
    } else if t.functions is Some && t.exclude_functions is Some {
        Some("target "@ + decimal((i + 1) as nat) + " sets both functions and exclude_functions"@)
    } else {
        None
    }
}

/// The message for the first target from position `i` on that breaks a rule.
pub open spec fn first_target_problem(ts: Seq<TargetConfig>, i: int) -> Option<Seq<char>>
    decreases ts.len() - i,
{
    if i < 0 || i >= ts.len() {
        None
    } else if target_problem(ts[i], i) is Some {
        target_problem(ts[i], i)
    } else {
        first_target_problem(ts, i + 1)
    }
}

/// Why a parsed `dregs.toml` is refused, if it is: it defines no target, or a
/// target lists no files, or sets both `functions` and `exclude_functions`.
pub open spec fn dregs_config_problem(c: DregsConfig) -> Option<Seq<char>> {
    if c.targets@.len() == 0 {
        Some("no targets defined"@)
    } else {
        first_target_problem(c.targets@, 0)
    }
}

fn target_problem_message(i: usize, tail: &str) -> (r: String)
    requires
        i < usize::MAX,
    ensures
        r@ == "target "@ + decimal((i + 1) as nat) + tail@,
{
    let mut v = chars_of("target ");
    let n = decimal_chars((i + 1) as u64);
    push_all(&mut v, &n);
    push_all(&mut v, &chars_of(tail));
    string_of(&v)
}

/// Checks a parsed `dregs.toml`, handing it back when it passes.
pub fn validate_dregs_config(config: DregsConfig) -> (r: Result<DregsConfig, ConfigError>)
    ensures
        match dregs_config_problem(config) {
            None => r == Ok::<DregsConfig, ConfigError>(config),
            Some(m) => r matches Err(ConfigError::DregsConfig(s)) && s@ == m,
        },
{
    if config.targets.len() == 0 {
        let m = String::from_str("no targets defined");
        return Err(ConfigError::DregsConfig(m));
    }
    let mut i: usize = 0;
    while i < config.targets.len()
        invariant
            i <= config.targets.len(),
            first_target_problem(config.targets@, 0) == first_target_problem(
                config.targets@,
                i as int,
            ),
        decreases config.targets.len() - i,
    {
        let t = &config.targets[i];
        if t.files.len() == 0 {
            let m = target_problem_message(i, " has no files");
            return Err(ConfigError::DregsConfig(m));
        }
        if t.functions.is_some() && t.exclude_functions.is_some() {
            let m = target_problem_message(i, " sets both functions and exclude_functions");
            return Err(ConfigError::DregsConfig(m));
        }
        i += 1;
    }
    Ok(config)
}

/// The message when an explicitly named configuration file does not exist.
pub fn config_not_found(path: &str) -> (r: ConfigError)
    ensures
        r matches ConfigError::DregsConfig(m) && m@ == "config file not found: "@ + path@,
{
    let mut v = chars_of("config file not found: ");
    push_all(&mut v, &chars_of(path));
    ConfigError::DregsConfig(string_of(&v))
}

/// The lines of `forge remappings` output that are not empty.
pub open spec fn nonempty_lines(s: Seq<char>) -> Seq<Seq<char>> {
    lines(s).filter(|l: Seq<char>| l.len() > 0)
}

/// The remappings printed by a successful `forge remappings`: its non-empty lines.
pub fn remappings_from_output(stdout: &str) -> (r: Vec<String>)
    ensures
        r@.map_values(|s: String| s@) == nonempty_lines(stdout@),
{
    let ls = split_lines(&chars_of(stdout));
    let ghost all = lines(stdout@);
    let ghost pred = |l: Seq<char>| l.len() > 0;
    let mut r: Vec<String> = Vec::new();
    let mut i: usize = 0;
    while i < ls.len()
        invariant
            i <= ls.len(),
            views(ls@) == all,
            pred == (|l: Seq<char>| l.len() > 0),
            r@.map_values(|s: String| s@) == all.take(i as int).filter(pred),
        decreases ls.len() - i,
    {
        proof {
            reveal_with_fuel(Seq::filter, 1);
            assert(all.take(i + 1).drop_last() == all.take(i as int));
            assert(all[i as int] == ls@[i as int]@);
        }
        if ls[i].len() > 0 {
            let s = string_of(&ls[i]);
            r.push(s);
            proof {
                assert(r@.map_values(|s: String| s@) == all.take(i as int).filter(pred).push(
                    all[i as int],
                ));
            }
        }
        i += 1;
    }
    assert(all.take(ls.len() as int) == all);
    r
}

} // verus!
