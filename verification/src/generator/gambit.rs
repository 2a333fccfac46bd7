//! The decisions made when mutants are generated with Gambit: which contracts
//! and functions of a target to mutate, which solc binary and which operators
//! to ask for.
use vstd::prelude::*;

use super::{FileTarget, GeneratorConfig, Mutant};
use crate::config::{commands_view, FoundryConfig, TestCommand};
use crate::paths::{path_join, paths_equal, spec_path_eq, spec_path_join};
use crate::text::{
    chars_of, contains_seq, decimal, decimal_chars, has_prefix, push_all, string_of,
};

verus! {

/// The views of a vector of strings.
pub open spec fn names(v: Seq<String>) -> Seq<Seq<char>> {
    v.map_values(|s: String| s@)
}

/// Whether `s` is one of `v`.
pub fn contains_name(v: &[String], s: &str) -> (r: bool)
    ensures
        r == names(v@).contains(s@),
{
    let mut i: usize = 0;
    while i < v.len()
        invariant
            i <= v.len(),
            forall|j: int| 0 <= j < i ==> v@[j]@ != s@,
        decreases v.len() - i,
    {
        if crate::text::str_equal(v[i].as_str(), s) {
            assert(names(v@)[i as int] == s@);
            return true;
        }
        i += 1;
    }
    proof {
        if names(v@).contains(s@) {
            let j = choose|j: int| 0 <= j < names(v@).len() && names(v@)[j] == s@;
            assert(v@[j]@ == s@);
        }
    }
    false
}

/// The mutation generator backed by Gambit.
#[derive(Default)]
pub struct GambitGenerator;

impl GambitGenerator {
    pub fn new() -> Self {
        GambitGenerator
    }
}

/// The pattern that finds function declarations in Solidity source: the word
/// `function`, whitespace, the name (captured), optional whitespace, `(`.
pub open spec fn function_pattern() -> Seq<char> {
    "function\\s+(\\w+)\\s*\\("@
}

/// What `regex::Regex` finds for `pattern` in `text`: the first capture group of
/// each successive non-overlapping match, or the error text when the pattern
/// does not compile.
pub uninterp spec fn spec_regex_first_groups(pattern: Seq<char>, text: Seq<char>) -> Result<
    Seq<Seq<char>>,
    Seq<char>,
>;

/// Compiles `pattern` with `regex::Regex::new` and collects the first capture
/// group of each match of `Regex::captures_iter` over `text`. The contract names
/// the result as a function of the pattern and the text. It is called with the
/// function pattern only, whose first group takes part in every match (indexing
/// a capture that took no part would panic).
#[verifier::external_body]
fn regex_first_groups(pattern: &str, text: &str) -> (r: Result<Vec<String>, String>)
    requires
        pattern@ == function_pattern(),
    ensures
        match r {
            Ok(v) => spec_regex_first_groups(pattern@, text@) == Ok::<
                Seq<Seq<char>>,
                Seq<char>,
            >(names(v@)),
            Err(e) => spec_regex_first_groups(pattern@, text@) == Err::<
                Seq<Seq<char>>,
                Seq<char>,
            >(e@),
        },
{
    match regex::Regex::new(pattern) {
        Ok(re) => Ok(re.captures_iter(text).map(|cap| cap[1].to_string()).collect()),
        Err(e) => Err(e.to_string()),
    }
}

/// The names of the functions declared in Solidity `source`, in order of
/// appearance, found by the pattern `function\s+(\w+)\s*\(`. This may also match
/// inside comments or strings; an extra name is harmless, since Gambit only
/// mutates functions it finds itself.
///
/// The pattern is a fixed, valid one; should it ever fail to compile, no name
/// is returned.
pub fn extract_function_names(source: &str) -> (r: Vec<String>)
    ensures
        spec_regex_first_groups(function_pattern(), source@) matches Ok(ns) ==> names(r@) == ns,
        spec_regex_first_groups(function_pattern(), source@) is Err ==> r@.len() == 0,
{
    match regex_first_groups("function\\s+(\\w+)\\s*\\(", source) {
        Ok(v) => v,
        Err(_) => Vec::new(),
    }
}

/// The functions to restrict mutation of `target` to, given `all` (the functions
/// its file declares): with `exclude_functions`, every declared function not
/// excluded; otherwise the `functions` listed, if any; otherwise none (all
/// functions are mutated).
pub open spec fn selected_functions(t: FileTarget, all: Seq<Seq<char>>) -> Option<Seq<Seq<char>>> {
    if t.exclude_functions@.len() > 0 {
        Some(all.filter(|f: Seq<char>| !names(t.exclude_functions@).contains(f)))
    } else if t.functions@.len() > 0 {
        Some(names(t.functions@))
    } else {
        None
    }
}

/// The excluded names that the file does not declare (each is worth a warning).
pub open spec fn unknown_exclusions(t: FileTarget, all: Seq<Seq<char>>) -> Seq<Seq<char>> {
    names(t.exclude_functions@).filter(|f: Seq<char>| !all.contains(f))
}

/// Which functions of `target` Gambit is asked to mutate, given the functions its
/// file declares, and which excluded names the file does not declare.
pub fn select_functions(target: &FileTarget, all: &Vec<String>) -> (r: (
    Option<Vec<String>>,
    Vec<String>,
))
    ensures
        match r.0 {
            Some(v) => selected_functions(*target, names(all@)) == Some(names(v@)),
            None => selected_functions(*target, names(all@)) is None,
        },
        names(r.1@) == if target.exclude_functions@.len() > 0 {
            unknown_exclusions(*target, names(all@))
        } else {
            Seq::empty()
        },
{
    let ex = &target.exclude_functions;
    if ex.len() > 0 {
        let ghost pa = |f: Seq<char>| !names(ex@).contains(f);
        let mut kept: Vec<String> = Vec::new();
        let mut i: usize = 0;
        while i < all.len()
            invariant
                i <= all.len(),
                ex == &target.exclude_functions,
                pa == (|f: Seq<char>| !names(ex@).contains(f)),
                names(kept@) == names(all@).take(i as int).filter(pa),
            decreases all.len() - i,
        {
            proof {
                reveal_with_fuel(Seq::filter, 1);
                assert(names(all@).take(i + 1).drop_last() == names(all@).take(i as int));
            }
            if !contains_name(ex, all[i].as_str()) {
                kept.push(all[i].clone());
                assert(names(kept@) == names(all@).take(i as int).filter(pa).push(
                    names(all@)[i as int],
                ));
            }
            i += 1;
        }
        assert(names(all@).take(all.len() as int) == names(all@));
        let ghost pu = |f: Seq<char>| !names(all@).contains(f);
        let mut unknown: Vec<String> = Vec::new();
        let mut j: usize = 0;
        while j < ex.len()
            invariant
                j <= ex.len(),
                pu == (|f: Seq<char>| !names(all@).contains(f)),
                names(unknown@) == names(ex@).take(j as int).filter(pu),
            decreases ex.len() - j,
        {
            proof {
                reveal_with_fuel(Seq::filter, 1);
                assert(names(ex@).take(j + 1).drop_last() == names(ex@).take(j as int));
            }
            if !contains_name(all, ex[j].as_str()) {
                unknown.push(ex[j].clone());
                assert(names(unknown@) == names(ex@).take(j as int).filter(pu).push(
                    names(ex@)[j as int],
                ));
            }
            j += 1;
        }
        assert(names(ex@).take(ex.len() as int) == names(ex@));
        (Some(kept), unknown)
    } else if target.functions.len() > 0 {
        (Some(crate::text::clone_strings(&target.functions)), Vec::new())
    } else {
        (None, Vec::new())
    }
}

/// The contracts Gambit is asked to mutate in `target`: each listed one, or,
/// when none is listed, a single unrestricted call (`None`).
pub fn contracts_to_mutate(target: &FileTarget) -> (r: Vec<Option<String>>)
    ensures
        target.contracts@.len() == 0 ==> r@ == seq![None::<String>],
        target.contracts@.len() > 0 ==> r@.len() == target.contracts@.len() && forall|i: int|
            0 <= i < r@.len() ==> r@[i] == Some(target.contracts@[i]),
{
    let mut r: Vec<Option<String>> = Vec::new();
    if target.contracts.len() == 0 {
        r.push(None);
        return r;
    }
    let mut i: usize = 0;
    while i < target.contracts.len()
        invariant
            i <= target.contracts.len(),
            r@.len() == i,
            forall|j: int| 0 <= j < i ==> r@[j] == Some(target.contracts@[j]),
        decreases target.contracts.len() - i,
    {
        r.push(Some(target.contracts[i].clone()));
        i += 1;
    }
    r
}

/// Whether a `solc` setting names a binary (a path, or a name beginning with
/// `solc`) rather than a compiler version.
pub open spec fn is_solc_path(s: Seq<char>) -> bool {
    crate::text::contains(s, "/"@) || crate::text::starts_with(s, "solc"@)
}

/// The solc binary Gambit is given: the `solc` setting of `foundry.toml` when it
/// names a binary, otherwise `solc`. The flag says that a setting was ignored
/// (it looks like a version string), which deserves a warning.
pub fn solc_binary(setting: Option<&String>) -> (r: (String, bool))
    ensures
        match setting {
            Some(s) => if is_solc_path(s@) {
                r.0@ == s@ && !r.1
            } else {
                r.0@ == "solc"@ && r.1
            },
            None => r.0@ == "solc"@ && !r.1,
        },
{
    match setting {
        Some(s) => {
            let v = chars_of(s.as_str());
            let is_path = contains_seq(&v, &chars_of("/")) || has_prefix(&v, &chars_of("solc"));
            if is_path {
                (s.clone(), false)
            } else {
                (String::from_str("solc"), true)
            }
        },
        None => (String::from_str("solc"), false),
    }
}

/// The operators Gambit is asked for: all of them (`None`) when none is named.
pub fn mutation_operators(operators: &Vec<String>) -> (r: Option<Vec<String>>)
    ensures
        operators@.len() == 0 ==> r is None,
        operators@.len() > 0 ==> (r matches Some(v) && v@ == operators@),
{
    if operators.len() == 0 {
        None
    } else {
        Some(crate::text::clone_strings(operators))
    }
}

/// The remappings Gambit is given: none when the list is empty.
pub fn gambit_remappings(remappings: &Vec<String>) -> (r: Option<Vec<String>>)
    ensures
        remappings@.len() == 0 ==> r is None,
        remappings@.len() > 0 ==> (r matches Some(v) && v@ == remappings@),
{
    mutation_operators(remappings)
}

// ---------------------------------------------------------------------------
// The calls to Gambit
// ---------------------------------------------------------------------------

/// One call of Gambit's `mutate`: the parameters the library decides (the others
/// keep Gambit's defaults: no JSON file, every mutant, no random seed, export on).
#[derive(Debug)]
pub struct GambitCall {
    pub filename: String,
    pub outdir: String,
    pub sourceroot: String,
    pub mutations: Option<Vec<String>>,
    pub solc: String,
    pub solc_optimize: bool,
    pub solc_evm_version: Option<String>,
    pub functions: Option<Vec<String>>,
    pub contract: Option<String>,
    pub solc_base_path: String,
    pub solc_remappings: Option<Vec<String>>,
    pub skip_validate: bool,
}

/// The solc binary for the project's settings (see `solc_binary`).
pub open spec fn solc_for(f: Option<FoundryConfig>) -> Seq<char> {
    match f {
        Some(fc) => match fc.solc {
            Some(s) => if is_solc_path(s@) {
                s@
            } else {
                "solc"@
            },
            None => "solc"@,
        },
        None => "solc"@,
    }
}

/// Whether the project's `solc` setting is ignored (it looks like a version).
pub open spec fn solc_ignored(f: Option<FoundryConfig>) -> bool {
    f matches Some(fc) && (fc.solc matches Some(s) && !is_solc_path(s@))
}

/// `c` is the call that mutates `contract` (all contracts when `None`) of
/// `target`, restricted to `functions`, with the settings of `config`.
pub open spec fn call_for(
    config: GeneratorConfig,
    target: FileTarget,
    functions: Option<Vec<String>>,
    contract: Option<String>,
    c: GambitCall,
) -> bool {
    &&& c.filename == target.file
    &&& c.outdir == config.output_dir
    &&& c.sourceroot == config.project_root
    &&& (if config.operators@.len() == 0 {
        c.mutations is None
    } else {
        c.mutations matches Some(v) && v@ == config.operators@
    })
    &&& c.solc@ == solc_for(config.foundry_config)
    &&& c.solc_optimize == (config.foundry_config matches Some(f) && f.optimizer)
    &&& c.solc_evm_version == match config.foundry_config {
        Some(f) => f.evm_version,
        None => None,
    }
    &&& (match functions {
        Some(fs) => c.functions matches Some(v) && v@ == fs@,
        None => c.functions is None,
    })
    &&& c.contract == contract
    &&& c.solc_base_path == config.project_root
    &&& (match config.foundry_config {
        Some(f) => if f.remappings@.len() == 0 {
            c.solc_remappings is None
        } else {
            c.solc_remappings matches Some(v) && v@ == f.remappings@
        },
        None => c.solc_remappings is None,
    })
    &&& c.skip_validate == config.skip_validate
}

fn copy_option_string(o: &Option<String>) -> (r: Option<String>)
    ensures
        r == *o,
{
    match o {
        Some(s) => Some(s.clone()),
        None => None,
    }
}

fn copy_option_strings(o: &Option<Vec<String>>) -> (r: Option<Vec<String>>)
    ensures
        match *o {
            Some(v) => r matches Some(w) && w@ == v@,
            None => r is None,
        },
{
    match o {
        Some(v) => Some(crate::text::clone_strings(v)),
        None => None,
    }
}

/// The Gambit calls for one target: one per contract to mutate (one for all
/// contracts when none is listed), each restricted to `functions` (see
/// `select_functions`). The flag says that the project's `solc` setting was
/// ignored, which each call warns of.
pub fn target_calls(config: &GeneratorConfig, target: &FileTarget, functions: &Option<Vec<String>>) -> (r: (
    Vec<GambitCall>,
    bool,
))
    ensures
        target.contracts@.len() == 0 ==> r.0@.len() == 1 && call_for(
            *config,
            *target,
            *functions,
            None,
            r.0@[0],
        ),
        target.contracts@.len() > 0 ==> r.0@.len() == target.contracts@.len() && forall|i: int|
            0 <= i < r.0@.len() ==> call_for(
                *config,
                *target,
                *functions,
                Some(target.contracts@[i]),
                #[trigger] r.0@[i],
            ),
        r.1 == solc_ignored(config.foundry_config),
{
    let contracts = contracts_to_mutate(target);
    let foundry = &config.foundry_config;
    let (solc, ignored) = match foundry {
        Some(f) => solc_binary(f.solc.as_ref()),
        None => solc_binary(None),
    };
    let mut calls: Vec<GambitCall> = Vec::new();
    let mut i: usize = 0;
    while i < contracts.len()
        invariant
            i <= contracts.len(),
            foundry == &config.foundry_config,
            solc@ == solc_for(config.foundry_config),
            target.contracts@.len() == 0 ==> contracts@ == seq![None::<String>],
            target.contracts@.len() > 0 ==> contracts@.len() == target.contracts@.len() && forall|
                k: int,
            | 0 <= k < contracts@.len() ==> contracts@[k] == Some(target.contracts@[k]),
            calls@.len() == i,
            forall|k: int|
                0 <= k < i ==> call_for(
                    *config,
                    *target,
                    *functions,
                    contracts@[k],
                    #[trigger] calls@[k],
                ),
        decreases contracts.len() - i,
    {
        let (optimize, evm, remappings) = match foundry {
            Some(f) => (f.optimizer, copy_option_string(&f.evm_version), gambit_remappings(&f.remappings)),
            None => (false, None, None),
        };
        calls.push(
            GambitCall {
                filename: target.file.clone(),
                outdir: config.output_dir.clone(),
                sourceroot: config.project_root.clone(),
                mutations: mutation_operators(&config.operators),
                solc: solc.clone(),
                solc_optimize: optimize,
                solc_evm_version: evm,
                functions: copy_option_strings(functions),
                contract: copy_option_string(&contracts[i]),
                solc_base_path: config.project_root.clone(),
                solc_remappings: remappings,
                skip_validate: config.skip_validate,
            },
        );
        i += 1;
    }
    (calls, ignored)
}

/// The contracts that the calls for `t` mutate, one call each: those listed, or
/// all contracts (`None`) when none is.
pub open spec fn contract_slots(t: FileTarget) -> Seq<Option<String>> {
    if t.contracts@.len() == 0 {
        seq![None]
    } else {
        t.contracts@.map_values(|c: String| Some(c))
    }
}

/// The calls planned for the first `n` targets, in order: for each target, one
/// per contract slot, as (target index, contract).
pub open spec fn call_plan(targets: Seq<FileTarget>, n: int) -> Seq<(int, Option<String>)>
    decreases n,
{
    if n <= 0 || n > targets.len() {
        Seq::empty()
    } else {
        call_plan(targets, n - 1) + contract_slots(targets[n - 1]).map_values(
            |c: Option<String>| (n - 1, c),
        )
    }
}

/// Every Gambit call of a run: for each target in order, its calls (see
/// `target_calls`), `selections[t]` being the functions chosen for target `t`
/// (see `select_functions`). The flag says that the project's `solc` setting was
/// ignored.
pub fn plan_calls(config: &GeneratorConfig, selections: &Vec<Option<Vec<String>>>) -> (r: (
    Vec<GambitCall>,
    bool,
))
    requires
        selections@.len() == config.targets@.len(),
    ensures
        r.0@.len() == call_plan(config.targets@, config.targets@.len() as int).len(),
        forall|i: int|
            0 <= i < r.0@.len() ==> call_for(
                *config,
                config.targets@[call_plan(config.targets@, config.targets@.len() as int)[i].0],
                selections@[call_plan(config.targets@, config.targets@.len() as int)[i].0],
                call_plan(config.targets@, config.targets@.len() as int)[i].1,
                #[trigger] r.0@[i],
            ),
        r.1 == solc_ignored(config.foundry_config),
{
    let ghost ts = config.targets@;
    let mut calls: Vec<GambitCall> = Vec::new();
    let mut t: usize = 0;
    while t < config.targets.len()
        invariant
            t <= config.targets.len(),
            ts == config.targets@,
            selections@.len() == ts.len(),
            calls@.len() == call_plan(ts, t as int).len(),
            forall|i: int|
                0 <= i < calls@.len() ==> call_for(
                    *config,
                    ts[call_plan(ts, t as int)[i].0],
                    selections@[call_plan(ts, t as int)[i].0],
                    call_plan(ts, t as int)[i].1,
                    #[trigger] calls@[i],
                ),
        decreases config.targets.len() - t,
    {
        let (mut block, _) = target_calls(config, &config.targets[t], &selections[t]);
        let ghost before = calls@;
        let ghost blk = block@;
        let ghost prev = call_plan(ts, t as int);
        let ghost slots = contract_slots(ts[t as int]).map_values(|c: Option<String>| (t as int, c));
        assert(call_plan(ts, t + 1) == prev + slots);
        assert(blk.len() == slots.len());
        assert forall|k: int| 0 <= k < blk.len() implies call_for(
            *config,
            ts[t as int],
            selections@[t as int],
            slots[k].1,
            #[trigger] blk[k],
        ) by {
            if ts[t as int].contracts@.len() > 0 {
                assert(slots[k].1 == Some(ts[t as int].contracts@[k]));
            }
        }
        calls.append(&mut block);
        proof {
            let plan = call_plan(ts, t + 1);
            assert forall|i: int| 0 <= i < calls@.len() implies call_for(
                *config,
                ts[plan[i].0],
                selections@[plan[i].0],
                plan[i].1,
                #[trigger] calls@[i],
            ) by {
                if i < before.len() {
                    assert(plan[i] == prev[i]);
                    assert(calls@[i] == before[i]);
                } else {
                    let k = i - before.len();
                    assert(plan[i] == slots[k]);
                    assert(calls@[i] == blk[k]);
                }
            }
        }
        t += 1;
    }
    let (_, ignored) = match &config.foundry_config {
        Some(f) => solc_binary(f.solc.as_ref()),
        None => solc_binary(None),
    };
    (calls, ignored)
}

/// `names` joined with `sep` (`[String]::join`).
pub open spec fn joined(names: Seq<Seq<char>>, sep: Seq<char>) -> Seq<char>
    decreases names.len(),
{
    if names.len() == 0 {
        Seq::empty()
    } else if names.len() == 1 {
        names[0]
    } else {
        joined(names.drop_last(), sep) + sep + names.last()
    }
}

fn join_names(v: &Vec<String>, sep: &str) -> (r: Vec<char>)
    ensures
        r@ == joined(names(v@), sep@),
{
    let mut r: Vec<char> = Vec::new();
    let mut i: usize = 0;
    while i < v.len()
        invariant
            i <= v.len(),
            r@ == joined(names(v@).take(i as int), sep@),
        decreases v.len() - i,
    {
        let ghost t = names(v@).take(i + 1);
        assert(t.drop_last() == names(v@).take(i as int));
        assert(t.last() == v@[i as int]@);
        if i > 0 {
            push_all(&mut r, &chars_of(sep));
        } else {
            assert(t.len() == 1);
        }
        push_all(&mut r, &chars_of(v[i].as_str()));
        i += 1;
    }
    assert(names(v@).take(v.len() as int) == names(v@));
    r
}

/// The line that announces the `i`-th Gambit call (from 0): its file, its contract
/// (`*` for all) and its functions (`*` for all).
pub fn gambit_call_line(i: usize, c: &GambitCall) -> (r: String)
    requires
        i < usize::MAX,
    ensures
        r@ == "  gambit call "@ + decimal((i + 1) as nat) + ": file="@ + c.filename@
            + ", contract="@ + match c.contract {
            Some(k) => k@,
            None => "*"@,
        } + ", functions=["@ + match c.functions {
            Some(fs) => joined(names(fs@), ", "@),
            None => "*"@,
        } + "]"@,
{
    let mut v = chars_of("  gambit call ");
    push_all(&mut v, &decimal_chars((i + 1) as u64));
    push_all(&mut v, &chars_of(": file="));
    push_all(&mut v, &chars_of(c.filename.as_str()));
    push_all(&mut v, &chars_of(", contract="));
    match &c.contract {
        Some(k) => push_all(&mut v, &chars_of(k.as_str())),
        None => push_all(&mut v, &chars_of("*")),
    }
    push_all(&mut v, &chars_of(", functions=["));
    match &c.functions {
        Some(fs) => push_all(&mut v, &join_names(fs, ", ")),
        None => push_all(&mut v, &chars_of("*")),
    }
    push_all(&mut v, &chars_of("]"));
    string_of(&v)
}

// ---------------------------------------------------------------------------
// Gambit's mutants
// ---------------------------------------------------------------------------

/// What Gambit reports of one mutant, as plain values: its source file as given
/// and relative to the source root, the same file resolved to its canonical path
/// (the key its target's tests are found by), the 1-based line, the operator's
/// name, and the original and replacement text.
#[derive(Debug)]
pub struct FoundMutant {
    pub source_path: String,
    pub relative_path: String,
    pub key: String,
    pub line: u32,
    pub operator: String,
    pub original: String,
    pub replacement: String,
}

/// The tests for the file `key` in a table of (file, tests) built in target
/// order: the last entry for the same path wins, as in a map; none when absent.
pub open spec fn tests_for(table: Seq<(String, Vec<TestCommand>)>, key: Seq<char>) -> Seq<TestCommand>
    decreases table.len(),
{
    if table.len() == 0 {
        Seq::empty()
    } else if spec_path_eq(table.last().0@, key) {
        table.last().1@
    } else {
        tests_for(table.drop_last(), key)
    }
}

/// With one entry of the table for the file `key`, its tests are that entry's;
/// with none, there are no tests.
pub proof fn law_tests_for_single_entry(table: Seq<(String, Vec<TestCommand>)>, key: Seq<char>)
    ensures
        forall|k: int|
            0 <= k < table.len() && spec_path_eq(#[trigger] table[k].0@, key) && (forall|j: int|
                0 <= j < table.len() && j != k ==> !spec_path_eq(table[j].0@, key)) ==> tests_for(
                table,
                key,
            ) == table[k].1@,
        (forall|j: int| 0 <= j < table.len() ==> !spec_path_eq(#[trigger] table[j].0@, key))
            ==> tests_for(table, key) == Seq::<TestCommand>::empty(),
    decreases table.len(),
{
    if table.len() > 0 {
        let rest = table.drop_last();
        law_tests_for_single_entry(rest, key);
        assert forall|k: int|
            0 <= k < table.len() && spec_path_eq(#[trigger] table[k].0@, key) && (forall|j: int|
                0 <= j < table.len() && j != k ==> !spec_path_eq(table[j].0@, key)) implies tests_for(
                table,
                key,
            ) == table[k].1@ by {
            let last = table.len() - 1;
            if k < last {
                assert(!spec_path_eq(table[last].0@, key));
                assert(rest[k] == table[k]);
                assert forall|j: int| 0 <= j < rest.len() && j != k implies !spec_path_eq(
                    rest[j].0@,
                    key,
                ) by {
                    assert(rest[j] == table[j]);
                }
            }
        }
        if forall|j: int| 0 <= j < table.len() ==> !spec_path_eq(#[trigger] table[j].0@, key) {
            assert(!spec_path_eq(table[table.len() - 1].0@, key));
            assert forall|j: int| 0 <= j < rest.len() implies !spec_path_eq(
                #[trigger] rest[j].0@,
                key,
            ) by {
                assert(rest[j] == table[j]);
            }
        }
    }
}

/// A copy of a test command.
pub fn copy_command(c: &TestCommand) -> (r: TestCommand)
    ensures
        r@ == c@,
{
    match c {
        TestCommand::Foundry { args } => TestCommand::Foundry { args: crate::text::clone_strings(args) },
        TestCommand::Custom { command, symlinks } => TestCommand::Custom {
            command: crate::text::clone_strings(command),
            symlinks: crate::text::clone_strings(symlinks),
        },
    }
}

/// A copy of a list of test commands.
pub fn copy_commands(v: &Vec<TestCommand>) -> (r: Vec<TestCommand>)
    ensures
        commands_view(r@) == commands_view(v@),
{
    let mut r: Vec<TestCommand> = Vec::new();
    let mut i: usize = 0;
    while i < v.len()
        invariant
            i <= v.len(),
            commands_view(r@) == commands_view(v@.take(i as int)),
        decreases v.len() - i,
    {
        let ghost before = r@;
        r.push(copy_command(&v[i]));
        assert(v@.take(i + 1) == v@.take(i as int).push(v@[i as int]));
        assert(commands_view(r@) =~= commands_view(before).push(v@[i as int]@));
        assert(commands_view(v@.take(i + 1)) =~= commands_view(v@.take(i as int)).push(v@[i as int]@));
        i += 1;
    }
    assert(v@.take(v.len() as int) == v@);
    r
}

fn lookup_tests(table: &Vec<(String, Vec<TestCommand>)>, key: &str) -> (r: Vec<TestCommand>)
    ensures
        commands_view(r@) == commands_view(tests_for(table@, key@)),
{
    let mut i: usize = table.len();
    assert(table@.take(i as int) == table@);
    while i > 0
        invariant
            i <= table.len(),
            tests_for(table@, key@) == tests_for(table@.take(i as int), key@),
        decreases i,
    {
        assert(table@.take(i as int).drop_last() == table@.take(i - 1));
        assert(table@.take(i as int).last() == table@[i - 1]);
        if paths_equal(table[i - 1].0.as_str(), key) {
            return copy_commands(&table[i - 1].1);
        }
        i -= 1;
    }
    assert(commands_view(Seq::<TestCommand>::empty()) =~= commands_view(tests_for(table@, key@)));
    Vec::new()
}

/// Where the file of the mutant numbered `id` is written: under `output_dir`, in
/// `mutants/<id>/`, at the source file's relative path.
pub open spec fn mutant_file(output_dir: Seq<char>, id: u32, relative: Seq<char>) -> Seq<char> {
    spec_path_join(spec_path_join(spec_path_join(output_dir, "mutants"@), decimal(id as nat)), relative)
}

/// `m` is the mutant numbered `id` made from what Gambit reported in `f`.
pub open spec fn numbered(
    f: FoundMutant,
    id: u32,
    output_dir: Seq<char>,
    table: Seq<(String, Vec<TestCommand>)>,
    m: Mutant,
) -> bool {
    &&& m.id == id
    &&& m.source_path == f.source_path
    &&& m.relative_source_path == f.relative_path
    &&& m.mutant_path@ == mutant_file(output_dir, id, f.relative_path@)
    &&& m.operator == f.operator
    &&& m.original == f.original
    &&& m.replacement == f.replacement
    &&& m.line == f.line
    &&& commands_view(m.test_commands@) == commands_view(tests_for(table, f.key@))
}

/// The mutants Gambit found, numbered from 1 in the order reported, each with its
/// file's place under `output_dir` and the tests of its target (looked up in
/// `table`, by canonical path).
pub fn number_mutants(
    found: Vec<FoundMutant>,
    output_dir: &str,
    table: &Vec<(String, Vec<TestCommand>)>,
) -> (r: Vec<Mutant>)
    requires
        found@.len() < u32::MAX,
    ensures
        r@.len() == found@.len(),
        forall|i: int|
            0 <= i < found@.len() ==> numbered(
                found@[i],
                (i + 1) as u32,
                output_dir@,
                table@,
                #[trigger] r@[i],
            ),
{
    let ghost orig = found@;
    let mut pending = found;
    let mut r: Vec<Mutant> = Vec::new();
    let mut id: u32 = 1;
    while pending.len() > 0
        invariant
            id as int - 1 + pending@.len() == orig.len(),
            orig.len() < u32::MAX,
            1 <= id,
            pending@ == orig.skip(id - 1),
            r@.len() == id - 1,
            forall|k: int|
                0 <= k < id - 1 ==> numbered(orig[k], (k + 1) as u32, output_dir@, table@, #[trigger] r@[k]),
        decreases pending.len(),
    {
        let ghost before = pending@;
        let f = pending.remove(0);
        assert(before[0] == orig[id - 1]);
        assert(pending@ =~= orig.skip(id as int));
        let dir = path_join(output_dir, "mutants");
        let num = string_of(&decimal_chars(id as u64));
        let dir = path_join(dir.as_str(), num.as_str());
        let path = path_join(dir.as_str(), f.relative_path.as_str());
        let tests = lookup_tests(table, f.key.as_str());
        r.push(
            Mutant {
                id,
                source_path: f.source_path,
                relative_source_path: f.relative_path,
                mutant_path: path,
                operator: f.operator,
                original: f.original,
                replacement: f.replacement,
                line: f.line,
                test_commands: tests,
            },
        );
        id += 1;
    }
    r
}

} // verus!
