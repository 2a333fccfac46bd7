//! The decisions of the `dregs` commands: reading the worker count, turning files
//! and `dregs.toml` targets into mutation targets, the diff filters and what they
//! report, the baseline test runs, and the messages that end a run early.
use vstd::prelude::*;

use crate::config::{DregsConfig, TargetConfig, TestCommand};
use crate::diff::{filter_mutants, filter_targets_by_diff, mutant_in_diff, target_in_diff, DiffRange};
use crate::generator::{FileTarget, Mutant};
use crate::paths::{paths_equal, spec_path_eq};
use crate::runner::TestResult;
use crate::text::{
    chars_of, decimal, decimal_chars, parse_unsigned, parse_unsigned_chars, push_all, str_views,
    string_of, IntErrorKind,
};

verus! {

// ---------------------------------------------------------------------------
// Workers
// ---------------------------------------------------------------------------

/// The message of `core::num::ParseIntError` for each way an unsigned parse fails.
pub open spec fn int_error_message(k: IntErrorKind) -> Seq<char> {
    match k {
        IntErrorKind::Empty => "cannot parse integer from empty string"@,
        IntErrorKind::InvalidDigit => "invalid digit found in string"@,
        IntErrorKind::PosOverflow => "number too large to fit in target type"@,
    }
}

/// Reads the `--workers` value: a `usize` of at least 1.
pub fn parse_workers(s: &str) -> (r: Result<usize, String>)
    ensures
        match parse_unsigned(s@, usize::MAX as int) {
            Err(k) => r matches Err(m) && m@ == int_error_message(k),
            Ok(n) => if n == 0 {
                r matches Err(m) && m@ == "workers must be at least 1"@
            } else {
                r == Ok::<usize, String>(n as usize)
            },
        },
{
    match parse_unsigned_chars(&chars_of(s), usize::MAX as u64) {
        Err(k) => {
            let m = match k {
                IntErrorKind::Empty => chars_of("cannot parse integer from empty string"),
                IntErrorKind::InvalidDigit => chars_of("invalid digit found in string"),
                IntErrorKind::PosOverflow => chars_of("number too large to fit in target type"),
            };
            Err(string_of(&m))
        },
        Ok(n) => {
            if n == 0 {
                Err(string_of(&chars_of("workers must be at least 1")))
            } else {
                Ok(n as usize)
            }
        },
    }
}

// ---------------------------------------------------------------------------
// Targets
// ---------------------------------------------------------------------------

/// `cmds` runs `forge test` with the extra arguments `args`: no command (the
/// default run) when there are none, otherwise one `forge test` with them.
pub open spec fn runs_forge_with(cmds: Seq<TestCommand>, args: Seq<String>) -> bool {
    if args.len() == 0 {
        cmds.len() == 0
    } else {
        cmds.len() == 1 && (cmds[0] matches TestCommand::Foundry { args: a } && a@ == args)
    }
}

/// The list an optional list stands for: itself, or empty.
pub open spec fn or_empty(o: Option<Vec<String>>) -> Seq<String> {
    match o {
        Some(v) => v@,
        None => Seq::empty(),
    }
}

fn copy_strings(v: &[String]) -> (r: Vec<String>)
    ensures
        r@ == v@,
{
    let mut r: Vec<String> = Vec::new();
    let mut i: usize = 0;
    while i < v.len()
        invariant
            i <= v.len(),
            r@ == v@.take(i as int),
        decreases v.len() - i,
    {
        r.push(v[i].clone());
        assert(v@.take(i + 1) == v@.take(i as int).push(v@[i as int]));
        i += 1;
    }
    assert(v@.take(v.len() as int) == v@);
    r
}

fn copy_optional(o: &Option<Vec<String>>) -> (r: Vec<String>)
    ensures
        r@ == or_empty(*o),
{
    match o {
        Some(v) => copy_strings(v.as_slice()),
        None => Vec::new(),
    }
}

/// The test commands for `forge test` with the extra arguments `args`.
pub fn forge_commands(args: &[String]) -> (r: Vec<TestCommand>)
    ensures
        runs_forge_with(r@, args@),
{
    let mut r: Vec<TestCommand> = Vec::new();
    if args.len() > 0 {
        r.push(TestCommand::Foundry { args: copy_strings(args) });
    }
    r
}

/// `t` is a whole-file target for `file`, judged by `forge test` with `args`.
pub open spec fn plain_target(t: FileTarget, file: String, args: Seq<String>) -> bool {
    &&& t.file == file
    &&& t.contracts@.len() == 0
    &&& t.functions@.len() == 0
    &&& t.exclude_functions@.len() == 0
    &&& runs_forge_with(t.test_commands@, args)
}

/// Targets for whole files, each judged by `forge test` with the extra arguments
/// `forge_args`.
pub fn paths_to_targets(files: Vec<String>, forge_args: &[String]) -> (r: Vec<FileTarget>)
    ensures
        r@.len() == files@.len(),
        forall|i: int| 0 <= i < files@.len() ==> plain_target(#[trigger] r@[i], files@[i], forge_args@),
{
    let ghost orig = files@;
    assert(orig.len() == files.len());
    let mut pending = files;
    let mut r: Vec<FileTarget> = Vec::new();
    let mut i: usize = 0;
    while pending.len() > 0
        invariant
            i + pending@.len() == orig.len(),
            orig.len() <= usize::MAX,
            pending@ == orig.skip(i as int),
            r@.len() == i,
            forall|k: int| 0 <= k < i ==> plain_target(#[trigger] r@[k], orig[k], forge_args@),
        decreases pending.len(),
    {
        let ghost before = pending@;
        let file = pending.remove(0);
        assert(before[0] == orig[i as int]);
        assert(pending@ =~= orig.skip(i + 1));
        r.push(
            FileTarget {
                file,
                contracts: Vec::new(),
                functions: Vec::new(),
                exclude_functions: Vec::new(),
                test_commands: forge_commands(forge_args),
            },
        );
        i += 1;
    }
    r
}

/// The message when `dregs.toml` defines the targets and the command line names
/// files or forge arguments too.
pub open spec fn target_conflict_message() -> Seq<char> {
    "dregs.toml defines targets; do not pass files or -- forge_args on the command line"@
}

/// With `dregs.toml` defining the targets, the command line may name neither
/// files nor forge arguments.
pub fn check_config_exclusive(cli_files: &[String], forge_args: &[String]) -> (r: Result<(), String>)
    ensures
        r is Ok <==> cli_files@.len() == 0 && forge_args@.len() == 0,
        r matches Err(m) ==> m@ == target_conflict_message(),
{
    if cli_files.len() > 0 || forge_args.len() > 0 {
        Err(
            string_of(
                &chars_of(
                    "dregs.toml defines targets; do not pass files or -- forge_args on the command line",
                ),
            ),
        )
    } else {
        Ok(())
    }
}

/// `t` is the target for `file` of the `dregs.toml` target `tc`.
pub open spec fn config_target(tc: TargetConfig, file: String, t: FileTarget) -> bool {
    &&& t.file == file
    &&& t.contracts@ == or_empty(tc.contracts)
    &&& t.functions@ == or_empty(tc.functions)
    &&& t.exclude_functions@ == or_empty(tc.exclude_functions)
    &&& runs_forge_with(t.test_commands@, or_empty(tc.forge_args))
}

/// A target built from a `dregs.toml` target is for the given file and carries
/// that target's contracts, functions and excluded functions, each empty when
/// the target leaves it out.
pub proof fn law_config_target_carries_selection(tc: TargetConfig, file: String, t: FileTarget)
    requires
        config_target(tc, file, t),
    ensures
        t.file == file,
        tc.functions matches Some(fs) ==> t.functions@ == fs@,
        tc.functions is None ==> t.functions@.len() == 0,
        tc.contracts matches Some(cs) ==> t.contracts@ == cs@,
        tc.contracts is None ==> t.contracts@.len() == 0,
        tc.exclude_functions matches Some(xs) ==> t.exclude_functions@ == xs@,
        tc.exclude_functions is None ==> t.exclude_functions@.len() == 0,
{
}

/// Every file matched for a `dregs.toml` target gets a place in the expansion,
/// tagged with that target: `(i, matched[i][j])` is among its entries.
pub proof fn law_expansion_covers_every_match(matched: Seq<Vec<String>>, i: int, j: int)
    requires
        0 <= i < matched.len(),
        0 <= j < matched[i]@.len(),
    ensures
        exists|k: int|
            0 <= k < expansion(matched).len() && #[trigger] expansion(matched)[k] == (i, matched[i]@[j]),
    decreases matched.len(),
{
    let last = matched.len() - 1;
    let pre = expansion(matched.drop_last());
    let tail = matched.last()@.map_values(|f: String| (last, f));
    assert(expansion(matched) == pre + tail);
    if i < last {
        law_expansion_covers_every_match(matched.drop_last(), i, j);
        assert(matched.drop_last()[i] == matched[i]);
        let k = choose|k: int|
            0 <= k < pre.len() && #[trigger] pre[k] == (i, matched.drop_last()[i]@[j]);
        assert(expansion(matched)[k] == pre[k]);
    } else {
        assert(expansion(matched)[pre.len() + j] == tail[j]);
    }
}

/// The files matched for each `dregs.toml` target, flattened: (target index, file)
/// for each file of each target, in order.
pub open spec fn expansion(matched: Seq<Vec<String>>) -> Seq<(int, String)>
    decreases matched.len(),
{
    if matched.len() == 0 {
        Seq::empty()
    } else {
        let last = matched.len() - 1;
        expansion(matched.drop_last()) + matched.last()@.map_values(|f: String| (last, f))
    }
}

/// The targets that `dregs.toml` defines, given the files its targets' patterns
/// matched (`matched[i]` for the `i`-th target): one per matched file, in order,
/// carrying its target's contracts, functions, excluded functions and forge
/// arguments. None at all is an error.
pub fn targets_from_config(config: &DregsConfig, matched: Vec<Vec<String>>) -> (r: Result<
    Vec<FileTarget>,
    String,
>)
    requires
        matched@.len() == config.targets@.len(),
    ensures
        expansion(matched@).len() == 0 ==> (r matches Err(m) && m@
            == "dregs.toml targets matched no files"@),
        expansion(matched@).len() > 0 ==> (r matches Ok(v) && v@.len() == expansion(matched@).len()
            && forall|k: int|
            0 <= k < v@.len() ==> config_target(
                config.targets@[expansion(matched@)[k].0],
                expansion(matched@)[k].1,
                #[trigger] v@[k],
            )),
        r matches Ok(v) ==> forall|k: int|
            0 <= k < v@.len() ==> (#[trigger] v@[k]).file == expansion(matched@)[k].1
                && v@[k].functions@ == match config.targets@[expansion(matched@)[k].0].functions {
                Some(fs) => fs@,
                None => Seq::<String>::empty(),
            } && v@[k].contracts@ == match config.targets@[expansion(matched@)[k].0].contracts {
                Some(cs) => cs@,
                None => Seq::<String>::empty(),
            } && v@[k].exclude_functions@ == match config.targets@[
                expansion(matched@)[k].0
            ].exclude_functions {
                Some(xs) => xs@,
                None => Seq::<String>::empty(),
            },
{
    let ghost all = matched@;
    let mut targets: Vec<FileTarget> = Vec::new();
    let mut i: usize = 0;
    while i < matched.len()
        invariant
            i <= matched.len(),
            matched@ == all,
            all.len() == config.targets@.len(),
            targets@.len() == expansion(all.take(i as int)).len(),
            forall|k: int|
                0 <= k < targets@.len() ==> config_target(
                    config.targets@[expansion(all.take(i as int))[k].0],
                    expansion(all.take(i as int))[k].1,
                    #[trigger] targets@[k],
                ),
        decreases matched.len() - i,
    {
        let ghost prev = expansion(all.take(i as int));
        assert(all.take(i + 1).drop_last() == all.take(i as int));
        assert(all.take(i + 1).last() == all[i as int]);
        let ghost next = expansion(all.take(i + 1));
        assert(next == prev + all[i as int]@.map_values(|f: String| (i as int, f)));
        let tc = &config.targets[i];
        let files = &matched[i];
        let ghost start = targets@;
        let mut j: usize = 0;
        while j < files.len()
            invariant
                j <= files.len(),
                i < all.len(),
                files@ == all[i as int]@,
                tc == &config.targets@[i as int],
                all.len() == config.targets@.len(),
                targets@.len() == start.len() + j,
                start.len() == prev.len(),
                next == prev + all[i as int]@.map_values(|f: String| (i as int, f)),
                forall|k: int|
                    0 <= k < start.len() ==> targets@[k] == start[k],
                forall|k: int|
                    0 <= k < start.len() ==> config_target(
                        config.targets@[prev[k].0],
                        prev[k].1,
                        #[trigger] start[k],
                    ),
                forall|k: int|
                    start.len() <= k < targets@.len() ==> config_target(
                        *tc,
                        files@[k - start.len()],
                        #[trigger] targets@[k],
                    ),
            decreases files.len() - j,
        {
            targets.push(
                FileTarget {
                    file: files[j].clone(),
                    contracts: copy_optional(&tc.contracts),
                    functions: copy_optional(&tc.functions),
                    exclude_functions: copy_optional(&tc.exclude_functions),
                    test_commands: forge_commands(copy_optional(&tc.forge_args).as_slice()),
                },
            );
            j += 1;
        }
        assert forall|k: int| 0 <= k < targets@.len() implies config_target(
            config.targets@[next[k].0],
            next[k].1,
            #[trigger] targets@[k],
        ) by {
            if k < start.len() {
                assert(next[k] == prev[k]);
                assert(targets@[k] == start[k]);
            } else {
                assert(next[k] == (i as int, files@[k - start.len()]));
            }
        }
        i += 1;
    }
    assert(all.take(matched.len() as int) == all);
    if targets.len() == 0 {
        return Err(string_of(&chars_of("dregs.toml targets matched no files")));
    }
    Ok(targets)
}

/// The targets for files named on the command line or found under `src/`: one
/// whole-file target each, judged by `forge test` with `forge_args`. No file at all
/// is an error.
pub fn targets_from_files(files: Vec<String>, forge_args: &[String]) -> (r: Result<
    Vec<FileTarget>,
    String,
>)
    ensures
        files@.len() == 0 ==> (r matches Err(m) && m@ == "no Solidity files found to mutate"@),
        files@.len() > 0 ==> (r matches Ok(v) && v@.len() == files@.len() && forall|i: int|
            0 <= i < files@.len() ==> plain_target(#[trigger] v@[i], files@[i], forge_args@)),
{
    if files.len() == 0 {
        return Err(string_of(&chars_of("no Solidity files found to mutate")));
    }
    Ok(paths_to_targets(files, forge_args))
}

// ---------------------------------------------------------------------------
// Diff filters
// ---------------------------------------------------------------------------

/// The targets that a diff leaves to mutate, and the line that reports it: with
/// no changed Solidity file, none; otherwise those whose file the diff touches.
pub fn apply_diff_target_filter(targets: Vec<FileTarget>, diff_ranges: &[DiffRange], project_root: &str) -> (r: (
    Vec<FileTarget>,
    String,
))
    ensures
        diff_ranges@.len() == 0 ==> r.0@.len() == 0 && r.1@ == "No Solidity files changed in diff"@,
        diff_ranges@.len() > 0 ==> r.0@ == targets@.filter(
            |t: FileTarget| target_in_diff(diff_ranges@, project_root@, t),
        ),
        diff_ranges@.len() > 0 && r.0@.len() == 0 ==> r.1@ == "No target files overlap with diff"@,
        diff_ranges@.len() > 0 && r.0@.len() > 0 ==> r.1@ == "Diff filter: "@ + decimal(
            r.0@.len(),
        ) + " target files overlap with changes"@,
{
    if diff_ranges.len() == 0 {
        return (Vec::new(), string_of(&chars_of("No Solidity files changed in diff")));
    }
    let filtered = filter_targets_by_diff(targets, diff_ranges, project_root);
    if filtered.len() == 0 {
        (filtered, string_of(&chars_of("No target files overlap with diff")))
    } else {
        let mut v = chars_of("Diff filter: ");
        push_all(&mut v, &decimal_chars(filtered.len() as u64));
        push_all(&mut v, &chars_of(" target files overlap with changes"));
        (filtered, string_of(&v))
    }
}

/// The mutants that a diff leaves to test, and the line that reports it: without
/// a diff, all of them and no line; with one, those on changed lines.
pub fn apply_diff_mutant_filter(mutants: Vec<Mutant>, diff_ranges: Option<&[DiffRange]>) -> (r: (
    Vec<Mutant>,
    Option<String>,
))
    ensures
        diff_ranges is None ==> r.0@ == mutants@ && r.1 is None,
        diff_ranges matches Some(d) ==> r.0@ == mutants@.filter(
            |m: Mutant| mutant_in_diff(d@, m),
        ),
        diff_ranges is Some && r.0@.len() == 0 ==> (r.1 matches Some(m) && m@
            == "No mutants on changed lines (filtered "@ + decimal(mutants@.len()) + " mutants)"@),
        diff_ranges is Some && r.0@.len() > 0 ==> (r.1 matches Some(m) && m@ == "Diff filter: "@
            + decimal(r.0@.len()) + "/"@ + decimal(mutants@.len()) + " mutants on changed lines"@),
{
    match diff_ranges {
        None => (mutants, None),
        Some(d) => {
            let before = mutants.len();
            let filtered = filter_mutants(mutants, d);
            if filtered.len() == 0 {
                let mut v = chars_of("No mutants on changed lines (filtered ");
                push_all(&mut v, &decimal_chars(before as u64));
                push_all(&mut v, &chars_of(" mutants)"));
                (filtered, Some(string_of(&v)))
            } else {
                let mut v = chars_of("Diff filter: ");
                push_all(&mut v, &decimal_chars(filtered.len() as u64));
                push_all(&mut v, &chars_of("/"));
                push_all(&mut v, &decimal_chars(before as u64));
                push_all(&mut v, &chars_of(" mutants on changed lines"));
                (filtered, Some(string_of(&v)))
            }
        },
    }
}

// ---------------------------------------------------------------------------
// Baseline runs
// ---------------------------------------------------------------------------

/// The forge argument lists of the `dregs.toml` targets from the `i`-th on, added
/// to `acc` unless `acc` already holds the same list.
pub open spec fn distinct_arg_sets(ts: Seq<TargetConfig>, i: int, acc: Seq<Seq<Seq<char>>>) -> Seq<
    Seq<Seq<char>>,
>
    decreases ts.len() - i,
{
    if i < 0 || i >= ts.len() {
        acc
    } else {
        let args = str_views(or_empty(ts[i].forge_args));
        if acc.contains(args) {
            distinct_arg_sets(ts, i + 1, acc)
        } else {
            distinct_arg_sets(ts, i + 1, acc.push(args))
        }
    }
}

/// The forge argument lists that baseline runs use: the command line's when there
/// is no `dregs.toml`; otherwise each distinct list of the targets' (absent counts
/// as empty), in order of first appearance.
pub open spec fn baseline_sets(config: Option<DregsConfig>, cli_forge_args: Seq<String>) -> Seq<
    Seq<Seq<char>>,
> {
    match config {
        None => seq![str_views(cli_forge_args)],
        Some(c) => distinct_arg_sets(c.targets@, 0, Seq::empty()),
    }
}

fn same_strings(a: &Vec<String>, b: &Vec<String>) -> (r: bool)
    ensures
        r == (str_views(a@) == str_views(b@)),
{
    if a.len() != b.len() {
        assert(str_views(a@).len() != str_views(b@).len());
        return false;
    }
    let mut i: usize = 0;
    while i < a.len()
        invariant
            i <= a.len(),
            a.len() == b.len(),
            forall|k: int| 0 <= k < i ==> a@[k]@ == b@[k]@,
        decreases a.len() - i,
    {
        if !crate::text::str_equal(a[i].as_str(), b[i].as_str()) {
            assert(str_views(a@)[i as int] != str_views(b@)[i as int]);
            return false;
        }
        i += 1;
    }
    assert(str_views(a@) =~= str_views(b@));
    true
}

fn holds_list(acc: &Vec<Vec<String>>, v: &Vec<String>) -> (r: bool)
    ensures
        r == acc@.map_values(|x: Vec<String>| str_views(x@)).contains(str_views(v@)),
{
    let ghost views = acc@.map_values(|x: Vec<String>| str_views(x@));
    let mut i: usize = 0;
    while i < acc.len()
        invariant
            i <= acc.len(),
            views == acc@.map_values(|x: Vec<String>| str_views(x@)),
            forall|k: int| 0 <= k < i ==> views[k] != str_views(v@),
        decreases acc.len() - i,
    {
        if same_strings(&acc[i], v) {
            assert(views[i as int] == str_views(v@));
            return true;
        }
        i += 1;
    }
    false
}

/// The forge argument lists to run the baseline tests with (see `baseline_sets`).
pub fn baseline_forge_arg_sets(dregs_config: Option<&DregsConfig>, cli_forge_args: &[String]) -> (r:
    Vec<Vec<String>>)
    ensures
        r@.map_values(|x: Vec<String>| str_views(x@)) == baseline_sets(
            match dregs_config {
                Some(c) => Some(*c),
                None => None,
            },
            cli_forge_args@,
        ),
{
    match dregs_config {
        None => {
            let mut r: Vec<Vec<String>> = Vec::new();
            r.push(copy_strings(cli_forge_args));
            assert(r@.map_values(|x: Vec<String>| str_views(x@)) =~= seq![str_views(cli_forge_args@)]);
            r
        },
        Some(config) => {
            let mut r: Vec<Vec<String>> = Vec::new();
            assert(r@.map_values(|x: Vec<String>| str_views(x@)) =~= Seq::<Seq<Seq<char>>>::empty());
            let mut i: usize = 0;
            while i < config.targets.len()
                invariant
                    i <= config.targets.len(),
                    distinct_arg_sets(config.targets@, 0, Seq::empty()) == distinct_arg_sets(
                        config.targets@,
                        i as int,
                        r@.map_values(|x: Vec<String>| str_views(x@)),
                    ),
                decreases config.targets.len() - i,
            {
                let args = copy_optional(&config.targets[i].forge_args);
                let ghost before = r@;
                if !holds_list(&r, &args) {
                    r.push(args);
                    assert(r@.map_values(|x: Vec<String>| str_views(x@)) =~= before.map_values(
                        |x: Vec<String>| str_views(x@),
                    ).push(str_views(or_empty(config.targets@[i as int].forge_args))));
                }
                i += 1;
            }
            r
        },
    }
}

proof fn lemma_distinct_arg_sets(ts: Seq<TargetConfig>, i: int, acc: Seq<Seq<Seq<char>>>)
    requires
        0 <= i,
        acc.no_duplicates(),
    ensures
        distinct_arg_sets(ts, i, acc).no_duplicates(),
        forall|x: Seq<Seq<char>>| acc.contains(x) ==> distinct_arg_sets(ts, i, acc).contains(x),
        forall|k: int|
            i <= k < ts.len() ==> distinct_arg_sets(ts, i, acc).contains(
                str_views(or_empty(#[trigger] ts[k].forge_args)),
            ),
        forall|x: Seq<Seq<char>>|
            distinct_arg_sets(ts, i, acc).contains(x) ==> acc.contains(x) || exists|k: int|
                i <= k < ts.len() && x == str_views(or_empty(#[trigger] ts[k].forge_args)),
    decreases ts.len() - i,
{
    if i < ts.len() {
        let args = str_views(or_empty(ts[i].forge_args));
        if acc.contains(args) {
            lemma_distinct_arg_sets(ts, i + 1, acc);
            assert(distinct_arg_sets(ts, i + 1, acc).contains(args));
        } else {
            let next = acc.push(args);
            assert(next.no_duplicates()) by {
                assert forall|a: int, b: int| 0 <= a < next.len() && 0 <= b < next.len() && a != b implies next[a] != next[b] by {
                    if a < acc.len() && b < acc.len() {
                    } else if a < acc.len() {
                        assert(acc.contains(next[a]));
                    } else {
                        assert(acc.contains(next[b]));
                    }
                }
            }
            lemma_distinct_arg_sets(ts, i + 1, next);
            assert forall|x: Seq<Seq<char>>| acc.contains(x) implies distinct_arg_sets(ts, i, acc).contains(x) by {
                let j = choose|j: int| 0 <= j < acc.len() && acc[j] == x;
                assert(next[j] == x);
                assert(next.contains(x));
            }
            assert(next[acc.len() as int] == args);
            assert(next.contains(args));
            assert(distinct_arg_sets(ts, i + 1, next).contains(args));
            assert forall|x: Seq<Seq<char>>|
                distinct_arg_sets(ts, i, acc).contains(x) implies acc.contains(x) || exists|k: int|
                    i <= k < ts.len() && x == str_views(or_empty(#[trigger] ts[k].forge_args)) by {
                if next.contains(x) {
                    let j = choose|j: int| 0 <= j < next.len() && next[j] == x;
                    if j < acc.len() {
                        assert(acc[j] == x);
                    } else {
                        assert(x == str_views(or_empty(ts[i].forge_args)));
                    }
                }
            }
        }
    }
}

/// Each distinct forge argument list of the `dregs.toml` targets gets one
/// baseline run: the lists are pairwise different, every target's list is among
/// them, and each of them is some target's list.
pub proof fn law_baseline_sets_distinct_and_complete(config: DregsConfig)
    ensures
        baseline_sets(Some(config), Seq::empty()).no_duplicates(),
        forall|k: int|
            0 <= k < config.targets@.len() ==> baseline_sets(Some(config), Seq::empty()).contains(
                str_views(or_empty(#[trigger] config.targets@[k].forge_args)),
            ),
        forall|x: Seq<Seq<char>>|
            baseline_sets(Some(config), Seq::empty()).contains(x) ==> exists|k: int|
                0 <= k < config.targets@.len() && x == str_views(
                    or_empty(#[trigger] config.targets@[k].forge_args),
                ),
{
    let ts = config.targets@;
    lemma_distinct_arg_sets(ts, 0, Seq::empty());
    assert forall|x: Seq<Seq<char>>|
        baseline_sets(Some(config), Seq::empty()).contains(x) implies exists|k: int|
            0 <= k < ts.len() && x == str_views(or_empty(#[trigger] ts[k].forge_args)) by {
        assert(!Seq::<Seq<Seq<char>>>::empty().contains(x));
    }
}

/// Before a baseline run with forge arguments, the tests they select are listed:
/// the lines that report them (a count, then each name), or an error when they
/// select none.
pub fn matched_tests_report(names: &Vec<String>) -> (r: Result<Vec<String>, String>)
    ensures
        names@.len() == 0 ==> (r matches Err(m) && m@ == "no tests matched the provided filters"@),
        names@.len() > 0 ==> (r matches Ok(lines) && lines@.len() == names@.len() + 1 && lines@[0]@
            == "Matched "@ + decimal(names@.len()) + " tests:"@ && forall|i: int|
            0 <= i < names@.len() ==> lines@[i + 1]@ == "  "@ + names@[i]@),
{
    if names.len() == 0 {
        return Err(string_of(&chars_of("no tests matched the provided filters")));
    }
    let mut lines: Vec<String> = Vec::new();
    let mut v = chars_of("Matched ");
    push_all(&mut v, &decimal_chars(names.len() as u64));
    push_all(&mut v, &chars_of(" tests:"));
    lines.push(string_of(&v));
    let mut i: usize = 0;
    while i < names.len()
        invariant
            i <= names.len(),
            lines@.len() == i + 1,
            lines@[0]@ == "Matched "@ + decimal(names@.len()) + " tests:"@,
            forall|k: int| 0 <= k < i ==> lines@[k + 1]@ == "  "@ + names@[k]@,
        decreases names.len() - i,
    {
        let mut w = chars_of("  ");
        push_all(&mut w, &chars_of(names[i].as_str()));
        lines.push(string_of(&w));
        i += 1;
    }
    Ok(lines)
}

// ---------------------------------------------------------------------------
// Testing and reporting
// ---------------------------------------------------------------------------

/// `r` is `m` with its tests replaced by `forge test` with `args`, when there are
/// any; `m` itself otherwise.
pub open spec fn with_forge_args(m: Mutant, args: Seq<String>, r: Mutant) -> bool {
    if args.len() == 0 {
        r == m
    } else {
        &&& r.id == m.id
        &&& r.source_path == m.source_path
        &&& r.relative_source_path == m.relative_source_path
        &&& r.mutant_path == m.mutant_path
        &&& r.operator == m.operator
        &&& r.original == m.original
        &&& r.replacement == m.replacement
        &&& r.line == m.line
        &&& runs_forge_with(r.test_commands@, args)
    }
}

/// The mutants to test, with the forge arguments of the command line, when there
/// are any, replacing the tests each mutant carries.
pub fn apply_cli_forge_args(mutants: Vec<Mutant>, forge_args: &[String]) -> (r: Vec<Mutant>)
    ensures
        r@.len() == mutants@.len(),
        forall|i: int| 0 <= i < mutants@.len() ==> with_forge_args(mutants@[i], forge_args@, #[trigger] r@[i]),
{
    if forge_args.len() == 0 {
        return mutants;
    }
    let ghost orig = mutants@;
    assert(orig.len() == mutants.len());
    let mut pending = mutants;
    let mut r: Vec<Mutant> = Vec::new();
    let mut i: usize = 0;
    while pending.len() > 0
        invariant
            i + pending@.len() == orig.len(),
            orig.len() <= usize::MAX,
            pending@ == orig.skip(i as int),
            forge_args@.len() > 0,
            r@.len() == i,
            forall|k: int| 0 <= k < i ==> with_forge_args(orig[k], forge_args@, #[trigger] r@[k]),
        decreases pending.len(),
    {
        let ghost before = pending@;
        let m = pending.remove(0);
        assert(before[0] == orig[i as int]);
        assert(pending@ =~= orig.skip(i + 1));
        r.push(Mutant { test_commands: forge_commands(forge_args), ..m });
        i += 1;
    }
    r
}

/// A verdict as the progress line shows it: `KILLED`, with the killing test when
/// known, or `SURVIVED`.
pub open spec fn progress_status(r: TestResult) -> Seq<char> {
    if r.killed {
        match r.killed_by {
            Some(t) => "KILLED by "@ + t@,
            None => "KILLED"@,
        }
    } else {
        "SURVIVED"@
    }
}

/// The progress report on one tested mutant, around its duration: the text
/// before it (`[done/total] file:line operator -> status`) and after it (for a
/// survivor, a second line with what the mutant changed).
pub fn progress_text(done: u64, total: u64, m: &Mutant, r: &TestResult) -> (out: (String, String))
    ensures
        out.0@ == "["@ + decimal(done as nat) + "/"@ + decimal(total as nat) + "] "@
            + m.relative_source_path@ + ":"@ + decimal(m.line as nat) + " "@ + m.operator@
            + " -> "@ + progress_status(*r),
        r.killed ==> out.1@.len() == 0,
        !r.killed ==> out.1@ == "\n     `"@ + m.original@ + "` -> `"@ + m.replacement@ + "`"@,
{
    let status = if r.killed {
        match &r.killed_by {
            Some(t) => {
                let mut s = chars_of("KILLED by ");
                push_all(&mut s, &chars_of(t.as_str()));
                s
            },
            None => chars_of("KILLED"),
        }
    } else {
        chars_of("SURVIVED")
    };
    let mut v = chars_of("[");
    push_all(&mut v, &decimal_chars(done));
    push_all(&mut v, &chars_of("/"));
    push_all(&mut v, &decimal_chars(total));
    push_all(&mut v, &chars_of("] "));
    push_all(&mut v, &chars_of(m.relative_source_path.as_str()));
    push_all(&mut v, &chars_of(":"));
    push_all(&mut v, &decimal_chars(m.line as u64));
    push_all(&mut v, &chars_of(" "));
    push_all(&mut v, &chars_of(m.operator.as_str()));
    push_all(&mut v, &chars_of(" -> "));
    push_all(&mut v, &status);
    let tail = if r.killed {
        Vec::new()
    } else {
        let mut w = chars_of("\n     `");
        push_all(&mut w, &chars_of(m.original.as_str()));
        push_all(&mut w, &chars_of("` -> `"));
        push_all(&mut w, &chars_of(m.replacement.as_str()));
        push_all(&mut w, &chars_of("`"));
        w
    };
    (string_of(&v), string_of(&tail))
}

/// The warning when the merged results cover fewer mutants than the manifest has.
pub fn coverage_warning(results: usize, mutants: usize) -> (r: Option<String>)
    ensures
        results >= mutants ==> r is None,
        results < mutants ==> (r matches Some(m) && m@ == "Warning: results cover "@ + decimal(
            results as nat,
        ) + "/"@ + decimal(mutants as nat) + " mutants"@),
{
    if results >= mutants {
        return None;
    }
    let mut v = chars_of("Warning: results cover ");
    push_all(&mut v, &decimal_chars(results as u64));
    push_all(&mut v, &chars_of("/"));
    push_all(&mut v, &decimal_chars(mutants as u64));
    push_all(&mut v, &chars_of(" mutants"));
    Some(string_of(&v))
}

/// What a run prints when nothing is left to test: a full run (`run`) filtered by
/// a diff reports a perfect score over no mutants; otherwise no mutant was
/// generated.
pub fn nothing_to_test_message(full_run: bool, diff_used: bool) -> (r: String)
    ensures
        full_run && diff_used ==> r@ == "Mutation score: 100.0% (0 mutants)"@,
        !(full_run && diff_used) ==> r@ == "No mutants generated"@,
{
    if full_run && diff_used {
        string_of(&chars_of("Mutation score: 100.0% (0 mutants)"))
    } else {
        string_of(&chars_of("No mutants generated"))
    }
}

// ---------------------------------------------------------------------------
// Project root
// ---------------------------------------------------------------------------

/// The first of `roots[1..]` from the `i`-th on that is a different project root
/// than `root`.
pub open spec fn first_other_root(roots: Seq<Option<String>>, root: Seq<char>, i: int) -> Option<
    Seq<char>,
>
    decreases roots.len() - i,
{
    if i < 1 || i >= roots.len() {
        None
    } else {
        match roots[i] {
            Some(o) => if !spec_path_eq(o@, root) {
                Some(o@)
            } else {
                first_other_root(roots, root, i + 1)
            },
            None => first_other_root(roots, root, i + 1),
        }
    }
}

/// The project root that the files named on the command line share, given the
/// root found above each (`None` where none was found): the first file's, when
/// it has one; a file whose root differs from it is an error. `Ok(None)` when the
/// first file has no root (the project directory is used).
pub fn common_project_root(roots: &Vec<Option<String>>) -> (r: Result<Option<String>, String>)
    requires
        roots@.len() > 0,
    ensures
        roots@[0] is None ==> r == Ok::<Option<String>, String>(None),
        roots@[0] matches Some(root) ==> match first_other_root(roots@, root@, 1) {
            None => r == Ok::<Option<String>, String>(Some(root)),
            Some(o) => r matches Err(m) && m@ == "files have different project roots: "@ + root@
                + " vs "@ + o,
        },
{
    let root = match &roots[0] {
        None => {
            return Ok(None);
        },
        Some(root) => root,
    };
    let mut i: usize = 1;
    while i < roots.len()
        invariant
            1 <= i <= roots.len(),
            roots@[0] == Some(*root),
            first_other_root(roots@, root@, 1) == first_other_root(roots@, root@, i as int),
        decreases roots.len() - i,
    {
        match &roots[i] {
            Some(o) => {
                if !paths_equal(o.as_str(), root.as_str()) {
                    let mut v = chars_of("files have different project roots: ");
                    push_all(&mut v, &chars_of(root.as_str()));
                    push_all(&mut v, &chars_of(" vs "));
                    push_all(&mut v, &chars_of(o.as_str()));
                    return Err(string_of(&v));
                }
            },
            None => {},
        }
        i += 1;
    }
    Ok(Some(root.clone()))
}

} // verus!
