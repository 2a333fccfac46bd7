//! Running the tests against a mutant: what to run, and what forge's output says.
use vstd::prelude::*;

use crate::config::TestCommand;
use crate::external::io_error_text;
use crate::json::{get, json_first_value, json_from_str, json_get, JsonValue};
use crate::paths::{path_file_name, spec_path_file_name};
use crate::text::{
    chars_of, contains, contains_seq, ends_with, find_char, first_index, has_suffix, last_index,
    lemma_first_index, lemma_last_index, lines, push_all, rfind_char, slice_chars, sort_strings,
    sorted, split_lines, str_views, string_of, trim, trim_chars, views,
};

verus! {

/// Errors in running tests.
#[derive(Debug)]
pub enum RunnerError {
    TestExecution(String),
    Io(std::io::Error),
    ProjectCopy(String),
    MutantApplication(String),
}

impl RunnerError {
    /// The error's message.
    pub fn to_string(&self) -> (r: String)
        ensures
            self matches RunnerError::TestExecution(m) ==> r@ == m@,
            self matches RunnerError::ProjectCopy(m) ==> r@ == "failed to copy project: "@ + m@,
            self matches RunnerError::MutantApplication(m) ==> r@ == "failed to apply mutant: "@
                + m@,
            self matches RunnerError::Io(_) ==> crate::text::starts_with(r@, "io error: "@),
    {
        match self {
            RunnerError::TestExecution(m) => string_of(&chars_of(m.as_str())),
            RunnerError::Io(e) => {
                let mut v = chars_of("io error: ");
                let ghost head = v@;
                let t = io_error_text(e);
                push_all(&mut v, &chars_of(t.as_str()));
                assert(v@.take(head.len() as int) == head);
                string_of(&v)
            },
            RunnerError::ProjectCopy(m) => {
                let mut v = chars_of("failed to copy project: ");
                push_all(&mut v, &chars_of(m.as_str()));
                string_of(&v)
            },
            RunnerError::MutantApplication(m) => {
                let mut v = chars_of("failed to apply mutant: ");
                push_all(&mut v, &chars_of(m.as_str()));
                string_of(&v)
            },
        }
    }
}

impl From<std::io::Error> for RunnerError {
    fn from(e: std::io::Error) -> (r: Self) {
        RunnerError::Io(e)
    }
}

impl vstd::std_specs::convert::FromSpecImpl<std::io::Error> for RunnerError {
    open spec fn obeys_from_spec() -> bool {
        true
    }

    open spec fn from_spec(e: std::io::Error) -> Self {
        RunnerError::Io(e)
    }
}

/// What one `forge test` run says of a mutant.
#[derive(Debug)]
pub struct ForgeTestResult {
    pub failed: bool,
    pub killed_by: Option<String>,
}

/// The verdict on one mutant.
#[derive(Debug, Clone, PartialEq)]
pub struct TestResult {
    pub mutant_id: u32,
    pub killed: bool,
    pub killed_by: Option<String>,
    pub duration: std::time::Duration,
}

// ---------------------------------------------------------------------------
// Project copies
// ---------------------------------------------------------------------------

/// The symlinked directories that a mutant's custom commands ask for: each once,
/// in order of first appearance.
pub open spec fn symlinks_from(cmds: Seq<TestCommand>, i: int, acc: Seq<Seq<char>>) -> Seq<Seq<char>>
    decreases cmds.len() - i,
{
    if i < 0 || i >= cmds.len() {
        acc
    } else {
        match cmds[i] {
            TestCommand::Custom { symlinks, .. } => symlinks_from(
                cmds,
                i + 1,
                add_new(acc, str_views(symlinks@), 0),
            ),
            _ => symlinks_from(cmds, i + 1, acc),
        }
    }
}

/// `acc` followed by those of `names[j..]` it does not yet hold, each once.
pub open spec fn add_new(acc: Seq<Seq<char>>, names: Seq<Seq<char>>, j: int) -> Seq<Seq<char>>
    decreases names.len() - j,
{
    if j < 0 || j >= names.len() {
        acc
    } else if acc.contains(names[j]) {
        add_new(acc, names, j + 1)
    } else {
        add_new(acc.push(names[j]), names, j + 1)
    }
}

fn holds_name(acc: &Vec<String>, s: &String) -> (r: bool)
    ensures
        r == str_views(acc@).contains(s@),
{
    let mut i: usize = 0;
    while i < acc.len()
        invariant
            i <= acc.len(),
            forall|k: int| 0 <= k < i ==> acc@[k]@ != s@,
        decreases acc.len() - i,
    {
        if acc[i] == *s {
            assert(str_views(acc@)[i as int] == s@);
            return true;
        }
        i += 1;
    }
    proof {
        if str_views(acc@).contains(s@) {
            let k = choose|k: int| 0 <= k < str_views(acc@).len() && str_views(acc@)[k] == s@;
            assert(acc@[k]@ == s@);
        }
    }
    false
}

/// The directories to symlink into a project copy for these test commands: the
/// `symlinks` of the custom commands, each once, in order of first appearance.
pub fn collect_symlinks(test_commands: &[TestCommand]) -> (r: Vec<String>)
    ensures
        str_views(r@) == symlinks_from(test_commands@, 0, Seq::empty()),
{
    let mut result: Vec<String> = Vec::new();
    let mut i: usize = 0;
    assert(str_views(result@) =~= Seq::<Seq<char>>::empty());
    while i < test_commands.len()
        invariant
            i <= test_commands.len(),
            symlinks_from(test_commands@, 0, Seq::empty()) == symlinks_from(
                test_commands@,
                i as int,
                str_views(result@),
            ),
        decreases test_commands.len() - i,
    {
        match &test_commands[i] {
            TestCommand::Custom { symlinks, .. } => {
                let ghost start = str_views(result@);
                let mut j: usize = 0;
                while j < symlinks.len()
                    invariant
                        j <= symlinks.len(),
                        add_new(start, str_views(symlinks@), 0) == add_new(
                            str_views(result@),
                            str_views(symlinks@),
                            j as int,
                        ),
                    decreases symlinks.len() - j,
                {
                    let ghost before = str_views(result@);
                    assert(str_views(symlinks@)[j as int] == symlinks@[j as int]@);
                    if !holds_name(&result, &symlinks[j]) {
                        result.push(symlinks[j].clone());
                        assert(str_views(result@) =~= before.push(symlinks@[j as int]@));
                    }
                    j += 1;
                }
            },
            TestCommand::Foundry { .. } => {},
        }
        i += 1;
    }
    result
}

proof fn lemma_add_new(acc: Seq<Seq<char>>, names: Seq<Seq<char>>, j: int)
    requires
        0 <= j,
        acc.no_duplicates(),
    ensures
        add_new(acc, names, j).no_duplicates(),
        forall|x: Seq<char>| acc.contains(x) ==> add_new(acc, names, j).contains(x),
        forall|k: int| j <= k < names.len() ==> add_new(acc, names, j).contains(#[trigger] names[k]),
        forall|x: Seq<char>|
            add_new(acc, names, j).contains(x) ==> acc.contains(x) || exists|k: int|
                j <= k < names.len() && x == #[trigger] names[k],
    decreases names.len() - j,
{
    if j < names.len() {
        if acc.contains(names[j]) {
            lemma_add_new(acc, names, j + 1);
            assert(add_new(acc, names, j + 1).contains(names[j]));
        } else {
            let next = acc.push(names[j]);
            assert(next.no_duplicates()) by {
                assert forall|a: int, b: int|
                    0 <= a < next.len() && 0 <= b < next.len() && a != b implies next[a]
                    != next[b] by {
                    if a < acc.len() && b < acc.len() {
                    } else if a < acc.len() {
                        assert(acc.contains(next[a]));
                    } else {
                        assert(acc.contains(next[b]));
                    }
                }
            }
            lemma_add_new(acc.push(names[j]), names, j + 1);
            assert(next[acc.len() as int] == names[j]);
            assert(next.contains(names[j]));
            assert forall|x: Seq<char>| acc.contains(x) implies add_new(acc, names, j).contains(x) by {
                let i = choose|i: int| 0 <= i < acc.len() && acc[i] == x;
                assert(next[i] == x);
                assert(next.contains(x));
            }
            assert forall|x: Seq<char>|
                add_new(acc, names, j).contains(x) implies acc.contains(x) || exists|k: int|
                    j <= k < names.len() && x == #[trigger] names[k] by {
                if next.contains(x) {
                    let i = choose|i: int| 0 <= i < next.len() && next[i] == x;
                    if i < acc.len() {
                        assert(acc[i] == x);
                    }
                }
            }
        }
    }
}

/// The directories that a command asks to symlink: those of a custom command.
pub open spec fn command_links(c: TestCommand) -> Seq<Seq<char>> {
    match c {
        TestCommand::Custom { symlinks, .. } => str_views(symlinks@),
        _ => Seq::empty(),
    }
}

/// Whether `name` is among the symlinks of a custom command of `cmds`.
pub open spec fn asked_for(cmds: Seq<TestCommand>, name: Seq<char>) -> bool {
    exists|k: int| 0 <= k < cmds.len() && command_links(#[trigger] cmds[k]).contains(name)
}

proof fn lemma_symlinks_from(cmds: Seq<TestCommand>, i: int, acc: Seq<Seq<char>>)
    requires
        0 <= i,
        acc.no_duplicates(),
    ensures
        symlinks_from(cmds, i, acc).no_duplicates(),
        forall|x: Seq<char>| acc.contains(x) ==> symlinks_from(cmds, i, acc).contains(x),
        forall|x: Seq<char>|
            (exists|k: int|
                i <= k < cmds.len() && command_links(#[trigger] cmds[k]).contains(x)) ==> symlinks_from(cmds, i, acc).contains(x),
        forall|x: Seq<char>|
            symlinks_from(cmds, i, acc).contains(x) ==> acc.contains(x) || asked_for(cmds, x),
    decreases cmds.len() - i,
{
    if i < cmds.len() {
        match cmds[i] {
            TestCommand::Custom { symlinks, .. } => {
                let names = str_views(symlinks@);
                let next = add_new(acc, names, 0);
                lemma_add_new(acc, names, 0);
                lemma_symlinks_from(cmds, i + 1, next);
                assert forall|x: Seq<char>|
                    (exists|k: int|
                        i <= k < cmds.len() && command_links(#[trigger] cmds[k]).contains(x)) implies symlinks_from(cmds, i, acc).contains(x) by {
                    let k = choose|k: int|
                        i <= k < cmds.len() && command_links(#[trigger] cmds[k]).contains(x);
                    if k == i {
                        let q = choose|q: int| 0 <= q < names.len() && names[q] == x;
                        assert(next.contains(names[q]));
                    }
                }
                assert forall|x: Seq<char>|
                    symlinks_from(cmds, i, acc).contains(x) implies acc.contains(x) || asked_for(cmds, x) by {
                    if next.contains(x) && !acc.contains(x) {
                        let q = choose|q: int| 0 <= q < names.len() && x == #[trigger] names[q];
                        assert(names.contains(x));
                    }
                }
            },
            _ => {
                lemma_symlinks_from(cmds, i + 1, acc);
                assert forall|x: Seq<char>|
                    (exists|k: int|
                        i <= k < cmds.len() && command_links(#[trigger] cmds[k]).contains(x)) implies symlinks_from(cmds, i, acc).contains(x) by {
                    let k = choose|k: int|
                        i <= k < cmds.len() && command_links(#[trigger] cmds[k]).contains(x);
                    assert(k != i);
                }
            },
        }
    }
}

/// A project copy links each directory that the custom commands ask for exactly
/// once: the collected names are pairwise different, each name a custom command
/// asks for is among them, and each of them was asked for.
pub proof fn law_collect_symlinks_distinct_and_complete(cmds: Seq<TestCommand>)
    ensures
        symlinks_from(cmds, 0, Seq::empty()).no_duplicates(),
        forall|x: Seq<char>| asked_for(cmds, x) ==> symlinks_from(cmds, 0, Seq::empty()).contains(x),
        forall|x: Seq<char>| symlinks_from(cmds, 0, Seq::empty()).contains(x) ==> asked_for(cmds, x),
{
    lemma_symlinks_from(cmds, 0, Seq::empty());
    assert forall|x: Seq<char>| symlinks_from(cmds, 0, Seq::empty()).contains(x) implies asked_for(cmds, x) by {
        assert(!Seq::<Seq<char>>::empty().contains(x));
    }
}

/// Whether a directory entry is left out of a project copy: `.git` and
/// `gambit_out` are, at every level.
pub fn is_skipped_entry(name: &str) -> (r: bool)
    ensures
        r == (name@ == ".git"@ || name@ == "gambit_out"@),
{
    crate::text::str_equal(name, ".git") || crate::text::str_equal(name, "gambit_out")
}

// ---------------------------------------------------------------------------
// Reading forge's output
// ---------------------------------------------------------------------------

/// The test named in a `[FAIL...] name(...)` line: the trimmed text between the
/// first `]` and the next `(`, when there is such text.
pub open spec fn fail_line_name(line: Seq<char>) -> Option<Seq<char>> {
    let b = first_index(line, ']');
    if b < 0 {
        None
    } else {
        let after = trim(line.skip(b + 1));
        let p = first_index(after, '(');
        if p < 0 {
            None
        } else {
            let name = trim(after.take(p));
            if name.len() == 0 {
                None
            } else {
                Some(name)
            }
        }
    }
}

/// The name of the failing test in a `[FAIL...] name(args) (gas: ...)` line.
pub fn extract_test_name_from_fail_line(line: &str) -> (r: Option<String>)
    ensures
        match fail_line_name(line@) {
            Some(n) => r matches Some(s) && s@ == n,
            None => r is None,
        },
{
    let v = chars_of(line);
    fail_line_name_chars(&v)
}

fn fail_line_name_chars(v: &Vec<char>) -> (r: Option<String>)
    ensures
        match fail_line_name(v@) {
            Some(n) => r matches Some(s) && s@ == n,
            None => r is None,
        },
{
    match find_char(v, ']') {
        None => None,
        Some(b) => {
            proof {
                lemma_first_index(v@, ']');
            }
            assert(b < v.len());
            let rest = slice_chars(v, b + 1, v.len());
            assert(rest@ == v@.skip(b + 1));
            let after = trim_chars(&rest);
            match find_char(&after, '(') {
                None => None,
                Some(p) => {
                    proof {
                        lemma_first_index(after@, '(');
                    }
                    let head = slice_chars(&after, 0, p);
                    assert(head@ == after@.take(p as int));
                    let name = trim_chars(&head);
                    if name.len() == 0 {
                        None
                    } else {
                        Some(string_of(&name))
                    }
                },
            }
        },
    }
}

/// `s.trim_end_matches(suf)`: `s` without every trailing repetition of `suf`.
pub open spec fn trim_suffix_all(s: Seq<char>, suf: Seq<char>) -> Seq<char>
    decreases s.len(),
{
    if suf.len() > 0 && ends_with(s, suf) {
        trim_suffix_all(s.take(s.len() - suf.len()), suf)
    } else {
        s
    }
}

/// The contract named by a path from forge's JSON output: what follows the last
/// `:` (as in `test/Counter.t.sol:CounterTest`), or else the file name without
/// its `.sol` endings. `None` when there is neither (no `:` and no file name).
pub open spec fn contract_name(path: Seq<char>) -> Option<Seq<char>> {
    let c = last_index(path, ':');
    if c >= 0 {
        Some(path.skip(c + 1))
    } else {
        match spec_path_file_name(path) {
            Some(f) => Some(trim_suffix_all(f, ".sol"@)),
            None => None,
        }
    }
}

fn trim_suffix_all_chars(s: &Vec<char>, suf: &Vec<char>) -> (r: Vec<char>)
    ensures
        r@ == trim_suffix_all(s@, suf@),
{
    let mut end = s.len();
    assert(s@.take(end as int) == s@);
    loop
        invariant
            end <= s.len(),
            trim_suffix_all(s@, suf@) == trim_suffix_all(s@.take(end as int), suf@),
        decreases end,
    {
        let cur = slice_chars(s, 0, end);
        assert(cur@ == s@.take(end as int));
        if suf.len() > 0 && has_suffix(&cur, suf) {
            assert(s@.take(end as int).take(end - suf.len()) == s@.take(end - suf.len()));
            end = end - suf.len();
        } else {
            return cur;
        }
    }
}

/// The contract named by a path from forge's JSON output, when it names one.
pub fn contract_name_from_path(path: &str) -> (r: Option<String>)
    ensures
        match contract_name(path@) {
            Some(n) => r matches Some(s) && s@ == n,
            None => r is None,
        },
{
    let v = chars_of(path);
    match rfind_char(&v, ':') {
        Some(c) => {
            proof {
                lemma_last_index(v@, ':');
            }
            let tail = slice_chars(&v, c + 1, v.len());
            assert(tail@ == v@.skip(c + 1));
            Some(string_of(&tail))
        },
        None => match path_file_name(path) {
            Some(f) => Some(extract_contract_name_from_path(path)),
            None => None,
        },
    }
}

/// The contract named by a path from forge's JSON output (see `contract_name`).
pub fn extract_contract_name_from_path(path: &str) -> (r: String)
    requires
        contract_name(path@) is Some,
    ensures
        contract_name(path@) == Some(r@),
{
    let v = chars_of(path);
    match rfind_char(&v, ':') {
        Some(c) => {
            proof {
                lemma_last_index(v@, ':');
            }
            let tail = slice_chars(&v, c + 1, v.len());
            assert(tail@ == v@.skip(c + 1));
            string_of(&tail)
        },
        None => match path_file_name(path) {
            Some(f) => {
                let trimmed = trim_suffix_all_chars(&chars_of(f.as_str()), &chars_of(".sol"));
                string_of(&trimmed)
            },
            None => {
                assert(false);
                String::new()
            },
        },
    }
}

/// Scanning the tests `ts` of the contract `cp` from the `j`-th on: `Some(x)` when
/// the scan ends the search with the answer `x`, `None` to go on to the next
/// contract. A test without a `status` ends the search with no answer.
pub open spec fn scan_tests(cp: Seq<char>, ts: Seq<(String, JsonValue)>, j: int) -> Option<
    Option<(Seq<char>, Seq<char>)>,
>
    decreases ts.len() - j,
{
    if j < 0 || j >= ts.len() {
        None
    } else {
        match json_get(ts[j].1, "status"@) {
            None => Some(None),
            Some(st) => if st matches JsonValue::Str(s) && s@ == "Failure"@ {
                Some(Some((cp, ts[j].0@)))
            } else {
                scan_tests(cp, ts, j + 1)
            },
        }
    }
}

/// Scanning the contracts `es` of forge's JSON test report from the `i`-th on for
/// the first failed test: `(contract path, test name)`. A contract without an
/// object `test_results` ends the search with no answer.
pub open spec fn scan_contracts(es: Seq<(String, JsonValue)>, i: int) -> Option<
    (Seq<char>, Seq<char>),
>
    decreases es.len() - i,
{
    if i < 0 || i >= es.len() {
        None
    } else {
        match json_get(es[i].1, "test_results"@) {
            Some(JsonValue::Object(ts)) => match scan_tests(es[i].0@, ts@, 0) {
                Some(x) => x,
                None => scan_contracts(es, i + 1),
            },
            _ => None,
        }
    }
}

/// The first failed test of a forge JSON test report line, if the line is one.
pub open spec fn json_failure(line: Seq<char>) -> Option<(Seq<char>, Seq<char>)> {
    match crate::json::spec_json_from_str(line) {
        Ok(JsonValue::Object(es)) => scan_contracts(es@, 0),
        _ => None,
    }
}

/// `contract::test` for a failed test found in a JSON report.
pub open spec fn qualified(cp: Seq<char>, tn: Seq<char>) -> Seq<char> {
    contract_name(cp)->Some_0 + "::"@ + tn
}

/// A JSON report line can be read without a path that names no contract.
pub open spec fn json_line_readable(line: Seq<char>) -> bool {
    json_failure(line) matches Some(x) ==> contract_name(x.0) is Some
}

fn scan_report(es: &Vec<(String, JsonValue)>) -> (r: Option<(String, String)>)
    ensures
        match scan_contracts(es@, 0) {
            Some(x) => r matches Some(p) && p.0@ == x.0 && p.1@ == x.1,
            None => r is None,
        },
{
    let mut i: usize = 0;
    while i < es.len()
        invariant
            i <= es.len(),
            scan_contracts(es@, 0) == scan_contracts(es@, i as int),
        decreases es.len() - i,
    {
        let tr = get(&es[i].1, "test_results");
        match tr {
            Some(JsonValue::Object(ts)) => {
                let mut j: usize = 0;
                while j < ts.len()
                    invariant
                        j <= ts.len(),
                        i < es.len(),
                        scan_contracts(es@, 0) == scan_contracts(es@, i as int),
                        json_get(es@[i as int].1, "test_results"@) == Some(JsonValue::Object(*ts)),
                        scan_tests(es@[i as int].0@, ts@, 0) == scan_tests(
                            es@[i as int].0@,
                            ts@,
                            j as int,
                        ),
                    decreases ts.len() - j,
                {
                    match get(&ts[j].1, "status") {
                        None => {
                            return None;
                        },
                        Some(st) => {
                            let failure = match st {
                                JsonValue::Str(s) => crate::text::str_equal(s.as_str(), "Failure"),
                                _ => false,
                            };
                            if failure {
                                return Some((es[i].0.clone(), ts[j].0.clone()));
                            }
                        },
                    }
                    j += 1;
                }
            },
            _ => {
                return None;
            },
        }
        i += 1;
    }
    None
}

/// The failed test of a JSON report line from `forge test --json`, as
/// `contract::test`: the first test whose status is `Failure`.
pub fn parse_json_test_output(line: &str) -> (r: Option<String>)
    requires
        json_line_readable(line@),
    ensures
        match json_failure(line@) {
            Some(x) => r matches Some(s) && s@ == qualified(x.0, x.1),
            None => r is None,
        },
{
    match json_from_str(line) {
        Ok(JsonValue::Object(es)) => match scan_report(&es) {
            Some((cp, tn)) => {
                let c = extract_contract_name_from_path(cp.as_str());
                let mut v = chars_of(c.as_str());
                push_all(&mut v, &chars_of("::"));
                push_all(&mut v, &chars_of(tn.as_str()));
                Some(string_of(&v))
            },
            None => None,
        },
        _ => None,
    }
}

/// Reading the output lines `ls` from the `i`-th on for the failed test: a
/// `[FAIL` line naming a test, or a JSON report line with a failed test; lines
/// with `Failing tests:` are passed over.
pub open spec fn failed_test_in(ls: Seq<Seq<char>>, i: int) -> Option<Seq<char>>
    decreases ls.len() - i,
{
    if i < 0 || i >= ls.len() {
        None
    } else {
        let line = ls[i];
        if contains(line, "Failing tests:"@) {
            failed_test_in(ls, i + 1)
        } else if contains(line, "[FAIL"@) && fail_line_name(line) is Some {
            fail_line_name(line)
        } else {
            match json_failure(line) {
                Some(x) => Some(qualified(x.0, x.1)),
                None => failed_test_in(ls, i + 1),
            }
        }
    }
}

/// The lines that the search for the failed test reads can all be read.
pub open spec fn failure_search_readable(ls: Seq<Seq<char>>, i: int) -> bool
    decreases ls.len() - i,
{
    if i < 0 || i >= ls.len() {
        true
    } else {
        let line = ls[i];
        if contains(line, "Failing tests:"@) {
            failure_search_readable(ls, i + 1)
        } else if contains(line, "[FAIL"@) && fail_line_name(line) is Some {
            true
        } else {
            match json_failure(line) {
                Some(x) => contract_name(x.0) is Some,
                None => failure_search_readable(ls, i + 1),
            }
        }
    }
}

/// The lines of forge's output: those of stdout, then those of stderr.
pub open spec fn output_lines(stdout: Seq<char>, stderr: Seq<char>) -> Seq<Seq<char>> {
    lines(stdout) + lines(stderr)
}

/// The test that failed according to forge's output (stdout, then stderr).
pub fn parse_failed_test_from_output(stdout: &str, stderr: &str) -> (r: Option<String>)
    requires
        failure_search_readable(output_lines(stdout@, stderr@), 0),
    ensures
        match failed_test_in(output_lines(stdout@, stderr@), 0) {
            Some(n) => r matches Some(s) && s@ == n,
            None => r is None,
        },
{
    let mut ls = split_lines(&chars_of(stdout));
    let mut more = split_lines(&chars_of(stderr));
    ls.append(&mut more);
    let ghost all = output_lines(stdout@, stderr@);
    assert(views(ls@) =~= all);
    let failing = chars_of("Failing tests:");
    let fail = chars_of("[FAIL");
    let mut i: usize = 0;
    while i < ls.len()
        invariant
            i <= ls.len(),
            views(ls@) == all,
            all == output_lines(stdout@, stderr@),
            failing@ == "Failing tests:"@,
            fail@ == "[FAIL"@,
            failed_test_in(all, 0) == failed_test_in(all, i as int),
            failure_search_readable(all, i as int),
        decreases ls.len() - i,
    {
        let line = &ls[i];
        assert(all[i as int] == line@);
        if contains_seq(line, &failing) {
            i += 1;
            continue ;
        }
        if contains_seq(line, &fail) {
            let name = fail_line_name_chars(line);
            if name.is_some() {
                return name;
            }
        }
        let text = string_of(line);
        let found = parse_json_test_output(text.as_str());
        if found.is_some() {
            return found;
        }
        i += 1;
    }
    None
}

/// Whether forge's output can be searched for the failed test: no JSON report
/// line that the search reaches names its failed test by a path without a
/// contract name.
pub fn failure_output_readable(stdout: &str, stderr: &str) -> (r: bool)
    ensures
        r == failure_search_readable(output_lines(stdout@, stderr@), 0),
{
    let mut ls = split_lines(&chars_of(stdout));
    let mut more = split_lines(&chars_of(stderr));
    ls.append(&mut more);
    let ghost all = output_lines(stdout@, stderr@);
    assert(views(ls@) =~= all);
    let failing = chars_of("Failing tests:");
    let fail = chars_of("[FAIL");
    let mut i: usize = 0;
    while i < ls.len()
        invariant
            i <= ls.len(),
            views(ls@) == all,
            all == output_lines(stdout@, stderr@),
            failing@ == "Failing tests:"@,
            fail@ == "[FAIL"@,
            failure_search_readable(all, 0) == failure_search_readable(all, i as int),
        decreases ls.len() - i,
    {
        let line = &ls[i];
        assert(all[i as int] == line@);
        if contains_seq(line, &failing) {
            i += 1;
            continue ;
        }
        if contains_seq(line, &fail) {
            if fail_line_name_chars(line).is_some() {
                return true;
            }
        }
        let text = string_of(line);
        match json_from_str(text.as_str()) {
            Ok(JsonValue::Object(es)) => match scan_report(&es) {
                Some((cp, _)) => {
                    return contract_name_from_path(cp.as_str()).is_some();
                },
                None => {},
            },
            _ => {},
        }
        i += 1;
    }
    true
}


// ---------------------------------------------------------------------------
// Judging forge runs
// ---------------------------------------------------------------------------

/// stdout and stderr, the non-empty ones, joined by a newline.
pub open spec fn combined(stdout: Seq<char>, stderr: Seq<char>) -> Seq<char> {
    if stdout.len() == 0 {
        stderr
    } else if stderr.len() == 0 {
        stdout
    } else {
        stdout + "\n"@ + stderr
    }
}

/// The output of a failed baseline run: stdout and stderr, the non-empty ones,
/// joined by a newline.
pub fn combine_output(stdout: &str, stderr: &str) -> (r: String)
    ensures
        r@ == combined(stdout@, stderr@),
{
    let a = chars_of(stdout);
    let b = chars_of(stderr);
    if a.len() == 0 {
        string_of(&b)
    } else if b.len() == 0 {
        string_of(&a)
    } else {
        let mut v = a;
        push_all(&mut v, &chars_of("\n"));
        push_all(&mut v, &b);
        string_of(&v)
    }
}

/// The verdict of a baseline run (of `forge test` or of a custom command) that
/// exited with `success`: a failure carries the run's output.
pub fn baseline_outcome(success: bool, stdout: &str, stderr: &str) -> (r: Result<(), RunnerError>)
    ensures
        success ==> r is Ok,
        !success ==> (r matches Err(RunnerError::TestExecution(m)) && m@ == combined(
            stdout@,
            stderr@,
        )),
{
    if success {
        Ok(())
    } else {
        Err(RunnerError::TestExecution(combine_output(stdout, stderr)))
    }
}

/// Whether stderr shows that forge could not build the project.
pub open spec fn compilation_failed(stderr: Seq<char>) -> bool {
    contains(stderr, "Compiler run failed"@) || contains(stderr, "could not compile"@) || contains(
        stderr,
        "Failed to resolve"@,
    )
}

/// A build that failed is told by any of forge's three messages for it:
/// `Compiler run failed`, `could not compile` (cargo-style) or `Failed to
/// resolve` (an import that no remapping finds). Stderr carrying any of them is
/// a compilation failure, never a kill; stderr carrying none is not one.
pub proof fn law_compilation_failure_markers(stderr: Seq<char>)
    ensures
        contains(stderr, "Compiler run failed"@) ==> compilation_failed(stderr),
        contains(stderr, "could not compile"@) ==> compilation_failed(stderr),
        contains(stderr, "Failed to resolve"@) ==> compilation_failed(stderr),
        !contains(stderr, "Compiler run failed"@) && !contains(stderr, "could not compile"@)
            && !contains(stderr, "Failed to resolve"@) ==> !compilation_failed(stderr),
{
}

/// The message of a `forge test` run that could not build the project.
pub open spec fn compilation_message(stdout: Seq<char>, stderr: Seq<char>) -> Seq<char> {
    "forge compilation failed:\nstdout: "@ + stdout + "\nstderr: "@ + stderr
}

/// What a `forge test --json` run against a mutant says, given its exit status and
/// output: a passing run means the mutant survived; a run that could not build
/// the project is an error; any other failing run killed the mutant, by the test
/// that the output names, if any.
pub fn classify_forge_output(success: bool, stdout: &str, stderr: &str) -> (r: Result<
    ForgeTestResult,
    RunnerError,
>)
    requires
        !success && !compilation_failed(stderr@) ==> failure_search_readable(
            output_lines(stdout@, stderr@),
            0,
        ),
    ensures
        success ==> (r matches Ok(f) && !f.failed && f.killed_by is None),
        !success ==> (r is Err <==> (contains(stderr@, "Compiler run failed"@) || contains(
            stderr@,
            "could not compile"@,
        ) || contains(stderr@, "Failed to resolve"@))),
        !success && compilation_failed(stderr@) ==> (r matches Err(RunnerError::TestExecution(m))
            && m@ == compilation_message(stdout@, stderr@)),
        !success && !compilation_failed(stderr@) ==> (r matches Ok(f) && f.failed && match failed_test_in(
            output_lines(stdout@, stderr@),
            0,
        ) {
            Some(n) => f.killed_by matches Some(k) && k@ == n,
            None => f.killed_by is None,
        }),
{
    if success {
        return Ok(ForgeTestResult { failed: false, killed_by: None });
    }
    let e = chars_of(stderr);
    if contains_seq(&e, &chars_of("Compiler run failed")) || contains_seq(
        &e,
        &chars_of("could not compile"),
    ) || contains_seq(&e, &chars_of("Failed to resolve")) {
        let mut v = chars_of("forge compilation failed:\nstdout: ");
        push_all(&mut v, &chars_of(stdout));
        push_all(&mut v, &chars_of("\nstderr: "));
        push_all(&mut v, &e);
        return Err(RunnerError::TestExecution(string_of(&v)));
    }
    let killed_by = parse_failed_test_from_output(stdout, stderr);
    Ok(ForgeTestResult { failed: true, killed_by })
}

/// `classify_forge_output` wherever it is defined: `None` for the output on which
/// the search for the failed test meets a JSON report that names its contract by
/// a path without a contract name.
pub fn classify_forge_output_checked(success: bool, stdout: &str, stderr: &str) -> (r: Option<
    Result<ForgeTestResult, RunnerError>,
>)
    ensures
        r is None <==> (!success && !compilation_failed(stderr@) && !failure_search_readable(
            output_lines(stdout@, stderr@),
            0,
        )),
        r matches Some(x) ==> (success ==> (x matches Ok(f) && !f.failed && f.killed_by is None)),
        r matches Some(x) ==> (!success ==> (x is Err <==> (contains(stderr@, "Compiler run failed"@)
            || contains(stderr@, "could not compile"@) || contains(stderr@, "Failed to resolve"@)))),
        r matches Some(x) ==> (!success && compilation_failed(stderr@) ==> (x matches Err(
            RunnerError::TestExecution(m),
        ) && m@ == compilation_message(stdout@, stderr@))),
        r matches Some(x) ==> (!success && !compilation_failed(stderr@) ==> (x matches Ok(f)
            && f.failed && match failed_test_in(output_lines(stdout@, stderr@), 0) {
            Some(n) => f.killed_by matches Some(k) && k@ == n,
            None => f.killed_by is None,
        })),
{
    if !success {
        let e = chars_of(stderr);
        let compile = contains_seq(&e, &chars_of("Compiler run failed")) || contains_seq(
            &e,
            &chars_of("could not compile"),
        ) || contains_seq(&e, &chars_of("Failed to resolve"));
        if !compile && !failure_output_readable(stdout, stderr) {
            return None;
        }
    }
    Some(classify_forge_output(success, stdout, stderr))
}

// ---------------------------------------------------------------------------
// Listing the tests
// ---------------------------------------------------------------------------

/// Whether a line of `s` begins with `{` at position `p`.
pub open spec fn opens_json_line(s: Seq<char>, p: int) -> bool {
    0 <= p < s.len() && s[p] == '{' && (p == 0 || s[p - 1] == '\n')
}

/// The first position from the `i`-th on at which a line of `s` begins with `{`:
/// where the JSON listing starts, after what forge printed before it.
pub open spec fn json_start_from(s: Seq<char>, i: int) -> Option<int>
    decreases s.len() - i,
{
    if i < 0 || i >= s.len() {
        None
    } else if opens_json_line(s, i) {
        Some(i)
    } else {
        json_start_from(s, i + 1)
    }
}

/// The tests listed for the contract `contract`: `contract::test` for each string
/// of `items`, in order; other items are passed over.
pub open spec fn listed_tests(contract: Seq<char>, items: Seq<JsonValue>) -> Seq<Seq<char>>
    decreases items.len(),
{
    if items.len() == 0 {
        Seq::empty()
    } else {
        let rest = listed_tests(contract, items.drop_last());
        match items.last() {
            JsonValue::Str(t) => rest.push(contract + "::"@ + t@),
            _ => rest,
        }
    }
}

/// The tests listed for the contracts of one file: those of each contract whose
/// value is an array, in order.
pub open spec fn listed_in_file(cs: Seq<(String, JsonValue)>) -> Seq<Seq<char>>
    decreases cs.len(),
{
    if cs.len() == 0 {
        Seq::empty()
    } else {
        listed_in_file(cs.drop_last()) + match cs.last().1 {
            JsonValue::Array(a) => listed_tests(cs.last().0@, a@),
            _ => Seq::empty(),
        }
    }
}

/// The tests of a `forge test --list --json` listing: those of each file whose
/// value is an object, in order.
pub open spec fn listed_names(fs: Seq<(String, JsonValue)>) -> Seq<Seq<char>>
    decreases fs.len(),
{
    if fs.len() == 0 {
        Seq::empty()
    } else {
        listed_names(fs.drop_last()) + match fs.last().1 {
            JsonValue::Object(cs) => listed_in_file(cs@),
            _ => Seq::empty(),
        }
    }
}

fn append_strings(names: &mut Vec<String>, more: Vec<String>)
    ensures
        str_views(final(names)@) == str_views(old(names)@) + str_views(more@),
{
    let mut more = more;
    let ghost m = more@;
    names.append(&mut more);
    assert(str_views(names@) =~= str_views(old(names)@) + str_views(m));
}

fn tests_of(contract: &str, items: &Vec<JsonValue>) -> (r: Vec<String>)
    ensures
        str_views(r@) == listed_tests(contract@, items@),
{
    let mut r: Vec<String> = Vec::new();
    let mut i: usize = 0;
    while i < items.len()
        invariant
            i <= items.len(),
            str_views(r@) == listed_tests(contract@, items@.take(i as int)),
        decreases items.len() - i,
    {
        assert(items@.take(i + 1).drop_last() == items@.take(i as int));
        match &items[i] {
            JsonValue::Str(t) => {
                let mut v = chars_of(contract);
                push_all(&mut v, &chars_of("::"));
                push_all(&mut v, &chars_of(t.as_str()));
                let ghost before = r@;
                r.push(string_of(&v));
                assert(str_views(r@) =~= str_views(before).push(contract@ + "::"@ + t@));
            },
            _ => {},
        }
        i += 1;
    }
    assert(items@.take(items.len() as int) == items@);
    r
}

fn tests_in_file(cs: &Vec<(String, JsonValue)>) -> (r: Vec<String>)
    ensures
        str_views(r@) == listed_in_file(cs@),
{
    let mut r: Vec<String> = Vec::new();
    let mut i: usize = 0;
    while i < cs.len()
        invariant
            i <= cs.len(),
            str_views(r@) == listed_in_file(cs@.take(i as int)),
        decreases cs.len() - i,
    {
        assert(cs@.take(i + 1).drop_last() == cs@.take(i as int));
        match &cs[i].1 {
            JsonValue::Array(a) => {
                let more = tests_of(cs[i].0.as_str(), a);
                append_strings(&mut r, more);
            },
            _ => {
                assert(str_views(r@) =~= str_views(r@) + Seq::<Seq<char>>::empty());
            },
        }
        i += 1;
    }
    assert(cs@.take(cs.len() as int) == cs@);
    r
}

fn listing_tests(fs: &Vec<(String, JsonValue)>) -> (r: Vec<String>)
    ensures
        str_views(r@) == listed_names(fs@),
{
    let mut r: Vec<String> = Vec::new();
    let mut i: usize = 0;
    while i < fs.len()
        invariant
            i <= fs.len(),
            str_views(r@) == listed_names(fs@.take(i as int)),
        decreases fs.len() - i,
    {
        assert(fs@.take(i + 1).drop_last() == fs@.take(i as int));
        match &fs[i].1 {
            JsonValue::Object(cs) => {
                let more = tests_in_file(cs);
                append_strings(&mut r, more);
            },
            _ => {
                assert(str_views(r@) =~= str_views(r@) + Seq::<Seq<char>>::empty());
            },
        }
        i += 1;
    }
    assert(fs@.take(fs.len() as int) == fs@);
    r
}

/// The name of the `j`-th listed test of `contract`, `contract::test`, when that
/// entry of `items` is a string.
pub open spec fn test_name(contract: Seq<char>, items: Seq<JsonValue>, j: int) -> Option<Seq<char>> {
    if 0 <= j < items.len() {
        match items[j] {
            JsonValue::Str(t) => Some(contract + "::"@ + t@),
            _ => None,
        }
    } else {
        None
    }
}

/// The name of the `j`-th test of the `i`-th contract of a file's listing, when
/// that contract's value is an array whose `j`-th entry is a string.
pub open spec fn contract_test_name(cs: Seq<(String, JsonValue)>, i: int, j: int) -> Option<Seq<char>> {
    if 0 <= i < cs.len() {
        match cs[i].1 {
            JsonValue::Array(a) => test_name(cs[i].0@, a@, j),
            _ => None,
        }
    } else {
        None
    }
}

/// The tests listed for a contract are exactly its string entries, each as
/// `contract::test`.
pub proof fn law_listed_tests_members(contract: Seq<char>, items: Seq<JsonValue>)
    ensures
        forall|j: int|
            #[trigger] test_name(contract, items, j) matches Some(n) ==> listed_tests(contract, items).contains(n),
        forall|n: Seq<char>|
            #[trigger] listed_tests(contract, items).contains(n) ==> exists|j: int|
                #[trigger] test_name(contract, items, j) == Some(n),
    decreases items.len(),
{
    if items.len() > 0 {
        let pre = items.drop_last();
        law_listed_tests_members(contract, pre);
        let rest = listed_tests(contract, pre);
        let last = items.len() - 1;
        assert forall|j: int| #[trigger] test_name(contract, items, j) is Some implies listed_tests(
            contract,
            items,
        ).contains(test_name(contract, items, j)->Some_0) by {
            if j < last {
                assert(items[j] == pre[j]);
                assert(test_name(contract, pre, j) == test_name(contract, items, j));
                let n = test_name(contract, items, j)->Some_0;
                let x = choose|x: int| 0 <= x < rest.len() && rest[x] == n;
                assert(listed_tests(contract, items)[x] == n);
            } else {
                let n = test_name(contract, items, j)->Some_0;
                assert(listed_tests(contract, items)[rest.len() as int] == n);
            }
        }
        assert forall|n: Seq<char>| #[trigger] listed_tests(contract, items).contains(n) implies exists|j: int|
            #[trigger] test_name(contract, items, j) == Some(n) by {
            let x = choose|x: int|
                0 <= x < listed_tests(contract, items).len() && listed_tests(contract, items)[x] == n;
            if x < rest.len() {
                assert(rest[x] == n);
                assert(rest.contains(n));
                let j = choose|j: int| #[trigger] test_name(contract, pre, j) == Some(n);
                assert(items[j] == pre[j]);
                assert(test_name(contract, items, j) == Some(n));
            } else {
                assert(test_name(contract, items, last) == Some(n));
            }
        }
    }
}

/// The tests listed for a file's contracts are exactly the string entries of
/// every contract whose value is an array, each as `contract::test`: none of
/// its contracts is passed over, and nothing else is listed.
pub proof fn law_listed_in_file_members(cs: Seq<(String, JsonValue)>)
    ensures
        forall|i: int, j: int|
            #[trigger] contract_test_name(cs, i, j) matches Some(n) ==> listed_in_file(cs).contains(n),
        forall|n: Seq<char>|
            #[trigger] listed_in_file(cs).contains(n) ==> exists|i: int, j: int|
                #[trigger] contract_test_name(cs, i, j) == Some(n),
    decreases cs.len(),
{
    if cs.len() > 0 {
        let pre = cs.drop_last();
        law_listed_in_file_members(pre);
        let rest = listed_in_file(pre);
        let last = cs.len() - 1;
        let more = match cs[last].1 {
            JsonValue::Array(a) => listed_tests(cs[last].0@, a@),
            _ => Seq::empty(),
        };
        assert(listed_in_file(cs) == rest + more);
        if cs[last].1 is Array {
            law_listed_tests_members(cs[last].0@, cs[last].1->Array_0@);
        }
        assert forall|i: int, j: int| #[trigger] contract_test_name(cs, i, j) is Some implies listed_in_file(
            cs,
        ).contains(contract_test_name(cs, i, j)->Some_0) by {
            let n = contract_test_name(cs, i, j)->Some_0;
            if i < last {
                assert(cs[i] == pre[i]);
                assert(contract_test_name(pre, i, j) == Some(n));
                let x = choose|x: int| 0 <= x < rest.len() && rest[x] == n;
                assert((rest + more)[x] == n);
            } else {
                let a = cs[last].1->Array_0@;
                assert(test_name(cs[last].0@, a, j) == Some(n));
                let x = choose|x: int| 0 <= x < more.len() && more[x] == n;
                assert((rest + more)[rest.len() + x] == n);
            }
        }
        assert forall|n: Seq<char>| #[trigger] listed_in_file(cs).contains(n) implies exists|i: int, j: int|
            #[trigger] contract_test_name(cs, i, j) == Some(n) by {
            let x = choose|x: int| 0 <= x < (rest + more).len() && (rest + more)[x] == n;
            if x < rest.len() {
                assert(rest[x] == n);
                assert(rest.contains(n));
                let (i, j) = choose|i: int, j: int| #[trigger] contract_test_name(pre, i, j) == Some(n);
                assert(cs[i] == pre[i]);
                assert(contract_test_name(cs, i, j) == Some(n));
            } else {
                assert(more[x - rest.len()] == n);
                assert(more.contains(n));
                let a = cs[last].1->Array_0@;
                let j = choose|j: int| #[trigger] test_name(cs[last].0@, a, j) == Some(n);
                assert(contract_test_name(cs, last, j) == Some(n));
            }
        }
    }
}

/// Listing a file's contracts in two runs and joining the lists is listing them
/// at once: `listed_in_file(cs + ds) == listed_in_file(cs) + listed_in_file(ds)`.
pub proof fn law_listed_in_file_concat(cs: Seq<(String, JsonValue)>, ds: Seq<(String, JsonValue)>)
    ensures
        listed_in_file(cs + ds) == listed_in_file(cs) + listed_in_file(ds),
    decreases ds.len(),
{
    if ds.len() == 0 {
        assert(cs + ds =~= cs);
        assert(listed_in_file(cs) + listed_in_file(ds) =~= listed_in_file(cs));
    } else {
        law_listed_in_file_concat(cs, ds.drop_last());
        assert((cs + ds).drop_last() =~= cs + ds.drop_last());
        assert((cs + ds).last() == ds.last());
        let more = match ds.last().1 {
            JsonValue::Array(a) => listed_tests(ds.last().0@, a@),
            _ => Seq::<Seq<char>>::empty(),
        };
        assert(listed_in_file(cs) + listed_in_file(ds.drop_last()) + more =~= listed_in_file(cs) + (
        listed_in_file(ds.drop_last()) + more));
    }
}

/// Listing the files of a listing in two runs and joining the lists is listing
/// them at once: `listed_names(fs + gs) == listed_names(fs) + listed_names(gs)`.
pub proof fn law_listed_names_concat(fs: Seq<(String, JsonValue)>, gs: Seq<(String, JsonValue)>)
    ensures
        listed_names(fs + gs) == listed_names(fs) + listed_names(gs),
    decreases gs.len(),
{
    if gs.len() == 0 {
        assert(fs + gs =~= fs);
        assert(listed_names(fs) + listed_names(gs) =~= listed_names(fs));
    } else {
        law_listed_names_concat(fs, gs.drop_last());
        assert((fs + gs).drop_last() =~= fs + gs.drop_last());
        assert((fs + gs).last() == gs.last());
        let more = match gs.last().1 {
            JsonValue::Object(cs) => listed_in_file(cs@),
            _ => Seq::<Seq<char>>::empty(),
        };
        assert(listed_names(fs) + listed_names(gs.drop_last()) + more =~= listed_names(fs) + (
        listed_names(gs.drop_last()) + more));
    }
}

/// The message for output with no line that begins with `{`.
pub open spec fn no_json_message(stdout: Seq<char>) -> Seq<char> {
    "no JSON object found in forge output: "@ + stdout
}

/// The message for a listing that serde_json could not read.
pub open spec fn bad_json_message(e: Seq<char>, input: Seq<char>) -> Seq<char> {
    "failed to parse JSON: "@ + e + "\ninput: "@ + input
}

/// What the listing that `forge test --list --json` printed on stdout holds: the
/// tests it lists, as `contract::test` in the listing's order, or why it cannot be
/// read. The listing is the first JSON value from the first line that begins with
/// `{`; what comes before it (build progress) and after it (debug logs) is passed
/// over.
pub open spec fn listing_of(stdout: Seq<char>) -> Result<Seq<Seq<char>>, Seq<char>> {
    match json_start_from(stdout, 0) {
        None => Err(no_json_message(stdout)),
        Some(p) => match crate::json::spec_json_first_value(stdout.skip(p)) {
            Err(m) => Err(bad_json_message(m, stdout.skip(p))),
            Ok(JsonValue::Object(fs)) => if listed_names(fs@).len() == 0 && fs@.len() > 0 {
                Err("JSON contained entries but no test names could be extracted"@)
            } else {
                Ok(listed_names(fs@))
            },
            Ok(_) => Err("expected JSON object"@),
        },
    }
}

/// The tests that `forge test --list --json` listed on stdout, sorted; or why the
/// listing cannot be read.
pub fn parse_list_output(stdout: &str) -> (r: Result<Vec<String>, String>)
    ensures
        match listing_of(stdout@) {
            Ok(ns) => r matches Ok(v) && sorted(str_views(v@)) && str_views(v@).to_multiset()
                == ns.to_multiset(),
            Err(e) => r matches Err(m) && m@ == e,
        },
{
    let s = chars_of(stdout);
    let mut i: usize = 0;
    let mut start: Option<usize> = None;
    while i < s.len()
        invariant_except_break
            start is None,
            json_start_from(s@, 0) == json_start_from(s@, i as int),
        invariant
            i <= s.len(),
            s@ == stdout@,
        ensures
            match start {
                Some(q) => json_start_from(s@, 0) == Some(q as int) && q < s.len(),
                None => json_start_from(s@, 0) is None,
            },
        decreases s.len() - i,
    {
        if s[i] == '{' && (i == 0 || s[i - 1] == '\n') {
            start = Some(i);
            break;
        }
        i += 1;
    }
    let p = match start {
        None => {
            let mut v = chars_of("no JSON object found in forge output: ");
            push_all(&mut v, &s);
            return Err(string_of(&v));
        },
        Some(p) => p,
    };
    let rest = slice_chars(&s, p, s.len());
    assert(rest@ == stdout@.skip(p as int));
    let text = string_of(&rest);
    match json_first_value(text.as_str()) {
        Err(m) => {
            let mut v = chars_of("failed to parse JSON: ");
            push_all(&mut v, &chars_of(m.as_str()));
            push_all(&mut v, &chars_of("\ninput: "));
            push_all(&mut v, &rest);
            Err(string_of(&v))
        },
        Ok(JsonValue::Object(fs)) => {
            let names = listing_tests(&fs);
            if names.len() == 0 && fs.len() > 0 {
                Err(string_of(&chars_of("JSON contained entries but no test names could be extracted")))
            } else {
                Ok(sort_strings(names))
            }
        },
        Ok(_) => Err(string_of(&chars_of("expected JSON object"))),
    }
}

/// What a `forge test --json --list` run says, given its exit status and output:
/// a failed run is an error that carries both outputs; otherwise the listing on
/// stdout, whose error also carries both outputs.
pub fn list_outcome(success: bool, stdout: &str, stderr: &str) -> (r: Result<Vec<String>, RunnerError>)
    ensures
        !success ==> (r matches Err(RunnerError::TestExecution(m)) && m@
            == "forge test --list failed:\nstdout: "@ + stdout@ + "\nstderr: "@ + stderr@),
        success ==> match listing_of(stdout@) {
            Ok(ns) => r matches Ok(v) && sorted(str_views(v@)) && str_views(v@).to_multiset()
                == ns.to_multiset(),
            Err(e) => r matches Err(RunnerError::TestExecution(m)) && m@ == e + "\nstdout: "@
                + stdout@ + "\nstderr: "@ + stderr@,
        },
{
    if !success {
        let mut v = chars_of("forge test --list failed:\nstdout: ");
        push_all(&mut v, &chars_of(stdout));
        push_all(&mut v, &chars_of("\nstderr: "));
        push_all(&mut v, &chars_of(stderr));
        return Err(RunnerError::TestExecution(string_of(&v)));
    }
    match parse_list_output(stdout) {
        Ok(names) => Ok(names),
        Err(e) => {
            let mut v = chars_of(e.as_str());
            push_all(&mut v, &chars_of("\nstdout: "));
            push_all(&mut v, &chars_of(stdout));
            push_all(&mut v, &chars_of("\nstderr: "));
            push_all(&mut v, &chars_of(stderr));
            Err(RunnerError::TestExecution(string_of(&v)))
        },
    }
}

// ---------------------------------------------------------------------------
// Testing one mutant
// ---------------------------------------------------------------------------

/// The outcome of one test command run against a mutant.
#[derive(Debug)]
pub enum CommandOutcome {
    /// A `forge test --json` run.
    Forge(ForgeTestResult),
    /// A custom command; `true` when it exited with failure, killing the mutant.
    Custom(bool),
}

/// What to do next for a mutant.
#[derive(Debug)]
pub enum MutantStep {
    /// Run `forge test --json` with these extra arguments in the project copy.
    RunForge(Vec<String>),
    /// Run this command (program and arguments) in the project copy.
    RunCustom(Vec<String>),
    /// Testing is over: whether the mutant was killed, and by which test if known.
    Done { killed: bool, killed_by: Option<String> },
}

/// Whether an outcome kills the mutant.
pub open spec fn kills(o: CommandOutcome) -> bool {
    match o {
        CommandOutcome::Forge(f) => f.failed,
        CommandOutcome::Custom(k) => k,
    }
}

/// The test that an outcome names as the killer.
pub open spec fn killer(o: CommandOutcome) -> Option<String> {
    match o {
        CommandOutcome::Forge(f) => f.killed_by,
        CommandOutcome::Custom(_) => None,
    }
}

/// The number of commands that a mutant's testing runs at most: those configured,
/// or one plain `forge test` when none is.
pub open spec fn planned_runs(cmds: Seq<TestCommand>) -> nat {
    if cmds.len() == 0 {
        1
    } else {
        cmds.len()
    }
}

/// Whether `last` is an outcome that kills the mutant.
pub open spec fn last_kills(last: Option<CommandOutcome>) -> bool {
    match last {
        Some(o) => kills(o),
        None => false,
    }
}

/// `r` is the step after `ran` commands have run and none killed the mutant: the
/// next command, or the verdict that the mutant survived.
pub open spec fn next_run(cmds: Seq<TestCommand>, ran: int, r: MutantStep) -> bool {
    if ran == planned_runs(cmds) {
        r == (MutantStep::Done { killed: false, killed_by: None })
    } else if cmds.len() == 0 {
        r matches MutantStep::RunForge(a) && a@.len() == 0
    } else {
        match cmds[ran] {
            TestCommand::Foundry { args } => r matches MutantStep::RunForge(a) && str_views(a@)
                == str_views(args@),
            TestCommand::Custom { command, .. } => r matches MutantStep::RunCustom(c) && str_views(
                c@,
            ) == str_views(command@),
        }
    }
}

/// What the step after `ran` runs, the last with the outcome `last`, may be: the
/// verdict that the mutant was killed (by the test the outcome names) when that
/// outcome kills it, and otherwise the next run of `next_run`.
pub open spec fn step_allowed(cmds: Seq<TestCommand>, ran: int, last: Option<CommandOutcome>, r: MutantStep) -> bool {
    &&& match last {
        Some(o) => kills(o) ==> r == (MutantStep::Done { killed: true, killed_by: killer(o) }),
        None => true,
    }
    &&& !last_kills(last) ==> next_run(cmds, ran, r)
}

/// The step that testing a mutant takes after `ran` of its commands have run, the
/// last of them with the outcome `last`. The commands run in the order given; the
/// first that kills the mutant ends the testing (a custom command names no test);
/// a mutant that no command kills survived. With no commands configured, one
/// `forge test` with no extra arguments runs.
pub fn mutant_step(commands: &[TestCommand], ran: usize, last: Option<CommandOutcome>) -> (r:
    MutantStep)
    requires
        ran <= planned_runs(commands@),
    ensures
        step_allowed(commands@, ran as int, last, r),
{
    match last {
        Some(CommandOutcome::Forge(f)) => {
            if f.failed {
                return MutantStep::Done { killed: true, killed_by: f.killed_by };
            }
        },
        Some(CommandOutcome::Custom(k)) => {
            if k {
                return MutantStep::Done { killed: true, killed_by: None };
            }
        },
        None => {},
    }
    if commands.len() == 0 {
        if ran == 0 {
            return MutantStep::RunForge(Vec::new());
        }
        return MutantStep::Done { killed: false, killed_by: None };
    }
    if ran == commands.len() {
        return MutantStep::Done { killed: false, killed_by: None };
    }
    match &commands[ran] {
        TestCommand::Foundry { args } => {
            let a = crate::text::clone_strings(args);
            MutantStep::RunForge(a)
        },
        TestCommand::Custom { command, .. } => {
            let c = crate::text::clone_strings(command);
            MutantStep::RunCustom(c)
        },
    }
}

/// The outcome of the run before step `j`: none before the first step.
pub open spec fn outcome_before(outcomes: Seq<CommandOutcome>, j: int) -> Option<CommandOutcome> {
    if j <= 0 {
        None
    } else {
        Some(outcomes[j - 1])
    }
}

/// The first of the outcomes `outcomes[i..n]` that kills the mutant, or -1.
pub open spec fn first_kill(outcomes: Seq<CommandOutcome>, n: int, i: int) -> int
    decreases n - i,
{
    if i < 0 || i >= n {
        -1
    } else if kills(outcomes[i]) {
        i
    } else {
        first_kill(outcomes, n, i + 1)
    }
}

/// How many commands testing a mutant runs when its runs have the outcomes
/// `outcomes`: up to and including the first that kills it, or all planned.
pub open spec fn runs_made(cmds: Seq<TestCommand>, outcomes: Seq<CommandOutcome>) -> int {
    let k = first_kill(outcomes, planned_runs(cmds) as int, 0);
    if k >= 0 {
        k + 1
    } else {
        planned_runs(cmds) as int
    }
}

/// The verdict on a mutant whose runs have the outcomes `outcomes`: killed, by
/// the test that the first killing outcome names, or survived.
pub open spec fn run_verdict(cmds: Seq<TestCommand>, outcomes: Seq<CommandOutcome>) -> MutantStep {
    let k = first_kill(outcomes, planned_runs(cmds) as int, 0);
    if k >= 0 {
        MutantStep::Done { killed: true, killed_by: killer(outcomes[k]) }
    } else {
        MutantStep::Done { killed: false, killed_by: None }
    }
}

proof fn lemma_first_kill(outcomes: Seq<CommandOutcome>, n: int, i: int)
    requires
        0 <= i <= n,
    ensures
        first_kill(outcomes, n, i) >= 0 ==> i <= first_kill(outcomes, n, i) < n && kills(
            outcomes[first_kill(outcomes, n, i)],
        ),
        forall|j: int|
            i <= j < n && (first_kill(outcomes, n, i) < 0 || j < first_kill(outcomes, n, i)) ==> !kills(
                #[trigger] outcomes[j],
            ),
    decreases n - i,
{
    if i < n && !kills(outcomes[i]) {
        lemma_first_kill(outcomes, n, i + 1);
    }
}

/// A whole test of one mutant, as a driver runs it with `mutant_step`: step `j`
/// is taken after `j` runs, the last with outcome `outcomes[j - 1]`, and the
/// driver stops at the first verdict. Then the commands run in the order
/// configured, one per step (one plain `forge test` when none is configured),
/// the testing stops right after the first run that kills the mutant, and the
/// verdict is that kill, naming the test the run reported, or else survival
/// after every command ran.
pub proof fn law_mutant_run(
    cmds: Seq<TestCommand>,
    outcomes: Seq<CommandOutcome>,
    steps: Seq<MutantStep>,
)
    requires
        outcomes.len() >= planned_runs(cmds),
        steps.len() >= 1,
        forall|j: int|
            0 <= j < steps.len() ==> step_allowed(cmds, j, outcome_before(outcomes, j), #[trigger] steps[j]),
        forall|j: int| 0 <= j < steps.len() - 1 ==> !(#[trigger] steps[j] is Done),
        steps.last() is Done,
    ensures
        steps.len() == runs_made(cmds, outcomes) + 1,
        steps.last() == run_verdict(cmds, outcomes),
        forall|j: int| 0 <= j < steps.len() - 1 ==> next_run(cmds, j, #[trigger] steps[j]),
{
    let n = planned_runs(cmds) as int;
    lemma_first_kill(outcomes, n, 0);
    let len = runs_made(cmds, outcomes);
    assert forall|j: int| 0 <= j < len && j < steps.len() implies next_run(cmds, j, #[trigger] steps[j])
        && !(steps[j] is Done) by {
        if j > 0 {
            assert(!kills(outcomes[j - 1]));
        }
        assert(step_allowed(cmds, j, outcome_before(outcomes, j), steps[j]));
        assert(j < n);
    }
    if len < steps.len() {
        let last = outcome_before(outcomes, len);
        assert(step_allowed(cmds, len, last, steps[len]));
        if first_kill(outcomes, n, 0) < 0 && len > 0 {
            assert(!kills(outcomes[len - 1]));
        }
    }
    if steps.len() - 1 < len {
        assert(!(steps[steps.len() - 1] is Done));
    }
    if steps.len() - 1 > len {
        assert(steps[len] is Done);
    }
}

/// The error for a directory to symlink into the project copy that the project
/// does not have.
pub fn missing_symlink_error(name: &str) -> (r: RunnerError)
    ensures
        r matches RunnerError::ProjectCopy(m) && m@
            == "configured symlink directory not found in project: "@ + name@,
{
    let mut v = chars_of("configured symlink directory not found in project: ");
    push_all(&mut v, &chars_of(name));
    RunnerError::ProjectCopy(string_of(&v))
}

/// The error for a mutant file that could not be read.
pub fn unreadable_mutant_error(reason: &str) -> (r: RunnerError)
    ensures
        r matches RunnerError::MutantApplication(m) && m@ == "failed to read mutant file: "@
            + reason@,
{
    let mut v = chars_of("failed to read mutant file: ");
    push_all(&mut v, &chars_of(reason));
    RunnerError::MutantApplication(string_of(&v))
}

} // verus!
