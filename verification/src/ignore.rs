//! `dregs:ignore` comments: the source lines whose mutants are left out.
use vstd::prelude::*;

use crate::external::io_error_text;
use crate::generator::Mutant;
use crate::paths::{paths_equal, spec_path_eq};
use crate::text::{
    chars_of, contains, contains_seq, decimal, decimal_chars, lines, occurs_at, push_all,
    split_lines, string_of, views,
};

verus! {

/// Errors in reading `dregs:ignore` comments.
#[derive(Debug)]
pub enum IgnoreError {
    Io(std::io::Error),
    UnclosedBlock { path: String, line: u32 },
    UnmatchedEnd { path: String, line: u32 },
    NestedStart { path: String, line: u32, start_line: u32 },
}

impl IgnoreError {
    /// The error's message.
    pub fn to_string(&self) -> (r: String)
        ensures
            match *self {
                IgnoreError::UnclosedBlock { path, line } => r@ == path@ + ":"@ + decimal(
                    line as nat,
                ) + ": unclosed dregs:ignore-start block"@,
                IgnoreError::UnmatchedEnd { path, line } => r@ == path@ + ":"@ + decimal(
                    line as nat,
                ) + ": dregs:ignore-end without matching dregs:ignore-start"@,
                IgnoreError::NestedStart { path, line, start_line } => r@ == path@ + ":"@
                    + decimal(line as nat)
                    + ": nested dregs:ignore-start (previous block started at line "@ + decimal(
                    start_line as nat,
                ) + ")"@,
                IgnoreError::Io(_) => crate::text::starts_with(r@, "io error: "@),
            },
    {
        match self {
            IgnoreError::Io(e) => {
                let mut v = chars_of("io error: ");
                let ghost head = v@;
                let t = io_error_text(e);
                push_all(&mut v, &chars_of(t.as_str()));
                assert(v@.take(head.len() as int) == head);
                string_of(&v)
            },
            IgnoreError::UnclosedBlock { path, line } => {
                let mut v = chars_of(path.as_str());
                push_all(&mut v, &chars_of(":"));
                push_all(&mut v, &decimal_chars(*line as u64));
                push_all(&mut v, &chars_of(": unclosed dregs:ignore-start block"));
                string_of(&v)
            },
            IgnoreError::UnmatchedEnd { path, line } => {
                let mut v = chars_of(path.as_str());
                push_all(&mut v, &chars_of(":"));
                push_all(&mut v, &decimal_chars(*line as u64));
                push_all(&mut v, &chars_of(": dregs:ignore-end without matching dregs:ignore-start"));
                string_of(&v)
            },
            IgnoreError::NestedStart { path, line, start_line } => {
                let mut v = chars_of(path.as_str());
                push_all(&mut v, &chars_of(":"));
                push_all(&mut v, &decimal_chars(*line as u64));
                push_all(
                    &mut v,
                    &chars_of(": nested dregs:ignore-start (previous block started at line "),
                );
                push_all(&mut v, &decimal_chars(*start_line as u64));
                push_all(&mut v, &chars_of(")"));
                string_of(&v)
            },
        }
    }
}

impl From<std::io::Error> for IgnoreError {
    fn from(e: std::io::Error) -> (r: Self) {
        IgnoreError::Io(e)
    }
}

impl vstd::std_specs::convert::FromSpecImpl<std::io::Error> for IgnoreError {
    open spec fn obeys_from_spec() -> bool {
        true
    }

    open spec fn from_spec(e: std::io::Error) -> Self {
        IgnoreError::Io(e)
    }
}

/// What reading the comments of a file gives: the ignored line numbers, or the
/// first misuse of the block markers (with its line numbers).
pub enum IgnoreOutcome {
    Lines(Set<int>),
    UnclosedBlock(int),
    UnmatchedEnd(int),
    NestedStart(int, int),
}

/// Reading lines `ls` from the `i`-th (line number `i + 1`) on, with `acc` the
/// lines ignored so far and `block` the start of the open block, if any.
///
/// A line with `dregs:ignore-start` opens a block, one with `dregs:ignore-end`
/// closes it; both are ignored, as is every line inside a block and every line
/// with a plain `dregs:ignore`.
pub open spec fn ignore_fold(ls: Seq<Seq<char>>, i: int, acc: Set<int>, block: Option<int>) -> IgnoreOutcome
    decreases ls.len() - i,
{
    if i < 0 || i >= ls.len() {
        match block {
            Some(s) => IgnoreOutcome::UnclosedBlock(s),
            None => IgnoreOutcome::Lines(acc),
        }
    } else {
        let line = ls[i];
        let n = i + 1;
        if contains(line, "dregs:ignore-start"@) {
            match block {
                Some(s) => IgnoreOutcome::NestedStart(n, s),
                None => ignore_fold(ls, i + 1, acc.insert(n), Some(n)),
            }
        } else if contains(line, "dregs:ignore-end"@) {
            match block {
                None => IgnoreOutcome::UnmatchedEnd(n),
                Some(_) => ignore_fold(ls, i + 1, acc.insert(n), None),
            }
        } else if block is Some || contains(line, "dregs:ignore"@) {
            ignore_fold(ls, i + 1, acc.insert(n), block)
        } else {
            ignore_fold(ls, i + 1, acc, block)
        }
    }
}

/// The ignored lines of a source text.
pub open spec fn ignored_lines_of(content: Seq<char>) -> IgnoreOutcome {
    ignore_fold(lines(content), 0, Set::empty(), None)
}

/// The numbers in a vector, as a set.
pub open spec fn line_set(v: Seq<u32>) -> Set<int> {
    Set::new(|n: int| exists|j: int| 0 <= j < v.len() && v[j] == n)
}

/// The line numbers (1-based) of the source text `content` that `dregs:ignore`
/// comments exclude from mutation, in ascending order. `path` names the file
/// in error messages.
pub fn ignored_lines_in(content: &str, path: &str) -> (r: Result<Vec<u32>, IgnoreError>)
    requires
        lines(content@).len() <= u32::MAX,
    ensures
        match ignored_lines_of(content@) {
            IgnoreOutcome::Lines(s) => r matches Ok(v) && line_set(v@) == s && forall|a: int, b: int|
                0 <= a < b < v@.len() ==> v@[a] < v@[b],
            IgnoreOutcome::UnclosedBlock(l) => r matches Err(IgnoreError::UnclosedBlock { path: p, line })
                && p@ == path@ && line == l,
            IgnoreOutcome::UnmatchedEnd(l) => r matches Err(IgnoreError::UnmatchedEnd { path: p, line })
                && p@ == path@ && line == l,
            IgnoreOutcome::NestedStart(l, s) => r matches Err(
                IgnoreError::NestedStart { path: p, line, start_line },
            ) && p@ == path@ && line == l && start_line == s,
        },
{
    let ls = split_lines(&chars_of(content));
    let ghost lsv = lines(content@);
    let start_marker = chars_of("dregs:ignore-start");
    let end_marker = chars_of("dregs:ignore-end");
    let marker = chars_of("dregs:ignore");
    let mut ignored: Vec<u32> = Vec::new();
    let mut block_start: Option<u32> = None;
    let mut idx: usize = 0;
    assert(line_set(ignored@) =~= Set::<int>::empty());
    while idx < ls.len()
        invariant
            idx <= ls.len(),
            views(ls@) == lsv,
            lsv == lines(content@),
            lsv.len() <= u32::MAX,
            start_marker@ == "dregs:ignore-start"@,
            end_marker@ == "dregs:ignore-end"@,
            marker@ == "dregs:ignore"@,
            ignored_lines_of(content@) == ignore_fold(
                lsv,
                idx as int,
                line_set(ignored@),
                match block_start {
                    Some(s) => Some(s as int),
                    None => None,
                },
            ),
            forall|a: int, b: int| 0 <= a < b < ignored@.len() ==> ignored@[a] < ignored@[b],
            forall|a: int| 0 <= a < ignored@.len() ==> ignored@[a] <= idx,
        decreases ls.len() - idx,
    {
        let line = &ls[idx];
        assert(lsv[idx as int] == line@);
        let line_num = (idx + 1) as u32;
        let ghost before = ignored@;
        if contains_seq(line, &start_marker) {
            if let Some(start_line) = block_start {
                return Err(
                    IgnoreError::NestedStart {
                        path: String::from_str(path),
                        line: line_num,
                        start_line,
                    },
                );
            }
            block_start = Some(line_num);
            ignored.push(line_num);
        } else if contains_seq(line, &end_marker) {
            if block_start.is_none() {
                return Err(
                    IgnoreError::UnmatchedEnd { path: String::from_str(path), line: line_num },
                );
            }
            block_start = None;
            ignored.push(line_num);
        } else if block_start.is_some() || contains_seq(line, &marker) {
            ignored.push(line_num);
        }
        proof {
            if ignored@.len() > before.len() {
                assert(ignored@ == before.push(line_num));
                assert(line_num as int == idx + 1);
                assert forall|n: int| line_set(ignored@).contains(n) <==> line_set(before).insert(
                    idx + 1,
                ).contains(n) by {
                    if line_set(ignored@).contains(n) {
                        let j = choose|j: int| 0 <= j < ignored@.len() && ignored@[j] == n;
                        if j < before.len() {
                            assert(before[j] == n);
                        }
                    }
                    if line_set(before).contains(n) {
                        let j = choose|j: int| 0 <= j < before.len() && before[j] == n;
                        assert(ignored@[j] == n);
                    }
                    if n == idx + 1 {
                        assert(ignored@[before.len() as int] == n);
                    }
                }
                assert(line_set(ignored@) =~= line_set(before).insert(idx + 1));
            }
        }
        idx += 1;
    }
    if let Some(start_line) = block_start {
        return Err(IgnoreError::UnclosedBlock { path: String::from_str(path), line: start_line });
    }
    Ok(ignored)
}

/// The state of the comment reading after the `i`-th line: the ignored lines so
/// far and the open block, when the line is no misuse.
pub open spec fn fold_step(line: Seq<char>, n: int, acc: Set<int>, block: Option<int>) -> (
    Set<int>,
    Option<int>,
) {
    if contains(line, "dregs:ignore-start"@) {
        (acc.insert(n), Some(n))
    } else if contains(line, "dregs:ignore-end"@) {
        (acc.insert(n), None)
    } else if block is Some || contains(line, "dregs:ignore"@) {
        (acc.insert(n), block)
    } else {
        (acc, block)
    }
}

proof fn lemma_fold_step(ls: Seq<Seq<char>>, i: int, acc: Set<int>, block: Option<int>)
    requires
        0 <= i < ls.len(),
        ignore_fold(ls, i, acc, block) is Lines,
    ensures
        ignore_fold(ls, i, acc, block) == ignore_fold(
            ls,
            i + 1,
            fold_step(ls[i], i + 1, acc, block).0,
            fold_step(ls[i], i + 1, acc, block).1,
        ),
        contains(ls[i], "dregs:ignore-start"@) ==> block is None,
        !contains(ls[i], "dregs:ignore-start"@) && contains(ls[i], "dregs:ignore-end"@) ==> block is Some,
{
}

proof fn lemma_fold_mono(ls: Seq<Seq<char>>, i: int, acc: Set<int>, block: Option<int>, n: int)
    requires
        0 <= i,
        acc.contains(n),
    ensures
        ignore_fold(ls, i, acc, block) matches IgnoreOutcome::Lines(s) ==> s.contains(n),
    decreases ls.len() - i,
{
    if i < ls.len() && ignore_fold(ls, i, acc, block) is Lines {
        lemma_fold_step(ls, i, acc, block);
        let st = fold_step(ls[i], i + 1, acc, block);
        lemma_fold_mono(ls, i + 1, st.0, st.1, n);
    }
}

proof fn lemma_marker_lines(ls: Seq<Seq<char>>, i: int, acc: Set<int>, block: Option<int>, k: int)
    requires
        0 <= i <= k < ls.len(),
        contains(ls[k], "dregs:ignore"@),
    ensures
        ignore_fold(ls, i, acc, block) matches IgnoreOutcome::Lines(s) ==> s.contains(k + 1),
    decreases ls.len() - i,
{
    if ignore_fold(ls, i, acc, block) is Lines {
        lemma_fold_step(ls, i, acc, block);
        let st = fold_step(ls[i], i + 1, acc, block);
        if i == k {
            lemma_fold_mono(ls, i + 1, st.0, st.1, k + 1);
        } else {
            lemma_marker_lines(ls, i + 1, st.0, st.1, k);
        }
    }
}

proof fn lemma_open_block_lines(ls: Seq<Seq<char>>, i: int, acc: Set<int>, block: Option<int>, k: int)
    requires
        0 <= i <= k < ls.len(),
        block is Some,
        forall|j: int| i <= j <= k ==> !contains(#[trigger] ls[j], "dregs:ignore-end"@),
    ensures
        ignore_fold(ls, i, acc, block) matches IgnoreOutcome::Lines(s) ==> s.contains(k + 1),
    decreases ls.len() - i,
{
    if ignore_fold(ls, i, acc, block) is Lines {
        lemma_fold_step(ls, i, acc, block);
        let st = fold_step(ls[i], i + 1, acc, block);
        assert(!contains(ls[i], "dregs:ignore-end"@));
        if i == k {
            lemma_fold_mono(ls, i + 1, st.0, st.1, k + 1);
        } else {
            lemma_open_block_lines(ls, i + 1, st.0, st.1, k);
        }
    }
}

proof fn lemma_block_lines(
    ls: Seq<Seq<char>>,
    i: int,
    acc: Set<int>,
    block: Option<int>,
    a: int,
    k: int,
)
    requires
        0 <= i <= a <= k < ls.len(),
        contains(ls[a], "dregs:ignore-start"@),
        forall|j: int| a < j <= k ==> !contains(#[trigger] ls[j], "dregs:ignore-end"@),
    ensures
        ignore_fold(ls, i, acc, block) matches IgnoreOutcome::Lines(s) ==> s.contains(k + 1),
    decreases ls.len() - i,
{
    if ignore_fold(ls, i, acc, block) is Lines {
        lemma_fold_step(ls, i, acc, block);
        let st = fold_step(ls[i], i + 1, acc, block);
        if i < a {
            lemma_block_lines(ls, i + 1, st.0, st.1, a, k);
        } else if k == a {
            lemma_fold_mono(ls, i + 1, st.0, st.1, k + 1);
        } else {
            lemma_open_block_lines(ls, i + 1, st.0, st.1, k);
        }
    }
}

/// Line `k` (0-based) of `ls` lies in a block opened at line `a`: line `a`
/// carries `dregs:ignore-start` and no line after it up to `k` carries
/// `dregs:ignore-end`.
pub open spec fn in_block(ls: Seq<Seq<char>>, a: int, k: int) -> bool {
    &&& 0 <= a <= k < ls.len()
    &&& contains(ls[a], "dregs:ignore-start"@)
    &&& forall|j: int| a < j <= k ==> !contains(#[trigger] ls[j], "dregs:ignore-end"@)
}

/// What `dregs:ignore` comments promise: when the comments of a text are well
/// formed, every line that carries a marker (`dregs:ignore`, `-start` or `-end`)
/// is ignored, and so is every line of a block, from its `dregs:ignore-start`
/// line up to the line before its `dregs:ignore-end` (the end line carries a
/// marker itself).
pub proof fn law_ignored_lines(content: Seq<char>)
    ensures
        ignored_lines_of(content) matches IgnoreOutcome::Lines(s) ==> forall|k: int|
            0 <= k < lines(content).len() && contains(#[trigger] lines(content)[k], "dregs:ignore"@)
                ==> s.contains(k + 1),
        ignored_lines_of(content) matches IgnoreOutcome::Lines(s) ==> forall|a: int, k: int|
            #[trigger] in_block(lines(content), a, k) ==> s.contains(k + 1),
{
    let ls = lines(content);
    if ignored_lines_of(content) is Lines {
        let s = ignored_lines_of(content)->Lines_0;
        assert forall|k: int| 0 <= k < ls.len() && contains(#[trigger] ls[k], "dregs:ignore"@) implies s.contains(
            k + 1,
        ) by {
            lemma_marker_lines(ls, 0, Set::empty(), None, k);
        }
        assert forall|a: int, k: int| #[trigger] in_block(ls, a, k) implies s.contains(k + 1) by {
            lemma_block_lines(ls, 0, Set::empty(), None, a, k);
        }
    }
}

proof fn lemma_marker_in_markers(line: Seq<char>)
    ensures
        contains(line, "dregs:ignore-start"@) ==> contains(line, "dregs:ignore"@),
        contains(line, "dregs:ignore-end"@) ==> contains(line, "dregs:ignore"@),
{
    reveal_strlit("dregs:ignore-start");
    reveal_strlit("dregs:ignore-end");
    reveal_strlit("dregs:ignore");
    let m = "dregs:ignore"@;
    if contains(line, "dregs:ignore-start"@) {
        let i = choose|i: int| #[trigger] occurs_at(line, "dregs:ignore-start"@, i);
        assert("dregs:ignore-start"@.subrange(0, m.len() as int) =~= m);
        assert(line.subrange(i, i + m.len()) =~= "dregs:ignore-start"@.subrange(0, m.len() as int));
        assert(occurs_at(line, m, i));
    }
    if contains(line, "dregs:ignore-end"@) {
        let i = choose|i: int| #[trigger] occurs_at(line, "dregs:ignore-end"@, i);
        assert("dregs:ignore-end"@.subrange(0, m.len() as int) =~= m);
        assert(line.subrange(i, i + m.len()) =~= "dregs:ignore-end"@.subrange(0, m.len() as int));
        assert(occurs_at(line, m, i));
    }
}

/// Line number `n` (1-based) of `ls` is one that the comments may ignore: its
/// line carries a marker, or lies in a block.
pub open spec fn ignorable(ls: Seq<Seq<char>>, n: int) -> bool {
    1 <= n <= ls.len() && (contains(ls[n - 1], "dregs:ignore"@) || exists|a: int|
        #[trigger] in_block(ls, a, n - 1))
}

proof fn lemma_fold_only(ls: Seq<Seq<char>>, i: int, acc: Set<int>, block: Option<int>)
    requires
        0 <= i <= ls.len(),
        forall|n: int| acc.contains(n) ==> ignorable(ls, n),
        block matches Some(b) ==> 1 <= b <= i && in_block(ls, b - 1, i - 1),
    ensures
        ignore_fold(ls, i, acc, block) matches IgnoreOutcome::Lines(s) ==> forall|n: int|
            s.contains(n) ==> ignorable(ls, n),
    decreases ls.len() - i,
{
    if i < ls.len() && ignore_fold(ls, i, acc, block) is Lines {
        lemma_fold_step(ls, i, acc, block);
        lemma_marker_in_markers(ls[i]);
        let st = fold_step(ls[i], i + 1, acc, block);
        let line = ls[i];
        if contains(line, "dregs:ignore-start"@) {
            assert(in_block(ls, i, i));
        } else if contains(line, "dregs:ignore-end"@) {
        } else if block is Some {
            let b = block->Some_0;
            assert(in_block(ls, b - 1, i));
        }
        assert forall|n: int| st.0.contains(n) implies ignorable(ls, n) by {
            if n == i + 1 && !acc.contains(n) {
                if !contains(line, "dregs:ignore"@) {
                    let b = block->Some_0;
                    assert(in_block(ls, b - 1, n - 1));
                }
            }
        }
        lemma_fold_only(ls, i + 1, st.0, st.1);
    }
}

/// The comments ignore nothing else: every ignored line carries a marker or
/// lies in a block (see `in_block`).
pub proof fn law_only_marked_lines_ignored(content: Seq<char>)
    ensures
        ignored_lines_of(content) matches IgnoreOutcome::Lines(s) ==> forall|n: int|
            #[trigger] s.contains(n) ==> ignorable(lines(content), n),
{
    lemma_fold_only(lines(content), 0, Set::empty(), None);
}

/// The line opens a block (it carries `dregs:ignore-start`).
pub open spec fn is_start_line(line: Seq<char>) -> bool {
    contains(line, "dregs:ignore-start"@)
}

/// The line closes a block (it carries `dregs:ignore-end` and no
/// `dregs:ignore-start`).
pub open spec fn is_end_line(line: Seq<char>) -> bool {
    !is_start_line(line) && contains(line, "dregs:ignore-end"@)
}

/// The index of the start line of the block still open before line `i`
/// (0-based): the last block marker before it is a start, and this is its line;
/// -1 when no block is open.
pub open spec fn opener(ls: Seq<Seq<char>>, i: int) -> int
    decreases i,
{
    if i <= 0 || i > ls.len() {
        -1
    } else if is_start_line(ls[i - 1]) {
        i - 1
    } else if is_end_line(ls[i - 1]) {
        -1
    } else {
        opener(ls, i - 1)
    }
}

/// Line `i` misuses a block marker: a start inside an open block, or an end
/// with no block open.
pub open spec fn misuses(ls: Seq<Seq<char>>, i: int) -> bool {
    (is_start_line(ls[i]) && opener(ls, i) >= 0) || (is_end_line(ls[i]) && opener(ls, i) < 0)
}

/// The first line from `i` on that misuses a block marker, or -1.
pub open spec fn first_misuse_from(ls: Seq<Seq<char>>, i: int) -> int
    decreases ls.len() - i,
{
    if i < 0 || i >= ls.len() {
        -1
    } else if misuses(ls, i) {
        i
    } else {
        first_misuse_from(ls, i + 1)
    }
}

/// The error for the misuse on line `k` (0-based): a nested start, naming the
/// start of the open block, or an unmatched end.
pub open spec fn misuse_error(ls: Seq<Seq<char>>, k: int) -> IgnoreOutcome {
    if is_start_line(ls[k]) {
        IgnoreOutcome::NestedStart(k + 1, opener(ls, k) + 1)
    } else {
        IgnoreOutcome::UnmatchedEnd(k + 1)
    }
}

/// The open block before line `i`, as the fold carries it: its 1-based start line.
pub open spec fn open_block(ls: Seq<Seq<char>>, i: int) -> Option<int> {
    if opener(ls, i) >= 0 {
        Some(opener(ls, i) + 1)
    } else {
        None
    }
}

proof fn lemma_first_misuse(ls: Seq<Seq<char>>, i: int)
    requires
        0 <= i <= ls.len(),
    ensures
        first_misuse_from(ls, i) >= 0 ==> i <= first_misuse_from(ls, i) < ls.len() && misuses(
            ls,
            first_misuse_from(ls, i),
        ),
        forall|j: int|
            i <= j < ls.len() && (first_misuse_from(ls, i) < 0 || j < first_misuse_from(ls, i))
                ==> !#[trigger] misuses(ls, j),
    decreases ls.len() - i,
{
    if i < ls.len() && !misuses(ls, i) {
        lemma_first_misuse(ls, i + 1);
    }
}

proof fn lemma_fold_outcome(ls: Seq<Seq<char>>, i: int, acc: Set<int>)
    requires
        0 <= i <= ls.len(),
    ensures
        first_misuse_from(ls, i) >= 0 ==> ignore_fold(ls, i, acc, open_block(ls, i)) == misuse_error(
            ls,
            first_misuse_from(ls, i),
        ),
        first_misuse_from(ls, i) < 0 && opener(ls, ls.len() as int) >= 0 ==> ignore_fold(
            ls,
            i,
            acc,
            open_block(ls, i),
        ) == IgnoreOutcome::UnclosedBlock(opener(ls, ls.len() as int) + 1),
        first_misuse_from(ls, i) < 0 && opener(ls, ls.len() as int) < 0 ==> ignore_fold(
            ls,
            i,
            acc,
            open_block(ls, i),
        ) is Lines,
    decreases ls.len() - i,
{
    if i < ls.len() {
        let line = ls[i];
        let n = i + 1;
        if is_start_line(line) {
            if opener(ls, i) < 0 {
                lemma_fold_outcome(ls, i + 1, acc.insert(n));
            }
        } else if contains(line, "dregs:ignore-end"@) {
            if opener(ls, i) >= 0 {
                lemma_fold_outcome(ls, i + 1, acc.insert(n));
            }
        } else if open_block(ls, i) is Some || contains(line, "dregs:ignore"@) {
            lemma_fold_outcome(ls, i + 1, acc.insert(n));
        } else {
            lemma_fold_outcome(ls, i + 1, acc);
        }
    }
}

/// What reading the `dregs:ignore` comments gives, in closed form. At the first
/// line that misuses a block marker (a `dregs:ignore-start` inside an open block,
/// or a `dregs:ignore-end` with none open) it fails, naming that line and, for a
/// nested start, the start of the open block. With no misuse, a block still open
/// at the end fails, naming its start. Otherwise the ignored lines are exactly
/// those that carry a marker or lie in a block.
pub proof fn law_ignore_outcome(content: Seq<char>)
    ensures
        first_misuse_from(lines(content), 0) >= 0 ==> misuses(
            lines(content),
            first_misuse_from(lines(content), 0),
        ) && forall|j: int|
            0 <= j < first_misuse_from(lines(content), 0) ==> !#[trigger] misuses(lines(content), j),
        first_misuse_from(lines(content), 0) >= 0 ==> ignored_lines_of(content) == misuse_error(
            lines(content),
            first_misuse_from(lines(content), 0),
        ),
        first_misuse_from(lines(content), 0) < 0 && opener(lines(content), lines(content).len() as int)
            >= 0 ==> ignored_lines_of(content) == IgnoreOutcome::UnclosedBlock(
            opener(lines(content), lines(content).len() as int) + 1,
        ),
        first_misuse_from(lines(content), 0) < 0 && opener(lines(content), lines(content).len() as int)
            < 0 ==> ignored_lines_of(content) == IgnoreOutcome::Lines(
            Set::new(|n: int| ignorable(lines(content), n)),
        ),
{
    let ls = lines(content);
    lemma_first_misuse(ls, 0);
    lemma_fold_outcome(ls, 0, Set::empty());
    assert(open_block(ls, 0) == None::<int>);
    if ignored_lines_of(content) is Lines {
        let s = ignored_lines_of(content)->Lines_0;
        law_ignored_lines(content);
        law_only_marked_lines_ignored(content);
        assert forall|n: int| #[trigger] s.contains(n) <==> ignorable(ls, n) by {
            if ignorable(ls, n) {
                if !contains(ls[n - 1], "dregs:ignore"@) {
                    let a = choose|a: int| #[trigger] in_block(ls, a, n - 1);
                    assert(in_block(ls, a, n - 1));
                }
            }
        }
        assert(s =~= Set::new(|n: int| ignorable(ls, n)));
    }
}

// ---------------------------------------------------------------------------
// Splitting mutants
// ---------------------------------------------------------------------------

/// The source paths of the mutants, each once (by path comparison), in order of
/// first appearance: the files whose comments must be read.
pub open spec fn distinct_paths_from(ms: Seq<Mutant>, i: int, acc: Seq<Seq<char>>) -> Seq<Seq<char>>
    decreases ms.len() - i,
{
    if i < 0 || i >= ms.len() {
        acc
    } else if exists|j: int| 0 <= j < acc.len() && spec_path_eq(#[trigger] acc[j], ms[i].source_path@) {
        distinct_paths_from(ms, i + 1, acc)
    } else {
        distinct_paths_from(ms, i + 1, acc.push(ms[i].source_path@))
    }
}

/// Whether `acc` holds the path `p`.
fn holds_path(acc: &Vec<String>, p: &str) -> (r: bool)
    ensures
        r == exists|j: int| 0 <= j < acc@.len() && spec_path_eq(#[trigger] views_of(acc@)[j], p@),
{
    let mut j: usize = 0;
    while j < acc.len()
        invariant
            j <= acc.len(),
            forall|k: int| 0 <= k < j ==> !spec_path_eq(#[trigger] views_of(acc@)[k], p@),
        decreases acc.len() - j,
    {
        if paths_equal(acc[j].as_str(), p) {
            assert(views_of(acc@)[j as int] == acc@[j as int]@);
            return true;
        }
        assert(views_of(acc@)[j as int] == acc@[j as int]@);
        j += 1;
    }
    false
}

/// The views of a sequence of strings.
pub open spec fn views_of(v: Seq<String>) -> Seq<Seq<char>> {
    v.map_values(|s: String| s@)
}

/// The files whose `dregs:ignore` comments decide about these mutants: their
/// source paths, each once (by path comparison), in order of first appearance.
pub fn distinct_source_paths(mutants: &[Mutant]) -> (r: Vec<String>)
    ensures
        views_of(r@) == distinct_paths_from(mutants@, 0, Seq::empty()),
{
    let mut acc: Vec<String> = Vec::new();
    let mut i: usize = 0;
    assert(views_of(acc@) =~= Seq::<Seq<char>>::empty());
    while i < mutants.len()
        invariant
            i <= mutants.len(),
            distinct_paths_from(mutants@, 0, Seq::empty()) == distinct_paths_from(
                mutants@,
                i as int,
                views_of(acc@),
            ),
        decreases mutants.len() - i,
    {
        let ghost before = views_of(acc@);
        if !holds_path(&acc, mutants[i].source_path.as_str()) {
            acc.push(mutants[i].source_path.clone());
            assert(views_of(acc@) =~= before.push(mutants@[i as int].source_path@));
        }
        i += 1;
    }
    acc
}

/// The ignored lines recorded for the file of `path`: those of the first entry of
/// `table` whose path equals it.
pub open spec fn table_lines(table: Seq<(String, Vec<u32>)>, path: Seq<char>, i: int) -> Option<
    Seq<u32>,
>
    decreases table.len() - i,
{
    if i < 0 || i >= table.len() {
        None
    } else if spec_path_eq(table[i].0@, path) {
        Some(table[i].1@)
    } else {
        table_lines(table, path, i + 1)
    }
}

/// Whether a mutant is on an ignored line of its file.
pub open spec fn is_ignored(table: Seq<(String, Vec<u32>)>, m: Mutant) -> bool {
    match table_lines(table, m.source_path@, 0) {
        Some(ls) => ls.contains(m.line),
        None => false,
    }
}

fn lookup_ignored(table: &[(String, Vec<u32>)], m: &Mutant) -> (r: bool)
    requires
        table_lines(table@, m.source_path@, 0) is Some,
    ensures
        r == is_ignored(table@, *m),
{
    let mut i: usize = 0;
    while i < table.len()
        invariant
            i <= table.len(),
            table_lines(table@, m.source_path@, 0) == table_lines(table@, m.source_path@, i as int),
            table_lines(table@, m.source_path@, 0) is Some,
        decreases table.len() - i,
    {
        if paths_equal(table[i].0.as_str(), m.source_path.as_str()) {
            assert(table_lines(table@, m.source_path@, i as int) == Some(table@[i as int].1@));
            let ls = &table[i].1;
            let mut j: usize = 0;
            while j < ls.len()
                invariant
                    j <= ls.len(),
                    i < table.len(),
                    ls == &table@[i as int].1,
                    table_lines(table@, m.source_path@, 0) == Some(table@[i as int].1@),
                    forall|k: int| 0 <= k < j ==> ls@[k] != m.line,
                decreases ls.len() - j,
            {
                if ls[j] == m.line {
                    assert(ls@[j as int] == m.line);
                    return true;
                }
                j += 1;
            }
            return false;
        }
        i += 1;
    }
    false
}

/// Splits the mutants into those to test and those that `dregs:ignore` comments
/// exclude, each in the given order. `table` holds, for each source file, its
/// ignored lines; every mutant's file must have an entry.
pub fn split_ignored(mutants: Vec<Mutant>, table: &[(String, Vec<u32>)]) -> (r: (
    Vec<Mutant>,
    Vec<Mutant>,
))
    requires
        forall|i: int|
            0 <= i < mutants@.len() ==> table_lines(table@, (#[trigger] mutants@[i]).source_path@, 0) is Some,
    ensures
        r.0@ == kept(mutants@, table@),
        r.1@ == dropped(mutants@, table@),
{
    let ghost keep = |m: Mutant| !is_ignored(table@, m);
    let ghost drop = |m: Mutant| is_ignored(table@, m);
    let ghost all = mutants@;
    let mut active: Vec<Mutant> = Vec::new();
    let mut ignored: Vec<Mutant> = Vec::new();
    for m in it: mutants
        invariant
            it.seq() == all,
            forall|i: int| 0 <= i < all.len() ==> table_lines(table@, (#[trigger] all[i]).source_path@, 0) is Some,
            keep == (|m: Mutant| !is_ignored(table@, m)),
            drop == (|m: Mutant| is_ignored(table@, m)),
            active@ == all.take(it.index()).filter(keep),
            ignored@ == all.take(it.index()).filter(drop),
    {
        proof {
            reveal_with_fuel(Seq::filter, 1);
            assert(all.take(it.index() + 1).drop_last() == all.take(it.index()));
            assert(all.take(it.index() + 1).last() == m);
            assert(all[it.index()] == m);
        }
        if lookup_ignored(table, &m) {
            ignored.push(m);
        } else {
            active.push(m);
        }
    }
    assert(all.take(all.len() as int) == all);
    (active, ignored)
}

proof fn lemma_filter_membership(ms: Seq<Mutant>, p: spec_fn(Mutant) -> bool, x: Mutant)
    ensures
        ms.filter(p).contains(x) <==> (ms.contains(x) && p(x)),
{
    if ms.contains(x) && p(x) {
        let k = choose|k: int| 0 <= k < ms.len() && ms[k] == x;
        ms.lemma_filter_contains(p, k);
    }
    if ms.filter(p).contains(x) {
        ms.lemma_filter_contains_rev(p, x);
        let k = choose|k: int| 0 <= k < ms.filter(p).len() && ms.filter(p)[k] == x;
        ms.lemma_filter_pred(p, k);
    }
}

proof fn lemma_split_lengths(ms: Seq<Mutant>, table: Seq<(String, Vec<u32>)>)
    ensures
        ms.filter(|m: Mutant| !is_ignored(table, m)).len() + ms.filter(
            |m: Mutant| is_ignored(table, m),
        ).len() == ms.len(),
    decreases ms.len(),
{
    reveal_with_fuel(Seq::filter, 1);
    if ms.len() > 0 {
        lemma_split_lengths(ms.drop_last(), table);
    }
}

/// The mutants that stay to be tested.
pub open spec fn kept(ms: Seq<Mutant>, table: Seq<(String, Vec<u32>)>) -> Seq<Mutant> {
    ms.filter(|m: Mutant| !is_ignored(table, m))
}

/// The mutants that `dregs:ignore` comments leave out.
pub open spec fn dropped(ms: Seq<Mutant>, table: Seq<(String, Vec<u32>)>) -> Seq<Mutant> {
    ms.filter(|m: Mutant| is_ignored(table, m))
}

/// Splitting loses and invents no mutant: the mutants to test and the ignored
/// ones together are as many as the input, and each mutant of the input is in
/// the part its lines decide, and in that part only.
pub proof fn law_split_ignored_partitions(ms: Seq<Mutant>, table: Seq<(String, Vec<u32>)>)
    ensures
        kept(ms, table).len() + dropped(ms, table).len() == ms.len(),
        forall|x: Mutant|
            #[trigger] kept(ms, table).contains(x) <==> (ms.contains(x) && !is_ignored(table, x)),
        forall|x: Mutant|
            #[trigger] dropped(ms, table).contains(x) <==> (ms.contains(x) && is_ignored(table, x)),
{
    lemma_split_lengths(ms, table);
    assert forall|x: Mutant| #[trigger] kept(ms, table).contains(x) <==> (ms.contains(x)
        && !is_ignored(table, x)) by {
        lemma_filter_membership(ms, |m: Mutant| !is_ignored(table, m), x);
    }
    assert forall|x: Mutant| #[trigger] dropped(ms, table).contains(x) <==> (ms.contains(x)
        && is_ignored(table, x)) by {
        lemma_filter_membership(ms, |m: Mutant| is_ignored(table, m), x);
    }
}

/// The lines recorded for the first entry of `table` that names the path `p`.
proof fn lemma_table_lines_first(table: Seq<(String, Vec<u32>)>, p: Seq<char>, k: int, i: int)
    requires
        0 <= i <= k < table.len(),
        spec_path_eq(table[k].0@, p),
        forall|j: int| i <= j < k ==> !spec_path_eq(#[trigger] table[j].0@, p),
    ensures
        table_lines(table, p, i) == Some(table[k].1@),
    decreases k - i,
{
    if i < k {
        lemma_table_lines_first(table, p, k, i + 1);
    }
}

/// A mutant is ignored by the comments of its own file, the one named by its
/// `source_path`, whose comments were read: when the first entry of the table
/// for that path records its line, the mutant goes to the ignored part and not
/// to the part to test; when that entry does not record it, the other way round.
pub proof fn law_ignored_by_own_file(
    ms: Seq<Mutant>,
    table: Seq<(String, Vec<u32>)>,
    m: Mutant,
    k: int,
)
    requires
        ms.contains(m),
        0 <= k < table.len(),
        spec_path_eq(table[k].0@, m.source_path@),
        forall|j: int| 0 <= j < k ==> !spec_path_eq(#[trigger] table[j].0@, m.source_path@),
    ensures
        table[k].1@.contains(m.line) ==> dropped(ms, table).contains(m) && !kept(ms, table).contains(m),
        !table[k].1@.contains(m.line) ==> kept(ms, table).contains(m) && !dropped(ms, table).contains(m),
{
    lemma_table_lines_first(table, m.source_path@, k, 0);
    law_split_ignored_partitions(ms, table);
}

} // verus!
