//! Unified diffs: which lines of which files a change added, and the mutants and
//! targets that fall on them.
use vstd::prelude::*;

use core::ops::Range;

use crate::external::io_error_text;
use crate::generator::{FileTarget, Mutant};
use crate::paths::{path_strip_prefix, paths_equal, spec_path_eq, spec_path_strip_prefix};
use crate::text::{
    chars_of, concat, find_char, find_seq, first_index, has_prefix, lemma_first_index, lines,
    occurs_at, parse_unsigned, parse_unsigned_chars, push_all, slice_chars, split_lines,
    split_whitespace, starts_with, string_of, views, words,
};

verus! {

/// Errors in obtaining or reading a diff.
#[derive(Debug)]
pub enum DiffError {
    GitCommand(String),
    Parse(String),
    Io(std::io::Error),
}

impl DiffError {
    /// The error's message.
    pub fn to_string(&self) -> (r: String)
        ensures
            self matches DiffError::GitCommand(m) ==> r@ == "failed to run git diff: "@ + m@,
            self matches DiffError::Parse(m) ==> r@ == "failed to parse diff output: "@ + m@,
            self matches DiffError::Io(_) ==> crate::text::starts_with(
                r@,
                "failed to read diff input: "@,
            ),
    {
        match self {
            DiffError::GitCommand(m) => {
                let mut v = chars_of("failed to run git diff: ");
                push_all(&mut v, &chars_of(m.as_str()));
                string_of(&v)
            },
            DiffError::Parse(m) => {
                let mut v = chars_of("failed to parse diff output: ");
                push_all(&mut v, &chars_of(m.as_str()));
                string_of(&v)
            },
            DiffError::Io(e) => {
                let mut v = chars_of("failed to read diff input: ");
                let ghost head = v@;
                let t = io_error_text(e);
                push_all(&mut v, &chars_of(t.as_str()));
                assert(v@.take(head.len() as int) == head);
                string_of(&v)
            },
        }
    }
}

impl From<std::io::Error> for DiffError {
    fn from(e: std::io::Error) -> (r: Self) {
        DiffError::Io(e)
    }
}

impl vstd::std_specs::convert::FromSpecImpl<std::io::Error> for DiffError {
    open spec fn obeys_from_spec() -> bool {
        true
    }

    open spec fn from_spec(e: std::io::Error) -> Self {
        DiffError::Io(e)
    }
}

/// The lines of one file that a diff adds, as half-open ranges of line numbers.
#[derive(Debug, Clone, PartialEq)]
pub struct DiffRange {
    pub file: String,
    pub lines: Vec<Range<u32>>,
}

/// A range of line numbers as a pair of integers.
pub open spec fn range_view(r: Range<u32>) -> (int, int) {
    (r.start as int, r.end as int)
}

/// A `DiffRange` as its file and its ranges.
pub open spec fn diff_range_view(d: DiffRange) -> (Seq<char>, Seq<(int, int)>) {
    (d.file@, d.lines@.map_values(|r: Range<u32>| range_view(r)))
}

pub open spec fn diff_ranges_view(v: Seq<DiffRange>) -> Seq<(Seq<char>, Seq<(int, int)>)> {
    v.map_values(|d: DiffRange| diff_range_view(d))
}

/// The added part of a hunk: the first added line and how many lines were added.
#[derive(Debug, Clone, Copy, PartialEq, Eq)]
pub struct HunkAdd {
    pub start: u32,
    pub count: u32,
}

// ---------------------------------------------------------------------------
// Hunk headers
// ---------------------------------------------------------------------------

/// Index of the first occurrence of `n` in `h` at or after `i`, or -1.
pub open spec fn first_occurrence(h: Seq<char>, n: Seq<char>, i: int) -> int
    decreases h.len() + 1 - i,
{
    if i < 0 || i + n.len() > h.len() {
        -1
    } else if occurs_at(h, n, i) {
        i
    } else {
        first_occurrence(h, n, i + 1)
    }
}

proof fn lemma_first_occurrence(h: Seq<char>, n: Seq<char>, i: int, k: int)
    requires
        0 <= i,
        k == -1 || i <= k,
        k >= 0 ==> occurs_at(h, n, k),
        forall|j: int| i <= j && (k < 0 || j < k) ==> !occurs_at(h, n, j),
    ensures
        first_occurrence(h, n, i) == k,
    decreases h.len() + 1 - i,
{
    if i + n.len() > h.len() {
        if k >= 0 {
            assert(occurs_at(h, n, k));
        }
    } else if occurs_at(h, n, i) {
    } else {
        lemma_first_occurrence(h, n, i + 1, k);
    }
}

/// `s.split(pat).next()`: the part of `s` before the first `pat`, or all of `s`.
pub open spec fn before_first(s: Seq<char>, pat: Seq<char>) -> Seq<char> {
    let k = first_occurrence(s, pat, 0);
    if k >= 0 {
        s.take(k)
    } else {
        s
    }
}

fn before_first_chars(s: &[char], pat: &[char]) -> (r: Vec<char>)
    ensures
        r@ == before_first(s@, pat@),
{
    match find_seq(s, pat) {
        Some(k) => {
            proof {
                lemma_first_occurrence(s@, pat@, 0, k as int);
            }
            assert(s@.subrange(0, k as int) == s@.take(k as int));
            slice_chars(s, 0, k)
        },
        None => {
            proof {
                assert forall|j: int| 0 <= j implies !occurs_at(s@, pat@, j) by {
                    if occurs_at(s@, pat@, j) {
                        assert(crate::text::contains(s@, pat@));
                    }
                }
                lemma_first_occurrence(s@, pat@, 0, -1);
            }
            assert(s@.subrange(0, s@.len() as int) == s@);
            slice_chars(s, 0, s.len())
        },
    }
}

/// Index of the first word at or after `i` that begins with `+`, or -1.
pub open spec fn first_plus_word(ws: Seq<Seq<char>>, i: int) -> int
    decreases ws.len() - i,
{
    if i < 0 || i >= ws.len() {
        -1
    } else if ws[i].len() > 0 && ws[i][0] == '+' {
        i
    } else {
        first_plus_word(ws, i + 1)
    }
}

/// The message for a number in a hunk header that does not parse.
pub open spec fn bad_number_message(s: Seq<char>, line: Seq<char>) -> Seq<char> {
    "invalid number '"@ + s + "' in: "@ + line
}

/// `s.parse::<u32>()` in a hunk header, with the error message for `line`.
pub open spec fn hunk_number(s: Seq<char>, line: Seq<char>) -> Result<int, Seq<char>> {
    match parse_unsigned(s, u32::MAX as int) {
        Ok(n) => Ok(n),
        Err(_) => Err(bad_number_message(s, line)),
    }
}

/// The added range of a hunk header `@@ -a[,b] +c[,d] @@ ...`: `(c, d)`, with
/// `d` 1 when absent; or the message of why the header is refused.
pub open spec fn hunk_of(line: Seq<char>) -> Result<(int, int), Seq<char>> {
    if !starts_with(line, "@@ "@) {
        Err("invalid hunk header: "@ + line)
    } else {
        let ws = words(before_first(line.skip(3), " @@"@));
        let k = first_plus_word(ws, 0);
        if k < 0 {
            Err("no + range in hunk: "@ + line)
        } else {
            let nums = ws[k].drop_first();
            let c = first_index(nums, ',');
            if c >= 0 {
                match hunk_number(nums.take(c), line) {
                    Err(m) => Err(m),
                    Ok(a) => match hunk_number(nums.skip(c + 1), line) {
                        Err(m) => Err(m),
                        Ok(b) => Ok((a, b)),
                    },
                }
            } else {
                match hunk_number(nums, line) {
                    Err(m) => Err(m),
                    Ok(a) => Ok((a, 1)),
                }
            }
        }
    }
}

fn number_in_hunk(s: &[char], line: &[char]) -> (r: Result<u32, DiffError>)
    ensures
        match hunk_number(s@, line@) {
            Ok(n) => r == Ok::<u32, DiffError>(n as u32) && 0 <= n <= u32::MAX,
            Err(m) => r matches Err(DiffError::Parse(e)) && e@ == m,
        },
{
    match parse_unsigned_chars(s, 0xffff_ffffu64) {
        Ok(n) => {
            proof {
                crate::text::lemma_digits_value_bound(s@, 0, u32::MAX as int);
                crate::text::lemma_digits_value_bound(s@.drop_first(), 0, u32::MAX as int);
            }
            Ok(n as u32)
        },
        Err(_) => {
            let mut v = chars_of("invalid number '");
            push_all(&mut v, s);
            push_all(&mut v, &chars_of("' in: "));
            push_all(&mut v, line);
            Err(DiffError::Parse(string_of(&v)))
        },
    }
}

fn hunk_from_chars(line: &[char]) -> (r: Result<HunkAdd, DiffError>)
    ensures
        match hunk_of(line@) {
            Ok(p) => r matches Ok(h) && h.start == p.0 && h.count == p.1,
            Err(m) => r matches Err(DiffError::Parse(e)) && e@ == m,
        },
{
    proof {
        reveal_strlit("@@ ");
    }
    if !has_prefix(line, &chars_of("@@ ")) {
        let v = concat(&chars_of("invalid hunk header: "), line);
        return Err(DiffError::Parse(string_of(&v)));
    }
    let rest = slice_chars(line, 3, line.len());
    assert(rest@ == line@.skip(3));
    let header = before_first_chars(&rest, &chars_of(" @@"));
    let ws = split_whitespace(&header);
    let ghost wsv = views(ws@);
    let mut k: usize = 0;
    while k < ws.len() && !(ws[k].len() > 0 && ws[k][0] == '+')
        invariant
            k <= ws.len(),
            wsv == views(ws@),
            first_plus_word(wsv, 0) == first_plus_word(wsv, k as int),
        decreases ws.len() - k,
    {
        assert(wsv[k as int] == ws@[k as int]@);
        k += 1;
    }
    if k == ws.len() {
        let v = concat(&chars_of("no + range in hunk: "), line);
        return Err(DiffError::Parse(string_of(&v)));
    }
    assert(wsv[k as int] == ws@[k as int]@);
    let word = &ws[k];
    let nums = slice_chars(word, 1, word.len());
    assert(nums@ == wsv[k as int].drop_first());
    match find_char(&nums, ',') {
        Some(c) => {
            proof {
                lemma_first_index(nums@, ',');
            }
            let a = slice_chars(&nums, 0, c);
            let b = slice_chars(&nums, c + 1, nums.len());
            assert(a@ == nums@.take(c as int));
            assert(b@ == nums@.skip(c + 1));
            let start = match number_in_hunk(&a, line) {
                Ok(n) => n,
                Err(e) => {
                    return Err(e);
                },
            };
            let count = match number_in_hunk(&b, line) {
                Ok(n) => n,
                Err(e) => {
                    return Err(e);
                },
            };
            Ok(HunkAdd { start, count })
        },
        None => {
            let start = match number_in_hunk(&nums, line) {
                Ok(n) => n,
                Err(e) => {
                    return Err(e);
                },
            };
            Ok(HunkAdd { start, count: 1 })
        },
    }
}

/// Reads the added range of a hunk header `@@ -a[,b] +c[,d] @@ ...`.
pub fn parse_hunk_header(line: &str) -> (r: Result<HunkAdd, DiffError>)
    ensures
        match hunk_of(line@) {
            Ok(p) => r matches Ok(h) && h.start == p.0 && h.count == p.1,
            Err(m) => r matches Err(DiffError::Parse(e)) && e@ == m,
        },
{
    hunk_from_chars(&chars_of(line))
}

/// Parses a line number `s` of the hunk header `context`.
pub fn parse_u32(s: &str, context: &str) -> (r: Result<u32, DiffError>)
    ensures
        match hunk_number(s@, context@) {
            Ok(n) => r == Ok::<u32, DiffError>(n as u32),
            Err(m) => r matches Err(DiffError::Parse(e)) && e@ == m,
        },
{
    number_in_hunk(&chars_of(s), &chars_of(context))
}

// ---------------------------------------------------------------------------
// Whole diffs
// ---------------------------------------------------------------------------

/// The result of reading a diff: the added ranges per file, or the message of
/// a refused hunk header, or a hunk whose end is past the largest line number.
pub enum DiffOutcome {
    Ranges(Seq<(Seq<char>, Seq<(int, int)>)>),
    Failed(Seq<char>),
    Overflow,
}

/// Index of the first entry at or after `i` whose file is the path `f`, or -1.
pub open spec fn file_index(rs: Seq<(Seq<char>, Seq<(int, int)>)>, f: Seq<char>, i: int) -> int
    decreases rs.len() - i,
{
    if i < 0 || i >= rs.len() {
        -1
    } else if spec_path_eq(rs[i].0, f) {
        i
    } else {
        file_index(rs, f, i + 1)
    }
}

/// Records the range `r` for the file `f`: after the ranges of the entry for `f`,
/// or in a new entry at the end.
pub open spec fn add_range(rs: Seq<(Seq<char>, Seq<(int, int)>)>, f: Seq<char>, r: (int, int)) -> Seq<
    (Seq<char>, Seq<(int, int)>),
> {
    let j = file_index(rs, f, 0);
    if j >= 0 {
        rs.update(j, (rs[j].0, rs[j].1.push(r)))
    } else {
        rs.push((f, seq![r]))
    }
}

/// Reading the lines `ls` from the `i`-th on, with the ranges `rs` so far and
/// `cur` the file that the current hunks belong to.
pub open spec fn diff_fold(
    ls: Seq<Seq<char>>,
    i: int,
    rs: Seq<(Seq<char>, Seq<(int, int)>)>,
    cur: Option<Seq<char>>,
) -> DiffOutcome
    decreases ls.len() - i,
{
    if i < 0 || i >= ls.len() {
        DiffOutcome::Ranges(rs)
    } else {
        let line = ls[i];
        if starts_with(line, "+++ b/"@) {
            diff_fold(ls, i + 1, rs, Some(line.skip(6)))
        } else if line == "+++ /dev/null"@ {
            diff_fold(ls, i + 1, rs, None)
        } else if starts_with(line, "@@ "@) {
            match cur {
                None => diff_fold(ls, i + 1, rs, cur),
                Some(f) => match hunk_of(line) {
                    Err(m) => DiffOutcome::Failed(m),
                    Ok(h) => if h.1 == 0 {
                        diff_fold(ls, i + 1, rs, cur)
                    } else if h.0 + h.1 > u32::MAX {
                        DiffOutcome::Overflow
                    } else {
                        diff_fold(ls, i + 1, add_range(rs, f, (h.0, h.0 + h.1)), cur)
                    },
                },
            }
        } else {
            diff_fold(ls, i + 1, rs, cur)
        }
    }
}

/// What a unified diff adds: for each file named by a `+++ b/<path>` header, in
/// order of first appearance, the ranges of its hunks that add lines, in order.
pub open spec fn diff_of(output: Seq<char>) -> DiffOutcome {
    diff_fold(lines(output), 0, Seq::empty(), None)
}

fn find_file(ranges: &Vec<DiffRange>, f: &str) -> (r: Option<usize>)
    ensures
        match r {
            Some(j) => j < ranges@.len() && j == file_index(diff_ranges_view(ranges@), f@, 0),
            None => file_index(diff_ranges_view(ranges@), f@, 0) == -1,
        },
{
    let ghost rv = diff_ranges_view(ranges@);
    let mut j: usize = 0;
    while j < ranges.len()
        invariant
            j <= ranges.len(),
            rv == diff_ranges_view(ranges@),
            file_index(rv, f@, 0) == file_index(rv, f@, j as int),
        decreases ranges.len() - j,
    {
        assert(rv[j as int].0 == ranges@[j as int].file@);
        if paths_equal(ranges[j].file.as_str(), f) {
            return Some(j);
        }
        j += 1;
    }
    None
}

fn record_range(ranges: &mut Vec<DiffRange>, f: &str, start: u32, end: u32)
    ensures
        diff_ranges_view(final(ranges)@) == add_range(
            diff_ranges_view(old(ranges)@),
            f@,
            (start as int, end as int),
        ),
{
    let ghost before = diff_ranges_view(ranges@);
    match find_file(ranges, f) {
        Some(j) => {
            let mut d = ranges.remove(j);
            let ghost dv = diff_range_view(d);
            d.lines.push(start..end);
            assert(d.lines@.map_values(|r: Range<u32>| range_view(r)) == dv.1.push(
                (start as int, end as int),
            ));
            ranges.insert(j, d);
            assert(diff_ranges_view(ranges@) =~= before.update(
                j as int,
                (before[j as int].0, before[j as int].1.push((start as int, end as int))),
            ));
        },
        None => {
            let mut ls: Vec<Range<u32>> = Vec::new();
            ls.push(start..end);
            let d = DiffRange { file: String::from_str(f), lines: ls };
            assert(d.lines@.map_values(|r: Range<u32>| range_view(r)) =~= seq![
                (start as int, end as int),
            ]);
            ranges.push(d);
            assert(diff_ranges_view(ranges@) =~= before.push(
                (f@, seq![(start as int, end as int)]),
            ));
        },
    }
}

/// Reads a unified diff (as `git diff --unified=0` prints it) into the ranges of
/// lines it adds, per file. Hunks before any `+++ b/` header, or after a
/// `+++ /dev/null` one, and hunks adding no line, are skipped.
pub fn parse_diff_output(output: &str) -> (r: Result<Vec<DiffRange>, DiffError>)
    requires
        !(diff_of(output@) is Overflow),
    ensures
        match diff_of(output@) {
            DiffOutcome::Ranges(rs) => r matches Ok(v) && diff_ranges_view(v@) == rs,
            DiffOutcome::Failed(m) => r matches Err(DiffError::Parse(e)) && e@ == m,
            DiffOutcome::Overflow => false,
        },
{
    let ls = split_lines(&chars_of(output));
    let ghost lsv = lines(output@);
    proof {
        reveal_strlit("+++ b/");
        reveal_strlit("@@ ");
    }
    let plus_b = chars_of("+++ b/");
    let dev_null = chars_of("+++ /dev/null");
    let at = chars_of("@@ ");
    let mut ranges: Vec<DiffRange> = Vec::new();
    let mut current: Option<String> = None;
    let mut i: usize = 0;
    assert(diff_ranges_view(ranges@) =~= Seq::<(Seq<char>, Seq<(int, int)>)>::empty());
    while i < ls.len()
        invariant
            i <= ls.len(),
            views(ls@) == lsv,
            lsv == lines(output@),
            plus_b@ == "+++ b/"@,
            dev_null@ == "+++ /dev/null"@,
            at@ == "@@ "@,
            diff_fold(lsv, 0, Seq::empty(), None) == diff_fold(
                lsv,
                i as int,
                diff_ranges_view(ranges@),
                match current {
                    Some(c) => Some(c@),
                    None => None,
                },
            ),
            !(diff_fold(lsv, 0, Seq::empty(), None) is Overflow),
        decreases ls.len() - i,
    {
        let line = &ls[i];
        assert(lsv[i as int] == line@);
        proof {
            reveal_strlit("+++ b/");
            reveal_strlit("@@ ");
        }
        if has_prefix(line, &plus_b) {
            let p = slice_chars(line, 6, line.len());
            assert(p@ == line@.skip(6));
            current = Some(string_of(&p));
        } else if line.len() == dev_null.len() && crate::text::matches_at(line, &dev_null, 0) {
            assert(line@.subrange(0, dev_null@.len() as int) == line@);
            current = None;
        } else if has_prefix(line, &at) {
            proof {
                if line@ == dev_null@ {
                    assert(line@.subrange(0, dev_null@.len() as int) == line@);
                }
            }
            match &current {
                None => {},
                Some(f) => {
                    let hunk = match hunk_from_chars(line) {
                        Ok(h) => h,
                        Err(e) => {
                            return Err(e);
                        },
                    };
                    if hunk.count != 0 {
                        let end = hunk.start.checked_add(hunk.count);
                        match end {
                            Some(e) => {
                                record_range(&mut ranges, f.as_str(), hunk.start, e);
                            },
                            None => {
                                assert(false);
                            },
                        }
                    }
                },
            }
        } else {
            proof {
                if line@ == dev_null@ {
                    assert(line@.subrange(0, dev_null@.len() as int) == line@);
                }
            }
        }
        i += 1;
    }
    Ok(ranges)
}

/// Whether every hunk that `parse_diff_output` would record ends at a line
/// number that fits in a `u32`, which it requires.
pub fn diff_line_numbers_fit(output: &str) -> (r: bool)
    ensures
        r == !(diff_of(output@) is Overflow),
{
    let ls = split_lines(&chars_of(output));
    let ghost lsv = lines(output@);
    proof {
        reveal_strlit("+++ b/");
        reveal_strlit("@@ ");
    }
    let plus_b = chars_of("+++ b/");
    let dev_null = chars_of("+++ /dev/null");
    let at = chars_of("@@ ");
    let mut ranges: Vec<DiffRange> = Vec::new();
    let mut current: Option<String> = None;
    let mut i: usize = 0;
    assert(diff_ranges_view(ranges@) =~= Seq::<(Seq<char>, Seq<(int, int)>)>::empty());
    while i < ls.len()
        invariant
            i <= ls.len(),
            views(ls@) == lsv,
            lsv == lines(output@),
            plus_b@ == "+++ b/"@,
            dev_null@ == "+++ /dev/null"@,
            at@ == "@@ "@,
            diff_fold(lsv, 0, Seq::empty(), None) == diff_fold(
                lsv,
                i as int,
                diff_ranges_view(ranges@),
                match current {
                    Some(c) => Some(c@),
                    None => None,
                },
            ),
        decreases ls.len() - i,
    {
        let line = &ls[i];
        assert(lsv[i as int] == line@);
        proof {
            reveal_strlit("+++ b/");
            reveal_strlit("@@ ");
        }
        if has_prefix(line, &plus_b) {
            let p = slice_chars(line, 6, line.len());
            assert(p@ == line@.skip(6));
            current = Some(string_of(&p));
        } else if line.len() == dev_null.len() && crate::text::matches_at(line, &dev_null, 0) {
            assert(line@.subrange(0, dev_null@.len() as int) == line@);
            current = None;
        } else if has_prefix(line, &at) {
            proof {
                if line@ == dev_null@ {
                    assert(line@.subrange(0, dev_null@.len() as int) == line@);
                }
            }
            match &current {
                None => {},
                Some(f) => {
                    match hunk_from_chars(line) {
                        Err(_) => {
                            return true;
                        },
                        Ok(hunk) => {
                            if hunk.count != 0 {
                                match hunk.start.checked_add(hunk.count) {
                                    Some(e) => {
                                        record_range(&mut ranges, f.as_str(), hunk.start, e);
                                    },
                                    None => {
                                        return false;
                                    },
                                }
                            }
                        },
                    }
                },
            }
        } else {
            proof {
                if line@ == dev_null@ {
                    assert(line@.subrange(0, dev_null@.len() as int) == line@);
                }
            }
        }
        i += 1;
    }
    true
}

// ---------------------------------------------------------------------------
// Filtering by a diff
// ---------------------------------------------------------------------------

/// Whether line `line` of `file` is among the lines a diff adds.
pub open spec fn in_diff(ranges: Seq<DiffRange>, file: Seq<char>, line: int) -> bool {
    exists|i: int, j: int|
        0 <= i < ranges.len() && spec_path_eq(ranges[i].file@, file) && 0 <= j
            < ranges[i].lines@.len() && #[trigger] ranges[i].lines@[j].start <= line
            < ranges[i].lines@[j].end
}

/// Whether the diff touches `file` at all.
pub open spec fn file_in_diff(ranges: Seq<DiffRange>, file: Seq<char>) -> bool {
    exists|i: int| 0 <= i < ranges.len() && #[trigger] spec_path_eq(ranges[i].file@, file)
}

fn line_in_diff(ranges: &[DiffRange], file: &str, line: u32) -> (r: bool)
    ensures
        r == in_diff(ranges@, file@, line as int),
{
    let mut i: usize = 0;
    while i < ranges.len()
        invariant
            i <= ranges.len(),
            forall|a: int, b: int|
                0 <= a < i && spec_path_eq(ranges@[a].file@, file@) && 0 <= b
                    < ranges@[a].lines@.len() ==> !(#[trigger] ranges@[a].lines@[b].start <= line
                    < ranges@[a].lines@[b].end),
        decreases ranges.len() - i,
    {
        let same = paths_equal(ranges[i].file.as_str(), file);
        if same {
            let ls = &ranges[i].lines;
            let mut j: usize = 0;
            while j < ls.len()
                invariant
                    j <= ls.len(),
                    i < ranges.len(),
                    spec_path_eq(ranges@[i as int].file@, file@),
                    ls == &ranges@[i as int].lines,
                    forall|b: int| 0 <= b < j ==> !(#[trigger] ls@[b].start <= line < ls@[b].end),
                decreases ls.len() - j,
            {
                if ls[j].start <= line && line < ls[j].end {
                    assert(spec_path_eq(ranges@[i as int].file@, file@));
                    assert(ranges@[i as int].lines@[j as int].start <= line
                        < ranges@[i as int].lines@[j as int].end);
                    assert(in_diff(ranges@, file@, line as int));
                    return true;
                }
                j += 1;
            }
        }
        i += 1;
    }
    false
}

fn file_touched(ranges: &[DiffRange], file: &str) -> (r: bool)
    ensures
        r == file_in_diff(ranges@, file@),
{
    let mut i: usize = 0;
    while i < ranges.len()
        invariant
            i <= ranges.len(),
            forall|a: int| 0 <= a < i ==> !spec_path_eq(ranges@[a].file@, file@),
        decreases ranges.len() - i,
    {
        if paths_equal(ranges[i].file.as_str(), file) {
            return true;
        }
        i += 1;
    }
    false
}

/// Some entry of the diff names the path `file` (by path comparison) and one of
/// its ranges `start..end` holds `line`.
pub open spec fn on_added_line(ranges: Seq<DiffRange>, file: Seq<char>, line: int) -> bool {
    exists|i: int, j: int|
        #![trigger ranges[i].lines@[j]]
        0 <= i < ranges.len() && 0 <= j < ranges[i].lines@.len() && spec_path_eq(
            ranges[i].file@,
            file,
        ) && ranges[i].lines@[j].start <= line && line < ranges[i].lines@[j].end
}

/// Whether a mutant is on a line the diff adds.
pub open spec fn mutant_in_diff(ranges: Seq<DiffRange>, m: Mutant) -> bool {
    in_diff(ranges, m.relative_source_path@, m.line as int)
}

/// The mutants on lines that the diff adds, in their order.
pub fn filter_mutants(mutants: Vec<Mutant>, diff_ranges: &[DiffRange]) -> (r: Vec<Mutant>)
    ensures
        r@ == mutants@.filter(|m: Mutant| mutant_in_diff(diff_ranges@, m)),
        forall|m: Mutant|
            #[trigger] r@.contains(m) <==> mutants@.contains(m) && on_added_line(
                diff_ranges@,
                m.relative_source_path@,
                m.line as int,
            ),
{
    let ghost pred = |m: Mutant| mutant_in_diff(diff_ranges@, m);
    let ghost all = mutants@;
    let mut r: Vec<Mutant> = Vec::new();
    for m in it: mutants
        invariant
            it.seq() == all,
            pred == (|m: Mutant| mutant_in_diff(diff_ranges@, m)),
            r@ == all.take(it.index()).filter(pred),
    {
        proof {
            reveal_with_fuel(Seq::filter, 1);
            assert(all.take(it.index() + 1).drop_last() == all.take(it.index()));
            assert(all.take(it.index() + 1).last() == m);
        }
        if line_in_diff(diff_ranges, m.relative_source_path.as_str(), m.line) {
            r.push(m);
        }
    }
    assert(all.take(all.len() as int) == all);
    proof {
        assert forall|m: Mutant|
            #[trigger] r@.contains(m) <==> all.contains(m) && on_added_line(
                diff_ranges@,
                m.relative_source_path@,
                m.line as int,
            ) by {
            law_filter_mutants_on_added_lines(all, diff_ranges@, m);
        }
    }
    r
}

/// The path of a target relative to the project root (`strip_prefix`), or the
/// path itself when it is not under the root.
pub open spec fn relative_to(file: Seq<char>, root: Seq<char>) -> Seq<char> {
    match spec_path_strip_prefix(file, root) {
        Some(rel) => rel,
        None => file,
    }
}

/// Whether a target's file is one the diff touches.
pub open spec fn target_in_diff(ranges: Seq<DiffRange>, root: Seq<char>, t: FileTarget) -> bool {
    file_in_diff(ranges, relative_to(t.file@, root))
}

/// The targets whose files the diff touches, in their order.
pub fn filter_targets_by_diff(
    targets: Vec<FileTarget>,
    diff_ranges: &[DiffRange],
    project_root: &str,
) -> (r: Vec<FileTarget>)
    ensures
        r@ == targets@.filter(|t: FileTarget| target_in_diff(diff_ranges@, project_root@, t)),
{
    let ghost pred = |t: FileTarget| target_in_diff(diff_ranges@, project_root@, t);
    let ghost all = targets@;
    let mut r: Vec<FileTarget> = Vec::new();
    for t in it: targets
        invariant
            it.seq() == all,
            pred == (|t: FileTarget| target_in_diff(diff_ranges@, project_root@, t)),
            r@ == all.take(it.index()).filter(pred),
    {
        proof {
            reveal_with_fuel(Seq::filter, 1);
            assert(all.take(it.index() + 1).drop_last() == all.take(it.index()));
            assert(all.take(it.index() + 1).last() == t);
        }
        let touched = match path_strip_prefix(t.file.as_str(), project_root) {
            Some(rel) => file_touched(diff_ranges, rel.as_str()),
            None => file_touched(diff_ranges, t.file.as_str()),
        };
        if touched {
            r.push(t);
        }
    }
    assert(all.take(all.len() as int) == all);
    r
}

// ---------------------------------------------------------------------------
// Laws
// ---------------------------------------------------------------------------

/// The entries are well formed: each range is non-empty and ascending, each file
/// has at least one range, and no two entries name the same path.
pub open spec fn ranges_well_formed(rs: Seq<(Seq<char>, Seq<(int, int)>)>) -> bool {
    &&& forall|j: int| 0 <= j < rs.len() ==> #[trigger] rs[j].1.len() > 0
    &&& forall|j: int, k: int|
        0 <= j < rs.len() && 0 <= k < rs[j].1.len() ==> 0 <= #[trigger] rs[j].1[k].0 < rs[j].1[k].1
            <= u32::MAX
    &&& forall|j: int, k: int|
        0 <= j < k < rs.len() ==> !spec_path_eq(#[trigger] rs[j].0, #[trigger] rs[k].0)
}

proof fn lemma_file_index(rs: Seq<(Seq<char>, Seq<(int, int)>)>, f: Seq<char>, i: int)
    requires
        0 <= i,
    ensures
        -1 <= file_index(rs, f, i) < rs.len(),
        file_index(rs, f, i) >= 0 ==> i <= file_index(rs, f, i) && spec_path_eq(
            rs[file_index(rs, f, i)].0,
            f,
        ),
        file_index(rs, f, i) == -1 ==> forall|j: int| i <= j < rs.len() ==> !spec_path_eq(rs[j].0, f),
    decreases rs.len() - i,
{
    if i < rs.len() && !spec_path_eq(rs[i].0, f) {
        lemma_file_index(rs, f, i + 1);
    }
}

proof fn lemma_add_range_well_formed(rs: Seq<(Seq<char>, Seq<(int, int)>)>, f: Seq<char>, r: (int, int))
    requires
        ranges_well_formed(rs),
        0 <= r.0 < r.1 <= u32::MAX,
    ensures
        ranges_well_formed(add_range(rs, f, r)),
{
    lemma_file_index(rs, f, 0);
    let out = add_range(rs, f, r);
    let j = file_index(rs, f, 0);
    if j >= 0 {
        assert forall|a: int, b: int| 0 <= a < b < out.len() implies !spec_path_eq(
            #[trigger] out[a].0,
            #[trigger] out[b].0,
        ) by {
            assert(out[a].0 == rs[a].0 && out[b].0 == rs[b].0);
        }
        assert forall|a: int, k: int|
            0 <= a < out.len() && 0 <= k < out[a].1.len() implies 0 <= #[trigger] out[a].1[k].0
            < out[a].1[k].1 <= u32::MAX by {
            if a != j {
                assert(out[a] == rs[a]);
            } else if k < rs[j].1.len() {
                assert(out[a].1[k] == rs[j].1[k]);
            }
        }
        assert forall|a: int| 0 <= a < out.len() implies #[trigger] out[a].1.len() > 0 by {
            if a != j {
                assert(out[a] == rs[a]);
            }
        }
    } else {
        assert forall|a: int, b: int| 0 <= a < b < out.len() implies !spec_path_eq(
            #[trigger] out[a].0,
            #[trigger] out[b].0,
        ) by {
            if b == rs.len() {
                assert(out[a] == rs[a]);
            } else {
                assert(out[a] == rs[a] && out[b] == rs[b]);
            }
        }
        assert forall|a: int, k: int|
            0 <= a < out.len() && 0 <= k < out[a].1.len() implies 0 <= #[trigger] out[a].1[k].0
            < out[a].1[k].1 <= u32::MAX by {
            if a < rs.len() {
                assert(out[a] == rs[a]);
            }
        }
        assert forall|a: int| 0 <= a < out.len() implies #[trigger] out[a].1.len() > 0 by {
            if a < rs.len() {
                assert(out[a] == rs[a]);
            }
        }
    }
}

proof fn lemma_diff_fold_well_formed(
    ls: Seq<Seq<char>>,
    i: int,
    rs: Seq<(Seq<char>, Seq<(int, int)>)>,
    cur: Option<Seq<char>>,
)
    requires
        ranges_well_formed(rs),
    ensures
        diff_fold(ls, i, rs, cur) matches DiffOutcome::Ranges(out) ==> ranges_well_formed(out),
    decreases ls.len() - i,
{
    if 0 <= i < ls.len() {
        let line = ls[i];
        if starts_with(line, "+++ b/"@) {
            lemma_diff_fold_well_formed(ls, i + 1, rs, Some(line.skip(6)));
        } else if line == "+++ /dev/null"@ {
            lemma_diff_fold_well_formed(ls, i + 1, rs, None);
        } else if starts_with(line, "@@ "@) {
            match cur {
                None => lemma_diff_fold_well_formed(ls, i + 1, rs, cur),
                Some(f) => match hunk_of(line) {
                    Err(m) => {},
                    Ok(h) => {
                        if h.1 == 0 {
                            lemma_diff_fold_well_formed(ls, i + 1, rs, cur);
                        } else if h.0 + h.1 <= u32::MAX {
                            lemma_hunk_of_nonneg(line);
                            lemma_add_range_well_formed(rs, f, (h.0, h.0 + h.1));
                            lemma_diff_fold_well_formed(
                                ls,
                                i + 1,
                                add_range(rs, f, (h.0, h.0 + h.1)),
                                cur,
                            );
                        }
                    },
                },
            }
        } else {
            lemma_diff_fold_well_formed(ls, i + 1, rs, cur);
        }
    }
}

proof fn lemma_hunk_number_bound(s: Seq<char>, line: Seq<char>)
    ensures
        hunk_number(s, line) matches Ok(n) ==> 0 <= n <= u32::MAX,
{
    crate::text::lemma_digits_value_bound(s, 0, u32::MAX as int);
    if s.len() > 0 {
        crate::text::lemma_digits_value_bound(s.drop_first(), 0, u32::MAX as int);
    }
}

proof fn lemma_hunk_of_nonneg(line: Seq<char>)
    ensures
        hunk_of(line) matches Ok(h) ==> 0 <= h.0 <= u32::MAX && 0 <= h.1 <= u32::MAX,
{
    if starts_with(line, "@@ "@) {
        let ws = words(before_first(line.skip(3), " @@"@));
        let k = first_plus_word(ws, 0);
        if k >= 0 {
            let nums = ws[k].drop_first();
            let c = first_index(nums, ',');
            lemma_hunk_number_bound(nums, line);
            lemma_hunk_number_bound(nums.take(c), line);
            lemma_hunk_number_bound(nums.skip(c + 1), line);
        }
    }
}

/// What a diff yields is well formed: every recorded range is a non-empty run of
/// line numbers `start..end`, every file listed has at least one range, and no
/// file is listed twice (by path comparison).
pub proof fn law_diff_ranges_well_formed(output: Seq<char>)
    ensures
        diff_of(output) matches DiffOutcome::Ranges(rs) ==> ranges_well_formed(rs),
{
    lemma_diff_fold_well_formed(lines(output), 0, Seq::empty(), None);
}

/// The line names the file that the hunks after it belong to: `+++ b/<path>`,
/// or `+++ /dev/null` for a deleted file.
pub open spec fn is_file_header(line: Seq<char>) -> bool {
    starts_with(line, "+++ b/"@) || line == "+++ /dev/null"@
}

/// The file that the hunks on line `i` (0-based) belong to: the path of the last
/// `+++ b/` header before it, or none when there is no header before it or the
/// last is `+++ /dev/null`.
pub open spec fn current_file(ls: Seq<Seq<char>>, i: int) -> Option<Seq<char>>
    decreases i,
{
    if i <= 0 || i > ls.len() {
        None
    } else if starts_with(ls[i - 1], "+++ b/"@) {
        Some(ls[i - 1].skip(6))
    } else if ls[i - 1] == "+++ /dev/null"@ {
        None
    } else {
        current_file(ls, i - 1)
    }
}

/// Line `t` is a hunk header that belongs to a file.
pub open spec fn live_hunk(ls: Seq<Seq<char>>, t: int) -> bool {
    !is_file_header(ls[t]) && starts_with(ls[t], "@@ "@) && current_file(ls, t) is Some
}

/// Line `t` is a hunk header of a file that is refused, or whose added lines end
/// past the largest line number.
pub open spec fn bad_hunk(ls: Seq<Seq<char>>, t: int) -> bool {
    live_hunk(ls, t) && match hunk_of(ls[t]) {
        Err(_) => true,
        Ok(h) => h.1 > 0 && h.0 + h.1 > u32::MAX,
    }
}

/// Line `t` is a hunk header of a file that adds lines: it counts.
pub open spec fn counted_hunk(ls: Seq<Seq<char>>, t: int) -> bool {
    live_hunk(ls, t) && match hunk_of(ls[t]) {
        Err(_) => false,
        Ok(h) => 0 < h.1 && h.0 + h.1 <= u32::MAX,
    }
}

/// The hunks of lines `0..n` that count, in order: each as its file and the
/// range `c..c + d` of the lines it adds.
pub open spec fn counted_hunks(ls: Seq<Seq<char>>, n: int) -> Seq<(Seq<char>, (int, int))>
    decreases n,
{
    if n <= 0 || n > ls.len() {
        Seq::empty()
    } else if counted_hunk(ls, n - 1) {
        let h = hunk_of(ls[n - 1])->Ok_0;
        counted_hunks(ls, n - 1).push((current_file(ls, n - 1)->Some_0, (h.0, h.0 + h.1)))
    } else {
        counted_hunks(ls, n - 1)
    }
}

/// The hunks grouped by file: each range recorded, in order, with the first
/// entry whose file is the same path, or in a new entry at the end.
pub open spec fn grouped(hs: Seq<(Seq<char>, (int, int))>) -> Seq<(Seq<char>, Seq<(int, int)>)>
    decreases hs.len(),
{
    if hs.len() == 0 {
        Seq::empty()
    } else {
        add_range(grouped(hs.drop_last()), hs.last().0, hs.last().1)
    }
}

/// The first bad hunk header at or after line `i`, or -1.
pub open spec fn first_bad_hunk(ls: Seq<Seq<char>>, i: int) -> int
    decreases ls.len() - i,
{
    if i < 0 || i >= ls.len() {
        -1
    } else if bad_hunk(ls, i) {
        i
    } else {
        first_bad_hunk(ls, i + 1)
    }
}

/// What the bad hunk header on line `t` makes of the diff.
pub open spec fn bad_hunk_outcome(ls: Seq<Seq<char>>, t: int) -> DiffOutcome {
    match hunk_of(ls[t]) {
        Err(m) => DiffOutcome::Failed(m),
        Ok(_) => DiffOutcome::Overflow,
    }
}

proof fn lemma_diff_fold_closed(ls: Seq<Seq<char>>, i: int)
    requires
        0 <= i <= ls.len(),
    ensures
        first_bad_hunk(ls, i) >= 0 ==> diff_fold(
            ls,
            i,
            grouped(counted_hunks(ls, i)),
            current_file(ls, i),
        ) == bad_hunk_outcome(ls, first_bad_hunk(ls, i)),
        first_bad_hunk(ls, i) < 0 ==> diff_fold(
            ls,
            i,
            grouped(counted_hunks(ls, i)),
            current_file(ls, i),
        ) == DiffOutcome::Ranges(grouped(counted_hunks(ls, ls.len() as int))),
    decreases ls.len() - i,
{
    if i < ls.len() {
        lemma_diff_fold_closed(ls, i + 1);
        let line = ls[i];
        let hs = counted_hunks(ls, i);
        let rs = grouped(hs);
        let cur = current_file(ls, i);
        if counted_hunk(ls, i) {
            let h = hunk_of(line)->Ok_0;
            let f = cur->Some_0;
            assert(counted_hunks(ls, i + 1) == hs.push((f, (h.0, h.0 + h.1))));
            assert(hs.push((f, (h.0, h.0 + h.1))).drop_last() == hs);
            assert(grouped(counted_hunks(ls, i + 1)) == add_range(rs, f, (h.0, h.0 + h.1)));
        } else {
            assert(counted_hunks(ls, i + 1) == hs);
        }
        if starts_with(line, "+++ b/"@) {
            assert(current_file(ls, i + 1) == Some(line.skip(6)));
            assert(diff_fold(ls, i, rs, cur) == diff_fold(ls, i + 1, rs, Some(line.skip(6))));
        } else if line == "+++ /dev/null"@ {
            assert(current_file(ls, i + 1) == None::<Seq<char>>);
            assert(diff_fold(ls, i, rs, cur) == diff_fold(ls, i + 1, rs, None));
        } else {
            assert(current_file(ls, i + 1) == cur);
            if starts_with(line, "@@ "@) && cur is Some {
                let f = cur->Some_0;
                lemma_hunk_of_nonneg(line);
                match hunk_of(line) {
                    Err(m) => {
                        assert(bad_hunk(ls, i));
                    },
                    Ok(h) => {
                        if h.1 == 0 {
                            assert(diff_fold(ls, i, rs, cur) == diff_fold(ls, i + 1, rs, cur));
                        } else if h.0 + h.1 > u32::MAX {
                            assert(bad_hunk(ls, i));
                        } else {
                            assert(diff_fold(ls, i, rs, cur) == diff_fold(
                                ls,
                                i + 1,
                                add_range(rs, f, (h.0, h.0 + h.1)),
                                cur,
                            ));
                        }
                    },
                }
            } else {
                assert(diff_fold(ls, i, rs, cur) == diff_fold(ls, i + 1, rs, cur));
            }
        }
    } else {
        assert(first_bad_hunk(ls, i) == -1);
    }
}

/// What a diff yields, in closed form. At the first hunk header of a file that
/// is refused (it has no `+` range, or a number that is no `u32`) reading fails
/// with that header's message; a hunk there whose added lines end past the
/// largest line number is an overflow. Otherwise the ranges are the hunks that
/// count (those under a `+++ b/<path>` header, not after `+++ /dev/null`, adding
/// at least one line), in order, grouped by file as `grouped` does.
pub proof fn law_diff_closed_form(output: Seq<char>)
    ensures
        first_bad_hunk(lines(output), 0) >= 0 ==> diff_of(output) == bad_hunk_outcome(
            lines(output),
            first_bad_hunk(lines(output), 0),
        ),
        first_bad_hunk(lines(output), 0) < 0 ==> diff_of(output) == DiffOutcome::Ranges(
            grouped(counted_hunks(lines(output), lines(output).len() as int)),
        ),
{
    let ls = lines(output);
    lemma_diff_fold_closed(ls, 0);
    assert(grouped(counted_hunks(ls, 0)) == Seq::<(Seq<char>, Seq<(int, int)>)>::empty());
}

/// The entry `e` is the one for the file `f`: the same path, by comparison or
/// by text.
pub open spec fn entry_for(e: (Seq<char>, Seq<(int, int)>), f: Seq<char>) -> bool {
    e.0 == f || spec_path_eq(e.0, f)
}

proof fn lemma_add_range_old(g: Seq<(Seq<char>, Seq<(int, int)>)>, f: Seq<char>, r: (int, int), k: int, q: int)
    requires
        0 <= k < g.len(),
        0 <= q < g[k].1.len(),
    ensures
        k < add_range(g, f, r).len(),
        add_range(g, f, r)[k].0 == g[k].0,
        q < add_range(g, f, r)[k].1.len(),
        add_range(g, f, r)[k].1[q] == g[k].1[q],
{
    lemma_file_index(g, f, 0);
}

proof fn lemma_add_range_new(g: Seq<(Seq<char>, Seq<(int, int)>)>, f: Seq<char>, r: (int, int), k: int, q: int)
    requires
        0 <= k < add_range(g, f, r).len(),
        0 <= q < add_range(g, f, r)[k].1.len(),
        !(k < g.len() && q < g[k].1.len()),
    ensures
        add_range(g, f, r)[k].1[q] == r,
        entry_for(add_range(g, f, r)[k], f),
{
    lemma_file_index(g, f, 0);
}

proof fn lemma_add_range_holds(g: Seq<(Seq<char>, Seq<(int, int)>)>, f: Seq<char>, r: (int, int)) -> (k: int)
    ensures
        0 <= k < add_range(g, f, r).len(),
        entry_for(add_range(g, f, r)[k], f),
        add_range(g, f, r)[k].1.contains(r),
{
    lemma_file_index(g, f, 0);
    let j = file_index(g, f, 0);
    let out = add_range(g, f, r);
    if j >= 0 {
        assert(out[j].1[g[j].1.len() as int] == r);
        j
    } else {
        assert(out[g.len() as int].1[0] == r);
        g.len() as int
    }
}

proof fn lemma_hunk_kept(hs: Seq<(Seq<char>, (int, int))>, t: int) -> (k: int)
    requires
        0 <= t < hs.len(),
    ensures
        0 <= k < grouped(hs).len(),
        entry_for(grouped(hs)[k], hs[t].0),
        grouped(hs)[k].1.contains(hs[t].1),
    decreases hs.len(),
{
    let pre = hs.drop_last();
    let g = grouped(pre);
    let f = hs.last().0;
    let r = hs.last().1;
    assert(grouped(hs) == add_range(g, f, r));
    if t < pre.len() {
        assert(hs[t] == pre[t]);
        let k = lemma_hunk_kept(pre, t);
        let x = choose|x: int| 0 <= x < g[k].1.len() && g[k].1[x] == pre[t].1;
        lemma_add_range_old(g, f, r, k, x);
        assert(grouped(hs)[k].1[x] == hs[t].1);
        k
    } else {
        assert(hs[t] == (f, r));
        lemma_add_range_holds(g, f, r)
    }
}

/// Grouping loses no hunk: the range of every hunk is among the ranges of an
/// entry for its file.
pub proof fn law_grouped_keeps_every_hunk(hs: Seq<(Seq<char>, (int, int))>, t: int)
    requires
        0 <= t < hs.len(),
    ensures
        exists|k: int|
            0 <= k < grouped(hs).len() && entry_for(#[trigger] grouped(hs)[k], hs[t].0)
                && grouped(hs)[k].1.contains(hs[t].1),
{
    let k = lemma_hunk_kept(hs, t);
    assert(entry_for(grouped(hs)[k], hs[t].0));
}

proof fn lemma_range_source(hs: Seq<(Seq<char>, (int, int))>, k: int, q: int) -> (t: int)
    requires
        0 <= k < grouped(hs).len(),
        0 <= q < grouped(hs)[k].1.len(),
    ensures
        0 <= t < hs.len(),
        entry_for(grouped(hs)[k], hs[t].0),
        hs[t].1 == grouped(hs)[k].1[q],
    decreases hs.len(),
{
    let pre = hs.drop_last();
    let g = grouped(pre);
    let f = hs.last().0;
    let r = hs.last().1;
    assert(grouped(hs) == add_range(g, f, r));
    if k < g.len() && q < g[k].1.len() {
        lemma_add_range_old(g, f, r, k, q);
        let t = lemma_range_source(pre, k, q);
        assert(hs[t] == pre[t]);
        t
    } else {
        lemma_add_range_new(g, f, r, k, q);
        let last = hs.len() - 1;
        assert(hs[last] == (f, r));
        last
    }
}

/// Grouping invents no range: every range of an entry is that of a hunk whose
/// file the entry is for.
pub proof fn law_grouped_invents_nothing(hs: Seq<(Seq<char>, (int, int))>, k: int, q: int)
    requires
        0 <= k < grouped(hs).len(),
        0 <= q < grouped(hs)[k].1.len(),
    ensures
        exists|t: int|
            0 <= t < hs.len() && entry_for(grouped(hs)[k], #[trigger] hs[t].0) && hs[t].1
                == grouped(hs)[k].1[q],
{
    let t = lemma_range_source(hs, k, q);
    assert(entry_for(grouped(hs)[k], hs[t].0));
}

/// Diffs name files by their path relative to the project root, as mutants'
/// `relative_source_path` does: filtering keeps a mutant exactly when some entry
/// of the diff names its relative path and has a range holding its line, and
/// the kept mutants come in their order.
pub proof fn law_filter_mutants_on_added_lines(mutants: Seq<Mutant>, ranges: Seq<DiffRange>, m: Mutant)
    ensures
        mutants.filter(|x: Mutant| mutant_in_diff(ranges, x)).contains(m) <==> (mutants.contains(m)
            && on_added_line(ranges, m.relative_source_path@, m.line as int)),
{
    law_filter_mutants_exact(mutants, ranges, m);
    if mutant_in_diff(ranges, m) {
        let (i, j) = choose|i: int, j: int|
            0 <= i < ranges.len() && spec_path_eq(ranges[i].file@, m.relative_source_path@) && 0 <= j
                < ranges[i].lines@.len() && #[trigger] ranges[i].lines@[j].start <= m.line
                < ranges[i].lines@[j].end;
        assert(ranges[i].lines@[j].start <= m.line);
    }
    if on_added_line(ranges, m.relative_source_path@, m.line as int) {
        let (i, j) = choose|i: int, j: int|
            #![trigger ranges[i].lines@[j]]
            0 <= i < ranges.len() && 0 <= j < ranges[i].lines@.len() && spec_path_eq(
                ranges[i].file@,
                m.relative_source_path@,
            ) && ranges[i].lines@[j].start <= m.line && m.line < ranges[i].lines@[j].end;
        assert(ranges[i].lines@[j].start <= m.line < ranges[i].lines@[j].end);
    }
}

/// Filtering by a diff keeps exactly the mutants on added lines: every kept
/// mutant is on such a line, and every mutant on such a line is kept.
pub proof fn law_filter_mutants_exact(mutants: Seq<Mutant>, ranges: Seq<DiffRange>, m: Mutant)
    ensures
        mutants.filter(|x: Mutant| mutant_in_diff(ranges, x)).contains(m) <==> (mutants.contains(m)
            && mutant_in_diff(ranges, m)),
{
    let pred = |x: Mutant| mutant_in_diff(ranges, x);
    if mutants.contains(m) && mutant_in_diff(ranges, m) {
        let k = choose|k: int| 0 <= k < mutants.len() && mutants[k] == m;
        mutants.lemma_filter_contains(pred, k);
    }
    if mutants.filter(pred).contains(m) {
        mutants.lemma_filter_contains_rev(pred, m);
        let k = choose|k: int| 0 <= k < mutants.filter(pred).len() && mutants.filter(pred)[k] == m;
        mutants.lemma_filter_pred(pred, k);
    }
}

} // verus!
