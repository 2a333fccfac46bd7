//! The mutation report: counting verdicts, merging partial results, and the lines
//! of the text and markdown summaries.
use vstd::prelude::*;

use crate::external::{io_error_text, json_error_text};
use crate::generator::Mutant;
use crate::runner::TestResult;
use std::collections::HashMap;
use crate::text::{
    chars_of, decimal, decimal_chars, push_all, replace_char, replace_char_chars, str_views, string_of,
};

verus! {

/// Errors in producing a report.
#[derive(Debug)]
pub enum ReportError {
    Generation(String),
    Io(std::io::Error),
    Json(serde_json::Error),
}

impl ReportError {
    /// The error's message.
    pub fn to_string(&self) -> (r: String)
        ensures
            self matches ReportError::Generation(m) ==> r@ == "failed to generate report: "@ + m@,
            self matches ReportError::Io(_) ==> crate::text::starts_with(r@, "io error: "@),
            self matches ReportError::Json(_) ==> crate::text::starts_with(r@, "json error: "@),
    {
        match self {
            ReportError::Generation(m) => {
                let mut v = chars_of("failed to generate report: ");
                push_all(&mut v, &chars_of(m.as_str()));
                string_of(&v)
            },
            ReportError::Io(e) => {
                let mut v = chars_of("io error: ");
                let ghost head = v@;
                let t = io_error_text(e);
                push_all(&mut v, &chars_of(t.as_str()));
                assert(v@.take(head.len() as int) == head);
                string_of(&v)
            },
            ReportError::Json(e) => {
                let mut v = chars_of("json error: ");
                let ghost head = v@;
                let t = json_error_text(e);
                push_all(&mut v, &chars_of(t.as_str()));
                assert(v@.take(head.len() as int) == head);
                string_of(&v)
            },
        }
    }
}

impl From<std::io::Error> for ReportError {
    fn from(e: std::io::Error) -> (r: Self) {
        ReportError::Io(e)
    }
}

impl vstd::std_specs::convert::FromSpecImpl<std::io::Error> for ReportError {
    open spec fn obeys_from_spec() -> bool {
        true
    }

    open spec fn from_spec(e: std::io::Error) -> Self {
        ReportError::Io(e)
    }
}

impl From<serde_json::Error> for ReportError {
    fn from(e: serde_json::Error) -> (r: Self) {
        ReportError::Json(e)
    }
}

impl vstd::std_specs::convert::FromSpecImpl<serde_json::Error> for ReportError {
    open spec fn obeys_from_spec() -> bool {
        true
    }

    open spec fn from_spec(e: serde_json::Error) -> Self {
        ReportError::Json(e)
    }
}

/// `s` with each `|` escaped as `\|`, for a markdown table cell.
pub fn escape_pipe(s: &str) -> (r: String)
    ensures
        r@ == replace_char(s@, '|', "\\|"@),
{
    string_of(&replace_char_chars(&chars_of(s), '|', &chars_of("\\|")))
}

// ---------------------------------------------------------------------------
// Counting
// ---------------------------------------------------------------------------

/// How many of the results killed their mutant.
pub open spec fn count_killed(rs: Seq<TestResult>) -> nat
    decreases rs.len(),
{
    if rs.len() == 0 {
        0
    } else {
        count_killed(rs.drop_last()) + if rs.last().killed {
            1nat
        } else {
            0nat
        }
    }
}

pub proof fn lemma_count_killed(rs: Seq<TestResult>)
    ensures
        count_killed(rs) <= rs.len(),
    decreases rs.len(),
{
    if rs.len() > 0 {
        lemma_count_killed(rs.drop_last());
    }
}

/// The verdicts on a set of mutants, and their counts. (The mutation score, the
/// share of killed mutants, is a ratio that the program computes from the counts.)
#[derive(Debug)]
pub struct Report {
    pub total_mutants: u32,
    pub killed_mutants: u32,
    pub survived_mutants: u32,
    pub results: Vec<TestResult>,
}

impl Report {
    /// The report on these results: how many there are, how many killed their
    /// mutant, how many did not.
    pub fn new(results: Vec<TestResult>) -> (r: Self)
        requires
            results@.len() <= u32::MAX,
        ensures
            r.results@ == results@,
            r.total_mutants == results@.len(),
            r.killed_mutants == count_killed(results@),
            r.survived_mutants == results@.len() - count_killed(results@),
    {
        let total = results.len() as u32;
        let mut killed: u32 = 0;
        let mut i: usize = 0;
        while i < results.len()
            invariant
                i <= results.len(),
                results@.len() <= u32::MAX,
                killed == count_killed(results@.take(i as int)),
            decreases results.len() - i,
        {
            proof {
                assert(results@.take(i + 1).drop_last() == results@.take(i as int));
                lemma_count_killed(results@.take(i as int));
            }
            if results[i].killed {
                killed += 1;
            }
            i += 1;
        }
        proof {
            assert(results@.take(results.len() as int) == results@);
            lemma_count_killed(results@);
        }
        Report { total_mutants: total, killed_mutants: killed, survived_mutants: total - killed, results }
    }
}

// ---------------------------------------------------------------------------
// Merging partial results
// ---------------------------------------------------------------------------

/// The mutant ids of `rs`, in order.
pub open spec fn ids_of(rs: Seq<TestResult>) -> Seq<u32> {
    rs.map_values(|r: TestResult| r.mutant_id)
}

/// No two results in `rs` are about the same mutant.
pub open spec fn distinct_ids(rs: Seq<TestResult>) -> bool {
    forall|i: int, j: int| 0 <= i < rs.len() && 0 <= j < rs.len() && i != j ==> rs[i].mutant_id
        != rs[j].mutant_id
}

/// Ascending by mutant id, no id twice.
pub open spec fn strictly_ascending_ids(rs: Seq<TestResult>) -> bool {
    forall|i: int, j: int| 0 <= i < j < rs.len() ==> rs[i].mutant_id < rs[j].mutant_id
}

/// The message for a result about a mutant that an earlier result covered.
pub open spec fn duplicate_message(id: u32, file: Seq<char>) -> Seq<char> {
    "duplicate mutant_id "@ + decimal(id as nat) + " in "@ + file
}

/// Adding the results `rs[j..]` of `file` to `acc`, refusing a mutant seen before.
pub open spec fn add_results(file: Seq<char>, rs: Seq<TestResult>, j: int, acc: Seq<TestResult>) -> Result<
    Seq<TestResult>,
    Seq<char>,
>
    decreases rs.len() - j,
{
    if j < 0 || j >= rs.len() {
        Ok(acc)
    } else if ids_of(acc).contains(rs[j].mutant_id) {
        Err(duplicate_message(rs[j].mutant_id, file))
    } else {
        add_results(file, rs, j + 1, acc.push(rs[j]))
    }
}

/// Adding the result files `parts[i..]` to `acc`: each is a file's name and what
/// reading it gave, its results or why it could not be read.
pub open spec fn add_files(
    parts: Seq<(String, Result<Vec<TestResult>, String>)>,
    i: int,
    acc: Seq<TestResult>,
) -> Result<Seq<TestResult>, Seq<char>>
    decreases parts.len() - i,
{
    if i < 0 || i >= parts.len() {
        Ok(acc)
    } else {
        match parts[i].1 {
            Err(e) => Err(parts[i].0@ + ": "@ + e@),
            Ok(rs) => match add_results(parts[i].0@, rs@, 0, acc) {
                Ok(next) => add_files(parts, i + 1, next),
                Err(m) => Err(m),
            },
        }
    }
}

/// What merging the result files gives: all their results, in the order read, or
/// the message of the first problem met.
pub open spec fn merged(parts: Seq<(String, Result<Vec<TestResult>, String>)>) -> Result<
    Seq<TestResult>,
    Seq<char>,
> {
    if parts.len() == 0 {
        Err("no result files provided"@)
    } else {
        add_files(parts, 0, Seq::empty())
    }
}

/// The results of the files `parts[i..]`, one file after another (a file that
/// could not be read gives none).
pub open spec fn results_from(parts: Seq<(String, Result<Vec<TestResult>, String>)>, i: int) -> Seq<
    TestResult,
>
    decreases parts.len() - i,
{
    if i < 0 || i >= parts.len() {
        Seq::empty()
    } else {
        match parts[i].1 {
            Ok(rs) => rs@ + results_from(parts, i + 1),
            Err(_) => results_from(parts, i + 1),
        }
    }
}

/// Every file of `parts[i..]` could be read.
pub open spec fn readable_from(parts: Seq<(String, Result<Vec<TestResult>, String>)>, i: int) -> bool {
    forall|k: int| i <= k < parts.len() ==> (#[trigger] parts[k]).1 is Ok
}

proof fn lemma_distinct_prefix(a: Seq<TestResult>, b: Seq<TestResult>)
    requires
        distinct_ids(a + b),
    ensures
        distinct_ids(a),
{
    assert forall|i: int, j: int| 0 <= i < a.len() && 0 <= j < a.len() && i != j implies a[i].mutant_id
        != a[j].mutant_id by {
        assert((a + b)[i] == a[i] && (a + b)[j] == a[j]);
    }
}

proof fn lemma_add_results(file: Seq<char>, rs: Seq<TestResult>, j: int, acc: Seq<TestResult>)
    requires
        distinct_ids(acc),
        0 <= j <= rs.len(),
    ensures
        add_results(file, rs, j, acc) is Ok <==> distinct_ids(acc + rs.skip(j)),
        add_results(file, rs, j, acc) is Ok ==> add_results(file, rs, j, acc) == Ok::<
            Seq<TestResult>,
            Seq<char>,
        >(acc + rs.skip(j)),
    decreases rs.len() - j,
{
    if j == rs.len() {
        assert(acc + rs.skip(j) =~= acc);
    } else {
        let whole = acc + rs.skip(j);
        assert(whole[acc.len() as int] == rs[j]);
        if ids_of(acc).contains(rs[j].mutant_id) {
            let k = choose|k: int| 0 <= k < ids_of(acc).len() && ids_of(acc)[k] == rs[j].mutant_id;
            assert(whole[k] == acc[k]);
            assert(!distinct_ids(whole));
        } else {
            let next = acc.push(rs[j]);
            assert forall|a: int, b: int| 0 <= a < next.len() && 0 <= b < next.len() && a != b implies next[a].mutant_id
                != next[b].mutant_id by {
                if a < acc.len() && b < acc.len() {
                } else if a < acc.len() {
                    assert(ids_of(acc)[a] == acc[a].mutant_id);
                } else {
                    assert(ids_of(acc)[b] == acc[b].mutant_id);
                }
            }
            lemma_add_results(file, rs, j + 1, next);
            assert(next + rs.skip(j + 1) =~= whole);
        }
    }
}

proof fn lemma_add_files(
    parts: Seq<(String, Result<Vec<TestResult>, String>)>,
    i: int,
    acc: Seq<TestResult>,
)
    requires
        distinct_ids(acc),
        0 <= i <= parts.len(),
    ensures
        add_files(parts, i, acc) is Ok <==> readable_from(parts, i) && distinct_ids(
            acc + results_from(parts, i),
        ),
        add_files(parts, i, acc) is Ok ==> add_files(parts, i, acc) == Ok::<
            Seq<TestResult>,
            Seq<char>,
        >(acc + results_from(parts, i)),
    decreases parts.len() - i,
{
    if i == parts.len() {
        assert(acc + results_from(parts, i) =~= acc);
    } else {
        match parts[i].1 {
            Err(_) => {
                assert(!readable_from(parts, i));
            },
            Ok(rs) => {
                lemma_add_results(parts[i].0@, rs@, 0, acc);
                assert(rs@.skip(0) == rs@);
                let rest = results_from(parts, i + 1);
                assert(acc + results_from(parts, i) =~= (acc + rs@) + rest);
                if add_results(parts[i].0@, rs@, 0, acc) is Ok {
                    lemma_add_files(parts, i + 1, acc + rs@);
                    assert(readable_from(parts, i) <==> readable_from(parts, i + 1));
                } else {
                    if distinct_ids((acc + rs@) + rest) {
                        lemma_distinct_prefix(acc + rs@, rest);
                    }
                }
            },
        }
    }
}

/// Merging succeeds exactly when there is at least one result file, every file
/// could be read, and no mutant is covered twice over all of them; what it
/// merges is then every result read, file after file.
pub proof fn law_merge_succeeds_iff_readable_and_distinct(
    parts: Seq<(String, Result<Vec<TestResult>, String>)>,
)
    ensures
        merged(parts) is Ok <==> parts.len() > 0 && readable_from(parts, 0) && distinct_ids(
            results_from(parts, 0),
        ),
        merged(parts) is Ok ==> merged(parts) == Ok::<Seq<TestResult>, Seq<char>>(
            results_from(parts, 0),
        ),
{
    if parts.len() > 0 {
        lemma_add_files(parts, 0, Seq::empty());
        assert(Seq::<TestResult>::empty() + results_from(parts, 0) =~= results_from(parts, 0));
    }
}

fn holds_id(rs: &Vec<TestResult>, id: u32) -> (r: bool)
    ensures
        r == ids_of(rs@).contains(id),
{
    let mut i: usize = 0;
    while i < rs.len()
        invariant
            i <= rs.len(),
            forall|k: int| 0 <= k < i ==> rs@[k].mutant_id != id,
        decreases rs.len() - i,
    {
        if rs[i].mutant_id == id {
            assert(ids_of(rs@)[i as int] == id);
            return true;
        }
        i += 1;
    }
    proof {
        if ids_of(rs@).contains(id) {
            let k = choose|k: int| 0 <= k < ids_of(rs@).len() && ids_of(rs@)[k] == id;
            assert(rs@[k].mutant_id == id);
        }
    }
    false
}

/// Ascending by mutant id.
pub open spec fn ascending_ids(rs: Seq<TestResult>) -> bool {
    forall|i: int, j: int| 0 <= i < j < rs.len() ==> rs[i].mutant_id <= rs[j].mutant_id
}

/// The results of `rs` about the mutant `id`, in order.
pub open spec fn with_id(rs: Seq<TestResult>, id: u32) -> Seq<TestResult> {
    rs.filter(|r: TestResult| r.mutant_id == id)
}

proof fn lemma_with_id_none(a: Seq<TestResult>, id: u32)
    requires
        forall|i: int| 0 <= i < a.len() ==> a[i].mutant_id != id,
    ensures
        with_id(a, id) == Seq::<TestResult>::empty(),
{
    let p = |r: TestResult| r.mutant_id == id;
    assert(a.all(|x: TestResult| !p(x))) by {
        assert forall|i: int| 0 <= i < a.len() implies !p(a[i]) by {}
    }
    a.lemma_all_neg_filter_empty(p);
}

proof fn lemma_with_id_split(a: Seq<TestResult>, x: TestResult, b: Seq<TestResult>, id: u32)
    ensures
        with_id(a + seq![x] + b, id) == with_id(a, id) + (if x.mutant_id == id {
            seq![x]
        } else {
            Seq::<TestResult>::empty()
        }) + with_id(b, id),
        with_id(a + b, id) == with_id(a, id) + with_id(b, id),
{
    let p = |r: TestResult| r.mutant_id == id;
    Seq::filter_distributes_over_add(a + seq![x], b, p);
    Seq::filter_distributes_over_add(a, seq![x], p);
    Seq::filter_distributes_over_add(a, b, p);
    reveal_with_fuel(Seq::filter, 2);
    assert(seq![x].drop_last() =~= Seq::<TestResult>::empty());
    assert(Seq::<TestResult>::empty().filter(p) =~= Seq::<TestResult>::empty());
}

/// The results sorted by mutant id, stably: results about the same mutant keep
/// their order (`slice::sort_by_key`).
pub fn sort_results(v: Vec<TestResult>) -> (r: Vec<TestResult>)
    ensures
        ascending_ids(r@),
        forall|id: u32| #[trigger] with_id(r@, id) == with_id(v@, id),
        r@.to_multiset() == v@.to_multiset(),
        distinct_ids(v@) ==> strictly_ascending_ids(r@),
{
    let ghost orig = v@;
    let mut rest = v;
    let mut r: Vec<TestResult> = Vec::new();
    proof {
        vstd::seq_lib::to_multiset_len(r@);
        assert(r@.to_multiset() =~= vstd::multiset::Multiset::<TestResult>::empty());
        assert forall|id: u32| #[trigger] with_id(orig, id) == with_id(r@, id) + with_id(rest@, id) by {
            lemma_with_id_none(r@, id);
            assert(with_id(r@, id) + with_id(rest@, id) =~= with_id(rest@, id));
        }
    }
    while rest.len() > 0
        invariant
            r@.to_multiset().add(rest@.to_multiset()) == orig.to_multiset(),
            forall|id: u32| #[trigger] with_id(orig, id) == with_id(r@, id) + with_id(rest@, id),
            ascending_ids(r@),
            forall|i: int, j: int|
                0 <= i < r@.len() && 0 <= j < rest@.len() ==> r@[i].mutant_id <= rest@[j].mutant_id,
            distinct_ids(orig) ==> distinct_ids(rest@),
            distinct_ids(orig) ==> strictly_ascending_ids(r@),
            distinct_ids(orig) ==> forall|i: int, j: int|
                0 <= i < r@.len() && 0 <= j < rest@.len() ==> r@[i].mutant_id < rest@[j].mutant_id,
        decreases rest.len(),
    {
        let mut m: usize = 0;
        let mut k: usize = 1;
        while k < rest.len()
            invariant
                1 <= k <= rest.len(),
                m < k,
                forall|j: int| 0 <= j < k ==> rest@[m as int].mutant_id <= rest@[j].mutant_id,
                forall|j: int| 0 <= j < m ==> rest@[m as int].mutant_id < rest@[j].mutant_id,
            decreases rest.len() - k,
        {
            if rest[k].mutant_id < rest[m].mutant_id {
                m = k;
            }
            k += 1;
        }
        let ghost rest_before = rest@;
        let ghost r_before = r@;
        let x = rest.remove(m);
        proof {
            let a = rest_before.take(m as int);
            let b = rest_before.skip(m + 1);
            assert(rest_before =~= a + seq![x] + b);
            assert(rest@ =~= a + b);
            vstd::seq_lib::to_multiset_remove(rest_before, m as int);
            vstd::seq_lib::to_multiset_contains(rest_before, x);
            assert(rest_before.contains(x)) by {
                assert(rest_before[m as int] == x);
            }
            assert forall|j: int| 0 <= j < rest@.len() implies x.mutant_id <= rest@[j].mutant_id by {
                let jj = if j < m {
                    j
                } else {
                    j + 1
                };
                assert(rest@[j] == rest_before[jj]);
            }
            if distinct_ids(orig) {
                assert forall|j: int| 0 <= j < rest@.len() implies x.mutant_id
                    < rest@[j].mutant_id by {
                    let jj = if j < m {
                        j
                    } else {
                        j + 1
                    };
                    assert(rest@[j] == rest_before[jj]);
                    assert(jj != m);
                }
                assert forall|i: int, j: int|
                    0 <= i < rest@.len() && 0 <= j < rest@.len() && i != j implies rest@[i].mutant_id
                    != rest@[j].mutant_id by {
                    let ii = if i < m {
                        i
                    } else {
                        i + 1
                    };
                    let jj = if j < m {
                        j
                    } else {
                        j + 1
                    };
                    assert(rest@[i] == rest_before[ii]);
                    assert(rest@[j] == rest_before[jj]);
                }
            }
            assert forall|id: u32| #[trigger] with_id(orig, id) == with_id(r_before.push(x), id)
                + with_id(rest@, id) by {
                lemma_with_id_split(a, x, b, id);
                lemma_with_id_split(r_before, x, Seq::<TestResult>::empty(), id);
                assert(r_before + seq![x] + Seq::<TestResult>::empty() =~= r_before.push(x));
                assert(with_id(Seq::<TestResult>::empty(), id) =~= Seq::<TestResult>::empty()) by {
                    lemma_with_id_none(Seq::<TestResult>::empty(), id);
                }
                if x.mutant_id == id {
                    assert forall|i: int| 0 <= i < a.len() implies a[i].mutant_id != id by {
                        assert(a[i] == rest_before[i]);
                    }
                    lemma_with_id_none(a, id);
                }
                assert(with_id(orig, id) =~= with_id(r_before.push(x), id) + with_id(rest@, id));
            }
        }
        r.push(x);
        proof {
            vstd::seq_lib::to_multiset_build(r_before, x);
            assert(r@ == r_before.push(x));
            assert(r@.to_multiset().add(rest@.to_multiset()) =~= r_before.to_multiset().add(
                rest_before.to_multiset(),
            ));
            assert forall|i: int, j: int|
                0 <= i < r@.len() && 0 <= j < rest@.len() implies r@[i].mutant_id
                <= rest@[j].mutant_id by {
                let jj = if j < m {
                    j
                } else {
                    j + 1
                };
                assert(rest@[j] == rest_before[jj]);
                if i < r@.len() - 1 {
                    assert(r@[i] == r_before[i]);
                }
            }
            assert forall|i: int, j: int| 0 <= i < j < r@.len() implies r@[i].mutant_id
                <= r@[j].mutant_id by {
                assert(r@[i] == r_before[i]);
                if j < r@.len() - 1 {
                    assert(r@[j] == r_before[j]);
                } else {
                    assert(r_before[i].mutant_id <= rest_before[m as int].mutant_id);
                }
            }
            if distinct_ids(orig) {
                assert forall|i: int, j: int|
                    0 <= i < r@.len() && 0 <= j < rest@.len() implies r@[i].mutant_id
                    < rest@[j].mutant_id by {
                    let jj = if j < m {
                        j
                    } else {
                        j + 1
                    };
                    assert(rest@[j] == rest_before[jj]);
                    if i < r@.len() - 1 {
                        assert(r@[i] == r_before[i]);
                    }
                }
                assert forall|i: int, j: int| 0 <= i < j < r@.len() implies r@[i].mutant_id
                    < r@[j].mutant_id by {
                    assert(r@[i] == r_before[i]);
                    if j < r@.len() - 1 {
                        assert(r@[j] == r_before[j]);
                    } else {
                        assert(r_before[i].mutant_id < rest_before[m as int].mutant_id);
                    }
                }
            }
        }
    }
    proof {
        vstd::seq_lib::to_multiset_len(rest@);
        assert(rest@.to_multiset() =~= vstd::multiset::Multiset::<TestResult>::empty());
        assert(r@.to_multiset() =~= orig.to_multiset());
        assert forall|id: u32| #[trigger] with_id(r@, id) == with_id(orig, id) by {
            lemma_with_id_none(rest@, id);
            assert(with_id(r@, id) + with_id(rest@, id) =~= with_id(r@, id));
        }
    }
    r
}

impl Report {
    /// Merges the partial results of several runs, given as each result file's
    /// name and what reading it gave (its results, or why it could not be read):
    /// all the results, sorted by mutant id. No files, an unreadable file and a
    /// mutant covered twice are errors, the first met in file order.
    pub fn merge(parts: Vec<(String, Result<Vec<TestResult>, String>)>) -> (r: Result<
        Vec<TestResult>,
        ReportError,
    >)
        ensures
            match merged(parts@) {
                Err(e) => r matches Err(ReportError::Generation(m)) && m@ == e,
                Ok(all) => r matches Ok(v) && strictly_ascending_ids(v@) && v@.to_multiset()
                    == all.to_multiset(),
            },
    {
        if parts.len() == 0 {
            return Err(ReportError::Generation(string_of(&chars_of("no result files provided"))));
        }
        let ghost orig = parts@;
        let mut pending = parts;
        let mut all: Vec<TestResult> = Vec::new();
        let mut i: usize = 0;
        while pending.len() > 0
            invariant
                orig == parts@,
                i + pending@.len() == orig.len(),
                pending@ == orig.skip(i as int),
                merged(orig) == add_files(orig, i as int, all@),
                orig.len() > 0,
                orig.len() <= usize::MAX,
                distinct_ids(all@),
            decreases pending.len(),
        {
            let ghost before = pending@;
            let (file, read) = pending.remove(0);
            assert(before[0] == orig[i as int]);
            assert(pending@ =~= orig.skip(i + 1));
            match read {
                Err(e) => {
                    assert(orig[i as int].1 == Err::<Vec<TestResult>, String>(e));
                    assert(add_files(orig, i as int, all@) == Err::<Seq<TestResult>, Seq<char>>(
                        orig[i as int].0@ + ": "@ + e@,
                    ));
                    let mut v = chars_of(file.as_str());
                    push_all(&mut v, &chars_of(": "));
                    push_all(&mut v, &chars_of(e.as_str()));
                    return Err(ReportError::Generation(string_of(&v)));
                },
                Ok(rs) => {
                    let ghost rs0 = rs@;
                    let ghost start = all@;
                    let mut rs = rs;
                    assert(rs0.len() == rs.len());
                    let mut j: usize = 0;
                    while rs.len() > 0
                        invariant
                            j + rs@.len() == rs0.len(),
                            rs0.len() <= usize::MAX,
                            i < orig.len(),
                            orig == parts@,
                            orig.len() > 0,
                            merged(orig) == add_files(orig, i as int, start),
                            orig[i as int].0@ == file@,
                            orig[i as int].1 matches Ok(q) && q@ == rs0,
                            orig.len() <= usize::MAX,
                            rs@ == rs0.skip(j as int),
                            add_results(file@, rs0, 0, start) == add_results(file@, rs0, j as int, all@),
                            distinct_ids(all@),
                        decreases rs.len(),
                    {
                        let ghost rb = rs@;
                        let x = rs.remove(0);
                        assert(rb[0] == rs0[j as int]);
                        assert(rs@ =~= rs0.skip(j + 1));
                        if holds_id(&all, x.mutant_id) {
                            assert(add_results(file@, rs0, j as int, all@) == Err::<Seq<TestResult>, Seq<char>>(
                                duplicate_message(x.mutant_id, file@),
                            ));
                            let mut v = chars_of("duplicate mutant_id ");
                            push_all(&mut v, &decimal_chars(x.mutant_id as u64));
                            push_all(&mut v, &chars_of(" in "));
                            push_all(&mut v, &chars_of(file.as_str()));
                            return Err(ReportError::Generation(string_of(&v)));
                        }
                        let ghost ab = all@;
                        all.push(x);
                        proof {
                            assert forall|a: int, b: int|
                                0 <= a < all@.len() && 0 <= b < all@.len() && a != b implies all@[a].mutant_id
                                != all@[b].mutant_id by {
                                if a < ab.len() && b < ab.len() {
                                    assert(all@[a] == ab[a]);
                                    assert(all@[b] == ab[b]);
                                } else if a < ab.len() {
                                    assert(all@[a] == ab[a]);
                                    assert(ids_of(ab)[a] == ab[a].mutant_id);
                                } else {
                                    assert(all@[b] == ab[b]);
                                    assert(ids_of(ab)[b] == ab[b].mutant_id);
                                }
                            }
                        }
                        j += 1;
                    }
                    assert(add_results(file@, rs0, j as int, all@) == Ok::<Seq<TestResult>, Seq<char>>(all@));
                }
            }
            i += 1;
        }
        Ok(sort_results(all))
    }
}

// ---------------------------------------------------------------------------
// Summaries
// ---------------------------------------------------------------------------

/// The summary's line on the mutants that `dregs:ignore` comments left out of
/// the run (and so out of the score): `Ignored mutants: <n> (dregs:ignore)`,
/// shown only when there are some.
pub fn ignored_summary_line(ignored: usize) -> (r: Option<String>)
    ensures
        ignored == 0 <==> r is None,
        r matches Some(s) ==> s@ == "Ignored mutants: "@ + decimal(ignored as nat)
            + " (dregs:ignore)"@,
{
    if ignored == 0 {
        return None;
    }
    let mut v = chars_of("Ignored mutants: ");
    push_all(&mut v, &decimal_chars(ignored as u64));
    push_all(&mut v, &chars_of(" (dregs:ignore)"));
    Some(string_of(&v))
}

/// The mutant with id `id` among `ms`; of several with that id, the last, as a map
/// built from them in order keeps it.
pub open spec fn mutant_with_id(ms: Seq<Mutant>, id: u32) -> Option<Mutant>
    decreases ms.len(),
{
    if ms.len() == 0 {
        None
    } else if ms.last().id == id {
        Some(ms.last())
    } else {
        mutant_with_id(ms.drop_last(), id)
    }
}

/// `index` maps each mutant id of `ms` to where the mutant that `mutant_with_id`
/// picks stands, and holds no other id.
pub open spec fn indexes(index: Map<u32, usize>, ms: Seq<Mutant>) -> bool {
    forall|id: u32|
        #![trigger index.contains_key(id)]
        #![trigger mutant_with_id(ms, id)]
        match mutant_with_id(ms, id) {
            Some(m) => index.contains_key(id) && index[id] < ms.len() && ms[index[id] as int] == m,
            None => !index.contains_key(id),
        }
}

/// The mutants' positions by id, as a map built from them in order (of several
/// with one id, the last stays).
pub fn mutant_index(mutants: &[Mutant]) -> (r: HashMap<u32, usize>)
    ensures
        indexes(r@, mutants@),
{
    broadcast use vstd::std_specs::hash::group_hash_axioms;

    let mut index: HashMap<u32, usize> = HashMap::new();
    let mut i: usize = 0;
    assert(mutants@.take(0) =~= Seq::<Mutant>::empty());
    while i < mutants.len()
        invariant
            i <= mutants.len(),
            indexes(index@, mutants@.take(i as int)),
        decreases mutants.len() - i,
    {
        let ghost before = index@;
        let ghost pre = mutants@.take(i as int);
        let id = mutants[i].id;
        index.insert(id, i);
        proof {
            let now = mutants@.take(i + 1);
            assert(now.drop_last() == pre);
            assert(now.last() == mutants@[i as int]);
            assert forall|k: u32| #![trigger index@.contains_key(k)] #![trigger mutant_with_id(now, k)]
                match mutant_with_id(now, k) {
                    Some(m) => index@.contains_key(k) && index@[k] < now.len() && now[index@[k] as int] == m,
                    None => !index@.contains_key(k),
                } by {
                if k != id {
                    assert(mutant_with_id(now, k) == mutant_with_id(pre, k));
                    if let Some(m) = mutant_with_id(pre, k) {
                        assert(before.contains_key(k));
                        assert(now[before[k] as int] == pre[before[k] as int]);
                    } else {
                        assert(!before.contains_key(k));
                    }
                }
            }
        }
        i += 1;
    }
    assert(mutants@.take(mutants.len() as int) == mutants@);
    index
}

/// Where the mutant with id `id` stands among `mutants` (see `mutant_with_id`),
/// looked up in their index.
pub fn find_mutant(index: &HashMap<u32, usize>, mutants: &[Mutant], id: u32) -> (r: Option<usize>)
    requires
        indexes(index@, mutants@),
    ensures
        match mutant_with_id(mutants@, id) {
            Some(m) => r matches Some(k) && k < mutants@.len() && mutants@[k as int] == m,
            None => r is None,
        },
{
    broadcast use vstd::std_specs::hash::group_hash_axioms;

    assert(match mutant_with_id(mutants@, id) {
        Some(m) => index@.contains_key(id) && index@[id] < mutants@.len() && mutants@[index@[id] as int] == m,
        None => !index@.contains_key(id),
    });
    match index.get(&id) {
        Some(k) => Some(*k),
        None => None,
    }
}

/// The killing test, or `unknown` when the output named none.
pub open spec fn killer_text(r: TestResult) -> Seq<char> {
    match r.killed_by {
        Some(k) => k@,
        None => "unknown"@,
    }
}

/// A result's verdict in the text summary.
pub open spec fn status_text(r: TestResult) -> Seq<char> {
    if r.killed {
        "KILLED by "@ + killer_text(r)
    } else {
        "SURVIVED"@
    }
}

/// The text summary's line for a result, given the report's total and the mutant
/// the result is about, when known.
pub open spec fn summary_line(r: TestResult, total: u32, m: Option<Mutant>) -> Seq<char> {
    match m {
        Some(m) => "["@ + decimal(r.mutant_id as nat) + "/"@ + decimal(total as nat) + "] "@
            + m.source_path@ + ":"@ + decimal(m.line as nat) + " "@ + m.operator@ + ": "@
            + status_text(r),
        None => "["@ + decimal(r.mutant_id as nat) + "/"@ + decimal(total as nat) + "]: "@
            + status_text(r),
    }
}

/// The text summary's lines on the surviving mutants of `rs` that `ms` holds:
/// where each is, and what it changed.
pub open spec fn survivor_entries(rs: Seq<TestResult>, ms: Seq<Mutant>) -> Seq<Seq<char>>
    decreases rs.len(),
{
    if rs.len() == 0 {
        Seq::empty()
    } else {
        let r = rs.last();
        survivor_entries(rs.drop_last(), ms) + if !r.killed {
            match mutant_with_id(ms, r.mutant_id) {
                Some(m) => seq![
                    "  ["@ + decimal(r.mutant_id as nat) + "] "@ + m.source_path@ + ":"@ + decimal(
                        m.line as nat,
                    ) + " "@ + m.operator@,
                    "     `"@ + m.original@ + "` -> `"@ + m.replacement@ + "`"@,
                ],
                None => Seq::empty(),
            }
        } else {
            Seq::empty()
        }
    }
}

/// The text summary's section on surviving mutants, present when any survived.
pub open spec fn survivor_section(survived: u32, rs: Seq<TestResult>, ms: Seq<Mutant>) -> Seq<
    Seq<char>,
> {
    if survived > 0 {
        seq!["Surviving mutants:"@] + survivor_entries(rs, ms)
    } else {
        Seq::empty()
    }
}

/// A markdown table cell with `|` escaped.
pub open spec fn cell(s: Seq<char>) -> Seq<char> {
    replace_char(s, '|', "\\|"@)
}

/// The markdown table's killed-by cell: the killing test, `unknown`, or `-` for a
/// survivor.
pub open spec fn killed_by_cell(r: TestResult) -> Seq<char> {
    if r.killed {
        killer_text(r)
    } else {
        "-"@
    }
}

/// A result's verdict in the markdown table.
pub open spec fn status_cell(r: TestResult) -> Seq<char> {
    if r.killed {
        "KILLED"@
    } else {
        "SURVIVED"@
    }
}

/// The markdown table's row for a result, given the mutant it is about, when known.
pub open spec fn markdown_row(r: TestResult, m: Option<Mutant>) -> Seq<char> {
    match m {
        Some(m) => "| "@ + decimal(r.mutant_id as nat) + " | "@ + cell(m.source_path@) + ":"@
            + decimal(m.line as nat) + " | "@ + cell(m.operator@) + " | "@ + status_cell(r)
            + " | "@ + cell(killed_by_cell(r)) + " |"@,
        None => "| "@ + decimal(r.mutant_id as nat) + " | - | - | "@ + status_cell(r) + " | "@
            + cell(killed_by_cell(r)) + " |"@,
    }
}

/// The markdown table's header line.
pub open spec fn markdown_header() -> Seq<char> {
    "| ID | File:Line | Operator | Status | Killed By |"@
}

/// The markdown table's separator line.
pub open spec fn markdown_rule() -> Seq<char> {
    "|----|-----------|----------|--------|-----------|"@
}

/// The markdown summary's lines on the surviving mutants of `rs` that `ms`
/// holds: a heading and a diff block for each.
pub open spec fn markdown_survivor_entries(rs: Seq<TestResult>, ms: Seq<Mutant>) -> Seq<Seq<char>>
    decreases rs.len(),
{
    if rs.len() == 0 {
        Seq::empty()
    } else {
        let r = rs.last();
        markdown_survivor_entries(rs.drop_last(), ms) + if !r.killed {
            match mutant_with_id(ms, r.mutant_id) {
                Some(m) => seq![
                    Seq::empty(),
                    "**["@ + decimal(r.mutant_id as nat) + "] "@ + m.source_path@ + ":"@ + decimal(
                        m.line as nat,
                    ) + " "@ + m.operator@ + "**"@,
                    "```diff"@,
                    "- "@ + m.original@,
                    "+ "@ + m.replacement@,
                    "```"@,
                ],
                None => Seq::empty(),
            }
        } else {
            Seq::empty()
        }
    }
}

/// The markdown summary's section on surviving mutants, present when any survived.
pub open spec fn markdown_survivor_section(survived: u32, rs: Seq<TestResult>, ms: Seq<Mutant>) -> Seq<
    Seq<char>,
> {
    if survived > 0 {
        seq![Seq::empty(), "### Surviving mutants"@] + markdown_survivor_entries(rs, ms)
    } else {
        Seq::empty()
    }
}

fn killer_chars(r: &TestResult) -> (v: Vec<char>)
    ensures
        v@ == killer_text(*r),
{
    match &r.killed_by {
        Some(k) => chars_of(k.as_str()),
        None => chars_of("unknown"),
    }
}

fn push_line(lines: &mut Vec<String>, v: &Vec<char>)
    ensures
        str_views(final(lines)@) == str_views(old(lines)@).push(v@),
{
    let ghost before = lines@;
    lines.push(string_of(v));
    assert(str_views(lines@) =~= str_views(before).push(v@));
}

impl Report {
    /// The text summary's line for each result, in order (the lines before the
    /// score line).
    pub fn summary_lines(&self, mutants: &[Mutant]) -> (r: Vec<String>)
        ensures
            r@.len() == self.results@.len(),
            forall|i: int|
                0 <= i < r@.len() ==> r@[i]@ == summary_line(
                    self.results@[i],
                    self.total_mutants,
                    mutant_with_id(mutants@, self.results@[i].mutant_id),
                ),
    {
        let index = mutant_index(mutants);
        let mut lines: Vec<String> = Vec::new();
        let mut i: usize = 0;
        while i < self.results.len()
            invariant
                i <= self.results.len(),
                indexes(index@, mutants@),
                lines@.len() == i,
                forall|k: int|
                    0 <= k < i ==> lines@[k]@ == summary_line(
                        self.results@[k],
                        self.total_mutants,
                        mutant_with_id(mutants@, self.results@[k].mutant_id),
                    ),
            decreases self.results.len() - i,
        {
            let r = &self.results[i];
            let status = if r.killed {
                let mut s = chars_of("KILLED by ");
                push_all(&mut s, &killer_chars(r));
                s
            } else {
                chars_of("SURVIVED")
            };
            let mut v = chars_of("[");
            push_all(&mut v, &decimal_chars(r.mutant_id as u64));
            push_all(&mut v, &chars_of("/"));
            push_all(&mut v, &decimal_chars(self.total_mutants as u64));
            match find_mutant(&index, mutants, r.mutant_id) {
                Some(k) => {
                    let m = &mutants[k];
                    push_all(&mut v, &chars_of("] "));
                    push_all(&mut v, &chars_of(m.source_path.as_str()));
                    push_all(&mut v, &chars_of(":"));
                    push_all(&mut v, &decimal_chars(m.line as u64));
                    push_all(&mut v, &chars_of(" "));
                    push_all(&mut v, &chars_of(m.operator.as_str()));
                    push_all(&mut v, &chars_of(": "));
                },
                None => {
                    push_all(&mut v, &chars_of("]: "));
                },
            }
            push_all(&mut v, &status);
            lines.push(string_of(&v));
            i += 1;
        }
        lines
    }

    /// The text summary's lines after the score line: when any mutant survived, a
    /// heading and, for each survivor whose mutant is known, where it is and what
    /// it changed.
    pub fn survivor_lines(&self, mutants: &[Mutant]) -> (r: Vec<String>)
        ensures
            str_views(r@) == survivor_section(self.survived_mutants, self.results@, mutants@),
    {
        let index = mutant_index(mutants);
        let mut lines: Vec<String> = Vec::new();
        if self.survived_mutants == 0 {
            assert(str_views(lines@) =~= Seq::<Seq<char>>::empty());
            return lines;
        }
        push_line(&mut lines, &chars_of("Surviving mutants:"));
        let ghost head = str_views(lines@);
        let mut i: usize = 0;
        while i < self.results.len()
            invariant
                i <= self.results.len(),
                indexes(index@, mutants@),
                head == seq!["Surviving mutants:"@],
                str_views(lines@) == head + survivor_entries(self.results@.take(i as int), mutants@),
            decreases self.results.len() - i,
        {
            assert(self.results@.take(i + 1).drop_last() == self.results@.take(i as int));
            assert(self.results@.take(i + 1).last() == self.results@[i as int]);
            let r = &self.results[i];
            let ghost before = str_views(lines@);
            if !r.killed {
                match find_mutant(&index, mutants, r.mutant_id) {
                    Some(k) => {
                        let m = &mutants[k];
                        let mut a = chars_of("  [");
                        push_all(&mut a, &decimal_chars(r.mutant_id as u64));
                        push_all(&mut a, &chars_of("] "));
                        push_all(&mut a, &chars_of(m.source_path.as_str()));
                        push_all(&mut a, &chars_of(":"));
                        push_all(&mut a, &decimal_chars(m.line as u64));
                        push_all(&mut a, &chars_of(" "));
                        push_all(&mut a, &chars_of(m.operator.as_str()));
                        let mut b = chars_of("     `");
                        push_all(&mut b, &chars_of(m.original.as_str()));
                        push_all(&mut b, &chars_of("` -> `"));
                        push_all(&mut b, &chars_of(m.replacement.as_str()));
                        push_all(&mut b, &chars_of("`"));
                        push_line(&mut lines, &a);
                        push_line(&mut lines, &b);
                        assert(str_views(lines@) =~= before + seq![a@, b@]);
                    },
                    None => {
                        assert(str_views(lines@) =~= before + Seq::<Seq<char>>::empty());
                    },
                }
            } else {
                assert(str_views(lines@) =~= before + Seq::<Seq<char>>::empty());
            }
            i += 1;
        }
        assert(self.results@.take(self.results.len() as int) == self.results@);
        lines
    }

    /// The markdown summary's table: the header, the separator, and a row for each
    /// result, in order.
    pub fn markdown_rows(&self, mutants: &[Mutant]) -> (r: Vec<String>)
        ensures
            r@.len() == self.results@.len() + 2,
            r@[0]@ == markdown_header(),
            r@[1]@ == markdown_rule(),
            forall|i: int|
                0 <= i < self.results@.len() ==> r@[i + 2]@ == markdown_row(
                    self.results@[i],
                    mutant_with_id(mutants@, self.results@[i].mutant_id),
                ),
    {
        let index = mutant_index(mutants);
        let mut lines: Vec<String> = Vec::new();
        lines.push(string_of(&chars_of("| ID | File:Line | Operator | Status | Killed By |")));
        lines.push(string_of(&chars_of("|----|-----------|----------|--------|-----------|")));
        let mut i: usize = 0;
        while i < self.results.len()
            invariant
                i <= self.results.len(),
                indexes(index@, mutants@),
                lines@.len() == i + 2,
                lines@[0]@ == markdown_header(),
                lines@[1]@ == markdown_rule(),
                forall|k: int|
                    0 <= k < i ==> lines@[k + 2]@ == markdown_row(
                        self.results@[k],
                        mutant_with_id(mutants@, self.results@[k].mutant_id),
                    ),
            decreases self.results.len() - i,
        {
            let r = &self.results[i];
            let status = if r.killed {
                chars_of("KILLED")
            } else {
                chars_of("SURVIVED")
            };
            let kb = if r.killed {
                killer_chars(r)
            } else {
                chars_of("-")
            };
            let kb_cell = replace_char_chars(&kb, '|', &chars_of("\\|"));
            let mut v = chars_of("| ");
            push_all(&mut v, &decimal_chars(r.mutant_id as u64));
            match find_mutant(&index, mutants, r.mutant_id) {
                Some(k) => {
                    let m = &mutants[k];
                    push_all(&mut v, &chars_of(" | "));
                    push_all(
                        &mut v,
                        &replace_char_chars(&chars_of(m.source_path.as_str()), '|', &chars_of("\\|")),
                    );
                    push_all(&mut v, &chars_of(":"));
                    push_all(&mut v, &decimal_chars(m.line as u64));
                    push_all(&mut v, &chars_of(" | "));
                    push_all(
                        &mut v,
                        &replace_char_chars(&chars_of(m.operator.as_str()), '|', &chars_of("\\|")),
                    );
                    push_all(&mut v, &chars_of(" | "));
                },
                None => {
                    push_all(&mut v, &chars_of(" | - | - | "));
                },
            }
            push_all(&mut v, &status);
            push_all(&mut v, &chars_of(" | "));
            push_all(&mut v, &kb_cell);
            push_all(&mut v, &chars_of(" |"));
            lines.push(string_of(&v));
            i += 1;
        }
        lines
    }

    /// The markdown summary's lines after the score line: when any mutant
    /// survived, a heading and, for each survivor whose mutant is known, where it
    /// is and a diff of what it changed.
    pub fn markdown_survivor_lines(&self, mutants: &[Mutant]) -> (r: Vec<String>)
        ensures
            str_views(r@) == markdown_survivor_section(
                self.survived_mutants,
                self.results@,
                mutants@,
            ),
    {
        let index = mutant_index(mutants);
        let mut lines: Vec<String> = Vec::new();
        if self.survived_mutants == 0 {
            assert(str_views(lines@) =~= Seq::<Seq<char>>::empty());
            return lines;
        }
        push_line(&mut lines, &Vec::new());
        push_line(&mut lines, &chars_of("### Surviving mutants"));
        let ghost head = str_views(lines@);
        assert(head =~= seq![Seq::<char>::empty(), "### Surviving mutants"@]);
        let mut i: usize = 0;
        while i < self.results.len()
            invariant
                i <= self.results.len(),
                indexes(index@, mutants@),
                head == seq![Seq::<char>::empty(), "### Surviving mutants"@],
                str_views(lines@) == head + markdown_survivor_entries(
                    self.results@.take(i as int),
                    mutants@,
                ),
            decreases self.results.len() - i,
        {
            assert(self.results@.take(i + 1).drop_last() == self.results@.take(i as int));
            assert(self.results@.take(i + 1).last() == self.results@[i as int]);
            let r = &self.results[i];
            let ghost before = str_views(lines@);
            if !r.killed {
                match find_mutant(&index, mutants, r.mutant_id) {
                    Some(k) => {
                        let m = &mutants[k];
                        let mut a = chars_of("**[");
                        push_all(&mut a, &decimal_chars(r.mutant_id as u64));
                        push_all(&mut a, &chars_of("] "));
                        push_all(&mut a, &chars_of(m.source_path.as_str()));
                        push_all(&mut a, &chars_of(":"));
                        push_all(&mut a, &decimal_chars(m.line as u64));
                        push_all(&mut a, &chars_of(" "));
                        push_all(&mut a, &chars_of(m.operator.as_str()));
                        push_all(&mut a, &chars_of("**"));
                        let mut minus = chars_of("- ");
                        push_all(&mut minus, &chars_of(m.original.as_str()));
                        let mut plus = chars_of("+ ");
                        push_all(&mut plus, &chars_of(m.replacement.as_str()));
                        let blank: Vec<char> = Vec::new();
                        let open = chars_of("```diff");
                        let close = chars_of("```");
                        push_line(&mut lines, &blank);
                        push_line(&mut lines, &a);
                        push_line(&mut lines, &open);
                        push_line(&mut lines, &minus);
                        push_line(&mut lines, &plus);
                        push_line(&mut lines, &close);
                        assert(str_views(lines@) =~= before + seq![
                            blank@,
                            a@,
                            open@,
                            minus@,
                            plus@,
                            close@,
                        ]);
                    },
                    None => {
                        assert(str_views(lines@) =~= before + Seq::<Seq<char>>::empty());
                    },
                }
            } else {
                assert(str_views(lines@) =~= before + Seq::<Seq<char>>::empty());
            }
            i += 1;
        }
        assert(self.results@.take(self.results.len() as int) == self.results@);
        lines
    }
}

} // verus!
