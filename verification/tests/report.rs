use std::time::Duration;

use dregs::generator::Mutant;
use dregs::report::{
    escape_pipe, find_mutant, ignored_summary_line, mutant_index, sort_results, Report, ReportError,
};
use dregs::runner::TestResult;

/// The mutation score of a report, as the program computes it from the counts.
fn score(report: &Report) -> f64 {
    if report.total_mutants > 0 {
        report.killed_mutants as f64 / report.total_mutants as f64
    } else {
        0.0
    }
}

fn mutant(id: u32, path: &str, line: u32, operator: &str, original: &str, replacement: &str) -> Mutant {
    Mutant {
        id,
        source_path: path.to_string(),
        relative_source_path: path.to_string(),
        mutant_path: format!("gambit_out/mutants/{id}/x.sol"),
        operator: operator.to_string(),
        original: original.to_string(),
        replacement: replacement.to_string(),
        line,
        test_commands: vec![],
    }
}

fn result(id: u32, killed: bool, killed_by: Option<&str>) -> TestResult {
    TestResult {
        mutant_id: id,
        killed,
        killed_by: killed_by.map(|s| s.to_string()),
        duration: Duration::from_secs(1),
    }
}

fn sample_mixed_results() -> (Vec<TestResult>, Vec<Mutant>) {
    let results = vec![
        result(1, true, Some("CounterTest::test_increment")),
        TestResult {
            mutant_id: 2,
            killed: false,
            killed_by: None,
            duration: Duration::from_millis(500),
        },
    ];
    let mutants = vec![
        mutant(1, "src/Counter.sol", 12, "binary-op-mutation", "+", "-"),
        mutant(2, "src/Counter.sol", 15, "require-mutation", "require(true)", "require(false)"),
    ];
    (results, mutants)
}

#[test]
fn test_escape_pipe() {
    assert_eq!(escape_pipe("a|b"), "a\\|b");
    assert_eq!(escape_pipe("no pipes"), "no pipes");
    assert_eq!(escape_pipe("a|b|c"), "a\\|b\\|c");
}

#[test]
fn test_report_creation_all_killed() {
    let results = vec![result(1, true, Some("Test1")), result(2, true, Some("Test2"))];
    let report = Report::new(results);
    assert_eq!(report.total_mutants, 2);
    assert_eq!(report.killed_mutants, 2);
    assert_eq!(report.survived_mutants, 0);
    assert_eq!(score(&report), 1.0);
}

#[test]
fn test_report_creation_partial_killed() {
    let results = vec![result(1, true, Some("Test1")), result(2, false, None)];
    let report = Report::new(results);
    assert_eq!(report.total_mutants, 2);
    assert_eq!(report.killed_mutants, 1);
    assert_eq!(report.survived_mutants, 1);
    assert_eq!(score(&report), 0.5);
}

#[test]
fn test_report_creation_empty() {
    let results = vec![];
    let report = Report::new(results);
    assert_eq!(report.total_mutants, 0);
    assert_eq!(report.killed_mutants, 0);
    assert_eq!(report.survived_mutants, 0);
    assert_eq!(score(&report), 0.0);
}

#[test]
fn test_report_creation_all_survived() {
    let results = vec![
        TestResult {
            mutant_id: 1,
            killed: false,
            killed_by: None,
            duration: Duration::from_millis(100),
        },
        TestResult {
            mutant_id: 2,
            killed: false,
            killed_by: None,
            duration: Duration::from_millis(200),
        },
    ];
    let report = Report::new(results);
    assert_eq!(report.total_mutants, 2);
    assert_eq!(report.killed_mutants, 0);
    assert_eq!(report.survived_mutants, 2);
    assert_eq!(score(&report), 0.0);
}

#[test]
fn test_report_error_display() {
    let err = ReportError::Generation("write failed".to_string());
    assert_eq!(err.to_string(), "failed to generate report: write failed");
}

#[test]
fn test_report_error_from_io() {
    let io_err = std::io::Error::new(std::io::ErrorKind::PermissionDenied, "denied");
    let err = ReportError::from(io_err);
    assert!(err.to_string().contains("io error"));
}

#[test]
fn test_survivor_diff_in_summary() {
    let (results, mutants) = sample_mixed_results();
    let report = Report::new(results);
    let mut lines = report.summary_lines(&mutants);
    lines.extend(report.survivor_lines(&mutants));
    let output = lines.join("\n");

    assert!(output.contains("Surviving mutants:"));
    assert!(output.contains("src/Counter.sol:15 require-mutation"));
    assert!(output.contains("`require(true)` -> `require(false)`"));
    assert!(!output.contains("`+` -> `-`"));
}

#[test]
fn test_no_survivors_no_diff_section() {
    let results = vec![result(1, true, Some("Test1")), result(2, true, Some("Test2"))];
    let mutants = vec![
        mutant(1, "src/A.sol", 1, "op1", "a", "b"),
        mutant(2, "src/B.sol", 2, "op2", "c", "d"),
    ];
    let report = Report::new(results);
    let mut lines = report.summary_lines(&mutants);
    lines.extend(report.survivor_lines(&mutants));
    let output = lines.join("\n");

    assert!(!output.contains("Surviving mutants:"));
}

#[test]
fn test_write_summary_killed_without_test_name() {
    let results = vec![result(1, true, None)];
    let mutants = vec![mutant(1, "src/Test.sol", 5, "test-op", "old", "new")];
    let report = Report::new(results);
    let output = report.summary_lines(&mutants).join("\n");
    assert!(output.contains("KILLED by unknown"));
}

#[test]
fn test_write_summary_unknown_mutant_id() {
    let results = vec![result(999, true, Some("SomeTest"))];
    let report = Report::new(results);
    let output = report.summary_lines(&[]).join("\n");
    assert!(output.contains("[999/1]: KILLED"));
}

#[test]
fn test_merge_no_files_fails() {
    let result = Report::merge(vec![]);
    assert!(matches!(result, Err(ReportError::Generation(_))));
}

#[test]
fn test_write_summary_markdown_unknown_mutant_id() {
    let results = vec![result(999, true, Some("SomeTest"))];
    let report = Report::new(results);
    let output = report.markdown_rows(&[]).join("\n");
    assert!(output.contains("| 999 | - | - | KILLED | SomeTest |"));
}

#[test]
fn test_write_summary_markdown_killed_without_test_name() {
    let results = vec![result(1, true, None)];
    let mutants = vec![mutant(1, "src/Test.sol", 5, "test-op", "old", "new")];
    let report = Report::new(results);
    let output = report.markdown_rows(&mutants).join("\n");
    assert!(output.contains("| 1 | src/Test.sol:5 | test-op | KILLED | unknown |"));
}

// ---------------------------------------------------------------------------
// Further cases
// ---------------------------------------------------------------------------

#[test]
fn summary_lines_exact() {
    let (results, mutants) = sample_mixed_results();
    let report = Report::new(results);
    assert_eq!(
        report.summary_lines(&mutants),
        vec![
            "[1/2] src/Counter.sol:12 binary-op-mutation: KILLED by CounterTest::test_increment",
            "[2/2] src/Counter.sol:15 require-mutation: SURVIVED",
        ]
    );
    assert_eq!(
        report.survivor_lines(&mutants),
        vec![
            "Surviving mutants:",
            "  [2] src/Counter.sol:15 require-mutation",
            "     `require(true)` -> `require(false)`",
        ]
    );
}

#[test]
fn markdown_lines_exact() {
    let (results, mutants) = sample_mixed_results();
    let report = Report::new(results);
    assert_eq!(
        report.markdown_rows(&mutants),
        vec![
            "| ID | File:Line | Operator | Status | Killed By |",
            "|----|-----------|----------|--------|-----------|",
            "| 1 | src/Counter.sol:12 | binary-op-mutation | KILLED | CounterTest::test_increment |",
            "| 2 | src/Counter.sol:15 | require-mutation | SURVIVED | - |",
        ]
    );
    assert_eq!(
        report.markdown_survivor_lines(&mutants),
        vec![
            "",
            "### Surviving mutants",
            "",
            "**[2] src/Counter.sol:15 require-mutation**",
            "```diff",
            "- require(true)",
            "+ require(false)",
            "```",
        ]
    );
}

#[test]
fn markdown_cells_escape_pipes() {
    let results = vec![result(3, true, Some("A|B"))];
    let mutants = vec![mutant(3, "src/x|y.sol", 1, "op|x", "a", "b")];
    let report = Report::new(results);
    assert_eq!(
        report.markdown_rows(&mutants)[2],
        "| 3 | src/x\\|y.sol:1 | op\\|x | KILLED | A\\|B |"
    );
}

#[test]
fn no_survivor_section_without_survivors() {
    let report = Report::new(vec![result(1, true, Some("T"))]);
    assert!(report.survivor_lines(&[]).is_empty());
    assert!(report.markdown_survivor_lines(&[]).is_empty());
}

#[test]
fn survivor_without_known_mutant_has_only_heading() {
    let report = Report::new(vec![result(7, false, None)]);
    assert_eq!(report.survivor_lines(&[]), vec!["Surviving mutants:"]);
}

#[test]
fn later_mutant_with_same_id_wins() {
    let mutants = vec![
        mutant(1, "src/A.sol", 1, "first", "a", "b"),
        mutant(1, "src/B.sol", 2, "second", "a", "b"),
    ];
    let index = mutant_index(&mutants);
    assert_eq!(index.len(), 1);
    assert_eq!(find_mutant(&index, &mutants, 1), Some(1));
    assert_eq!(find_mutant(&index, &mutants, 2), None);
}

#[test]
fn merge_sorts_by_id() {
    let parts = vec![
        ("part1.json".to_string(), Ok(vec![result(3, true, Some("Test1"))])),
        ("part2.json".to_string(), Ok(vec![result(1, false, None)])),
    ];
    let merged = Report::merge(parts).unwrap();
    assert_eq!(merged.len(), 2);
    assert_eq!(merged[0].mutant_id, 1);
    assert_eq!(merged[1].mutant_id, 3);
}

#[test]
fn merge_refuses_duplicates_naming_the_file() {
    let parts = vec![
        ("part1.json".to_string(), Ok(vec![result(1, true, Some("Test1"))])),
        ("part2.json".to_string(), Ok(vec![result(1, true, Some("Test1"))])),
    ];
    match Report::merge(parts) {
        Err(ReportError::Generation(m)) => assert_eq!(m, "duplicate mutant_id 1 in part2.json"),
        other => panic!("unexpected: {other:?}"),
    }
}

#[test]
fn merge_reports_unreadable_file() {
    let parts = vec![(
        "/nonexistent/results.json".to_string(),
        Err("No such file or directory (os error 2)".to_string()),
    )];
    let err = Report::merge(parts).unwrap_err();
    assert!(err.to_string().contains("/nonexistent/results.json"));
}

#[test]
fn sort_is_stable_for_equal_ids() {
    let sorted = sort_results(vec![
        result(2, true, Some("x")),
        result(1, false, None),
        result(2, false, None),
    ]);
    assert_eq!(sorted.iter().map(|r| r.mutant_id).collect::<Vec<_>>(), vec![1, 2, 2]);
    assert!(sorted[1].killed);
    assert!(!sorted[2].killed);
}

#[test]
fn json_errors_are_reported_as_such() {
    let bad = serde_json::from_str::<serde_json::Value>("{").unwrap_err();
    let err = ReportError::from(bad);
    assert!(err.to_string().starts_with("json error: "));
}

#[test]
fn ignored_count_shown_only_when_non_zero() {
    assert_eq!(ignored_summary_line(0), None);
    assert_eq!(ignored_summary_line(3), Some("Ignored mutants: 3 (dregs:ignore)".to_string()));
    assert_eq!(ignored_summary_line(12), Some("Ignored mutants: 12 (dregs:ignore)".to_string()));
}

#[test]
fn merge_succeeds_with_distinct_ids_across_files() {
    let parts = vec![
        ("a.json".to_string(), Ok(vec![result(2, true, None), result(5, false, None)])),
        ("b.json".to_string(), Ok(vec![])),
        ("c.json".to_string(), Ok(vec![result(1, false, None)])),
    ];
    let merged = Report::merge(parts).unwrap();
    let ids: Vec<u32> = merged.iter().map(|r| r.mutant_id).collect();
    assert_eq!(ids, vec![1, 2, 5]);
}

#[test]
fn merge_refuses_duplicate_within_one_file() {
    let parts = vec![("a.json".to_string(), Ok(vec![result(4, true, None), result(4, false, None)]))];
    match Report::merge(parts) {
        Err(ReportError::Generation(m)) => assert_eq!(m, "duplicate mutant_id 4 in a.json"),
        other => panic!("unexpected: {other:?}"),
    }
}

#[test]
fn merge_reports_first_unreadable_file_before_later_duplicates() {
    let parts = vec![
        ("a.json".to_string(), Ok(vec![result(1, true, None)])),
        ("b.json".to_string(), Err("bad".to_string())),
        ("c.json".to_string(), Ok(vec![result(1, true, None)])),
    ];
    match Report::merge(parts) {
        Err(ReportError::Generation(m)) => assert_eq!(m, "b.json: bad"),
        other => panic!("unexpected: {other:?}"),
    }
}
