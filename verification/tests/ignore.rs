use std::collections::HashSet;

use dregs::generator::Mutant;
use dregs::ignore::{distinct_source_paths, ignored_lines_in, split_ignored, IgnoreError};

fn make_mutant(source_path: &str, line: u32, id: u32) -> Mutant {
    Mutant {
        id,
        source_path: source_path.to_string(),
        relative_source_path: source_path.to_string(),
        mutant_path: format!("gambit_out/mutants/{id}/Foo.sol"),
        operator: "binary-op-mutation".to_string(),
        original: "+".to_string(),
        replacement: "-".to_string(),
        line,
        test_commands: vec![],
    }
}

fn lines_of(content: &str) -> Result<HashSet<u32>, IgnoreError> {
    ignored_lines_in(content, "Foo.sol").map(|v| v.into_iter().collect())
}

/// Splits mutants by the ignore comments of their files, given each file's text.
fn split(mutants: Vec<Mutant>, files: &[(&str, &str)]) -> (Vec<Mutant>, Vec<Mutant>) {
    let paths = distinct_source_paths(&mutants);
    let mut table = Vec::new();
    for p in paths {
        let content = files.iter().find(|(name, _)| *name == p).unwrap().1;
        table.push((p.clone(), ignored_lines_in(content, &p).unwrap()));
    }
    split_ignored(mutants, &table)
}

#[test]
fn test_ignored_lines_single_line() {
    let lines = lines_of(
        "// SPDX-License-Identifier: MIT\n\
         pragma solidity ^0.8.0;\n\
         contract Foo {\n\
         function bar() public { // dregs:ignore\n\
             x = x + 1;\n\
         }\n\
         }\n",
    )
    .unwrap();
    assert_eq!(lines, HashSet::from([4]));
}

#[test]
fn test_ignored_lines_block() {
    let lines = lines_of(
        "// SPDX-License-Identifier: MIT\n\
         pragma solidity ^0.8.0;\n\
         contract Foo {\n\
         // dregs:ignore-start\n\
         function baz() public {\n\
             y = y - 1;\n\
         }\n\
         // dregs:ignore-end\n\
         }\n",
    )
    .unwrap();
    assert_eq!(lines, HashSet::from([4, 5, 6, 7, 8]));
}

#[test]
fn test_ignored_lines_unclosed_fails() {
    let err = lines_of(
        "contract Foo {\n\
         // dregs:ignore-start\n\
         function baz() public {}\n\
         }\n",
    )
    .unwrap_err();
    let msg = err.to_string();
    assert!(msg.contains(":2:"), "expected line 2, got: {msg}");
    assert!(msg.contains("unclosed"));
}

#[test]
fn test_ignored_lines_nested_start_fails() {
    let err = lines_of(
        "// dregs:ignore-start\n\
         x = 1;\n\
         // dregs:ignore-start\n\
         y = 2;\n\
         // dregs:ignore-end\n",
    )
    .unwrap_err();
    let msg = err.to_string();
    assert!(msg.contains(":3:"), "expected line 3, got: {msg}");
    assert!(msg.contains("nested"));
    assert!(msg.contains("line 1"));
}

#[test]
fn test_ignored_lines_unmatched_end_fails() {
    let err = lines_of(
        "x = 1;\n\
         // dregs:ignore-end\n",
    )
    .unwrap_err();
    let msg = err.to_string();
    assert!(msg.contains(":2:"), "expected line 2, got: {msg}");
    assert!(msg.contains("without matching"));
}

#[test]
fn test_filter_ignored_mutants_ok() {
    let content = "// SPDX-License-Identifier: MIT\n\
         pragma solidity ^0.8.0;\n\
         contract Foo {\n\
         function bar() public { // dregs:ignore\n\
             x = x + 1;\n\
         }\n\
         // dregs:ignore-start\n\
         function baz() public {\n\
             y = y - 1;\n\
         }\n\
         // dregs:ignore-end\n\
         }\n";
    let path = "/tmp/Foo.sol";
    let mutants = vec![
        make_mutant(path, 4, 1),
        make_mutant(path, 5, 2),
        make_mutant(path, 9, 3),
        make_mutant(path, 12, 4),
    ];

    let (active, ignored) = split(mutants, &[(path, content)]);
    let active_ids: Vec<u32> = active.iter().map(|m| m.id).collect();
    let ignored_ids: Vec<u32> = ignored.iter().map(|m| m.id).collect();
    assert_eq!(active_ids, vec![2, 4]);
    assert_eq!(ignored_ids, vec![1, 3]);
}

#[test]
fn test_filter_ignored_mutants_all_ignored() {
    let content = "// dregs:ignore-start\n\
         x = x + 1;\n\
         y = y - 1;\n\
         // dregs:ignore-end\n";
    let path = "/tmp/Foo.sol";
    let mutants = vec![make_mutant(path, 2, 1), make_mutant(path, 3, 2)];

    let (active, ignored) = split(mutants, &[(path, content)]);
    assert!(active.is_empty());
    assert_eq!(ignored.len(), 2);
}

#[test]
fn test_filter_ignored_mutants_multiple_files() {
    let a = "x = x + 1; // dregs:ignore\n\
             y = y - 1;\n";
    let b = "a = a * 2;\n\
             b = b / 3;\n";
    let mutants = vec![
        make_mutant("/tmp/A.sol", 1, 1),
        make_mutant("/tmp/A.sol", 2, 2),
        make_mutant("/tmp/B.sol", 1, 3),
        make_mutant("/tmp/B.sol", 2, 4),
    ];

    let (active, ignored) = split(mutants, &[("/tmp/A.sol", a), ("/tmp/B.sol", b)]);
    let active_ids: Vec<u32> = active.iter().map(|m| m.id).collect();
    let ignored_ids: Vec<u32> = ignored.iter().map(|m| m.id).collect();
    assert_eq!(active_ids, vec![2, 3, 4]);
    assert_eq!(ignored_ids, vec![1]);
}

#[test]
fn distinct_paths_in_first_appearance_order() {
    let mutants = vec![
        make_mutant("/tmp/B.sol", 1, 1),
        make_mutant("/tmp/A.sol", 1, 2),
        make_mutant("/tmp/B.sol", 2, 3),
    ];
    assert_eq!(distinct_source_paths(&mutants), vec!["/tmp/B.sol", "/tmp/A.sol"]);
}

#[test]
fn ignored_lines_are_ascending() {
    let v = ignored_lines_in("a // dregs:ignore\nb\n// dregs:ignore-start\nc\n// dregs:ignore-end\n", "F.sol")
        .unwrap();
    assert_eq!(v, vec![1, 3, 4, 5]);
}

#[test]
fn first_misuse_is_reported_even_with_a_later_one() {
    let err = lines_of(
        "a\n\
         // dregs:ignore-end\n\
         // dregs:ignore-start\n\
         // dregs:ignore-start\n",
    )
    .unwrap_err();
    assert!(matches!(err, IgnoreError::UnmatchedEnd { line: 2, .. }));
}

#[test]
fn unclosed_block_names_its_start_line() {
    let err = lines_of(
        "a\n\
         // dregs:ignore-start\n\
         b\n\
         // dregs:ignore-end\n\
         // dregs:ignore-start\n\
         c\n",
    )
    .unwrap_err();
    assert!(matches!(err, IgnoreError::UnclosedBlock { line: 5, .. }));
}

#[test]
fn ignored_set_is_markers_and_block_lines() {
    let got = lines_of(
        "a // dregs:ignore\n\
         b\n\
         // dregs:ignore-start\n\
         c\n\
         // dregs:ignore-end\n\
         d\n",
    )
    .unwrap();
    let want: HashSet<u32> = [1, 3, 4, 5].into_iter().collect();
    assert_eq!(got, want);
}
