use dregs::diff::{
    filter_mutants, filter_targets_by_diff, parse_diff_output, parse_hunk_header, parse_u32,
    DiffError, DiffRange,
};
use dregs::generator::{FileTarget, Mutant};

fn make_mutant(id: u32, file: &str, line: u32) -> Mutant {
    Mutant {
        id,
        source_path: file.to_string(),
        relative_source_path: file.to_string(),
        mutant_path: format!("gambit_out/mutants/{id}/mutant.sol"),
        operator: "binary-op-mutation".to_string(),
        original: "+".to_string(),
        replacement: "-".to_string(),
        line,
        test_commands: vec![],
    }
}

fn make_target(path: &str) -> FileTarget {
    FileTarget::new(path.to_string())
}

#[test]
fn test_parse_multi_hunk_multi_file() {
    let diff = "\
diff --git a/src/Counter.sol b/src/Counter.sol
index abc1234..def5678 100644
--- a/src/Counter.sol
+++ b/src/Counter.sol
@@ -10,3 +10,5 @@ contract Counter {
@@ -20,0 +22,3 @@ contract Counter {
diff --git a/src/Token.sol b/src/Token.sol
index 1111111..2222222 100644
--- a/src/Token.sol
+++ b/src/Token.sol
@@ -5,2 +5,4 @@ contract Token {
";
    let ranges = parse_diff_output(diff).unwrap();
    assert_eq!(ranges.len(), 2);

    assert_eq!(ranges[0].file, "src/Counter.sol");
    assert_eq!(ranges[0].lines, vec![10..15, 22..25]);

    assert_eq!(ranges[1].file, "src/Token.sol");
    assert_eq!(ranges[1].lines, vec![5..9]);
}

#[test]
fn test_parse_single_line_change() {
    let diff = "\
diff --git a/src/Counter.sol b/src/Counter.sol
--- a/src/Counter.sol
+++ b/src/Counter.sol
@@ -5 +5 @@ contract Counter {
";
    let ranges = parse_diff_output(diff).unwrap();
    assert_eq!(ranges.len(), 1);
    assert_eq!(ranges[0].lines, vec![5..6]);
}

#[test]
fn test_parse_new_file() {
    let diff = "\
diff --git a/src/New.sol b/src/New.sol
new file mode 100644
--- /dev/null
+++ b/src/New.sol
@@ -0,0 +1,20 @@
";
    let ranges = parse_diff_output(diff).unwrap();
    assert_eq!(ranges.len(), 1);
    assert_eq!(ranges[0].file, "src/New.sol");
    assert_eq!(ranges[0].lines, vec![1..21]);
}

#[test]
fn test_parse_deleted_file() {
    let diff = "\
diff --git a/src/Old.sol b/src/Old.sol
deleted file mode 100644
--- a/src/Old.sol
+++ /dev/null
@@ -1,10 +0,0 @@
";
    let ranges = parse_diff_output(diff).unwrap();
    assert_eq!(ranges.len(), 0);
}

#[test]
fn test_parse_empty_diff() {
    let ranges = parse_diff_output("").unwrap();
    assert_eq!(ranges.len(), 0);
}

#[test]
fn test_parse_pure_deletion_hunk() {
    let diff = "\
diff --git a/src/Counter.sol b/src/Counter.sol
--- a/src/Counter.sol
+++ b/src/Counter.sol
@@ -5,3 +5,0 @@ contract Counter {
@@ -15,2 +12,4 @@ contract Counter {
";
    let ranges = parse_diff_output(diff).unwrap();
    assert_eq!(ranges.len(), 1);
    assert_eq!(ranges[0].lines, vec![12..16]);
}

#[test]
fn test_parse_rename_header() {
    let diff = "\
diff --git a/src/OldName.sol b/src/NewName.sol
similarity index 90%
rename from src/OldName.sol
rename to src/NewName.sol
--- a/src/OldName.sol
+++ b/src/NewName.sol
@@ -3,2 +3,4 @@ contract Foo {
";
    let ranges = parse_diff_output(diff).unwrap();
    assert_eq!(ranges.len(), 1);
    assert_eq!(ranges[0].file, "src/NewName.sol");
    assert_eq!(ranges[0].lines, vec![3..7]);
}

#[test]
fn test_filter_mutants_on_changed_lines() {
    let mutants = vec![
        make_mutant(1, "src/Counter.sol", 10),
        make_mutant(2, "src/Counter.sol", 50),
        make_mutant(3, "src/Token.sol", 5),
    ];
    let diff_ranges = vec![
        DiffRange {
            file: "src/Counter.sol".to_string(),
            lines: vec![8..15],
        },
        DiffRange {
            file: "src/Token.sol".to_string(),
            lines: vec![3..6],
        },
    ];

    let filtered = filter_mutants(mutants, &diff_ranges);
    assert_eq!(filtered.len(), 2);
    assert_eq!(filtered[0].id, 1);
    assert_eq!(filtered[1].id, 3);
}

#[test]
fn test_filter_mutants_all_filtered() {
    let mutants = vec![
        make_mutant(1, "src/Counter.sol", 100),
        make_mutant(2, "src/Other.sol", 5),
    ];
    let diff_ranges = vec![DiffRange {
        file: "src/Counter.sol".to_string(),
        lines: vec![1..10],
    }];

    let filtered = filter_mutants(mutants, &diff_ranges);
    assert!(filtered.is_empty());
}

#[test]
fn test_filter_mutants_boundary() {
    let mutants = vec![
        make_mutant(1, "src/A.sol", 10),
        make_mutant(2, "src/A.sol", 14),
        make_mutant(3, "src/A.sol", 15),
    ];
    let diff_ranges = vec![DiffRange {
        file: "src/A.sol".to_string(),
        lines: vec![10..15],
    }];

    let filtered = filter_mutants(mutants, &diff_ranges);
    assert_eq!(filtered.len(), 2);
    assert_eq!(filtered[0].id, 1);
    assert_eq!(filtered[1].id, 2);
}

#[test]
fn test_filter_targets_reduces_to_diff() {
    let targets = vec![
        make_target("src/Counter.sol"),
        make_target("src/Token.sol"),
        make_target("src/Vault.sol"),
    ];
    let diff_ranges = vec![
        DiffRange {
            file: "src/Counter.sol".to_string(),
            lines: vec![1..10],
        },
        DiffRange {
            file: "src/Vault.sol".to_string(),
            lines: vec![5..8],
        },
    ];

    let filtered = filter_targets_by_diff(targets, &diff_ranges, "");
    assert_eq!(filtered.len(), 2);
    assert_eq!(filtered[0].file, "src/Counter.sol");
    assert_eq!(filtered[1].file, "src/Vault.sol");
}

#[test]
fn test_filter_targets_with_project_root() {
    let targets = vec![
        make_target("/home/user/project/src/Counter.sol"),
        make_target("/home/user/project/src/Token.sol"),
    ];
    let diff_ranges = vec![DiffRange {
        file: "src/Token.sol".to_string(),
        lines: vec![1..5],
    }];

    let filtered = filter_targets_by_diff(targets, &diff_ranges, "/home/user/project");
    assert_eq!(filtered.len(), 1);
    assert_eq!(filtered[0].file, "/home/user/project/src/Token.sol");
}

#[test]
fn test_filter_targets_no_match() {
    let targets = vec![make_target("src/Counter.sol")];
    let diff_ranges = vec![DiffRange {
        file: "src/Other.sol".to_string(),
        lines: vec![1..10],
    }];

    let filtered = filter_targets_by_diff(targets, &diff_ranges, "");
    assert!(filtered.is_empty());
}

#[test]
fn test_parse_hunk_with_at_signs_in_context() {
    let diff = "\
diff --git a/src/Asm.sol b/src/Asm.sol
--- a/src/Asm.sol
+++ b/src/Asm.sol
@@ -10,3 +10,5 @@ assembly { // @@ edge case
";
    let ranges = parse_diff_output(diff).unwrap();
    assert_eq!(ranges.len(), 1);
    assert_eq!(ranges[0].lines, vec![10..15]);
}

// ---------------------------------------------------------------------------
// Further cases
// ---------------------------------------------------------------------------

#[test]
fn hunk_header_counts() {
    let h = parse_hunk_header("@@ -1,2 +7,3 @@").unwrap();
    assert_eq!((h.start, h.count), (7, 3));
    let single = parse_hunk_header("@@ -1 +9 @@ x").unwrap();
    assert_eq!((single.start, single.count), (9, 1));
    assert!(matches!(parse_hunk_header("@@ -1,2 @@"), Err(DiffError::Parse(_))));
}

#[test]
fn u32_parse_errors_name_the_context() {
    assert_eq!(parse_u32("42", "line").unwrap(), 42);
    match parse_u32("4x", "hunk line") {
        Err(e) => assert!(e.to_string().contains("4x")),
        Ok(n) => panic!("parsed {n}"),
    }
}

#[test]
fn ranges_of_one_file_are_gathered_across_sections() {
    let diff = "\
+++ b/src/A.sol
@@ -1 +1,2 @@
+++ b/src/B.sol
@@ -1 +3 @@
+++ b/src/A.sol
@@ -9 +20,1 @@
";
    let ranges = parse_diff_output(diff).unwrap();
    assert_eq!(ranges.len(), 2);
    assert_eq!(ranges[0].file, "src/A.sol");
    assert_eq!(ranges[0].lines, vec![1..3, 20..21]);
    assert_eq!(ranges[1].file, "src/B.sol");
    assert_eq!(ranges[1].lines, vec![3..4]);
}

#[test]
fn hunks_outside_a_file_section_are_skipped() {
    let diff = "\
@@ -1 +1,2 @@
+++ /dev/null
@@ -1,3 +0,0 @@
+++ b/src/C.sol
@@ -4,0 +5,0 @@
";
    assert!(parse_diff_output(diff).unwrap().is_empty());
}

#[test]
fn diff_error_messages() {
    assert_eq!(
        DiffError::GitCommand("bad ref".to_string()).to_string(),
        "failed to run git diff: bad ref"
    );
    let io = DiffError::from(std::io::Error::new(std::io::ErrorKind::NotFound, "gone"));
    assert!(io.to_string().starts_with("failed to read diff input: "));
    match parse_diff_output("+++ b/a.sol\n@@ -1 +x @@\n") {
        Err(e) => assert_eq!(e.to_string(), "failed to parse diff output: invalid number 'x' in: @@ -1 +x @@"),
        Ok(_) => panic!("expected an error"),
    }
}
