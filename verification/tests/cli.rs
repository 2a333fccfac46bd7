use std::time::Duration;

use dregs::cli::{
    apply_cli_forge_args, apply_diff_mutant_filter, apply_diff_target_filter,
    baseline_forge_arg_sets, check_config_exclusive, common_project_root, coverage_warning,
    forge_commands, matched_tests_report, nothing_to_test_message, parse_workers,
    paths_to_targets, progress_text, targets_from_config, targets_from_files,
};
use dregs::config::{DregsConfig, TargetConfig, TestCommand};
use dregs::diff::DiffRange;
use dregs::generator::{FileTarget, Mutant};
use dregs::runner::TestResult;

fn plain_target(file: &str) -> FileTarget {
    FileTarget {
        file: file.to_string(),
        contracts: vec![],
        functions: vec![],
        exclude_functions: vec![],
        test_commands: vec![],
    }
}

fn mutant(id: u32, line: u32) -> Mutant {
    Mutant {
        id,
        source_path: "src/A.sol".to_string(),
        relative_source_path: "src/A.sol".to_string(),
        mutant_path: format!("out/{id}.sol"),
        operator: "op".to_string(),
        original: "a".to_string(),
        replacement: "b".to_string(),
        line,
        test_commands: vec![],
    }
}

fn target_config(files: &[&str], forge_args: Option<Vec<String>>) -> TargetConfig {
    TargetConfig {
        files: files.iter().map(|s| s.to_string()).collect(),
        contracts: None,
        functions: None,
        exclude_functions: None,
        forge_args,
    }
}

#[test]
fn test_parse_workers_valid() {
    assert_eq!(parse_workers("4").unwrap(), 4);
    assert_eq!(parse_workers("1").unwrap(), 1);
}

#[test]
fn test_parse_workers_zero() {
    let err = parse_workers("0").unwrap_err();
    assert!(err.contains("at least 1"));
}

#[test]
fn test_parse_workers_non_numeric() {
    let err = parse_workers("abc").unwrap_err();
    assert!(!err.is_empty());
}

#[test]
fn test_parse_workers_negative() {
    let err = parse_workers("-1").unwrap_err();
    assert!(!err.is_empty());
}

#[test]
fn test_apply_diff_target_filter_with_diff() {
    let targets = vec![plain_target("/project/src/A.sol"), plain_target("/project/src/B.sol")];
    let diff_ranges = vec![DiffRange {
        file: "src/A.sol".to_string(),
        lines: vec![1..5],
    }];
    let (filtered, _) = apply_diff_target_filter(targets, &diff_ranges, "/project");
    assert_eq!(filtered.len(), 1);
    assert!(filtered[0].file.contains("src/A.sol"));
}

#[test]
fn test_apply_diff_target_filter_empty_diff() {
    let targets = vec![plain_target("src/A.sol")];
    let diff_ranges: Vec<DiffRange> = vec![];
    let (filtered, _) = apply_diff_target_filter(targets, &diff_ranges, "");
    assert!(filtered.is_empty());
}

#[test]
fn test_apply_diff_target_filter_no_overlap() {
    let targets = vec![plain_target("/project/src/B.sol")];
    let diff_ranges = vec![DiffRange {
        file: "src/A.sol".to_string(),
        lines: vec![1..5],
    }];
    let (filtered, _) = apply_diff_target_filter(targets, &diff_ranges, "/project");
    assert!(filtered.is_empty());
}

#[test]
fn test_apply_diff_mutant_filter_none() {
    let mutants = vec![mutant(1, 10)];
    let (result, _) = apply_diff_mutant_filter(mutants, None);
    assert_eq!(result.len(), 1);
}

#[test]
fn test_apply_diff_mutant_filter_with_ranges() {
    let mutants = vec![mutant(1, 10), mutant(2, 50)];
    let ranges = Some(vec![DiffRange {
        file: "src/A.sol".to_string(),
        lines: vec![8..15],
    }]);
    let (result, _) = apply_diff_mutant_filter(mutants, ranges.as_deref());
    assert_eq!(result.len(), 1);
    assert_eq!(result[0].id, 1);
}

#[test]
fn test_apply_diff_mutant_filter_all_filtered() {
    let mutants = vec![mutant(1, 50)];
    let ranges = Some(vec![DiffRange {
        file: "src/A.sol".to_string(),
        lines: vec![1..5],
    }]);
    let (result, _) = apply_diff_mutant_filter(mutants, ranges.as_deref());
    assert!(result.is_empty());
}

#[test]
fn test_baseline_forge_arg_sets_no_config() {
    let args = vec!["--match-test".to_string(), "Foo".to_string()];
    let result = baseline_forge_arg_sets(None, &args);
    assert_eq!(result, vec![args]);
}

#[test]
fn test_baseline_forge_arg_sets_no_config_empty() {
    let result = baseline_forge_arg_sets(None, &[]);
    assert_eq!(result, vec![Vec::<String>::new()]);
}

#[test]
fn test_baseline_forge_arg_sets_from_dregs_config() {
    let config = DregsConfig {
        targets: vec![
            target_config(
                &["src/A.sol"],
                Some(vec!["--match-contract".to_string(), "ATest".to_string()]),
            ),
            target_config(
                &["src/B.sol"],
                Some(vec!["--match-contract".to_string(), "BTest".to_string()]),
            ),
        ],
    };

    let result = baseline_forge_arg_sets(Some(&config), &[]);
    assert_eq!(result.len(), 2);
    assert_eq!(result[0], vec!["--match-contract", "ATest"]);
    assert_eq!(result[1], vec!["--match-contract", "BTest"]);
}

#[test]
fn test_baseline_forge_arg_sets_deduplicates() {
    let args = vec!["--match-contract".to_string(), "ATest".to_string()];
    let config = DregsConfig {
        targets: vec![
            target_config(&["src/A.sol"], Some(args.clone())),
            target_config(&["src/B.sol"], Some(args)),
        ],
    };

    let result = baseline_forge_arg_sets(Some(&config), &[]);
    assert_eq!(result.len(), 1);
    assert_eq!(result[0], vec!["--match-contract", "ATest"]);
}

#[test]
fn test_baseline_forge_arg_sets_none_treated_as_empty() {
    let config = DregsConfig {
        targets: vec![target_config(&["src/A.sol"], None)],
    };

    let result = baseline_forge_arg_sets(Some(&config), &[]);
    assert_eq!(result, vec![Vec::<String>::new()]);
}

// ---------------------------------------------------------------------------
// Further cases
// ---------------------------------------------------------------------------

#[test]
fn workers_error_messages_follow_integer_parsing() {
    assert_eq!(parse_workers("").unwrap_err(), "cannot parse integer from empty string");
    assert_eq!(parse_workers("abc").unwrap_err(), "invalid digit found in string");
    assert_eq!(parse_workers("-1").unwrap_err(), "invalid digit found in string");
    assert_eq!(
        parse_workers("99999999999999999999999").unwrap_err(),
        "number too large to fit in target type"
    );
    assert_eq!(parse_workers("0").unwrap_err(), "workers must be at least 1");
    assert_eq!(parse_workers("+3").unwrap(), 3);
}

#[test]
fn forge_commands_for_arguments() {
    assert!(forge_commands(&[]).is_empty());
    assert_eq!(
        forge_commands(&["--match-test".to_string(), "foo".to_string()]),
        vec![TestCommand::Foundry { args: vec!["--match-test".to_string(), "foo".to_string()] }]
    );
}

#[test]
fn targets_from_files_carry_cli_forge_args() {
    let targets = targets_from_files(
        vec!["/p/src/A.sol".to_string()],
        &["--match-test".to_string(), "foo".to_string()],
    )
    .unwrap();
    assert_eq!(targets.len(), 1);
    assert_eq!(targets[0].file, "/p/src/A.sol");
    assert_eq!(
        targets[0].test_commands,
        vec![TestCommand::Foundry { args: vec!["--match-test".to_string(), "foo".to_string()] }]
    );
    assert_eq!(
        targets_from_files(vec![], &[]).unwrap_err(),
        "no Solidity files found to mutate"
    );
    let plain = paths_to_targets(vec!["a.sol".to_string(), "b.sol".to_string()], &[]);
    assert_eq!(plain.len(), 2);
    assert!(plain[1].test_commands.is_empty());
}

#[test]
fn config_targets_exclude_command_line_targets() {
    assert!(check_config_exclusive(&[], &[]).is_ok());
    assert_eq!(
        check_config_exclusive(&["src/A.sol".to_string()], &[]).unwrap_err(),
        "dregs.toml defines targets; do not pass files or -- forge_args on the command line"
    );
    assert!(check_config_exclusive(&[], &["--match-test".to_string()]).is_err());
}

#[test]
fn config_targets_expand_matched_files() {
    let mut first = target_config(
        &["src/Token.sol"],
        Some(vec!["--match-contract".to_string(), "TokenTest".to_string()]),
    );
    first.contracts = Some(vec!["Token".to_string()]);
    let mut second = target_config(&["src/utils/**/*.sol"], None);
    second.exclude_functions = Some(vec!["pause".to_string()]);
    let config = DregsConfig { targets: vec![first, second] };
    let targets = targets_from_config(
        &config,
        vec![
            vec!["/p/src/Token.sol".to_string()],
            vec!["/p/src/utils/A.sol".to_string(), "/p/src/utils/B.sol".to_string()],
        ],
    )
    .unwrap();
    assert_eq!(targets.len(), 3);
    assert_eq!(targets[0].contracts, vec!["Token"]);
    assert_eq!(
        targets[0].test_commands,
        vec![TestCommand::Foundry {
            args: vec!["--match-contract".to_string(), "TokenTest".to_string()]
        }]
    );
    assert_eq!(targets[2].file, "/p/src/utils/B.sol");
    assert_eq!(targets[2].exclude_functions, vec!["pause"]);
    assert!(targets[2].test_commands.is_empty());

    let none = targets_from_config(&config, vec![vec![], vec![]]);
    assert_eq!(none.unwrap_err(), "dregs.toml targets matched no files");
}

#[test]
fn diff_filter_messages() {
    let (_, m) = apply_diff_target_filter(vec![plain_target("src/A.sol")], &[], "");
    assert_eq!(m, "No Solidity files changed in diff");
    let ranges = vec![DiffRange { file: "src/A.sol".to_string(), lines: vec![1..5] }];
    let (_, m) = apply_diff_target_filter(vec![plain_target("src/B.sol")], &ranges, "");
    assert_eq!(m, "No target files overlap with diff");
    let (_, m) = apply_diff_target_filter(vec![plain_target("src/A.sol")], &ranges, "");
    assert_eq!(m, "Diff filter: 1 target files overlap with changes");

    let (_, m) = apply_diff_mutant_filter(vec![mutant(1, 3)], None);
    assert!(m.is_none());
    let (_, m) = apply_diff_mutant_filter(vec![mutant(1, 3), mutant(2, 9)], Some(ranges.as_slice()));
    assert_eq!(m.unwrap(), "Diff filter: 1/2 mutants on changed lines");
    let (_, m) = apply_diff_mutant_filter(vec![mutant(2, 9)], Some(ranges.as_slice()));
    assert_eq!(m.unwrap(), "No mutants on changed lines (filtered 1 mutants)");
}

#[test]
fn matched_tests_lines() {
    assert_eq!(
        matched_tests_report(&vec![]).unwrap_err(),
        "no tests matched the provided filters"
    );
    assert_eq!(
        matched_tests_report(&vec!["A::t1".to_string(), "A::t2".to_string()]).unwrap(),
        vec!["Matched 2 tests:", "  A::t1", "  A::t2"]
    );
}

#[test]
fn cli_forge_args_replace_mutant_tests() {
    let mut m = mutant(1, 10);
    m.test_commands = vec![TestCommand::Custom { command: vec!["make".to_string()], symlinks: vec![] }];
    let same = apply_cli_forge_args(vec![m.clone()], &[]);
    assert_eq!(same, vec![m.clone()]);
    let replaced = apply_cli_forge_args(vec![m], &["--match-test".to_string(), "X".to_string()]);
    assert_eq!(
        replaced[0].test_commands,
        vec![TestCommand::Foundry { args: vec!["--match-test".to_string(), "X".to_string()] }]
    );
    assert_eq!(replaced[0].id, 1);
}

#[test]
fn progress_lines() {
    let m = mutant(4, 10);
    let killed = TestResult {
        mutant_id: 4,
        killed: true,
        killed_by: Some("T::t".to_string()),
        duration: Duration::from_secs(2),
    };
    assert_eq!(
        progress_text(1, 3, &m, &killed),
        ("[1/3] src/A.sol:10 op -> KILLED by T::t".to_string(), String::new())
    );
    let unnamed = TestResult { killed_by: None, ..killed.clone() };
    assert_eq!(progress_text(1, 3, &m, &unnamed).0, "[1/3] src/A.sol:10 op -> KILLED");
    let survived = TestResult { killed: false, killed_by: None, ..killed };
    assert_eq!(
        progress_text(2, 3, &m, &survived),
        ("[2/3] src/A.sol:10 op -> SURVIVED".to_string(), "\n     `a` -> `b`".to_string())
    );
}

#[test]
fn coverage_and_early_exit_messages() {
    assert_eq!(coverage_warning(2, 2), None);
    assert_eq!(coverage_warning(1, 3), Some("Warning: results cover 1/3 mutants".to_string()));
    assert_eq!(nothing_to_test_message(true, true), "Mutation score: 100.0% (0 mutants)");
    assert_eq!(nothing_to_test_message(true, false), "No mutants generated");
    assert_eq!(nothing_to_test_message(false, true), "No mutants generated");
}

#[test]
fn project_roots_must_agree() {
    assert_eq!(common_project_root(&vec![None, Some("/a".to_string())]), Ok(None));
    assert_eq!(
        common_project_root(&vec![Some("/a".to_string()), None, Some("/a/".to_string())]),
        Ok(Some("/a".to_string()))
    );
    assert_eq!(
        common_project_root(&vec![Some("/a".to_string()), Some("/b".to_string())]),
        Err("files have different project roots: /a vs /b".to_string())
    );
}
