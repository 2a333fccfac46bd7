use std::time::Duration;

use dregs::config::TestCommand;
use dregs::runner::{
    baseline_outcome, classify_forge_output, classify_forge_output_checked, collect_symlinks,
    combine_output, extract_contract_name_from_path, extract_test_name_from_fail_line,
    is_skipped_entry, list_outcome, missing_symlink_error, mutant_step, parse_failed_test_from_output,
    parse_json_test_output, parse_list_output, unreadable_mutant_error, CommandOutcome,
    ForgeTestResult, MutantStep, RunnerError, TestResult,
};

#[test]
fn test_test_result_killed() {
    let result = TestResult {
        mutant_id: 1,
        killed: true,
        killed_by: Some("CounterTest::test_increment".to_string()),
        duration: Duration::from_secs(1),
    };
    assert_eq!(result.mutant_id, 1);
    assert!(result.killed);
    assert_eq!(
        result.killed_by,
        Some("CounterTest::test_increment".to_string())
    );
}

#[test]
fn test_test_result_survived() {
    let result = TestResult {
        mutant_id: 2,
        killed: false,
        killed_by: None,
        duration: Duration::from_millis(500),
    };
    assert_eq!(result.mutant_id, 2);
    assert!(!result.killed);
    assert!(result.killed_by.is_none());
}

#[test]
fn test_runner_error_display() {
    let err = RunnerError::TestExecution("forge failed".to_string());
    assert_eq!(err.to_string(), "forge failed");
}

#[test]
fn test_runner_error_from_io() {
    let io_err = std::io::Error::new(std::io::ErrorKind::PermissionDenied, "access denied");
    let err = RunnerError::from(io_err);
    assert!(err.to_string().contains("io error"));
}

#[test]
fn test_parse_failed_test_from_output() {
    let stdout = "[FAIL. Reason: assertion failed] testIncrement() (gas: 12345)";

    let result = parse_failed_test_from_output(stdout, "");
    assert_eq!(result, Some("testIncrement".to_string()));
}

#[test]
fn test_extract_contract_name_from_path() {
    assert_eq!(
        extract_contract_name_from_path("test/Counter.t.sol:CounterTest"),
        "CounterTest"
    );
    assert_eq!(extract_contract_name_from_path("Counter.sol"), "Counter");
    assert_eq!(
        extract_contract_name_from_path("test/MyTest.t.sol"),
        "MyTest.t"
    );
}

#[test]
fn test_parse_failed_test_from_output_failing_tests_line() {
    let stdout = "Failing tests:\n[FAIL] testSomething() (gas: 100)";
    let result = parse_failed_test_from_output(stdout, "");
    assert_eq!(result, Some("testSomething".to_string()));
}

#[test]
fn test_parse_failed_test_from_output_no_match() {
    let stdout = "All tests passed!";
    let result = parse_failed_test_from_output(stdout, "");
    assert!(result.is_none());
}

#[test]
fn test_parse_failed_test_from_output_json_format() {
    let json_output = r#"{"test/Counter.t.sol:CounterTest":{"test_results":{"testIncrement":{"status":"Failure"}}}}"#;
    let result = parse_failed_test_from_output(json_output, "");
    assert_eq!(result, Some("CounterTest::testIncrement".to_string()));
}

#[test]
fn test_parse_json_test_output_no_failures() {
    let json_output = r#"{"test/Counter.t.sol:CounterTest":{"test_results":{"testIncrement":{"status":"Success"}}}}"#;
    let result = parse_json_test_output(json_output);
    assert!(result.is_none());
}

#[test]
fn test_parse_failed_test_from_output_from_stderr() {
    let result = parse_failed_test_from_output("", "[FAIL] testFromStderr() (gas: 50)");
    assert_eq!(result, Some("testFromStderr".to_string()));
}

#[test]
fn test_extract_test_name_no_bracket() {
    let result = extract_test_name_from_fail_line("no bracket here");
    assert!(result.is_none());
}

#[test]
fn test_extract_test_name_no_paren() {
    let result = extract_test_name_from_fail_line("[FAIL] no_paren");
    assert!(result.is_none());
}

#[test]
fn test_extract_test_name_empty_name() {
    let result = extract_test_name_from_fail_line("[FAIL] ()");
    assert!(result.is_none());
}

#[test]
fn test_runner_error_project_copy_display() {
    let err = RunnerError::ProjectCopy("copy failed".to_string());
    assert_eq!(err.to_string(), "failed to copy project: copy failed");
}

#[test]
fn test_runner_error_mutant_application_display() {
    let err = RunnerError::MutantApplication("apply failed".to_string());
    assert_eq!(err.to_string(), "failed to apply mutant: apply failed");
}

#[test]
fn test_parse_list_output() {
    let json_output = r#"{"test/Counter.t.sol":{"CounterTest":["testIncrement","testDecrement"]},"test/Other.t.sol":{"OtherTest":["testOther"]}}"#;
    let result = parse_list_output(json_output).unwrap();
    assert_eq!(
        result,
        vec![
            "CounterTest::testDecrement",
            "CounterTest::testIncrement",
            "OtherTest::testOther",
        ]
    );
}

#[test]
fn test_parse_list_output_empty() {
    let result = parse_list_output("{}").unwrap();
    assert!(result.is_empty());
}

#[test]
fn test_parse_list_output_invalid_json() {
    let result = parse_list_output("not json at all");
    assert!(result.is_err());
}

#[test]
fn test_parse_list_output_no_json_at_all() {
    let result = parse_list_output("just some text with no braces");
    assert!(result.is_err());
    assert!(result.unwrap_err().contains("no JSON object found"));
}

#[test]
fn test_parse_list_output_unexpected_structure_not_object() {
    let json_output = r#"{"test/Counter.t.sol": "not_an_object"}"#;
    let result = parse_list_output(json_output);
    assert!(result.is_err());
    assert!(
        result
            .unwrap_err()
            .contains("no test names could be extracted")
    );
}

#[test]
fn test_parse_list_output_unexpected_structure_not_array() {
    let json_output = r#"{"test/Counter.t.sol": {"CounterTest": "not_an_array"}}"#;
    let result = parse_list_output(json_output);
    assert!(result.is_err());
    assert!(
        result
            .unwrap_err()
            .contains("no test names could be extracted")
    );
}

#[test]
fn test_parse_list_output_non_string_items() {
    let json_output = r#"{"test/A.sol":{"ATest":[123, null, "testReal"]}}"#;
    let result = parse_list_output(json_output).unwrap();
    assert_eq!(result, vec!["ATest::testReal"]);
}

#[test]
fn test_parse_list_output_top_level_not_object() {
    let result = parse_list_output("[1, 2, 3]");
    assert!(result.is_err());
    assert!(result.unwrap_err().contains("no JSON object found"));
}

#[test]
fn test_parse_list_output_regression_forge_compilation_prefix() {
    let output = "Compiling 2 files with Solc 0.8.30\n\
Solc 0.8.30 finished in 1.23s\n\
Compiler run successful!\n\
{\"test/foundry/SequencerInbox.t.sol\":{\"SequencerInboxTest\":[\"testAddSequencerL2BatchFromOrigin\",\"testFuzz_addSequencerBatch_FeeToken\"]}}";
    let result = parse_list_output(output).unwrap();
    assert_eq!(
        result,
        vec![
            "SequencerInboxTest::testAddSequencerL2BatchFromOrigin",
            "SequencerInboxTest::testFuzz_addSequencerBatch_FeeToken",
        ]
    );
}

#[test]
fn test_parse_list_output_with_trailing_debug_logs() {
    let output = "{\"test/Counter.t.sol\":{\"CounterTest\":[\"testIncrement\"]}}\n\
2026-03-17T10:19:03.311119Z DEBUG Compiler::drop: solar_sema::compiler: asts_allocated=11.49 MiB\n\
2026-03-17T10:19:03.311127Z DEBUG Compiler::drop: solar_sema::compiler: hir_allocated=7.25 KiB\n";
    let result = parse_list_output(output).unwrap();
    assert_eq!(result, vec!["CounterTest::testIncrement"]);
}

#[test]
fn test_parse_list_output_with_prefix_and_trailing_logs() {
    let output = "2026-03-17T10:19:02.176239Z DEBUG solar_interface::session: created new session\n\
{\"test/Counter.t.sol\":{\"CounterTest\":[\"testIncrement\"]}}\n\
2026-03-17T10:19:03.311119Z DEBUG Compiler::drop: solar_sema::compiler: done\n";
    let result = parse_list_output(output).unwrap();
    assert_eq!(result, vec!["CounterTest::testIncrement"]);
}

#[test]
fn test_parse_list_output_error_includes_input() {
    let result = parse_list_output("{invalid json}");
    let err = result.unwrap_err();
    assert!(err.contains("failed to parse JSON"), "got: {err}");
    assert!(
        err.contains("{invalid json}"),
        "error should include the input, got: {err}"
    );
}

#[test]
fn test_collect_symlinks() {
    let cmds = vec![
        TestCommand::Foundry { args: vec![] },
        TestCommand::Custom {
            command: vec!["yarn".to_string(), "test".to_string()],
            symlinks: vec!["node_modules".to_string()],
        },
        TestCommand::Custom {
            command: vec!["make".to_string(), "test".to_string()],
            symlinks: vec!["node_modules".to_string(), ".yarn".to_string()],
        },
    ];
    let result = collect_symlinks(&cmds);
    assert_eq!(
        result,
        vec!["node_modules".to_string(), ".yarn".to_string()]
    );
}

#[test]
fn test_collect_symlinks_empty() {
    let cmds = vec![TestCommand::Foundry { args: vec![] }];
    assert!(collect_symlinks(&cmds).is_empty());
}

// ---------------------------------------------------------------------------
// Further cases
// ---------------------------------------------------------------------------

#[test]
fn collect_symlinks_keeps_first_appearance_order_once_each() {
    let cmds = vec![
        TestCommand::Custom {
            command: vec!["a".to_string()],
            symlinks: vec!["lib".to_string(), "node_modules".to_string(), "lib".to_string()],
        },
        TestCommand::Custom {
            command: vec!["b".to_string()],
            symlinks: vec!["node_modules".to_string(), "vendor".to_string()],
        },
    ];
    assert_eq!(
        collect_symlinks(&cmds),
        vec!["lib".to_string(), "node_modules".to_string(), "vendor".to_string()]
    );
}

#[test]
fn skipped_entries_are_git_and_gambit_out() {
    assert!(is_skipped_entry(".git"));
    assert!(is_skipped_entry("gambit_out"));
    assert!(!is_skipped_entry("src"));
    assert!(!is_skipped_entry(".env"));
}

#[test]
fn fail_line_name_is_trimmed() {
    assert_eq!(
        extract_test_name_from_fail_line("[FAIL: revert]   testX  (gas: 1)"),
        Some("testX".to_string())
    );
}

#[test]
fn json_report_picks_the_first_failure() {
    let line = r#"{"test/A.t.sol:ATest":{"test_results":{"testOk":{"status":"Success"},"testBad":{"status":"Failure"}}}}"#;
    assert_eq!(parse_json_test_output(line), Some("ATest::testBad".to_string()));
}

#[test]
fn combined_output_joins_non_empty_parts() {
    assert_eq!(combine_output("out", "err"), "out\nerr");
    assert_eq!(combine_output("", "err"), "err");
    assert_eq!(combine_output("out", ""), "out");
    assert_eq!(combine_output("", ""), "");
}

#[test]
fn baseline_outcome_carries_output() {
    assert!(baseline_outcome(true, "x", "y").is_ok());
    match baseline_outcome(false, "out", "err") {
        Err(RunnerError::TestExecution(m)) => assert_eq!(m, "out\nerr"),
        other => panic!("unexpected: {other:?}"),
    }
}

#[test]
fn forge_output_classification() {
    let pass = classify_forge_output(true, "", "").unwrap();
    assert!(!pass.failed);
    assert!(pass.killed_by.is_none());

    match classify_forge_output(false, "so", "Error: Compiler run failed") {
        Err(RunnerError::TestExecution(m)) => {
            assert_eq!(m, "forge compilation failed:\nstdout: so\nstderr: Error: Compiler run failed")
        }
        other => panic!("unexpected: {other:?}"),
    }

    let killed = classify_forge_output(false, "[FAIL] testA() (gas: 1)", "").unwrap();
    assert!(killed.failed);
    assert_eq!(killed.killed_by, Some("testA".to_string()));

    let unnamed = classify_forge_output(false, "nothing useful", "").unwrap();
    assert!(unnamed.failed);
    assert!(unnamed.killed_by.is_none());
}

#[test]
fn checked_classification_refuses_nameless_contract_path() {
    let line = r#"{"..":{"test_results":{"t":{"status":"Failure"}}}}"#;
    let r = classify_forge_output_checked(false, line, "");
    assert!(r.is_none());
    let ok = classify_forge_output_checked(false, "[FAIL] testA() (gas: 1)", "");
    assert!(matches!(ok, Some(Ok(ForgeTestResult { failed: true, .. }))));
}

#[test]
fn list_outcome_failed_run_and_parse_errors() {
    match list_outcome(false, "o", "e") {
        Err(RunnerError::TestExecution(m)) => {
            assert_eq!(m, "forge test --list failed:\nstdout: o\nstderr: e")
        }
        other => panic!("unexpected: {other:?}"),
    }
    match list_outcome(true, "no json", "e") {
        Err(RunnerError::TestExecution(m)) => assert_eq!(
            m,
            "no JSON object found in forge output: no json\nstdout: no json\nstderr: e"
        ),
        other => panic!("unexpected: {other:?}"),
    }
    let names = list_outcome(true, r#"{"f":{"C":["b","a"]}}"#, "").unwrap();
    assert_eq!(names, vec!["C::a", "C::b"]);
}

#[test]
fn list_output_expected_object_error() {
    assert_eq!(parse_list_output("{\n1").unwrap_err().starts_with("failed to parse JSON"), true);
    assert_eq!(parse_list_output("\n{}").unwrap(), Vec::<String>::new());
}

#[test]
fn mutant_step_default_forge_run() {
    let cmds: Vec<TestCommand> = vec![];
    match mutant_step(&cmds, 0, None) {
        MutantStep::RunForge(a) => assert!(a.is_empty()),
        other => panic!("unexpected: {other:?}"),
    }
    let survived = mutant_step(
        &cmds,
        1,
        Some(CommandOutcome::Forge(ForgeTestResult { failed: false, killed_by: None })),
    );
    assert!(matches!(survived, MutantStep::Done { killed: false, killed_by: None }));
    let killed = mutant_step(
        &cmds,
        1,
        Some(CommandOutcome::Forge(ForgeTestResult {
            failed: true,
            killed_by: Some("T::t".to_string()),
        })),
    );
    match killed {
        MutantStep::Done { killed, killed_by } => {
            assert!(killed);
            assert_eq!(killed_by, Some("T::t".to_string()));
        }
        other => panic!("unexpected: {other:?}"),
    }
}

#[test]
fn mutant_step_runs_commands_in_order_and_stops_at_first_kill() {
    let cmds = vec![
        TestCommand::Foundry { args: vec!["--match-contract".to_string(), "A".to_string()] },
        TestCommand::Custom { command: vec!["make".to_string(), "test".to_string()], symlinks: vec![] },
        TestCommand::Foundry { args: vec![] },
    ];
    match mutant_step(&cmds, 0, None) {
        MutantStep::RunForge(a) => assert_eq!(a, vec!["--match-contract", "A"]),
        other => panic!("unexpected: {other:?}"),
    }
    match mutant_step(
        &cmds,
        1,
        Some(CommandOutcome::Forge(ForgeTestResult { failed: false, killed_by: None })),
    ) {
        MutantStep::RunCustom(c) => assert_eq!(c, vec!["make", "test"]),
        other => panic!("unexpected: {other:?}"),
    }
    let done = mutant_step(&cmds, 2, Some(CommandOutcome::Custom(true)));
    assert!(matches!(done, MutantStep::Done { killed: true, killed_by: None }));
    let end = mutant_step(
        &cmds,
        3,
        Some(CommandOutcome::Forge(ForgeTestResult { failed: false, killed_by: None })),
    );
    assert!(matches!(end, MutantStep::Done { killed: false, killed_by: None }));
}

#[test]
fn runner_error_messages_for_copies() {
    assert_eq!(
        missing_symlink_error("node_modules").to_string(),
        "failed to copy project: configured symlink directory not found in project: node_modules"
    );
    assert_eq!(
        unreadable_mutant_error("gone").to_string(),
        "failed to apply mutant: failed to read mutant file: gone"
    );
}

/// Drives `mutant_step` over a whole test of one mutant, answering each run with
/// the next of the given outcomes; returns how many runs were made and the verdict.
fn drive(cmds: &[TestCommand], outcomes: Vec<CommandOutcome>) -> (usize, bool, Option<String>) {
    let mut outcomes = outcomes.into_iter();
    let mut ran = 0usize;
    let mut last = None;
    loop {
        match mutant_step(cmds, ran, last.take()) {
            MutantStep::Done { killed, killed_by } => return (ran, killed, killed_by),
            MutantStep::RunForge(_) | MutantStep::RunCustom(_) => {
                last = outcomes.next();
                ran += 1;
            }
        }
    }
}

#[test]
fn whole_run_stops_after_first_kill_and_names_its_test() {
    let cmds = vec![
        TestCommand::Foundry { args: vec![] },
        TestCommand::Foundry { args: vec!["--match-test".to_string(), "x".to_string()] },
        TestCommand::Custom { command: vec!["make".to_string()], symlinks: vec![] },
    ];
    let outcomes = vec![
        CommandOutcome::Forge(ForgeTestResult { failed: false, killed_by: None }),
        CommandOutcome::Forge(ForgeTestResult { failed: true, killed_by: Some("T::x".to_string()) }),
        CommandOutcome::Custom(true),
    ];
    assert_eq!(drive(&cmds, outcomes), (2, true, Some("T::x".to_string())));
}

#[test]
fn whole_run_without_kill_runs_every_command() {
    let cmds = vec![
        TestCommand::Custom { command: vec!["a".to_string()], symlinks: vec![] },
        TestCommand::Custom { command: vec!["b".to_string()], symlinks: vec![] },
    ];
    let outcomes = vec![CommandOutcome::Custom(false), CommandOutcome::Custom(false)];
    assert_eq!(drive(&cmds, outcomes), (2, false, None));
}

#[test]
fn whole_run_with_no_commands_runs_plain_forge_once() {
    let outcomes = vec![CommandOutcome::Forge(ForgeTestResult { failed: true, killed_by: None })];
    assert_eq!(drive(&[], outcomes), (1, true, None));
}
