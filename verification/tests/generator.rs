use dregs::config::{FoundryConfig, TestCommand};
use dregs::generator::gambit::{
    contracts_to_mutate, extract_function_names, gambit_call_line, mutation_operators,
    number_mutants, plan_calls, select_functions, solc_binary, target_calls, FoundMutant,
    GambitGenerator,
};
use dregs::generator::{FileTarget, GeneratorConfig, GeneratorError, Mutant};

#[test]
fn test_mutant_creation() {
    let mutant = Mutant {
        id: 1,
        source_path: "src/Counter.sol".to_string(),
        relative_source_path: "src/Counter.sol".to_string(),
        mutant_path: "gambit_out/mutants/1/Counter.sol".to_string(),
        operator: "binary-op-mutation".to_string(),
        original: "+".to_string(),
        replacement: "-".to_string(),
        line: 12,
        test_commands: vec![],
    };
    assert_eq!(mutant.id, 1);
    assert_eq!(mutant.operator, "binary-op-mutation");
    assert_eq!(mutant.line, 12);
}

#[test]
fn test_generator_config_creation() {
    let config = GeneratorConfig {
        project_root: ".".to_string(),
        targets: vec![FileTarget::new("src/Counter.sol".to_string())],
        operators: vec!["binary-op-mutation".to_string()],
        output_dir: "gambit_out".to_string(),
        foundry_config: None,
        skip_validate: false,
    };
    assert_eq!(config.targets.len(), 1);
    assert_eq!(config.operators.len(), 1);
}

#[test]
fn test_generator_error_display() {
    let err = GeneratorError::Generation("test error".to_string());
    assert_eq!(err.to_string(), "failed to generate mutants: test error");
}

#[test]
fn test_generator_error_from_io() {
    let io_err = std::io::Error::new(std::io::ErrorKind::NotFound, "file not found");
    let err = GeneratorError::from(io_err);
    assert!(err.to_string().contains("io error"));
}

#[test]
fn test_gambit_generator_new() {
    let _generator = GambitGenerator::new();
}

#[test]
fn test_gambit_generator_default() {
    let _generator: GambitGenerator = Default::default();
}

#[test]
fn test_extract_function_names() {
    let source = r#"
pragma solidity ^0.8.0;
contract Foo {
    function transfer(address to, uint256 amount) public {}
    function approve(address spender, uint256 amount) external returns (bool) {}
    function _internal() internal {}
}
"#;
    let names = extract_function_names(source);
    assert_eq!(names, vec!["transfer", "approve", "_internal"]);
}

// ---------------------------------------------------------------------------
// Further cases
// ---------------------------------------------------------------------------

fn target(file: &str) -> FileTarget {
    FileTarget::new(file.to_string())
}

fn strings(v: &[&str]) -> Vec<String> {
    v.iter().map(|s| s.to_string()).collect()
}

#[test]
fn file_target_new_is_unrestricted() {
    let t = target("src/A.sol");
    assert_eq!(t.file, "src/A.sol");
    assert!(t.contracts.is_empty() && t.functions.is_empty() && t.exclude_functions.is_empty());
    assert!(t.test_commands.is_empty());
}

#[test]
fn excluded_functions_leave_the_rest() {
    let mut t = target("src/A.sol");
    t.exclude_functions = strings(&["pause", "typo"]);
    let all = strings(&["deposit", "pause", "withdraw"]);
    let (selected, unknown) = select_functions(&t, &all);
    assert_eq!(selected, Some(strings(&["deposit", "withdraw"])));
    assert_eq!(unknown, strings(&["typo"]));
}

#[test]
fn listed_functions_or_all() {
    let mut t = target("src/A.sol");
    assert_eq!(select_functions(&t, &vec![]), (None, vec![]));
    t.functions = strings(&["deposit"]);
    assert_eq!(select_functions(&t, &vec![]), (Some(strings(&["deposit"])), vec![]));
}

#[test]
fn all_functions_excluded_gives_empty_selection() {
    let mut t = target("src/A.sol");
    t.exclude_functions = strings(&["a", "b"]);
    let (selected, unknown) = select_functions(&t, &strings(&["a", "b"]));
    assert_eq!(selected, Some(vec![]));
    assert!(unknown.is_empty());
}

#[test]
fn contracts_default_to_one_unrestricted_call() {
    let mut t = target("src/A.sol");
    assert_eq!(contracts_to_mutate(&t), vec![None]);
    t.contracts = strings(&["A", "B"]);
    assert_eq!(
        contracts_to_mutate(&t),
        vec![Some("A".to_string()), Some("B".to_string())]
    );
}

#[test]
fn solc_version_strings_are_ignored() {
    assert_eq!(solc_binary(None), ("solc".to_string(), false));
    let path = "/usr/bin/solc-0.8".to_string();
    assert_eq!(solc_binary(Some(&path)), (path.clone(), false));
    let named = "solc-0.8.20".to_string();
    assert_eq!(solc_binary(Some(&named)), (named.clone(), false));
    let version = "0.8.20".to_string();
    assert_eq!(solc_binary(Some(&version)), ("solc".to_string(), true));
}

#[test]
fn operators_none_when_empty() {
    assert_eq!(mutation_operators(&vec![]), None);
    assert_eq!(
        mutation_operators(&strings(&["binary-op-mutation"])),
        Some(strings(&["binary-op-mutation"]))
    );
}

#[test]
fn target_calls_carry_project_settings() {
    let mut t = target("/p/src/A.sol");
    t.contracts = strings(&["A", "B"]);
    let config = GeneratorConfig {
        project_root: "/p".to_string(),
        targets: vec![],
        operators: vec![],
        output_dir: "/p/gambit_out".to_string(),
        foundry_config: Some(FoundryConfig {
            solc: Some("0.8.20".to_string()),
            optimizer: true,
            evm_version: Some("paris".to_string()),
            via_ir: false,
            remappings: strings(&["a/=lib/a/"]),
        }),
        skip_validate: true,
    };
    let (calls, ignored) = target_calls(&config, &t, &Some(strings(&["f"])));
    assert!(ignored);
    assert_eq!(calls.len(), 2);
    assert_eq!(calls[1].contract, Some("B".to_string()));
    assert_eq!(calls[0].filename, "/p/src/A.sol");
    assert_eq!(calls[0].outdir, "/p/gambit_out");
    assert_eq!(calls[0].sourceroot, "/p");
    assert_eq!(calls[0].solc_base_path, "/p");
    assert_eq!(calls[0].mutations, None);
    assert_eq!(calls[0].solc, "solc");
    assert!(calls[0].solc_optimize);
    assert_eq!(calls[0].solc_evm_version, Some("paris".to_string()));
    assert_eq!(calls[0].functions, Some(strings(&["f"])));
    assert_eq!(calls[0].solc_remappings, Some(strings(&["a/=lib/a/"])));
    assert!(calls[0].skip_validate);
    assert_eq!(
        gambit_call_line(0, &calls[0]),
        "  gambit call 1: file=/p/src/A.sol, contract=A, functions=[f]"
    );
}

#[test]
fn gambit_call_line_for_unrestricted_call() {
    let t = target("src/A.sol");
    let config = GeneratorConfig {
        project_root: ".".to_string(),
        targets: vec![],
        operators: strings(&["binary-op-mutation"]),
        output_dir: "gambit_out".to_string(),
        foundry_config: None,
        skip_validate: false,
    };
    let (calls, ignored) = target_calls(&config, &t, &None);
    assert!(!ignored);
    assert_eq!(calls.len(), 1);
    assert_eq!(calls[0].solc_remappings, None);
    assert_eq!(calls[0].mutations, Some(strings(&["binary-op-mutation"])));
    assert_eq!(
        gambit_call_line(2, &calls[0]),
        "  gambit call 3: file=src/A.sol, contract=*, functions=[*]"
    );
    let mut two = calls.into_iter().next().unwrap();
    two.functions = Some(strings(&["a", "b"]));
    assert_eq!(
        gambit_call_line(0, &two),
        "  gambit call 1: file=src/A.sol, contract=*, functions=[a, b]"
    );
}

fn found(source: &str, key: &str, line: u32) -> FoundMutant {
    FoundMutant {
        source_path: source.to_string(),
        relative_path: "src/Counter.sol".to_string(),
        key: key.to_string(),
        line,
        operator: "BinaryOpMutation".to_string(),
        original: "+".to_string(),
        replacement: "-".to_string(),
    }
}

#[test]
fn mutants_are_numbered_from_one_with_their_target_tests() {
    let table = vec![
        (
            "/p/src/Counter.sol".to_string(),
            vec![TestCommand::Foundry { args: strings(&["--match-contract", "Old"]) }],
        ),
        ("/p/src/Other.sol".to_string(), vec![]),
        (
            "/p/src/Counter.sol".to_string(),
            vec![TestCommand::Foundry { args: strings(&["--match-contract", "CounterTest"]) }],
        ),
    ];
    let ms = number_mutants(
        vec![
            found("/p/src/Counter.sol", "/p/src/Counter.sol", 3),
            found("/p/src/Counter.sol", "/p/src/Counter.sol", 7),
            found("/p/src/Unknown.sol", "/p/src/Unknown.sol", 1),
        ],
        "/p/gambit_out",
        &table,
    );
    assert_eq!(ms.len(), 3);
    assert_eq!(ms.iter().map(|m| m.id).collect::<Vec<_>>(), vec![1, 2, 3]);
    assert_eq!(ms[1].mutant_path, "/p/gambit_out/mutants/2/src/Counter.sol");
    assert_eq!(ms[1].line, 7);
    assert_eq!(
        ms[0].test_commands,
        vec![TestCommand::Foundry { args: strings(&["--match-contract", "CounterTest"]) }]
    );
    assert!(ms[2].test_commands.is_empty());
}

#[test]
fn single_entry_per_file_gives_that_entrys_tests() {
    let table = vec![
        ("/p/src/A.sol".to_string(), vec![TestCommand::Foundry { args: strings(&["--match-contract", "ATest"]) }]),
        ("/p/src/B.sol".to_string(), vec![TestCommand::Custom { command: strings(&["make"]), symlinks: vec![] }]),
    ];
    let ms = number_mutants(
        vec![found("/p/src/B.sol", "/p/src/./B.sol", 2), found("/p/src/A.sol", "/p/src/A.sol", 4)],
        "/p/out",
        &table,
    );
    assert_eq!(ms[0].test_commands, vec![TestCommand::Custom { command: strings(&["make"]), symlinks: vec![] }]);
    assert_eq!(ms[1].test_commands, vec![TestCommand::Foundry { args: strings(&["--match-contract", "ATest"]) }]);
}

#[test]
fn plan_calls_lists_each_targets_calls_in_order() {
    let mut a = target("/p/src/A.sol");
    a.contracts = strings(&["A1", "A2"]);
    let b = target("/p/src/B.sol");
    let config = GeneratorConfig {
        project_root: "/p".to_string(),
        targets: vec![a, b],
        operators: strings(&["binary-op-mutation"]),
        output_dir: "/p/out".to_string(),
        foundry_config: None,
        skip_validate: false,
    };
    let (calls, ignored) = plan_calls(&config, &vec![None, Some(strings(&["g"]))]);
    assert!(!ignored);
    assert_eq!(calls.len(), 3);
    assert_eq!(calls[0].filename, "/p/src/A.sol");
    assert_eq!(calls[0].contract, Some("A1".to_string()));
    assert_eq!(calls[1].contract, Some("A2".to_string()));
    assert_eq!(calls[0].functions, None);
    assert_eq!(calls[2].filename, "/p/src/B.sol");
    assert_eq!(calls[2].contract, None);
    assert_eq!(calls[2].functions, Some(strings(&["g"])));
    assert_eq!(calls[2].mutations, Some(strings(&["binary-op-mutation"])));
}
