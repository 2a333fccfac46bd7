use dregs::config::{
    config_not_found, foundry_config_from_profiles, remappings_from_output,
    validate_dregs_config, ConfigError, DregsConfig, ProfileConfig, TargetConfig,
};

fn target(files: &[&str]) -> TargetConfig {
    TargetConfig {
        files: files.iter().map(|s| s.to_string()).collect(),
        contracts: None,
        functions: None,
        exclude_functions: None,
        forge_args: None,
    }
}

fn message(r: Result<DregsConfig, ConfigError>) -> String {
    match r {
        Err(e) => e.to_string(),
        Ok(_) => panic!("expected an error"),
    }
}

#[test]
fn default_profile_settings_are_taken() {
    let full = ProfileConfig {
        solc: Some("0.8.30".to_string()),
        optimizer: Some(true),
        evm_version: Some("cancun".to_string()),
        via_ir: Some(true),
        remappings: Some(vec!["@openzeppelin/=lib/openzeppelin/".to_string()]),
    };
    let config = foundry_config_from_profiles(Some(vec![
        ("ci".to_string(), ProfileConfig::default()),
        ("default".to_string(), full),
    ]));
    assert_eq!(config.solc, Some("0.8.30".to_string()));
    assert!(config.optimizer);
    assert_eq!(config.evm_version, Some("cancun".to_string()));
    assert!(config.via_ir);
    assert_eq!(config.remappings, vec!["@openzeppelin/=lib/openzeppelin/"]);
}

#[test]
fn missing_default_profile_gives_defaults() {
    let ci = ProfileConfig { optimizer: Some(true), ..ProfileConfig::default() };
    let config = foundry_config_from_profiles(Some(vec![("ci".to_string(), ci)]));
    assert!(!config.optimizer);
    assert!(config.solc.is_none());
    assert!(!config.via_ir);
    assert!(config.remappings.is_empty());

    let none = foundry_config_from_profiles(None);
    assert!(!none.optimizer);
    assert!(none.evm_version.is_none());
}

#[test]
fn dregs_config_checks() {
    let ok = DregsConfig { targets: vec![target(&["src/A.sol"]), target(&["src/B.sol", "src/C.sol"])] };
    let checked = validate_dregs_config(ok).unwrap();
    assert_eq!(checked.targets.len(), 2);
    assert_eq!(checked.targets[1].files, vec!["src/B.sol", "src/C.sol"]);

    let empty = DregsConfig { targets: vec![] };
    assert_eq!(message(validate_dregs_config(empty)), "invalid dregs.toml: no targets defined");

    let no_files = DregsConfig { targets: vec![target(&["src/A.sol"]), target(&[])] };
    assert_eq!(message(validate_dregs_config(no_files)), "invalid dregs.toml: target 2 has no files");

    let mut both = target(&["src/A.sol"]);
    both.functions = Some(vec!["a".to_string()]);
    both.exclude_functions = Some(vec!["b".to_string()]);
    let conflicting = DregsConfig { targets: vec![both] };
    assert_eq!(
        message(validate_dregs_config(conflicting)),
        "invalid dregs.toml: target 1 sets both functions and exclude_functions"
    );
}

#[test]
fn explicit_config_path_not_found() {
    let e = config_not_found("/p/missing.toml");
    assert_eq!(e.to_string(), "invalid dregs.toml: config file not found: /p/missing.toml");
}

#[test]
fn remappings_are_the_non_empty_lines() {
    assert_eq!(
        remappings_from_output("a/=lib/a/\n\nb/=lib/b/\r\n"),
        vec!["a/=lib/a/", "b/=lib/b/"]
    );
    assert!(remappings_from_output("").is_empty());
}

#[test]
fn config_error_messages_name_the_file() {
    let read = ConfigError::Read(std::io::Error::new(std::io::ErrorKind::NotFound, "gone"));
    assert!(read.to_string().starts_with("failed to read foundry.toml: "));
    let bad = toml::from_str::<toml::Value>("x = ").unwrap_err();
    let parse = ConfigError::Parse(bad);
    assert!(parse.to_string().starts_with("failed to parse foundry.toml: "));
}
