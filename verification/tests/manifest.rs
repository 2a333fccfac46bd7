use dregs::generator::Mutant;
use dregs::manifest::{stored_mutant_path, Manifest, ManifestError, MANIFEST_VERSION};

fn sample_mutants() -> Vec<Mutant> {
    vec![
        Mutant {
            id: 1,
            source_path: "/project/src/Counter.sol".to_string(),
            relative_source_path: "src/Counter.sol".to_string(),
            mutant_path: "/tmp/mutants/1.sol".to_string(),
            operator: "binary-op-mutation".to_string(),
            original: "+".to_string(),
            replacement: "-".to_string(),
            line: 12,
            test_commands: vec![],
        },
        Mutant {
            id: 2,
            source_path: "/project/src/Counter.sol".to_string(),
            relative_source_path: "src/Counter.sol".to_string(),
            mutant_path: "/tmp/mutants/2.sol".to_string(),
            operator: "require-mutation".to_string(),
            original: "require(true)".to_string(),
            replacement: "require(false)".to_string(),
            line: 15,
            test_commands: vec![],
        },
    ]
}

#[test]
fn manifest_records_files_under_mutants_dir() {
    let manifest = Manifest::from_mutants(sample_mutants());
    assert_eq!(manifest.version, 1);
    assert_eq!(MANIFEST_VERSION, 1);
    assert_eq!(manifest.mutants.len(), 2);
    assert_eq!(manifest.mutants[0].mutant_path, "mutants/1/Counter.sol");
    assert_eq!(manifest.mutants[1].mutant_path, "mutants/2/Counter.sol");
    assert_eq!(manifest.mutants[1].operator, "require-mutation");
    assert_eq!(manifest.mutants[1].line, 15);
    assert_eq!(manifest.mutants[0].relative_source_path, "src/Counter.sol");
}

#[test]
fn stored_path_needs_a_file_name() {
    assert_eq!(stored_mutant_path(7, "src/A.sol"), Some("mutants/7/A.sol".to_string()));
    assert_eq!(stored_mutant_path(7, ".."), None);
    let mut bad = sample_mutants();
    bad[1].relative_source_path = "/".to_string();
    assert!(Manifest::from_mutants_checked(bad).is_none());
    let good = Manifest::from_mutants_checked(sample_mutants()).unwrap();
    assert_eq!(good.mutants[0].mutant_path, "mutants/1/Counter.sol");
}

#[test]
fn manifest_error_messages() {
    let e = ManifestError::MissingMutantFile("/out/mutants/99/Counter.sol".to_string());
    assert_eq!(e.to_string(), "missing mutant file: /out/mutants/99/Counter.sol");
    let io = ManifestError::from(std::io::Error::new(std::io::ErrorKind::NotFound, "gone"));
    assert!(io.to_string().starts_with("io error: "));
}

#[test]
fn manifest_json_error_message() {
    let bad = serde_json::from_str::<serde_json::Value>("[1,").unwrap_err();
    let err = ManifestError::from(bad);
    assert!(err.to_string().starts_with("json error: "));
}
