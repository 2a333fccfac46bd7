//! Mutants and what they are generated from.
use vstd::prelude::*;

use crate::config::{FoundryConfig, TestCommand};
use crate::external::io_error_text;
use crate::text::{chars_of, push_all, string_of};

pub mod gambit;

verus! {

/// Errors in generating mutants.
#[derive(Debug)]
pub enum GeneratorError {
    Generation(String),
    Io(std::io::Error),
}

impl GeneratorError {
    /// The error's message.
    pub fn to_string(&self) -> (r: String)
        ensures
            self matches GeneratorError::Generation(m) ==> r@ == "failed to generate mutants: "@
                + m@,
            self matches GeneratorError::Io(_) ==> crate::text::starts_with(r@, "io error: "@),
    {
        match self {
            GeneratorError::Generation(m) => {
                let mut v = chars_of("failed to generate mutants: ");
                push_all(&mut v, &chars_of(m.as_str()));
                string_of(&v)
            },
            GeneratorError::Io(e) => {
                let mut v = chars_of("io error: ");
                let ghost head = v@;
                let t = io_error_text(e);
                push_all(&mut v, &chars_of(t.as_str()));
                assert(v@.take(head.len() as int) == head);
                string_of(&v)
            },
        }
    }
}

impl From<std::io::Error> for GeneratorError {
    fn from(e: std::io::Error) -> (r: Self) {
        GeneratorError::Io(e)
    }
}

impl vstd::std_specs::convert::FromSpecImpl<std::io::Error> for GeneratorError {
    open spec fn obeys_from_spec() -> bool {
        true
    }

    open spec fn from_spec(e: std::io::Error) -> Self {
        GeneratorError::Io(e)
    }
}

/// One mutation of one source line.
#[derive(Debug, Clone, PartialEq)]
pub struct Mutant {
    pub id: u32,
    pub source_path: String,
    pub relative_source_path: String,
    pub mutant_path: String,
    pub operator: String,
    pub original: String,
    pub replacement: String,
    pub line: u32,
    pub test_commands: Vec<TestCommand>,
}

/// A file to mutate, with the contracts and functions to restrict mutation to,
/// the functions to leave alone, and the tests that judge its mutants.
///
/// `functions` and `exclude_functions` are never both non-empty: configuration
/// checking refuses a target that sets both.
#[derive(Debug, Clone)]
pub struct FileTarget {
    pub file: String,
    pub contracts: Vec<String>,
    pub functions: Vec<String>,
    pub exclude_functions: Vec<String>,
    pub test_commands: Vec<TestCommand>,
}

impl FileTarget {
    /// A target for the whole of `file`, judged by the default tests.
    pub fn new(file: String) -> (r: Self)
        ensures
            r.file == file,
            r.contracts@.len() == 0,
            r.functions@.len() == 0,
            r.exclude_functions@.len() == 0,
            r.test_commands@.len() == 0,
    {
        FileTarget {
            file,
            contracts: Vec::new(),
            functions: Vec::new(),
            exclude_functions: Vec::new(),
            test_commands: Vec::new(),
        }
    }
}

/// What a generation run mutates, and how.
#[derive(Debug, Clone)]
pub struct GeneratorConfig {
    pub project_root: String,
    pub targets: Vec<FileTarget>,
    pub operators: Vec<String>,
    pub output_dir: String,
    pub foundry_config: Option<FoundryConfig>,
    pub skip_validate: bool,
}

} // verus!
