//! The manifest of a generation run: the mutants, with their files stored under
//! the output directory.
use vstd::prelude::*;

use crate::external::{io_error_text, json_error_text};
use crate::generator::Mutant;
use crate::paths::{path_file_name, spec_path_file_name};
use crate::text::{chars_of, decimal, decimal_chars, push_all, string_of};

verus! {

/// Errors in writing or reading a manifest.
#[derive(Debug)]
pub enum ManifestError {
    Io(std::io::Error),
    Json(serde_json::Error),
    MissingMutantFile(String),
}

impl ManifestError {
    /// The error's message.
    pub fn to_string(&self) -> (r: String)
        ensures
            self matches ManifestError::MissingMutantFile(p) ==> r@ == "missing mutant file: "@
                + p@,
            self matches ManifestError::Io(_) ==> crate::text::starts_with(r@, "io error: "@),
            self matches ManifestError::Json(_) ==> crate::text::starts_with(r@, "json error: "@),
    {
        match self {
            ManifestError::MissingMutantFile(p) => {
                let mut v = chars_of("missing mutant file: ");
                push_all(&mut v, &chars_of(p.as_str()));
                string_of(&v)
            },
            ManifestError::Io(e) => {
                let mut v = chars_of("io error: ");
                let ghost head = v@;
                let t = io_error_text(e);
                push_all(&mut v, &chars_of(t.as_str()));
                assert(v@.take(head.len() as int) == head);
                string_of(&v)
            },
            ManifestError::Json(e) => {
                let mut v = chars_of("json error: ");
                let ghost head = v@;
                let t = json_error_text(e);
                push_all(&mut v, &chars_of(t.as_str()));
                assert(v@.take(head.len() as int) == head);
                string_of(&v)
            },
        }
    }
}

impl From<std::io::Error> for ManifestError {
    fn from(e: std::io::Error) -> (r: Self) {
        ManifestError::Io(e)
    }
}

impl vstd::std_specs::convert::FromSpecImpl<std::io::Error> for ManifestError {
    open spec fn obeys_from_spec() -> bool {
        true
    }

    open spec fn from_spec(e: std::io::Error) -> Self {
        ManifestError::Io(e)
    }
}

impl From<serde_json::Error> for ManifestError {
    fn from(e: serde_json::Error) -> (r: Self) {
        ManifestError::Json(e)
    }
}

impl vstd::std_specs::convert::FromSpecImpl<serde_json::Error> for ManifestError {
    open spec fn obeys_from_spec() -> bool {
        true
    }

    open spec fn from_spec(e: serde_json::Error) -> Self {
        ManifestError::Json(e)
    }
}

/// The manifest's format version.
pub const MANIFEST_VERSION: u32 = 1;

/// A manifest: its format version and its mutants.
#[derive(Debug, Clone)]
pub struct Manifest {
    pub version: u32,
    pub mutants: Vec<Mutant>,
}

/// Where the manifest keeps the file of the mutant `id` of a source file named
/// `name`, relative to the output directory: `mutants/<id>/<name>`.
pub open spec fn stored_path(id: u32, name: Seq<char>) -> Seq<char> {
    "mutants/"@ + decimal(id as nat) + "/"@ + name
}

/// The mutant as the manifest records it: its file at `stored_path`, named after
/// its source file.
pub open spec fn recorded(m: Mutant, r: Mutant) -> bool {
    &&& spec_path_file_name(m.relative_source_path@) matches Some(name)
    &&& r.mutant_path@ == stored_path(m.id, name)
    &&& r.id == m.id
    &&& r.source_path == m.source_path
    &&& r.relative_source_path == m.relative_source_path
    &&& r.operator == m.operator
    &&& r.original == m.original
    &&& r.replacement == m.replacement
    &&& r.line == m.line
    &&& r.test_commands == m.test_commands
}

/// The mutant's source file has a file name, which names its stored copy.
pub open spec fn has_file_name(m: Mutant) -> bool {
    spec_path_file_name(m.relative_source_path@) is Some
}

/// Where the file of the mutant `id` of the source file `relative_source_path`
/// is kept, relative to the output directory; `None` when the source path has no
/// file name.
pub fn stored_mutant_path(id: u32, relative_source_path: &str) -> (r: Option<String>)
    ensures
        match spec_path_file_name(relative_source_path@) {
            Some(name) => r matches Some(p) && p@ == stored_path(id, name),
            None => r is None,
        },
{
    match path_file_name(relative_source_path) {
        Some(name) => {
            let mut v = chars_of("mutants/");
            push_all(&mut v, &decimal_chars(id as u64));
            push_all(&mut v, &chars_of("/"));
            push_all(&mut v, &chars_of(name.as_str()));
            Some(string_of(&v))
        },
        None => None,
    }
}

impl Manifest {
    /// The manifest of these mutants, in order, each with its file recorded at
    /// `mutants/<id>/<file name>` under the output directory.
    pub fn from_mutants(mutants: Vec<Mutant>) -> (r: Self)
        requires
            forall|i: int| 0 <= i < mutants@.len() ==> has_file_name(#[trigger] mutants@[i]),
        ensures
            r.version == MANIFEST_VERSION,
            r.mutants@.len() == mutants@.len(),
            forall|i: int| 0 <= i < mutants@.len() ==> recorded(mutants@[i], #[trigger] r.mutants@[i]),
    {
        let ghost orig = mutants@;
        assert(orig.len() == mutants.len());
        let mut pending = mutants;
        let mut out: Vec<Mutant> = Vec::new();
        let mut i: usize = 0;
        while pending.len() > 0
            invariant
                i + pending@.len() == orig.len(),
                pending@ == orig.skip(i as int),
                orig == mutants@,
                orig.len() <= usize::MAX,
                out@.len() == i,
                forall|k: int| 0 <= k < orig.len() ==> has_file_name(#[trigger] orig[k]),
                forall|k: int| 0 <= k < i ==> recorded(orig[k], #[trigger] out@[k]),
            decreases pending.len(),
        {
            let ghost before = pending@;
            let m = pending.remove(0);
            assert(before[0] == orig[i as int]);
            assert(pending@ =~= orig.skip(i + 1));
            assert(has_file_name(orig[i as int]));
            let p = stored_mutant_path(m.id, m.relative_source_path.as_str());
            let stored = match p {
                Some(p) => p,
                None => {
                    assert(false);
                    String::new()
                },
            };
            out.push(Mutant { mutant_path: stored, ..m });
            i += 1;
        }
        Manifest { version: MANIFEST_VERSION, mutants: out }
    }

    /// `from_mutants` where it is defined: `None` when some mutant's source path
    /// has no file name to store its file under.
    pub fn from_mutants_checked(mutants: Vec<Mutant>) -> (r: Option<Self>)
        ensures
            r is None <==> exists|i: int| 0 <= i < mutants@.len() && !has_file_name(#[trigger] mutants@[i]),
            r matches Some(m) ==> m.version == MANIFEST_VERSION && m.mutants@.len() == mutants@.len()
                && forall|i: int| 0 <= i < mutants@.len() ==> recorded(mutants@[i], #[trigger] m.mutants@[i]),
    {
        let mut i: usize = 0;
        while i < mutants.len()
            invariant
                i <= mutants.len(),
                forall|k: int| 0 <= k < i ==> has_file_name(#[trigger] mutants@[k]),
            decreases mutants.len() - i,
        {
            if path_file_name(mutants[i].relative_source_path.as_str()).is_none() {
                assert(!has_file_name(mutants@[i as int]));
                return None;
            }
            i += 1;
        }
        Some(Manifest::from_mutants(mutants))
    }
}

} // verus!
