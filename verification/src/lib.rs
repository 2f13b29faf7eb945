//! Compute the set of source files that make up one build target of a
//! declaration-based-module language, by simulating the language's own
//! module-to-file mapping rules: a file declares child modules, each
//! file-backed declaration resolves to a flat file `<name>.rs`, to a
//! directory-marker file `<name>/mod.rs`, or to an explicit `#[path]`
//! override, and the resolver recurses until the transitive file set
//! for the target is known.

pub mod builder;
pub mod harness;
pub mod parser;
pub mod path;
pub mod resolve;
pub mod syntax;
pub mod vfs;

pub use builder::{extract_crate_files, get_target_files, FileSet};

use path::FilePath;
use vstd::prelude::*;
use vstd::string::StringExecFns;

verus! {

/// The ways a target's file set can fail to build.
#[derive(Debug)]
pub enum Error {
    /// The caller-supplied manifest path does not name a `Cargo.toml`
    /// file.
    ManifestNotCargoToml,
    /// Target enumeration found no targets.
    NoTargets,
    /// The manifest could not be read.
    ManifestError,
    /// The named source file could not be read.
    FileError(FilePath),
    /// A source file's text failed to parse.
    ParseError,
    /// No candidate file satisfied the resolution rules for a
    /// declaration.
    ModuleNotFound,
    /// A containing path has no parent directory to resolve against.
    NoParent,
    /// A containing path has no file stem to resolve against.
    NoStem,
}

/// The mathematical value of an [`Error`].
pub ghost enum ErrorView {
    /// See [`Error::ManifestNotCargoToml`].
    ManifestNotCargoToml,
    /// See [`Error::NoTargets`].
    NoTargets,
    /// See [`Error::ManifestError`].
    ManifestError,
    /// See [`Error::FileError`]; carries the path that could not be
    /// read.
    FileError(Seq<Seq<char>>),
    /// See [`Error::ParseError`].
    ParseError,
    /// See [`Error::ModuleNotFound`].
    ModuleNotFound,
    /// See [`Error::NoParent`].
    NoParent,
    /// See [`Error::NoStem`].
    NoStem,
}

impl View for Error {
    type V = ErrorView;

    open spec fn view(&self) -> ErrorView {
        match self {
            Error::ManifestNotCargoToml => ErrorView::ManifestNotCargoToml,
            Error::NoTargets => ErrorView::NoTargets,
            Error::ManifestError => ErrorView::ManifestError,
            Error::FileError(p) => ErrorView::FileError(p@),
            Error::ParseError => ErrorView::ParseError,
            Error::ModuleNotFound => ErrorView::ModuleNotFound,
            Error::NoParent => ErrorView::NoParent,
            Error::NoStem => ErrorView::NoStem,
        }
    }
}

/// One independently buildable entry point within a package. Two
/// targets sharing an entry path are the same target; kind and
/// edition are non-identifying metadata.
pub struct Target {
    /// The path to the main source file of the target.
    pub path: FilePath,
    /// The kind of target (lib, bin, example, ...).
    pub kind: String,
    /// The language edition of this target.
    pub edition: String,
}

impl Target {
    /// Whether two targets are the same target: identity is the entry
    /// path alone.
    pub fn same_target(&self, other: &Target) -> (r: bool)
        ensures
            r == (self.path@ == other.path@),
    {
        self.path.eq_path(&other.path)
    }
}

/// Target enumeration owes at least one target: `NoTargets` exactly
/// when the enumerated list is empty, and the list handed back
/// unchanged otherwise.
pub fn validate_targets(targets: Vec<Target>) -> (r: Result<Vec<Target>, Error>)
    ensures
        (r matches Ok(v) ==> v == targets && targets@.len() > 0),
        (r matches Err(e) ==> e == Error::NoTargets && targets@.len() == 0),
{
    if targets.len() == 0 {
        Err(Error::NoTargets)
    } else {
        Ok(targets)
    }
}

/// The file name a manifest path must end in.
pub open spec fn manifest_file_name() -> Seq<char> {
    seq!['C', 'a', 'r', 'g', 'o', '.', 't', 'o', 'm', 'l']
}

/// A caller-supplied manifest path must name a `Cargo.toml` file:
/// `ManifestNotCargoToml` exactly when its final component is not
/// that name.
pub fn validate_manifest_path(manifest_path: &FilePath) -> (r: Result<(), Error>)
    ensures
        (r matches Ok(u) ==> manifest_path@.len() > 0 && manifest_path@.last()
            == manifest_file_name()),
        (r matches Err(e) ==> e == Error::ManifestNotCargoToml && (manifest_path@.len() == 0
            || manifest_path@.last() != manifest_file_name())),
{
    let n = manifest_path.parts.len();
    proof {
        assert(manifest_path@.len() == manifest_path.parts@.len());
    }
    if n == 0 {
        return Err(Error::ManifestNotCargoToml);
    }
    let name = String::from_str("Cargo.toml");
    proof {
        reveal_strlit("Cargo.toml");
        assert(name@ =~= manifest_file_name());
        assert(manifest_path@.last() == manifest_path.parts@[n - 1]@);
    }
    if manifest_path.parts[n - 1] == name {
        Ok(())
    } else {
        Err(Error::ManifestNotCargoToml)
    }
}

} // verus!
