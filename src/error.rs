//! The errors that compiling or running a dependency graph can report.
use vstd::prelude::*;

verus! {

/// Any error that can occur while compiling or running a build.
#[derive(Debug, Clone, PartialEq, Eq)]
pub enum Error {
    /// A circular dependency.
    Cycle,
    /// The same output file is declared by more than one rule.
    DuplicateFile,
    /// A file that should be present, or should have been made by its build
    /// step, is missing. Carries the file's path.
    MissingFile(String),
    /// A build step reported failure. Carries its message.
    BuildFailed(String),
    /// Reading a file's metadata failed. Carries the cause.
    Io(String),
}

/// The result type of this library.
pub type DepResult<T> = Result<T, Error>;

} // verus!
