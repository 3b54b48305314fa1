//! Keeping a value in a file.

use vstd::prelude::*;

verus! {

/// `std::io::Error`, which the methods of `ToFile` report. Nothing is known
/// of a value of it here; it is only handed on.
#[verifier::external_type_specification]
#[verifier::external_body]
pub struct ExIoError(std::io::Error);

/// A value that can be written to a file and read back from one. How the
/// value is spelled in the file is up to the implementation.
pub trait ToFile {
    /// Writes the value to the file at `path`.
    fn save(&self, path: &str) -> std::io::Result<()>;

    /// Replaces the value by what the file at `path` holds.
    fn load(&mut self, path: &str) -> std::io::Result<()>;
}

} // verus!
