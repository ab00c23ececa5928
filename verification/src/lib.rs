use vstd::prelude::*;

pub mod archive;
pub mod discovery;
pub mod manifest;
pub mod orchestrate;
pub mod safety;
pub mod sanitize;
pub mod text;

verus! {

/// Errors reported by the library's own checks and computations.
#[derive(Debug, PartialEq, Eq)]
pub enum MainError {
    /// A removal guard rejected the given path.
    PathNotSafeToDelete(String),
    /// The root directory holds no manifest file, so a run is meaningless.
    ManifestNotFound,
    /// The root manifest text is not a well-formed document.
    ManifestParseError,
    /// Writing an archive entry or compressing the archive failed.
    IOError,
}

} // verus!
