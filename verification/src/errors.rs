use vstd::prelude::*;

verus! {

/// Why an installation or removal failed. Every variant carries the URL or
/// path it concerns, or a human-readable detail.
#[derive(Debug, PartialEq, Eq)]
pub enum InstallError {
    /// The archive could not be fetched from the URL.
    Network { url: String },
    /// The leading bytes match no supported archive signature; carries the
    /// bytes that were inspected (at most four).
    UnsupportedFormat { signature: Vec<u8> },
    /// A directory that the installation needs could not be resolved.
    DirNotFound { path: String },
    /// A directory could not be created.
    DirCreateFailure { path: String },
    /// The archive, or an entry in it, could not be read.
    FileReadFailure { path: String },
    /// A file could not be written.
    FileWriteFailure { path: String },
    /// A path escapes, or lies outside, the root it must stay under.
    PathTraversal { path: String },
    /// The request contradicts the installer's rules or the archive's shape.
    InvalidState { detail: String },
}

} // verus!
