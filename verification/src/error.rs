//! Errors raised by the package manager core.

use vstd::prelude::*;

verus! {

/// Everything that can go wrong in a transaction. Failures coming from the
/// surrounding system (filesystem, decompression, network) are collapsed to
/// the variant that names their role; the data the core can reason about
/// (names, paths) is carried as plain values.
#[derive(Clone, Debug, PartialEq, Eq)]
pub enum MixError {
    /// The named packages were not in the store.
    PackageNotFound(Vec<String>),
    /// The operation needs the package to be installed, but it is not.
    PackageNotInstalled,
    /// The requested file was not found; recoverable for a store load, where
    /// the caller may offer to create an empty store.
    FileNotFound(String),
    /// A filesystem failure with no special treatment.
    IOError,
    /// The store snapshot could not be encoded or decoded.
    SerializationError,
    /// The manifest parsed, but did not hold the required fields.
    InvalidManifestError,
    /// The manifest body was not a parseable document.
    ManifestParseError,
    /// The archive held no manifest entry at all.
    InvalidPackageError,
    /// The archive holds an entry of a type the installer does not place
    /// (a link, a symbolic link, or a rarer type). Never silently skipped:
    /// dropping entries would produce an incomplete install with no
    /// diagnostic.
    UnsupportedEntryType,
    /// A network request failed.
    RequestError,
    /// The user declined the confirmation prompt.
    Aborted,
}

} // verus!
