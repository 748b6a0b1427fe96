//! An operation over resolved package handles, ready for the store to apply.

use vstd::prelude::*;

verus! {

/// An action that can be performed by the package database, with every
/// package resolved to its handle in the store's arena.
#[derive(Debug, PartialEq)]
pub enum Operation {
    /// Install packages.
    Install(Vec<usize>),
    /// Uninstall packages.
    Remove(Vec<usize>),
    /// Bring the cache up to date.
    Synchronize,
    /// Bring packages up to date; all installed packages when none are
    /// named.
    Update(Option<Vec<usize>>),
    /// Download files for a package.
    Fetch(Vec<usize>),
    /// List the installed packages.
    List,
}

} // verus!
