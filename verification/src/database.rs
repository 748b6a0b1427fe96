//! The package store: the authoritative, ordered record of known packages,
//! plus the path of the on-disk archive cache.
//!
//! Package handles are indices into the store's arena; mutation goes through
//! the store, so a change is visible to every holder of the index.

use crate::error::MixError;
use crate::package::InstallState;
use crate::package::Package;
use crate::selection::Selections;
use vstd::prelude::*;
use vstd::string::StringExecFns;

verus! {

/// A file copy the caller must perform to bring an archive into the cache:
/// the core computes paths but never touches the filesystem itself.
#[derive(Clone, Debug)]
pub struct CopyJob {
    /// The externally supplied archive to copy from.
    pub source: String,
    /// The destination inside the cache directory.
    pub dest: String,
}

/// The package database. It provides all bookkeeping needed to manage
/// packages; filesystem work is returned to the caller as values.
#[derive(Debug)]
pub struct Database {
    /// The ordered package arena; handles are indices into it. Mutate only
    /// through the store's methods, which keep names unique.
    pub packages: Vec<Package>,
    /// The cache directory path. Not persisted: re-supplied at load time.
    pub package_cache: String,
}

impl Database {
    /// The ordered packages of the store.
    pub open spec fn spec_packages(self) -> Seq<Package> {
        self.packages@
    }

    /// The cache directory path.
    pub open spec fn spec_cache_dir(self) -> Seq<char> {
        self.package_cache@
    }

    /// Store invariant: no two packages share a name.
    pub open spec fn wf(self) -> bool {
        forall|i: int, j: int|
            0 <= i < j < self.packages@.len() ==> self.packages@[i].name@ != self.packages@[j].name@
    }

    /// Whether some package of the store has this name.
    pub open spec fn spec_has(self, name: Seq<char>) -> bool {
        exists|i: int| 0 <= i < self.packages@.len() && self.packages@[i].name@ == name
    }

    /// The handle of the package with this name, meaningful when `spec_has`
    /// holds; under `wf` it is unique.
    pub open spec fn spec_index_of(self, name: Seq<char>) -> int {
        choose|i: int| 0 <= i < self.packages@.len() && self.packages@[i].name@ == name
    }

    /// The handle resolution map of the store.
    pub open spec fn spec_find(self, name: Seq<char>) -> Option<usize> {
        if self.spec_has(name) {
            Some(self.spec_index_of(name) as usize)
        } else {
            None
        }
    }

    /// Whether a package with the same (name, version) key is present.
    pub open spec fn key_present(self, p: Package) -> bool {
        exists|i: int| 0 <= i < self.packages@.len() && self.packages@[i].key_eq(p)
    }

    /// The path of a package's archive inside the cache directory.
    pub open spec fn spec_archive_path(self, p: Package) -> Seq<char> {
        self.package_cache@ + seq!['/'] + p.spec_filename()
    }

    /// Create an empty database with the given cache directory. Should only
    /// be used on fresh installs.
    pub fn new_empty(package_cache: String) -> (r: Database)
        ensures
            r.spec_packages() == Seq::<Package>::empty(),
            r.spec_cache_dir() == package_cache@,
            r.wf(),
    {
        Database { packages: Vec::new(), package_cache }
    }

    /// Given the name of a package, provide its handle.
    pub fn get_package(&self, package_name: &String) -> (r: Option<usize>)
        requires
            self.wf(),
        ensures
            r == self.spec_find(package_name@),
    {
        let n = self.packages.len();
        for i in 0..n
            invariant
                n == self.packages@.len(),
                self.wf(),
                forall|j: int| 0 <= j < i ==> self.packages@[j].name@ != package_name@,
        {
            if self.packages[i].name == *package_name {
                return Some(i);
            }
        }
        None
    }

    /// The number of packages in the store.
    pub fn len(&self) -> (r: usize)
        ensures
            r == self.spec_packages().len(),
    {
        self.packages.len()
    }

    /// Borrow the package behind a handle.
    pub fn package_at(&self, handle: usize) -> (r: &Package)
        requires
            handle < self.spec_packages().len(),
        ensures
            *r == self.spec_packages()[handle as int],
    {
        &self.packages[handle]
    }

    /// A copy of every package, in store order. The copies agree with the
    /// store in every field.
    pub fn all_packages(&self) -> (r: Vec<Package>)
        ensures
            r@.len() == self.spec_packages().len(),
            forall|i: int| 0 <= i < r@.len() ==> #[trigger] r@[i]@ == self.spec_packages()[i]@,
    {
        let mut out: Vec<Package> = Vec::new();
        let n = self.packages.len();
        for i in 0..n
            invariant
                n == self.packages@.len(),
                out@.len() == i,
                forall|j: int| 0 <= j < i ==> #[trigger] out@[j]@ == self.packages@[j]@,
        {
            out.push(clone_package(&self.packages[i]));
        }
        out
    }

    /// The path a package's archive is cached at; the caller opens it and
    /// signals `FileNotFound` if the package was never imported or the cache
    /// file vanished out of band.
    pub fn package_archive_path(&self, package: &Package) -> (r: String)
        ensures
            r@ == self.spec_archive_path(*package),
    {
        let mut s = self.package_cache.clone();
        s.append("/");
        let filename = package.get_filename();
        s.append(filename.as_str());
        proof {
            reveal_strlit("/");
            assert(s@ =~= self.spec_archive_path(*package));
        }
        s
    }

    /// Add the given package to the database.
    ///
    /// If a package with the same (name, version) key is already present the
    /// call is a no-op. Otherwise the package is appended with its
    /// `local_path` cleared, and, when the package carried a `local_path`,
    /// the returned job names the copy the caller must perform to bring the
    /// archive into the cache. This is the sole path by which new packages
    /// enter the store.
    ///
    /// The store invariant (names unique) demands that a package whose name
    /// is already present carries the present version, so that the check by
    /// (name, version) key cannot append a second package of one name.
    pub fn import_package(&mut self, package: Package) -> (r: Option<CopyJob>)
        requires
            old(self).wf(),
            forall|i: int|
                0 <= i < old(self).spec_packages().len() && old(self).spec_packages()[i].name@
                    == package.name@ ==> old(self).spec_packages()[i].version == package.version,
        ensures
            final (self).wf(),
            final (self).spec_cache_dir() == old(self).spec_cache_dir(),
            final (self).key_present(package),
            old(self).key_present(package) ==> *final (self) == *old(self) && r is None,
            !old(self).key_present(package) ==> {
                &&& final (self).spec_packages() == old(self).spec_packages().push(
                    (Package { local_path: None, ..package }),
                )
                &&& match package.local_path {
                    Some(src) => {
                        &&& r matches Some(job)
                        &&& job.source == src
                        &&& job.dest@ == old(self).spec_archive_path(package)
                    },
                    None => r is None,
                }
            },
    {
        let n = self.packages.len();
        for i in 0..n
            invariant
                *self == *old(self),
                self.wf(),
                n == self.packages@.len(),
                forall|j: int| 0 <= j < i ==> !self.packages@[j].key_eq(package),
        {
            if self.packages[i] == package {
                proof {
                    assert(self.packages@[i as int].key_eq(package));
                }
                return None;
            }
        }
        proof {
            assert forall|j: int|
                0 <= j < self.packages@.len() implies self.packages@[j].name@
                != package.name@ by {
                if self.packages@[j].name@ == package.name@ {
                    assert(old(self).spec_packages()[j].name@ == package.name@);
                    assert(old(self).spec_packages()[j].version == package.version);
                    assert(self.packages@[j].key_eq(package));
                }
            }
        }
        let job = match &package.local_path {
            Some(src) => Some(
                CopyJob { source: src.clone(), dest: self.package_archive_path(&package) },
            ),
            None => None,
        };
        let mut cleared = package;
        cleared.local_path = None;
        self.packages.push(cleared);
        proof {
            let k = self.packages@.len() - 1;
            assert(self.packages@[k].key_eq(package));
        }
        job
    }

    /// Handle the selected operation, using this database: packages selected
    /// for install become `Dependency` installs (a `Manual` install stays
    /// `Manual`), packages selected for removal become `Uninstalled`.
    /// Upgrades and downgrades are not yet applied. Only installation state
    /// changes; the caller places and deletes files per the install plans.
    pub fn apply(&mut self, selections: &Selections) -> (r: Result<(), MixError>)
        requires
            forall|k: int|
                0 <= k < selections.install@.len() ==> selections.install@[k]
                    < old(self).spec_packages().len(),
            forall|k: int|
                0 <= k < selections.remove@.len() ==> selections.remove@[k]
                    < old(self).spec_packages().len(),
        ensures
            r is Ok,
            final (self).spec_cache_dir() == old(self).spec_cache_dir(),
            final (self).spec_packages().len() == old(self).spec_packages().len(),
            forall|j: int|
                0 <= j < old(self).spec_packages().len() ==> #[trigger] final (self)
                    .spec_packages()[j] == (Package {
                    state: spec_applied_state(*old(self), *selections, j),
                    ..old(self).spec_packages()[j]
                }),
            old(self).wf() ==> final (self).wf(),
    {
        let ghost orig = *self;
        let install_count = selections.install.len();
        for k in 0..install_count
            invariant
                install_count == selections.install@.len(),
                self.packages@.len() == orig.spec_packages().len(),
                self.package_cache == orig.package_cache,
                forall|k2: int|
                    0 <= k2 < selections.install@.len() ==> selections.install@[k2]
                        < orig.spec_packages().len(),
                forall|j: int|
                    0 <= j < self.packages@.len() ==> #[trigger] self.packages@[j] == (Package {
                        state: if handle_selected(selections.install@.take(k as int), j) {
                            spec_installed_state(orig.spec_packages()[j].state)
                        } else {
                            orig.spec_packages()[j].state
                        },
                        ..orig.spec_packages()[j]
                    }),
        {
            let idx = selections.install[k];
            let new_state = match self.packages[idx].state {
                InstallState::Manual => InstallState::Manual,
                InstallState::Dependency => InstallState::Dependency,
                InstallState::Uninstalled => InstallState::Dependency,
            };
            self.packages[idx].state = new_state;
            proof {
                assert(selections.install@.take(k as int + 1).drop_last() =~= selections.install@
                    .take(k as int));
                assert forall|j: int| 0 <= j < self.packages@.len() implies #[trigger] self
                    .packages@[j] == (Package {
                    state: if handle_selected(selections.install@.take(k as int + 1), j) {
                        spec_installed_state(orig.spec_packages()[j].state)
                    } else {
                        orig.spec_packages()[j].state
                    },
                    ..orig.spec_packages()[j]
                }) by {
                    let taken = selections.install@.take(k as int + 1);
                    let prev = selections.install@.take(k as int);
                    assert(taken[k as int] == idx);
                    if j == idx as int {
                        assert(handle_selected(taken, j));
                    } else {
                        if handle_selected(taken, j) {
                            let m = choose|m: int| 0 <= m < taken.len() && taken[m] == j;
                            assert(m != k as int);
                            assert(prev[m] == taken[m]);
                            assert(handle_selected(prev, j));
                        } else {
                            assert(!handle_selected(prev, j)) by {
                                if handle_selected(prev, j) {
                                    let m = choose|m: int| 0 <= m < prev.len() && prev[m] == j;
                                    assert(taken[m] == j);
                                }
                            }
                        }
                    }
                }
            }
        }
        let ghost mid = *self;
        let remove_count = selections.remove.len();
        for k in 0..remove_count
            invariant
                remove_count == selections.remove@.len(),
                self.packages@.len() == mid.spec_packages().len(),
                self.package_cache == mid.package_cache,
                forall|k2: int|
                    0 <= k2 < selections.remove@.len() ==> selections.remove@[k2]
                        < mid.spec_packages().len(),
                forall|j: int|
                    0 <= j < self.packages@.len() ==> #[trigger] self.packages@[j] == (Package {
                        state: if handle_selected(selections.remove@.take(k as int), j) {
                            InstallState::Uninstalled
                        } else {
                            mid.spec_packages()[j].state
                        },
                        ..mid.spec_packages()[j]
                    }),
        {
            let idx = selections.remove[k];
            self.packages[idx].state = InstallState::Uninstalled;
            proof {
                assert(selections.remove@.take(k as int + 1).drop_last() =~= selections.remove@
                    .take(k as int));
                assert forall|j: int| 0 <= j < self.packages@.len() implies #[trigger] self
                    .packages@[j] == (Package {
                    state: if handle_selected(selections.remove@.take(k as int + 1), j) {
                        InstallState::Uninstalled
                    } else {
                        mid.spec_packages()[j].state
                    },
                    ..mid.spec_packages()[j]
                }) by {
                    let taken = selections.remove@.take(k as int + 1);
                    let prev = selections.remove@.take(k as int);
                    assert(taken[k as int] == idx);
                    if j == idx as int {
                        assert(handle_selected(taken, j));
                    } else {
                        if handle_selected(taken, j) {
                            let m = choose|m: int| 0 <= m < taken.len() && taken[m] == j;
                            assert(m != k as int);
                            assert(prev[m] == taken[m]);
                            assert(handle_selected(prev, j));
                        } else {
                            assert(!handle_selected(prev, j)) by {
                                if handle_selected(prev, j) {
                                    let m = choose|m: int| 0 <= m < prev.len() && prev[m] == j;
                                    assert(taken[m] == j);
                                }
                            }
                        }
                    }
                }
            }
        }
        proof {
            assert(selections.install@.take(selections.install@.len() as int) =~= selections
                .install@);
            assert(selections.remove@.take(selections.remove@.len() as int) =~= selections.remove@);
            assert forall|j: int| 0 <= j < orig.spec_packages().len() implies #[trigger] self
                .packages@[j] == (Package {
                state: spec_applied_state(orig, *selections, j),
                ..orig.spec_packages()[j]
            }) by {
                assert(self.packages@[j] == (Package {
                    state: if handle_selected(selections.remove@, j) {
                        InstallState::Uninstalled
                    } else {
                        mid.spec_packages()[j].state
                    },
                    ..mid.spec_packages()[j]
                }));
                assert(mid.spec_packages()[j] == (Package {
                    state: if handle_selected(selections.install@, j) {
                        spec_installed_state(orig.spec_packages()[j].state)
                    } else {
                        orig.spec_packages()[j].state
                    },
                    ..orig.spec_packages()[j]
                }));
            }
            if orig.wf() {
                assert forall|i: int, j: int|
                    0 <= i < j < self.packages@.len() implies self.packages@[i].name@ != self
                    .packages@[j].name@ by {
                    assert(self.packages@[i].name@ == orig.spec_packages()[i].name@);
                    assert(self.packages@[j].name@ == orig.spec_packages()[j].name@);
                }
            }
        }
        Ok(())
    }
}

/// Importing a package twice is a no-op the second time: after any import
/// the package is present by its (name, version) key, presence extends to
/// every package with an equal key, and `import_package`'s contract returns
/// a store in which the key is present unchanged, with no copy job — the
/// store does not grow and no second cache copy is made.
pub proof fn lemma_second_import_noop(db: Database, first: Package, second: Package)
    requires
        db.key_present(first),
        second.key_eq(first),
    ensures
        db.key_present(second),
{
    let i = choose|i: int|
        0 <= i < db.spec_packages().len() && db.spec_packages()[i].key_eq(first);
    assert(db.spec_packages()[i].key_eq(second));
}

/// The install state a package reaches when its files have been placed: a
/// manual install stays manual, anything else becomes a dependency install.
pub open spec fn spec_installed_state(old_state: InstallState) -> InstallState {
    match old_state {
        InstallState::Manual => InstallState::Manual,
        _ => InstallState::Dependency,
    }
}

/// The state package `j` holds after `apply`: removal wins over install,
/// anything not selected is untouched.
pub open spec fn spec_applied_state(db: Database, selections: Selections, j: int) -> InstallState {
    if handle_selected(selections.remove@, j) {
        InstallState::Uninstalled
    } else if handle_selected(selections.install@, j) {
        spec_installed_state(db.spec_packages()[j].state)
    } else {
        db.spec_packages()[j].state
    }
}

/// Whether handle `j` occurs in a list of selected handles.
pub open spec fn handle_selected(handles: Seq<usize>, j: int) -> bool {
    exists|m: int| 0 <= m < handles.len() && handles[m] == j
}

/// An exact copy of a package record. Verified field by field, since the
/// derived `Clone` carries no contract.
pub fn clone_package(p: &Package) -> (r: Package)
    ensures
        r@ == p@,
        r.name == p.name,
        r.version == p.version,
        r.state == p.state,
        r.files@ == p.files@,
        r.local_path == p.local_path,
{
    let files = p.files.clone();
    proof {
        assert(files@ =~= p.files@);
    }
    let local_path = match &p.local_path {
        Some(s) => Some(s.clone()),
        None => None,
    };
    let r = Package { name: p.name.clone(), version: p.version, state: p.state, files, local_path };
    proof {
        assert(r@ =~= p@);
    }
    r
}

} // verus!
