//! Selecting packages from the store for an operation: flat name resolution
//! only. Transitive dependency expansion is a deliberate extension seam, not
//! implemented here.

use crate::database::Database;
use crate::error::MixError;
use crate::package::InstallState;
use vstd::prelude::*;

verus! {

/// The todo list for one operation: disjoint lists of package handles to
/// install, remove, upgrade and downgrade.
#[derive(Debug)]
pub struct Selections {
    /// Handles of packages the operation will install.
    pub install: Vec<usize>,
    /// Handles of packages the operation will remove.
    pub remove: Vec<usize>,
    /// Handles of packages the operation will upgrade.
    pub upgrade: Vec<usize>,
    /// Handles of packages the operation will downgrade.
    pub downgrade: Vec<usize>,
}

impl Default for Selections {
    /// An empty selection: nothing to do.
    fn default() -> (r: Selections)
        ensures
            r.install@ == Seq::<usize>::empty(),
            r.remove@ == Seq::<usize>::empty(),
            r.upgrade@ == Seq::<usize>::empty(),
            r.downgrade@ == Seq::<usize>::empty(),
    {
        Selections { install: Vec::new(), remove: Vec::new(), upgrade: Vec::new(), downgrade: Vec::new() }
    }
}

/// The handles that resolve, in input-name order: each name that the store
/// knows contributes its handle.
pub open spec fn spec_resolved(db: Database, names: Seq<String>) -> Seq<usize> {
    names.filter_map(|n: String| db.spec_find(n@))
}

/// The names that do not resolve, in input order.
pub open spec fn spec_unresolved(db: Database, names: Seq<String>) -> Seq<String> {
    names.filter(|n: String| db.spec_find(n@) is None)
}

/// Resolution partitions the input names, keeping their order: the resolved
/// and unresolved lists together account for every name, and each name
/// contributes its handle to the resolved list exactly when the store knows
/// it, and itself to the unresolved list exactly when the store does not.
pub proof fn lemma_resolution_partition(db: Database, names: Seq<String>)
    ensures
        spec_resolved(db, names).len() + spec_unresolved(db, names).len() == names.len(),
        forall|k: int|
            0 <= k < names.len() ==> match db.spec_find((#[trigger] names[k])@) {
                Some(handle) => spec_resolved(db, names).contains(handle),
                None => spec_unresolved(db, names).contains(names[k]),
            },
    decreases names.len(),
{
    reveal(Seq::filter);
    if names.len() > 0 {
        lemma_resolution_partition(db, names.drop_last());
        let prefix = names.drop_last();
        assert forall|k: int|
            0 <= k < names.len() implies match db.spec_find((#[trigger] names[k])@) {
            Some(handle) => spec_resolved(db, names).contains(handle),
            None => spec_unresolved(db, names).contains(names[k]),
        } by {
            if k < names.len() - 1 {
                assert(prefix[k] == names[k]);
                match db.spec_find(names[k]@) {
                    Some(handle) => {
                        let m = choose|m: int|
                            0 <= m < spec_resolved(db, prefix).len() && spec_resolved(db, prefix)[m]
                                == handle;
                        assert(spec_resolved(db, names)[m] == handle);
                    },
                    None => {
                        let m = choose|m: int|
                            0 <= m < spec_unresolved(db, prefix).len() && spec_unresolved(
                                db,
                                prefix,
                            )[m] == names[k];
                        assert(spec_unresolved(db, names)[m] == names[k]);
                    },
                }
            } else {
                match db.spec_find(names[k]@) {
                    Some(handle) => {
                        let resolved = spec_resolved(db, names);
                        assert(resolved.last() == handle);
                    },
                    None => {
                        let unresolved = spec_unresolved(db, names);
                        assert(unresolved.last() == names[k]);
                    },
                }
            }
        }
    }
}

/// Get a single package handle by name.
pub fn package_from_name(package_name: &String, database: &Database) -> (r: Result<
    usize,
    MixError,
>)
    requires
        database.wf(),
    ensures
        match r {
            Ok(handle) => database.spec_find(package_name@) == Some(handle),
            Err(e) => {
                &&& database.spec_find(package_name@) is None
                &&& e matches MixError::PackageNotFound(missing)
                &&& missing@ == seq![*package_name]
            },
        },
{
    match database.get_package(package_name) {
        Some(handle) => Ok(handle),
        None => {
            let mut missing: Vec<String> = Vec::new();
            missing.push(package_name.clone());
            proof {
                assert(missing@ =~= seq![*package_name]);
            }
            Err(MixError::PackageNotFound(missing))
        },
    }
}

/// Turns a list of package names into their respective package handles.
///
/// Every name must resolve, or the call reports a partial failure carrying
/// both the unresolved names and the handles that did resolve, in input
/// order, so a caller can decide whether partial matches are acceptable
/// (treat an unresolved name as a local archive path, say) or fatal.
pub fn packages_from_names(package_names: &Vec<String>, database: &Database) -> (r: Result<
    Vec<usize>,
    (MixError, Vec<usize>),
>)
    requires
        database.wf(),
    ensures
        match r {
            Ok(found) => {
                &&& found@ == spec_resolved(*database, package_names@)
                &&& spec_unresolved(*database, package_names@).len() == 0
            },
            Err((e, found)) => {
                &&& found@ == spec_resolved(*database, package_names@)
                &&& e matches MixError::PackageNotFound(missing)
                &&& missing@ == spec_unresolved(*database, package_names@)
                &&& missing@.len() > 0
            },
        },
        forall|k: int|
            0 <= k < spec_resolved(*database, package_names@).len() ==> spec_resolved(
                *database,
                package_names@,
            )[k] < database.spec_packages().len(),
{
    let found_spec = Ghost(|n: String| database.spec_find(n@));
    let missing_spec = Ghost(|n: String| database.spec_find(n@) is None);
    let mut found: Vec<usize> = Vec::new();
    let mut missing: Vec<String> = Vec::new();
    let count = package_names.len();
    proof {
        reveal(Seq::filter);
        assert(package_names@.take(0) =~= Seq::<String>::empty());
    }
    for k in 0..count
        invariant
            count == package_names@.len(),
            database.wf(),
            found@ == package_names@.take(k as int).filter_map(found_spec@),
            missing@ == package_names@.take(k as int).filter(missing_spec@),
            found_spec@ == (|n: String| database.spec_find(n@)),
            missing_spec@ == (|n: String| database.spec_find(n@) is None),
            forall|j: int| 0 <= j < found@.len() ==> found@[j] < database.spec_packages().len(),
    {
        proof {
            reveal(Seq::filter);
            let prefix = package_names@.take(k as int + 1);
            assert(prefix.drop_last() =~= package_names@.take(k as int));
            assert(prefix.last() == package_names@[k as int]);
        }
        match database.get_package(&package_names[k]) {
            Some(handle) => {
                found.push(handle);
                proof {
                    let i = database.spec_index_of(package_names@[k as int]@);
                    assert(0 <= i < database.spec_packages().len());
                }
            },
            None => {
                missing.push(package_names[k].clone());
            },
        }
    }
    proof {
        assert(package_names@.take(count as int) =~= package_names@);
    }
    if missing.is_empty() {
        Ok(found)
    } else {
        Err((MixError::PackageNotFound(missing), found))
    }
}

/// Select the packages required for an installation request: every name must
/// resolve, and among the resolved packages those not yet installed are
/// selected for install. Dependency expansion is a future extension.
pub fn install(package_names: &Vec<String>, database: &Database) -> (r: Result<
    Selections,
    (MixError, Vec<usize>),
>)
    requires
        database.wf(),
    ensures
        match r {
            Ok(selections) => {
                &&& spec_unresolved(*database, package_names@).len() == 0
                &&& selections.install@ == spec_resolved(*database, package_names@).filter(
                    |h: usize| database.spec_packages()[h as int].state is Uninstalled,
                )
                &&& selections.remove@ == Seq::<usize>::empty()
                &&& selections.upgrade@ == Seq::<usize>::empty()
                &&& selections.downgrade@ == Seq::<usize>::empty()
                &&& forall|k: int|
                    0 <= k < selections.install@.len() ==> selections.install@[k]
                        < database.spec_packages().len()
            },
            Err((e, found)) => {
                &&& found@ == spec_resolved(*database, package_names@)
                &&& e matches MixError::PackageNotFound(missing)
                &&& missing@ == spec_unresolved(*database, package_names@)
                &&& missing@.len() > 0
            },
        },
{
    let packages = match packages_from_names(package_names, database) {
        Ok(packages) => packages,
        Err(e) => {
            return Err(e);
        },
    };
    let uninstalled = Ghost(
        |h: usize| database.spec_packages()[h as int].state is Uninstalled,
    );
    let mut selections = Selections::default();
    let count = packages.len();
    proof {
        reveal(Seq::filter);
        assert(packages@.take(0) =~= Seq::<usize>::empty());
    }
    for k in 0..count
        invariant
            count == packages@.len(),
            packages@ == spec_resolved(*database, package_names@),
            forall|j: int| 0 <= j < packages@.len() ==> packages@[j] < database.spec_packages().len(),
            selections.install@ == packages@.take(k as int).filter(uninstalled@),
            uninstalled@ == (|h: usize| database.spec_packages()[h as int].state is Uninstalled),
            selections.remove@ == Seq::<usize>::empty(),
            selections.upgrade@ == Seq::<usize>::empty(),
            selections.downgrade@ == Seq::<usize>::empty(),
            forall|j: int|
                0 <= j < selections.install@.len() ==> selections.install@[j]
                    < database.spec_packages().len(),
    {
        proof {
            reveal(Seq::filter);
            let prefix = packages@.take(k as int + 1);
            assert(prefix.drop_last() =~= packages@.take(k as int));
            assert(prefix.last() == packages@[k as int]);
        }
        let handle = packages[k];
        let is_uninstalled = match database.package_at(handle).state {
            InstallState::Uninstalled => true,
            _ => false,
        };
        if is_uninstalled {
            selections.install.push(handle);
        }
    }
    proof {
        assert(packages@.take(count as int) =~= packages@);
    }
    Ok(selections)
}

/// Select the packages for a removal request: every name must resolve, and
/// among the resolved packages those currently installed are selected for
/// removal.
pub fn remove(package_names: &Vec<String>, database: &Database) -> (r: Result<
    Selections,
    (MixError, Vec<usize>),
>)
    requires
        database.wf(),
    ensures
        match r {
            Ok(selections) => {
                &&& spec_unresolved(*database, package_names@).len() == 0
                &&& selections.remove@ == spec_resolved(*database, package_names@).filter(
                    |h: usize| !(database.spec_packages()[h as int].state is Uninstalled),
                )
                &&& selections.install@ == Seq::<usize>::empty()
                &&& selections.upgrade@ == Seq::<usize>::empty()
                &&& selections.downgrade@ == Seq::<usize>::empty()
                &&& forall|k: int|
                    0 <= k < selections.remove@.len() ==> selections.remove@[k]
                        < database.spec_packages().len()
            },
            Err((e, found)) => {
                &&& found@ == spec_resolved(*database, package_names@)
                &&& e matches MixError::PackageNotFound(missing)
                &&& missing@ == spec_unresolved(*database, package_names@)
                &&& missing@.len() > 0
            },
        },
{
    let packages = match packages_from_names(package_names, database) {
        Ok(packages) => packages,
        Err(e) => {
            return Err(e);
        },
    };
    let installed = Ghost(
        |h: usize| !(database.spec_packages()[h as int].state is Uninstalled),
    );
    let mut selections = Selections::default();
    let count = packages.len();
    proof {
        reveal(Seq::filter);
        assert(packages@.take(0) =~= Seq::<usize>::empty());
    }
    for k in 0..count
        invariant
            count == packages@.len(),
            packages@ == spec_resolved(*database, package_names@),
            forall|j: int| 0 <= j < packages@.len() ==> packages@[j] < database.spec_packages().len(),
            selections.remove@ == packages@.take(k as int).filter(installed@),
            installed@ == (|h: usize| !(database.spec_packages()[h as int].state is Uninstalled)),
            selections.install@ == Seq::<usize>::empty(),
            selections.upgrade@ == Seq::<usize>::empty(),
            selections.downgrade@ == Seq::<usize>::empty(),
            forall|j: int|
                0 <= j < selections.remove@.len() ==> selections.remove@[j]
                    < database.spec_packages().len(),
    {
        proof {
            reveal(Seq::filter);
            let prefix = packages@.take(k as int + 1);
            assert(prefix.drop_last() =~= packages@.take(k as int));
            assert(prefix.last() == packages@[k as int]);
        }
        let handle = packages[k];
        let is_installed = match database.package_at(handle).state {
            InstallState::Uninstalled => false,
            _ => true,
        };
        if is_installed {
            selections.remove.push(handle);
        }
    }
    proof {
        assert(packages@.take(count as int) =~= packages@);
    }
    Ok(selections)
}

} // verus!
