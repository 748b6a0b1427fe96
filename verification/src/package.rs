//! The record for one piece of software: name, version, install state and
//! owned files.

use crate::archive::bytes_to_utf8;
use crate::archive::manifest_lookup;
use crate::archive::manifest_string_field;
use crate::archive::read_archive;
use crate::archive::ManifestLookup;
use crate::archive::scan_entries;
use crate::archive::spec_archive_entries;
use crate::archive::spec_file_paths;
use crate::archive::spec_manifest_data;
use crate::archive::ManifestLookupView;
use crate::database::Database;
use crate::error::MixError;
use crate::selection::Selections;
use crate::version::Version;
use vstd::prelude::*;
use vstd::string::StringExecFns;

verus! {

/// The current installation state of a package.
#[derive(Clone, Copy, Debug, PartialEq, Eq, Structural)]
pub enum InstallState {
    /// Installed intentionally; never removed automatically.
    Manual,
    /// Installed to satisfy another package; removable once nothing
    /// installed depends on it.
    Dependency,
    /// Known but not materialized on disk.
    Uninstalled,
}

/// A singular package: a name, a version, an install state, the list of
/// files it owns, and — transiently, while importing an archive from outside
/// the cache — the local path of that archive.
#[derive(Clone, Debug)]
pub struct Package {
    /// The package's name; unique within a store.
    pub name: String,
    /// The package's version.
    pub version: Version,
    /// The installation state of the package.
    pub state: InstallState,
    /// The paths of the files included in the package; empty until an
    /// archive has been read.
    pub files: Vec<String>,
    /// The local path of a not-yet-cached archive. Never persisted, and
    /// cleared when the import into the cache completes.
    pub local_path: Option<String>,
}

/// The mathematical content of a package record: every field as a plain
/// spec-level value.
#[verifier::ext_equal]
pub struct PackageView {
    /// The package's name.
    pub name: Seq<char>,
    /// The package's version.
    pub version: Version,
    /// The installation state.
    pub state: InstallState,
    /// The owned file paths.
    pub files: Seq<Seq<char>>,
    /// The transient local archive path.
    pub local_path: Option<Seq<char>>,
}

impl View for Package {
    type V = PackageView;

    open spec fn view(&self) -> PackageView {
        PackageView {
            name: self.name@,
            version: self.version,
            state: self.state,
            files: self.files.deep_view(),
            local_path: self.local_path.deep_view(),
        }
    }
}

impl DeepView for Package {
    type V = PackageView;

    open spec fn deep_view(&self) -> PackageView {
        self.view()
    }
}

impl Package {
    /// Two packages are the same package when name and version agree; state,
    /// files and local path may differ. This is the equality used for store
    /// and cache membership.
    pub open spec fn key_eq(self, other: Package) -> bool {
        self.name@ == other.name@ && self.version == other.version
    }

    /// The canonical file name of this package's archive in the cache.
    pub open spec fn spec_filename(self) -> Seq<char> {
        self.name@ + seq!['-'] + self.version.spec_text() + ".tar.xz"@
    }

    /// Provide the file name for the cached archive of the package.
    pub fn get_filename(&self) -> (r: String)
        ensures
            r@ == self.spec_filename(),
    {
        let mut s = self.name.clone();
        s.append("-");
        let version = self.version.to_text();
        s.append(version.as_str());
        s.append(".tar.xz");
        proof {
            reveal_strlit("-");
            assert(s@ =~= self.spec_filename());
        }
        s
    }

    /// What reading an archive yields: the package record described by its
    /// manifest and entries, or the error the archive deserves. Decompression
    /// or framing faults surface as `IOError`; an archive without a manifest
    /// entry is an invalid package; a manifest that does not parse, or lacks a
    /// string `name` field, is reported as such.
    pub open spec fn spec_from_tarball(data: Seq<u8>) -> Result<PackageView, MixError> {
        match spec_archive_entries(data) {
            None => Err(MixError::IOError),
            Some(entries) => match spec_manifest_data(entries) {
                None => Err(MixError::InvalidPackageError),
                Some(manifest) => if !vstd::utf8::valid_utf8(manifest) {
                    Err(MixError::IOError)
                } else {
                    match manifest_lookup(vstd::utf8::decode_utf8(manifest), "name"@) {
                        ManifestLookupView::Value(name) => Ok(
                            PackageView {
                                name: name,
                                version: Version::Unknown,
                                state: InstallState::Uninstalled,
                                files: spec_file_paths(entries),
                                local_path: None,
                            },
                        ),
                        ManifestLookupView::Invalid => Err(MixError::InvalidManifestError),
                        ManifestLookupView::Unparseable => Err(MixError::ManifestParseError),
                    }
                },
            },
        }
    }

    /// Provide a package from the bytes of its archive, without touching the
    /// filesystem: decompress, find the `.MANIFEST` entry, read the package's
    /// name out of it, and collect every other entry's path.
    pub fn from_tarball(data: &Vec<u8>) -> (r: Result<Package, MixError>)
        ensures
            match r {
                Ok(p) => Self::spec_from_tarball(data@) == Ok::<PackageView, MixError>(p@),
                Err(e) => Self::spec_from_tarball(data@) == Err::<PackageView, MixError>(e),
            },
    {
        let entries = match read_archive(data) {
            Some(entries) => entries,
            None => {
                return Err(MixError::IOError);
            },
        };
        let (files, manifest) = scan_entries(&entries);
        let manifest = match manifest {
            Some(manifest) => manifest,
            None => {
                return Err(MixError::InvalidPackageError);
            },
        };
        let text = match bytes_to_utf8(&manifest) {
            Some(text) => text,
            None => {
                return Err(MixError::IOError);
            },
        };
        let name = match manifest_string_field(text.as_str(), "name") {
            ManifestLookup::Value(name) => name,
            ManifestLookup::Invalid => {
                return Err(MixError::InvalidManifestError);
            },
            ManifestLookup::Unparseable => {
                return Err(MixError::ManifestParseError);
            },
        };
        Ok(
            Package {
                name,
                version: Version::Unknown,
                state: InstallState::Uninstalled,
                files,
                local_path: None,
            },
        )
    }

    /// Mark the package as manually installed. This does *not* install it.
    pub fn mark_as_manually_installed(&mut self)
        ensures
            final (self).state == InstallState::Manual,
            final (self).name == old(self).name,
            final (self).version == old(self).version,
            final (self).files == old(self).files,
            final (self).local_path == old(self).local_path,
    {
        self.state = InstallState::Manual;
    }
}

/// Remove the given packages: mark each as not installed. Deleting their
/// files from the filesystem is intentionally not performed here — the
/// record is preserved for future reinstalls, and no rollback journal
/// exists yet.
/// # Warning
/// A call to this function that removes dependencies of installed packages
/// but not those packages will place the package database into an unsafe
/// state.
pub fn remove(packages: &Vec<usize>, database: &mut Database) -> (r: Result<(), MixError>)
    requires
        forall|k: int|
            0 <= k < packages@.len() ==> packages@[k] < old(database).spec_packages().len(),
    ensures
        r is Ok,
        final (database).spec_cache_dir() == old(database).spec_cache_dir(),
        final (database).spec_packages().len() == old(database).spec_packages().len(),
        forall|j: int|
            0 <= j < old(database).spec_packages().len() ==> #[trigger] final (database)
                .spec_packages()[j] == (Package {
                state: if crate::database::handle_selected(packages@, j) {
                    InstallState::Uninstalled
                } else {
                    old(database).spec_packages()[j].state
                },
                ..old(database).spec_packages()[j]
            }),
        old(database).wf() ==> final (database).wf(),
{
    let selections = Selections {
        install: Vec::new(),
        remove: clone_handles(packages),
        upgrade: Vec::new(),
        downgrade: Vec::new(),
    };
    let r = database.apply(&selections);
    proof {
        assert(selections.install@ =~= Seq::<usize>::empty());
    }
    r
}

/// Update the given packages to the latest version. Nothing upstream
/// supplies newer versions yet — synchronization with a remote repository is
/// a future extension — so the store is deliberately left unchanged.
pub fn update(packages: &Vec<usize>, database: &mut Database) -> (r: Result<(), MixError>)
    ensures
        r is Ok,
        *final (database) == *old(database),
{
    Ok(())
}

/// An exact copy of a handle list.
fn clone_handles(handles: &Vec<usize>) -> (r: Vec<usize>)
    ensures
        r@ == handles@,
{
    let r = handles.clone();
    proof {
        assert(r@ =~= handles@);
    }
    r
}

/// Some fields are allowed to differ between equal packages: equality is by
/// name and version only.
impl PartialEq for Package {
    fn eq(&self, other: &Self) -> bool {
        self.name == other.name && self.version == other.version
    }
}

impl vstd::std_specs::cmp::PartialEqSpecImpl for Package {
    open spec fn obeys_eq_spec() -> bool {
        true
    }

    open spec fn eq_spec(&self, other: &Package) -> bool {
        self.key_eq(*other)
    }
}

} // verus!
