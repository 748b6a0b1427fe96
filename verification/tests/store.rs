use mix::database::CopyJob;
use mix::selection;
use mix::Database;
use mix::InstallState;
use mix::MixError;
use mix::Package;
use mix::Version;

fn package(name: &str, version: Version, state: InstallState) -> Package {
    Package {
        name: name.to_string(),
        version,
        state,
        files: vec![],
        local_path: None,
    }
}

#[test]
fn an_empty_store_knows_nothing() {
    let db = Database::new_empty(".mix.cache".to_string());
    assert_eq!(db.len(), 0);
    assert_eq!(db.get_package(&"foo".to_string()), None);
    assert!(db.all_packages().is_empty());
}

#[test]
fn import_adds_a_package_and_resolves_it() {
    let mut db = Database::new_empty(".mix.cache".to_string());
    let job = db.import_package(package("foo", Version::SemVer(1, 0, 0), InstallState::Uninstalled));
    assert!(job.is_none());
    assert_eq!(db.len(), 1);
    assert_eq!(db.get_package(&"foo".to_string()), Some(0));
    assert_eq!(db.get_package(&"bar".to_string()), None);
}

#[test]
fn second_import_of_an_equal_package_is_a_noop() {
    let mut db = Database::new_empty(".mix.cache".to_string());
    let mut with_path = package("foo", Version::SemVer(1, 0, 0), InstallState::Uninstalled);
    with_path.local_path = Some("downloads/foo.tar.xz".to_string());
    let job: Option<CopyJob> = db.import_package(with_path);
    // The first import wants the archive copied into the cache, and clears
    // the transient path.
    let job = job.expect("the first import must produce a copy job");
    assert_eq!(job.source, "downloads/foo.tar.xz");
    assert_eq!(job.dest, ".mix.cache/foo-1.0.0.tar.xz");
    assert_eq!(db.len(), 1);
    assert_eq!(db.all_packages()[0].local_path, None);
    // The second import of an equal (name, version) package changes nothing
    // and asks for no second copy, even though its other fields differ.
    let mut again = package("foo", Version::SemVer(1, 0, 0), InstallState::Manual);
    again.local_path = Some("elsewhere/foo.tar.xz".to_string());
    let job = db.import_package(again);
    assert!(job.is_none());
    assert_eq!(db.len(), 1);
    assert_eq!(db.all_packages()[0].state, InstallState::Uninstalled);
}

#[test]
fn archive_paths_use_the_canonical_filename() {
    let db = Database::new_empty(".mix.cache".to_string());
    let known = package("foo", Version::SemVer(1, 2, 3), InstallState::Uninstalled);
    assert_eq!(known.get_filename(), "foo-1.2.3.tar.xz");
    assert_eq!(db.package_archive_path(&known), ".mix.cache/foo-1.2.3.tar.xz");
    let unknown = package("bar", Version::Unknown, InstallState::Uninstalled);
    assert_eq!(unknown.get_filename(), "bar-Unknown version.tar.xz");
}

#[test]
fn resolution_reports_missing_names_exactly() {
    let mut db = Database::new_empty(".mix.cache".to_string());
    db.import_package(package("foo", Version::SemVer(1, 0, 0), InstallState::Uninstalled));
    // Requesting foo and bar when only foo exists fails, naming exactly bar,
    // with foo's handle alongside.
    let names = vec!["foo".to_string(), "bar".to_string()];
    let result = selection::packages_from_names(&names, &db);
    match result {
        Err((MixError::PackageNotFound(missing), found)) => {
            assert_eq!(missing, vec!["bar".to_string()]);
            assert_eq!(found, vec![0]);
        }
        other => panic!("expected a partial failure, got {:?}", other),
    }
    // When every name resolves, the handles come in name order.
    let names = vec!["foo".to_string()];
    assert_eq!(selection::packages_from_names(&names, &db), Ok(vec![0]));
}

#[test]
fn package_from_name_finds_one_handle() {
    let mut db = Database::new_empty(".mix.cache".to_string());
    db.import_package(package("foo", Version::SemVer(1, 0, 0), InstallState::Uninstalled));
    assert_eq!(selection::package_from_name(&"foo".to_string(), &db), Ok(0));
    assert_eq!(
        selection::package_from_name(&"bar".to_string(), &db),
        Err(MixError::PackageNotFound(vec!["bar".to_string()]))
    );
}

#[test]
fn install_selection_keeps_only_uninstalled_packages() {
    let mut db = Database::new_empty(".mix.cache".to_string());
    db.import_package(package("a", Version::SemVer(1, 0, 0), InstallState::Uninstalled));
    db.import_package(package("b", Version::SemVer(1, 0, 0), InstallState::Manual));
    db.import_package(package("c", Version::SemVer(1, 0, 0), InstallState::Uninstalled));
    let names = vec!["a".to_string(), "b".to_string(), "c".to_string()];
    let selections = selection::install(&names, &db).expect("all names resolve");
    assert_eq!(selections.install, vec![0, 2]);
    assert!(selections.remove.is_empty());
    assert!(selections.upgrade.is_empty());
    assert!(selections.downgrade.is_empty());
}

#[test]
fn remove_selection_keeps_only_installed_packages() {
    let mut db = Database::new_empty(".mix.cache".to_string());
    db.import_package(package("a", Version::SemVer(1, 0, 0), InstallState::Dependency));
    db.import_package(package("b", Version::SemVer(1, 0, 0), InstallState::Uninstalled));
    let names = vec!["a".to_string(), "b".to_string()];
    let selections = selection::remove(&names, &db).expect("all names resolve");
    assert_eq!(selections.remove, vec![0]);
    assert!(selections.install.is_empty());
}

#[test]
fn apply_marks_installs_and_removals() {
    let mut db = Database::new_empty(".mix.cache".to_string());
    db.import_package(package("a", Version::SemVer(1, 0, 0), InstallState::Uninstalled));
    db.import_package(package("b", Version::SemVer(1, 0, 0), InstallState::Manual));
    db.import_package(package("c", Version::SemVer(1, 0, 0), InstallState::Dependency));
    db.import_package(package("d", Version::SemVer(1, 0, 0), InstallState::Uninstalled));
    let selections = mix::Selections {
        install: vec![0, 1],
        remove: vec![2],
        upgrade: vec![],
        downgrade: vec![],
    };
    assert!(db.apply(&selections).is_ok());
    let packages = db.all_packages();
    // A fresh install becomes a dependency install; a manual install stays
    // manual; a removal is marked uninstalled; the rest are untouched.
    assert_eq!(packages[0].state, InstallState::Dependency);
    assert_eq!(packages[1].state, InstallState::Manual);
    assert_eq!(packages[2].state, InstallState::Uninstalled);
    assert_eq!(packages[3].state, InstallState::Uninstalled);
}

#[test]
fn package_level_remove_marks_uninstalled() {
    let mut db = Database::new_empty(".mix.cache".to_string());
    db.import_package(package("a", Version::SemVer(1, 0, 0), InstallState::Manual));
    db.import_package(package("b", Version::SemVer(1, 0, 0), InstallState::Dependency));
    assert!(mix::package::remove(&vec![1], &mut db).is_ok());
    let packages = db.all_packages();
    assert_eq!(packages[0].state, InstallState::Manual);
    assert_eq!(packages[1].state, InstallState::Uninstalled);
}

#[test]
fn update_leaves_the_store_unchanged() {
    let mut db = Database::new_empty(".mix.cache".to_string());
    db.import_package(package("a", Version::SemVer(1, 0, 0), InstallState::Manual));
    assert!(mix::package::update(&vec![0], &mut db).is_ok());
    assert_eq!(db.all_packages()[0].version, Version::SemVer(1, 0, 0));
    assert_eq!(db.all_packages()[0].state, InstallState::Manual);
}

#[test]
fn mark_as_manually_installed_only_changes_state() {
    let mut p = package("a", Version::SemVer(1, 0, 0), InstallState::Dependency);
    p.mark_as_manually_installed();
    assert_eq!(p.state, InstallState::Manual);
    assert_eq!(p.name, "a");
    assert_eq!(p.version, Version::SemVer(1, 0, 0));
}

#[test]
fn package_equality_is_by_name_and_version() {
    let a = package("foo", Version::SemVer(1, 0, 0), InstallState::Manual);
    let mut b = package("foo", Version::SemVer(1, 0, 0), InstallState::Uninstalled);
    b.files = vec!["bin/foo".to_string()];
    assert_eq!(a, b);
    let c = package("foo", Version::SemVer(1, 0, 1), InstallState::Manual);
    assert_ne!(a, c);
    let d = package("bar", Version::SemVer(1, 0, 0), InstallState::Manual);
    assert_ne!(a, d);
}
