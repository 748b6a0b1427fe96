use mix::Database;
use mix::InstallState;
use mix::MixError;
use mix::Package;
use mix::Version;

fn sample_store() -> Database {
    let mut db = Database::new_empty(".mix.cache".to_string());
    db.import_package(Package {
        name: "foo".to_string(),
        version: Version::SemVer(1, 2, 3),
        state: InstallState::Manual,
        files: vec!["bin/foo".to_string(), "share/doc/foo".to_string()],
        local_path: None,
    });
    db.import_package(Package {
        name: "bar".to_string(),
        version: Version::Unknown,
        state: InstallState::Uninstalled,
        files: vec![],
        local_path: None,
    });
    db.import_package(Package {
        name: "baz".to_string(),
        version: Version::SemVer(0, 0, 4294967295),
        state: InstallState::Dependency,
        files: vec!["usr/lib/baz.so".to_string()],
        local_path: None,
    });
    db
}

#[test]
fn a_store_survives_the_round_trip() {
    let db = sample_store();
    let bytes = db.to_bytes();
    let loaded = Database::from_bytes(&bytes, "another.cache".to_string())
        .expect("an encoded store must decode");
    // The package set survives: name, version, state and files, in order.
    let before = db.all_packages();
    let after = loaded.all_packages();
    assert_eq!(before.len(), after.len());
    for (b, a) in before.iter().zip(after.iter()) {
        assert_eq!(b.name, a.name);
        assert_eq!(b.version, a.version);
        assert_eq!(b.state, a.state);
        assert_eq!(b.files, a.files);
        assert_eq!(a.local_path, None);
    }
    // The cache directory is not persisted: it is whatever the caller
    // re-supplied.
    assert_eq!(
        loaded.package_archive_path(&after[0]),
        "another.cache/foo-1.2.3.tar.xz"
    );
}

#[test]
fn an_empty_store_survives_the_round_trip() {
    let db = Database::new_empty("cache".to_string());
    let bytes = db.to_bytes();
    let loaded = Database::from_bytes(&bytes, "cache".to_string()).unwrap();
    assert_eq!(loaded.len(), 0);
}

#[test]
fn garbage_bytes_are_a_serialization_error() {
    assert_eq!(
        Database::from_bytes(&vec![], "cache".to_string()).unwrap_err(),
        MixError::SerializationError
    );
    assert_eq!(
        Database::from_bytes(&vec![9, 9, 9], "cache".to_string()).unwrap_err(),
        MixError::SerializationError
    );
}

#[test]
fn trailing_bytes_are_a_serialization_error() {
    let mut bytes = sample_store().to_bytes();
    bytes.push(0);
    assert_eq!(
        Database::from_bytes(&bytes, "cache".to_string()).unwrap_err(),
        MixError::SerializationError
    );
}

#[test]
fn a_snapshot_with_duplicate_names_is_rejected() {
    // Built behind the store's back: two packages of one name break the
    // store invariant, and a snapshot of them must not load.
    let twin = Package {
        name: "foo".to_string(),
        version: Version::SemVer(1, 0, 0),
        state: InstallState::Manual,
        files: vec![],
        local_path: None,
    };
    let other = Package {
        name: "foo".to_string(),
        version: Version::SemVer(2, 0, 0),
        state: InstallState::Manual,
        files: vec![],
        local_path: None,
    };
    let db = Database {
        packages: vec![twin, other],
        package_cache: "cache".to_string(),
    };
    let bytes = db.to_bytes();
    assert_eq!(
        Database::from_bytes(&bytes, "cache".to_string()).unwrap_err(),
        MixError::SerializationError
    );
}

#[test]
fn a_transient_local_path_is_not_persisted() {
    let db = Database {
        packages: vec![Package {
            name: "foo".to_string(),
            version: Version::Unknown,
            state: InstallState::Uninstalled,
            files: vec![],
            local_path: Some("downloads/foo.tar.xz".to_string()),
        }],
        package_cache: "cache".to_string(),
    };
    let loaded = Database::from_bytes(&db.to_bytes(), "cache".to_string()).unwrap();
    assert_eq!(loaded.all_packages()[0].local_path, None);
}
