use std::io::Write;

use mix::archive::ArchiveEntry;
use mix::archive::EntryKind;
use mix::install::plan_entry;
use mix::install::plan_install;
use mix::install::EntryAction;
use mix::InstallState;
use mix::MixError;
use mix::Package;
use mix::Version;

/// One entry for an in-memory tar archive: path, type, mode, contents.
struct TestEntry(&'static str, tar::EntryType, u32, &'static [u8]);

/// Build a compressed package archive the way a packaging tool would.
fn build_archive(entries: &[TestEntry]) -> Vec<u8> {
    let mut builder = tar::Builder::new(Vec::new());
    for TestEntry(path, kind, mode, data) in entries {
        let mut header = tar::Header::new_gnu();
        header.set_entry_type(*kind);
        header.set_mode(*mode);
        header.set_size(data.len() as u64);
        header.set_cksum();
        builder.append_data(&mut header, path, *data).unwrap();
    }
    let plain = builder.into_inner().unwrap();
    let mut encoder = xz2::write::XzEncoder::new(Vec::new(), 6);
    encoder.write_all(&plain).unwrap();
    encoder.finish().unwrap()
}

#[test]
fn a_package_is_read_from_its_archive() {
    let data = build_archive(&[
        TestEntry(".MANIFEST", tar::EntryType::Regular, 0o644, b"name = \"foo\"\n"),
        TestEntry("bin", tar::EntryType::Directory, 0o755, b""),
        TestEntry("bin/foo", tar::EntryType::Regular, 0o755, b"#!/bin/sh\n"),
    ]);
    let package = Package::from_tarball(&data).expect("a well-formed archive must parse");
    assert_eq!(package.name, "foo");
    assert_eq!(package.version, Version::Unknown);
    assert_eq!(package.state, InstallState::Uninstalled);
    assert_eq!(package.files, vec!["bin".to_string(), "bin/foo".to_string()]);
    assert_eq!(package.local_path, None);
}

#[test]
fn an_archive_without_a_manifest_is_an_invalid_package() {
    let data = build_archive(&[TestEntry(
        "bin/foo",
        tar::EntryType::Regular,
        0o755,
        b"#!/bin/sh\n",
    )]);
    assert_eq!(Package::from_tarball(&data).unwrap_err(), MixError::InvalidPackageError);
}

#[test]
fn an_unparseable_manifest_is_a_parse_error() {
    let data = build_archive(&[TestEntry(
        ".MANIFEST",
        tar::EntryType::Regular,
        0o644,
        b"= not toml at all",
    )]);
    assert_eq!(Package::from_tarball(&data).unwrap_err(), MixError::ManifestParseError);
}

#[test]
fn a_manifest_without_a_name_is_invalid() {
    let data = build_archive(&[TestEntry(
        ".MANIFEST",
        tar::EntryType::Regular,
        0o644,
        b"version = \"1.0\"\n",
    )]);
    assert_eq!(Package::from_tarball(&data).unwrap_err(), MixError::InvalidManifestError);
}

#[test]
fn a_manifest_with_a_non_string_name_is_invalid() {
    let data = build_archive(&[TestEntry(
        ".MANIFEST",
        tar::EntryType::Regular,
        0o644,
        b"name = 5\n",
    )]);
    assert_eq!(Package::from_tarball(&data).unwrap_err(), MixError::InvalidManifestError);
}

#[test]
fn bytes_that_are_not_an_archive_are_an_io_error() {
    let data = vec![0u8, 1, 2, 3, 4, 5, 6, 7];
    assert_eq!(Package::from_tarball(&data).unwrap_err(), MixError::IOError);
}

fn entry(path: &str, type_byte: u8, mode: u32, data: &[u8]) -> ArchiveEntry {
    ArchiveEntry {
        path: path.to_string(),
        type_byte,
        mode,
        data: data.to_vec(),
    }
}

#[test]
fn the_planner_skips_the_manifest_and_places_the_rest() {
    let entries = vec![
        entry(".MANIFEST", b'0', 0o644, b"name = \"foo\"\n"),
        entry("bin", b'5', 0o755, b""),
        entry("bin/foo", b'0', 0o755, b"payload"),
    ];
    let plan = plan_install(&entries).expect("all entries are placeable");
    assert!(matches!(plan[0], EntryAction::Skip));
    match &plan[1] {
        EntryAction::EnsureDir { path, mode } => {
            assert_eq!(path, "bin");
            assert_eq!(*mode, 0o755);
        }
        other => panic!("expected a directory placement, got {:?}", other),
    }
    match &plan[2] {
        EntryAction::WriteNewFile { path, data } => {
            assert_eq!(path, "bin/foo");
            assert_eq!(data.as_slice(), &b"payload"[..]);
        }
        other => panic!("expected a file placement, got {:?}", other),
    }
}

#[test]
fn links_are_an_explicit_unsupported_entry_error() {
    assert_eq!(
        plan_entry(&entry("a", b'1', 0o644, b"")).unwrap_err(),
        MixError::UnsupportedEntryType
    );
    assert_eq!(
        plan_entry(&entry("a", b'2', 0o644, b"")).unwrap_err(),
        MixError::UnsupportedEntryType
    );
    // A whole plan fails on its first unplaceable entry.
    let entries = vec![
        entry("bin/foo", b'0', 0o755, b"payload"),
        entry("a", b'2', 0o644, b""),
    ];
    assert_eq!(plan_install(&entries).unwrap_err(), MixError::UnsupportedEntryType);
}

#[test]
fn rarer_entry_types_are_rejected_too() {
    assert_eq!(
        plan_entry(&entry("dev/null", b'3', 0o644, b"")).unwrap_err(),
        MixError::UnsupportedEntryType
    );
}

#[test]
fn the_entry_kind_follows_the_header_type_flag() {
    assert_eq!(mix::archive::entry_kind(0), EntryKind::Regular);
    assert_eq!(mix::archive::entry_kind(b'0'), EntryKind::Regular);
    assert_eq!(mix::archive::entry_kind(b'5'), EntryKind::Directory);
    assert_eq!(mix::archive::entry_kind(b'1'), EntryKind::Link);
    assert_eq!(mix::archive::entry_kind(b'2'), EntryKind::Symlink);
    assert_eq!(mix::archive::entry_kind(b'7'), EntryKind::Other);
}

#[test]
fn installing_a_new_archive_registers_the_package() {
    let data = build_archive(&[
        TestEntry(".MANIFEST", tar::EntryType::Regular, 0o644, b"name = \"foo\"\n"),
        TestEntry("bin/foo", tar::EntryType::Regular, 0o755, b"#!/bin/sh\n"),
    ]);
    let mut db = mix::Database::new_empty("cache".to_string());
    let package = Package::from_tarball(&data).unwrap();
    db.import_package(package);
    let handle = db.get_package(&"foo".to_string()).expect("the package is now known");
    let selections = mix::Selections {
        install: vec![handle],
        remove: vec![],
        upgrade: vec![],
        downgrade: vec![],
    };
    db.apply(&selections).unwrap();
    let packages = db.all_packages();
    assert_eq!(packages.len(), 1);
    assert_eq!(packages[0].name, "foo");
    assert_eq!(packages[0].state, InstallState::Dependency);
    assert_eq!(packages[0].files, vec!["bin/foo".to_string()]);
}
