use mix::Version;

#[test]
fn unknown_is_less_than_everything() {
    // Everything is greater than Version::Unknown.
    assert!(Version::SemVer(0, 0, 0) > Version::Unknown);
    assert!(Version::SemVer(1, 0, 0) > Version::Unknown);
    // Check twice for asymmetry.
    assert!(Version::Unknown < Version::SemVer(0, 0, 0));
    assert!(Version::Unknown < Version::SemVer(1, 0, 0));
}

#[test]
fn equal_versions_are_the_same() {
    assert_eq!(Version::SemVer(1, 0, 0), Version::SemVer(1, 0, 0));
    assert_eq!(Version::SemVer(0, 1, 0), Version::SemVer(0, 1, 0));
    assert_eq!(Version::SemVer(1, 0, 1), Version::SemVer(1, 0, 1));
    assert_eq!(Version::Unknown, Version::Unknown);
}

#[test]
fn unknown_is_never_equal_to_a_semantic_version() {
    assert_ne!(Version::Unknown, Version::SemVer(0, 0, 0));
    assert_ne!(Version::SemVer(0, 0, 0), Version::Unknown);
}

#[test]
fn comparison_is_lexicographic() {
    assert!(Version::SemVer(1, 0, 0) > Version::SemVer(0, 1, 0));
    assert!(Version::SemVer(0, 0, 1) > Version::SemVer(0, 0, 0));
    assert!(Version::SemVer(1, 0, 0) < Version::SemVer(2, 1, 0));
    assert!(Version::SemVer(1, 2, 3) < Version::SemVer(1, 2, 4));
    assert!(Version::SemVer(1, 2, 3) < Version::SemVer(1, 3, 0));
    assert!(!(Version::SemVer(1, 2, 3) < Version::SemVer(1, 2, 3)));
}

#[test]
fn versions_render_for_display() {
    assert_eq!(Version::SemVer(1, 2, 3).to_text(), "1.2.3");
    assert_eq!(Version::SemVer(0, 0, 0).to_text(), "0.0.0");
    assert_eq!(Version::SemVer(10, 907, 4294967295).to_text(), "10.907.4294967295");
    assert_eq!(Version::Unknown.to_text(), "Unknown version");
}
