//! The release identifier of a package, and its total order.

use crate::text::dec_text;
use crate::text::u32_text;
use vstd::prelude::*;
use vstd::string::StringExecFns;

verus! {

use core::cmp::Ordering;

/// A package's version. `Unknown` is below every `SemVer`, and two versions
/// are equal only when they are the same variant with equal components.
#[derive(Clone, Copy, Debug, PartialEq, Eq, Structural)]
pub enum Version {
    /// A semantic version: major, minor, patch.
    SemVer(u32, u32, u32),
    /// The version is unknown or does not matter; it is smaller than any
    /// known version.
    Unknown,
}

impl Version {
    /// The strict order on versions: `Unknown` is below every `SemVer`, and
    /// `SemVer` triples compare lexicographically by major, minor, patch.
    pub open spec fn spec_lt(self, other: Version) -> bool {
        match (self, other) {
            (Version::Unknown, Version::Unknown) => false,
            (Version::Unknown, Version::SemVer(_, _, _)) => true,
            (Version::SemVer(_, _, _), Version::Unknown) => false,
            (Version::SemVer(a1, b1, c1), Version::SemVer(a2, b2, c2)) => a1 < a2 || (a1 == a2
                && (b1 < b2 || (b1 == b2 && c1 < c2))),
        }
    }

    /// The three-way comparison induced by `spec_lt`.
    pub open spec fn spec_cmp(self, other: Version) -> Ordering {
        if self.spec_lt(other) {
            Ordering::Less
        } else if other.spec_lt(self) {
            Ordering::Greater
        } else {
            Ordering::Equal
        }
    }

    /// The display text of a version: `major.minor.patch`, or the fixed text
    /// for an unknown version.
    pub open spec fn spec_text(self) -> Seq<char> {
        match self {
            Version::SemVer(a, b, c) => dec_text(a as nat) + seq!['.'] + dec_text(b as nat)
                + seq!['.'] + dec_text(c as nat),
            Version::Unknown => "Unknown version"@,
        }
    }

    /// Render the version for display and for cache filenames.
    pub fn to_text(&self) -> (r: String)
        ensures
            r@ == self.spec_text(),
    {
        match self {
            Version::SemVer(a, b, c) => {
                let mut s = u32_text(*a);
                s.append(".");
                let minor = u32_text(*b);
                s.append(minor.as_str());
                s.append(".");
                let patch = u32_text(*c);
                s.append(patch.as_str());
                proof {
                    reveal_strlit(".");
                    assert(s@ =~= self.spec_text());
                }
                s
            },
            Version::Unknown => "Unknown version".to_owned(),
        }
    }
}

impl PartialOrd for Version {
    fn partial_cmp(&self, other: &Self) -> Option<Ordering> {
        match (self, other) {
            (Version::Unknown, Version::Unknown) => Some(Ordering::Equal),
            (Version::Unknown, Version::SemVer(_, _, _)) => Some(Ordering::Less),
            (Version::SemVer(_, _, _), Version::Unknown) => Some(Ordering::Greater),
            (Version::SemVer(a1, b1, c1), Version::SemVer(a2, b2, c2)) => {
                if *a1 < *a2 {
                    Some(Ordering::Less)
                } else if *a2 < *a1 {
                    Some(Ordering::Greater)
                } else if *b1 < *b2 {
                    Some(Ordering::Less)
                } else if *b2 < *b1 {
                    Some(Ordering::Greater)
                } else if *c1 < *c2 {
                    Some(Ordering::Less)
                } else if *c2 < *c1 {
                    Some(Ordering::Greater)
                } else {
                    Some(Ordering::Equal)
                }
            },
        }
    }
}

impl vstd::std_specs::cmp::PartialOrdSpecImpl for Version {
    open spec fn obeys_partial_cmp_spec() -> bool {
        true
    }

    open spec fn partial_cmp_spec(&self, other: &Self) -> Option<Ordering> {
        Some(self.spec_cmp(*other))
    }
}

/// The version order never holds reflexively.
pub proof fn lemma_version_order_irreflexive(v: Version)
    ensures
        !v.spec_lt(v),
{
}

/// The version order holds in at most one direction.
pub proof fn lemma_version_order_asymmetric(a: Version, b: Version)
    ensures
        a.spec_lt(b) ==> !b.spec_lt(a),
{
}

/// The version order composes.
pub proof fn lemma_version_order_transitive(a: Version, b: Version, c: Version)
    ensures
        a.spec_lt(b) && b.spec_lt(c) ==> a.spec_lt(c),
{
}

/// Any two versions are ordered or equal: the order is total, and versions
/// that compare equal are equal as values. In particular `Unknown` is equal
/// only to `Unknown`.
pub proof fn lemma_version_order_connected(a: Version, b: Version)
    ensures
        a.spec_lt(b) || b.spec_lt(a) || a == b,
{
}

/// `Unknown` is strictly below every semantic version, and below nothing
/// else.
pub proof fn lemma_version_unknown_least(v: Version)
    ensures
        v is SemVer <==> Version::Unknown.spec_lt(v),
        !v.spec_lt(Version::Unknown),
{
}

} // verus!
