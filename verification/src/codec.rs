//! The store persistence format: one binary blob holding the ordered package
//! list. Lengths and counts are little-endian 64-bit words, strings are
//! length-prefixed UTF-8, and a package is its name, version, state and file
//! list; a package's transient `local_path` and the store's cache directory
//! are deliberately not persisted.
//!
//! Both directions are verified against one spec-level grammar, and decoding
//! an encoded store provably yields the same package list.

use crate::database::Database;
use crate::error::MixError;
use crate::package::InstallState;
use crate::package::Package;
use crate::package::PackageView;
use crate::version::Version;
use vstd::prelude::*;
use vstd::slice::slice_subrange;
use vstd::slice::slice_to_vec;
use vstd::string::StrSliceExecFns;
use vstd::utf8::decode_utf8;
use vstd::utf8::encode_utf8;
use vstd::utf8::valid_utf8;

use crate::archive::bytes_to_utf8;

verus! {

/// The eight little-endian bytes of a 64-bit word.
pub open spec fn u64_le_bytes(x: u64) -> Seq<u8> {
    seq![
        (x & 0xff) as u8,
        ((x >> 8) & 0xff) as u8,
        ((x >> 16) & 0xff) as u8,
        ((x >> 24) & 0xff) as u8,
        ((x >> 32) & 0xff) as u8,
        ((x >> 40) & 0xff) as u8,
        ((x >> 48) & 0xff) as u8,
        ((x >> 56) & 0xff) as u8,
    ]
}

/// The 64-bit word eight little-endian bytes hold.
pub open spec fn u64_from_le(b: Seq<u8>) -> u64
    recommends
        b.len() == 8,
{
    ((b[0] as u64) | ((b[1] as u64) << 8) | ((b[2] as u64) << 16) | ((b[3] as u64) << 24) | (
    (b[4] as u64) << 32) | ((b[5] as u64) << 40) | ((b[6] as u64) << 48) | ((b[7] as u64) << 56))
}

/// Reading back the bytes of a word yields the word.
pub proof fn lemma_u64_le_round_trip(x: u64)
    ensures
        u64_from_le(u64_le_bytes(x)) == x,
{
    assert((((x & 0xff) as u8 as u64) | ((((x >> 8) & 0xff) as u8 as u64) << 8) | ((((x >> 16)
        & 0xff) as u8 as u64) << 16) | ((((x >> 24) & 0xff) as u8 as u64) << 24) | ((((x >> 32)
        & 0xff) as u8 as u64) << 32) | ((((x >> 40) & 0xff) as u8 as u64) << 40) | ((((x >> 48)
        & 0xff) as u8 as u64) << 48) | ((((x >> 56) & 0xff) as u8 as u64) << 56)) == x)
        by (bit_vector);
}

/// Take one 64-bit word off the front of a byte stream.
pub open spec fn dec_u64(b: Seq<u8>) -> Option<(u64, Seq<u8>)> {
    if b.len() >= 8 {
        Some((u64_from_le(b.take(8)), b.skip(8)))
    } else {
        None
    }
}

/// Decoding starts by reading back exactly the word that was written.
pub proof fn lemma_dec_u64_round_trip(x: u64, rest: Seq<u8>)
    ensures
        dec_u64(u64_le_bytes(x) + rest) == Some((x, rest)),
{
    let b = u64_le_bytes(x) + rest;
    assert(b.take(8) =~= u64_le_bytes(x));
    assert(b.skip(8) =~= rest);
    lemma_u64_le_round_trip(x);
}

/// A string's encoding: the byte length of its UTF-8, then the UTF-8 itself.
pub open spec fn enc_str(s: Seq<char>) -> Seq<u8> {
    u64_le_bytes(encode_utf8(s).len() as u64) + encode_utf8(s)
}

/// Take one length-prefixed string off the front of a byte stream.
pub open spec fn dec_str(b: Seq<u8>) -> Option<(Seq<char>, Seq<u8>)> {
    match dec_u64(b) {
        None => None,
        Some((n, rest)) => if n <= rest.len() && valid_utf8(rest.take(n as int)) {
            Some((decode_utf8(rest.take(n as int)), rest.skip(n as int)))
        } else {
            None
        },
    }
}

/// Whether a string's UTF-8 length fits the length prefix.
pub open spec fn str_encodable(s: Seq<char>) -> bool {
    encode_utf8(s).len() < 0x1_0000_0000_0000_0000
}

/// Decoding reads back exactly the string that was written.
pub proof fn lemma_dec_str_round_trip(s: Seq<char>, rest: Seq<u8>)
    requires
        str_encodable(s),
    ensures
        dec_str(enc_str(s) + rest) == Some((s, rest)),
{
    broadcast use vstd::utf8::encode_utf8_valid_utf8, vstd::utf8::encode_utf8_decode_utf8;

    let bytes = encode_utf8(s);
    let n = bytes.len() as u64;
    assert(enc_str(s) + rest =~= u64_le_bytes(n) + (bytes + rest));
    lemma_dec_u64_round_trip(n, bytes + rest);
    assert((bytes + rest).take(n as int) =~= bytes);
    assert((bytes + rest).skip(n as int) =~= rest);
}

/// A version's encoding: a tag byte, then three words for a semantic
/// version's components.
pub open spec fn enc_version(v: Version) -> Seq<u8> {
    match v {
        Version::Unknown => seq![0u8],
        Version::SemVer(a, b, c) => seq![1u8] + u64_le_bytes(a as u64) + u64_le_bytes(b as u64)
            + u64_le_bytes(c as u64),
    }
}

/// Take one version off the front of a byte stream.
pub open spec fn dec_version(b: Seq<u8>) -> Option<(Version, Seq<u8>)> {
    if b.len() < 1 {
        None
    } else if b[0] == 0u8 {
        Some((Version::Unknown, b.skip(1)))
    } else if b[0] == 1u8 {
        match dec_u64(b.skip(1)) {
            None => None,
            Some((a, r1)) => match dec_u64(r1) {
                None => None,
                Some((mi, r2)) => match dec_u64(r2) {
                    None => None,
                    Some((pa, r3)) => if a <= 0xffff_ffffu64 && mi <= 0xffff_ffffu64 && pa
                        <= 0xffff_ffffu64 {
                        Some((Version::SemVer(a as u32, mi as u32, pa as u32), r3))
                    } else {
                        None
                    },
                },
            },
        }
    } else {
        None
    }
}

/// Decoding reads back exactly the version that was written.
pub proof fn lemma_dec_version_round_trip(v: Version, rest: Seq<u8>)
    ensures
        dec_version(enc_version(v) + rest) == Some((v, rest)),
{
    let b = enc_version(v) + rest;
    match v {
        Version::Unknown => {
            assert(b.skip(1) =~= rest);
        },
        Version::SemVer(a, mi, pa) => {
            assert(b[0] == 1u8);
            assert(b.skip(1) =~= u64_le_bytes(a as u64) + (u64_le_bytes(mi as u64) + (u64_le_bytes(
                pa as u64,
            ) + rest)));
            lemma_dec_u64_round_trip(a as u64, u64_le_bytes(mi as u64) + (u64_le_bytes(pa as u64)
                + rest));
            lemma_dec_u64_round_trip(mi as u64, u64_le_bytes(pa as u64) + rest);
            lemma_dec_u64_round_trip(pa as u64, rest);
        },
    }
}

/// An install state's encoding: one tag byte.
pub open spec fn enc_state(st: InstallState) -> Seq<u8> {
    match st {
        InstallState::Manual => seq![0u8],
        InstallState::Dependency => seq![1u8],
        InstallState::Uninstalled => seq![2u8],
    }
}

/// Take one install state off the front of a byte stream.
pub open spec fn dec_state(b: Seq<u8>) -> Option<(InstallState, Seq<u8>)> {
    if b.len() < 1 {
        None
    } else if b[0] == 0u8 {
        Some((InstallState::Manual, b.skip(1)))
    } else if b[0] == 1u8 {
        Some((InstallState::Dependency, b.skip(1)))
    } else if b[0] == 2u8 {
        Some((InstallState::Uninstalled, b.skip(1)))
    } else {
        None
    }
}

/// Decoding reads back exactly the state that was written.
pub proof fn lemma_dec_state_round_trip(st: InstallState, rest: Seq<u8>)
    ensures
        dec_state(enc_state(st) + rest) == Some((st, rest)),
{
    let b = enc_state(st) + rest;
    assert(b.skip(1) =~= rest);
}

/// A string list's encoding: each string in order.
pub open spec fn enc_strs(ss: Seq<Seq<char>>) -> Seq<u8>
    decreases ss.len(),
{
    if ss.len() == 0 {
        Seq::empty()
    } else {
        enc_str(ss.first()) + enc_strs(ss.drop_first())
    }
}

/// Extending a string list appends its encoding.
pub proof fn lemma_enc_strs_push(ss: Seq<Seq<char>>, s: Seq<char>)
    ensures
        enc_strs(ss.push(s)) == enc_strs(ss) + enc_str(s),
    decreases ss.len(),
{
    if ss.len() == 0 {
        assert(ss.push(s).first() == s);
        assert(ss.push(s).drop_first() =~= Seq::<Seq<char>>::empty());
        assert(enc_strs(ss.push(s)) == enc_str(s) + enc_strs(Seq::<Seq<char>>::empty()));
        assert(enc_str(s) + Seq::<u8>::empty() =~= Seq::<u8>::empty() + enc_str(s));
    } else {
        let head = ss.first();
        assert(ss.push(s).first() == head);
        assert(ss.push(s).drop_first() =~= ss.drop_first().push(s));
        assert(enc_strs(ss.push(s)) == enc_str(head) + enc_strs(ss.drop_first().push(s)));
        lemma_enc_strs_push(ss.drop_first(), s);
        assert(enc_str(head) + (enc_strs(ss.drop_first()) + enc_str(s)) =~= (enc_str(head)
            + enc_strs(ss.drop_first())) + enc_str(s));
    }
}

/// Take `count` strings off the front of a byte stream.
pub open spec fn dec_strs(b: Seq<u8>, count: nat) -> Option<(Seq<Seq<char>>, Seq<u8>)>
    decreases count,
{
    if count == 0 {
        Some((Seq::empty(), b))
    } else {
        match dec_str(b) {
            None => None,
            Some((s, rest)) => match dec_strs(rest, (count - 1) as nat) {
                None => None,
                Some((ss, rest2)) => Some((seq![s] + ss, rest2)),
            },
        }
    }
}

/// Decoding reads back exactly the string list that was written.
pub proof fn lemma_dec_strs_round_trip(ss: Seq<Seq<char>>, rest: Seq<u8>)
    requires
        forall|i: int| 0 <= i < ss.len() ==> str_encodable(#[trigger] ss[i]),
    ensures
        dec_strs(enc_strs(ss) + rest, ss.len()) == Some((ss, rest)),
    decreases ss.len(),
{
    if ss.len() == 0 {
        assert(enc_strs(ss) + rest =~= rest);
        assert(dec_strs(rest, 0) == Some((Seq::<Seq<char>>::empty(), rest)));
        assert(ss =~= Seq::<Seq<char>>::empty());
    } else {
        assert(enc_strs(ss) + rest =~= enc_str(ss.first()) + (enc_strs(ss.drop_first()) + rest));
        lemma_dec_str_round_trip(ss.first(), enc_strs(ss.drop_first()) + rest);
        assert(forall|i: int|
            0 <= i < ss.drop_first().len() ==> str_encodable(#[trigger] ss.drop_first()[i]));
        lemma_dec_strs_round_trip(ss.drop_first(), rest);
        assert(seq![ss.first()] + ss.drop_first() =~= ss);
    }
}

/// A package's encoding: name, version, state, then the owned file paths
/// behind their count. The transient `local_path` is never serialized.
pub open spec fn enc_package(p: PackageView) -> Seq<u8> {
    enc_str(p.name) + enc_version(p.version) + enc_state(p.state) + u64_le_bytes(
        p.files.len() as u64,
    ) + enc_strs(p.files)
}

/// Take one package off the front of a byte stream; its `local_path` is
/// empty, as only import may set it.
pub open spec fn dec_package(b: Seq<u8>) -> Option<(PackageView, Seq<u8>)> {
    match dec_str(b) {
        None => None,
        Some((name, r1)) => match dec_version(r1) {
            None => None,
            Some((version, r2)) => match dec_state(r2) {
                None => None,
                Some((state, r3)) => match dec_u64(r3) {
                    None => None,
                    Some((count, r4)) => match dec_strs(r4, count as nat) {
                        None => None,
                        Some((files, r5)) => Some(
                            (PackageView { name, version, state, files, local_path: None }, r5),
                        ),
                    },
                },
            },
        },
    }
}

/// Whether a package's strings and file count fit the length prefixes.
pub open spec fn package_encodable(p: PackageView) -> bool {
    &&& str_encodable(p.name)
    &&& p.files.len() < 0x1_0000_0000_0000_0000
    &&& forall|i: int| 0 <= i < p.files.len() ==> str_encodable(#[trigger] p.files[i])
}

/// Decoding reads back exactly the package that was written, with its
/// transient local path cleared.
pub proof fn lemma_dec_package_round_trip(p: PackageView, rest: Seq<u8>)
    requires
        package_encodable(p),
        p.local_path is None,
    ensures
        dec_package(enc_package(p) + rest) == Some((p, rest)),
{
    let tail4 = enc_strs(p.files) + rest;
    let tail3 = u64_le_bytes(p.files.len() as u64) + tail4;
    let tail2 = enc_state(p.state) + tail3;
    let tail1 = enc_version(p.version) + tail2;
    assert(enc_package(p) + rest =~= enc_str(p.name) + tail1);
    lemma_dec_str_round_trip(p.name, tail1);
    lemma_dec_version_round_trip(p.version, tail2);
    lemma_dec_state_round_trip(p.state, tail3);
    lemma_dec_u64_round_trip(p.files.len() as u64, tail4);
    lemma_dec_strs_round_trip(p.files, rest);
    assert((PackageView {
        name: p.name,
        version: p.version,
        state: p.state,
        files: p.files,
        local_path: None,
    }) =~= p);
}

/// A package list's encoding: each package in order.
pub open spec fn enc_packages(ps: Seq<PackageView>) -> Seq<u8>
    decreases ps.len(),
{
    if ps.len() == 0 {
        Seq::empty()
    } else {
        enc_package(ps.first()) + enc_packages(ps.drop_first())
    }
}

/// Extending a package list appends its encoding.
pub proof fn lemma_enc_packages_push(ps: Seq<PackageView>, p: PackageView)
    ensures
        enc_packages(ps.push(p)) == enc_packages(ps) + enc_package(p),
    decreases ps.len(),
{
    if ps.len() == 0 {
        assert(ps.push(p).first() == p);
        assert(ps.push(p).drop_first() =~= Seq::<PackageView>::empty());
        assert(enc_packages(ps.push(p)) == enc_package(p) + enc_packages(
            Seq::<PackageView>::empty(),
        ));
        assert(enc_package(p) + Seq::<u8>::empty() =~= Seq::<u8>::empty() + enc_package(p));
    } else {
        let head = ps.first();
        assert(ps.push(p).first() == head);
        assert(ps.push(p).drop_first() =~= ps.drop_first().push(p));
        assert(enc_packages(ps.push(p)) == enc_package(head) + enc_packages(
            ps.drop_first().push(p),
        ));
        lemma_enc_packages_push(ps.drop_first(), p);
        assert(enc_package(head) + (enc_packages(ps.drop_first()) + enc_package(p)) =~= (
        enc_package(head) + enc_packages(ps.drop_first())) + enc_package(p));
    }
}

/// Take `count` packages off the front of a byte stream.
pub open spec fn dec_packages(b: Seq<u8>, count: nat) -> Option<(Seq<PackageView>, Seq<u8>)>
    decreases count,
{
    if count == 0 {
        Some((Seq::empty(), b))
    } else {
        match dec_package(b) {
            None => None,
            Some((p, rest)) => match dec_packages(rest, (count - 1) as nat) {
                None => None,
                Some((ps, rest2)) => Some((seq![p] + ps, rest2)),
            },
        }
    }
}

/// Decoding reads back exactly the package list that was written.
#[verifier::rlimit(50)]
pub proof fn lemma_dec_packages_round_trip(ps: Seq<PackageView>, rest: Seq<u8>)
    requires
        forall|i: int| 0 <= i < ps.len() ==> package_encodable(#[trigger] ps[i]),
        forall|i: int| 0 <= i < ps.len() ==> (#[trigger] ps[i]).local_path is None,
    ensures
        dec_packages(enc_packages(ps) + rest, ps.len()) == Some((ps, rest)),
    decreases ps.len(),
{
    if ps.len() == 0 {
        assert(enc_packages(ps) + rest =~= rest);
        assert(ps =~= Seq::<PackageView>::empty());
    } else {
        let head = ps.first();
        let tail = ps.drop_first();
        assert(enc_packages(ps) == enc_package(head) + enc_packages(tail));
        vstd::seq_lib::lemma_concat_associative(enc_package(head), enc_packages(tail), rest);
        assert(enc_packages(ps) + rest == enc_package(head) + (enc_packages(tail) + rest));
        lemma_dec_package_round_trip(head, enc_packages(tail) + rest);
        assert(forall|i: int| 0 <= i < tail.len() ==> package_encodable(#[trigger] tail[i]));
        assert(forall|i: int| 0 <= i < tail.len() ==> (#[trigger] tail[i]).local_path is None);
        lemma_dec_packages_round_trip(tail, rest);
        assert(seq![head] + tail =~= ps);
    }
}

/// A store's encoding: the package count, then each package.
pub open spec fn enc_store(ps: Seq<PackageView>) -> Seq<u8> {
    u64_le_bytes(ps.len() as u64) + enc_packages(ps)
}

/// What decoding a snapshot yields: the package list, provided every byte is
/// consumed.
pub open spec fn spec_decode_store(b: Seq<u8>) -> Option<Seq<PackageView>> {
    match dec_u64(b) {
        None => None,
        Some((count, rest)) => match dec_packages(rest, count as nat) {
            None => None,
            Some((ps, rest2)) => if rest2.len() == 0 {
                Some(ps)
            } else {
                None
            },
        },
    }
}

/// Whether a store fits the format's length prefixes. Every store held in
/// memory does: its sizes are machine sizes.
pub open spec fn store_encodable(ps: Seq<PackageView>) -> bool {
    &&& ps.len() < 0x1_0000_0000_0000_0000
    &&& forall|i: int| 0 <= i < ps.len() ==> package_encodable(#[trigger] ps[i])
}

/// Round trip: decoding an encoded store yields exactly the encoded package
/// list — same names, versions, states and file lists, in the same order,
/// with the transient local paths cleared.
pub proof fn lemma_store_round_trip(ps: Seq<PackageView>)
    requires
        store_encodable(ps),
        forall|i: int| 0 <= i < ps.len() ==> (#[trigger] ps[i]).local_path is None,
    ensures
        spec_decode_store(enc_store(ps)) == Some(ps),
{
    lemma_dec_u64_round_trip(ps.len() as u64, enc_packages(ps));
    assert(enc_packages(ps) =~= enc_packages(ps) + Seq::<u8>::empty());
    lemma_dec_packages_round_trip(ps, Seq::<u8>::empty());
}

/// A package list's encoding does not depend on the transient local paths.
proof fn lemma_enc_packages_ignores_local_paths(ps: Seq<PackageView>, qs: Seq<PackageView>)
    requires
        ps.len() == qs.len(),
        forall|i: int|
            0 <= i < ps.len() ==> #[trigger] qs[i] == (PackageView { local_path: None, ..ps[i] }),
    ensures
        enc_packages(qs) == enc_packages(ps),
    decreases ps.len(),
{
    if ps.len() > 0 {
        assert(enc_package(qs.first()) == enc_package(ps.first()));
        assert(forall|i: int|
            0 <= i < ps.drop_first().len() ==> #[trigger] qs.drop_first()[i] == (PackageView {
                local_path: None,
                ..ps.drop_first()[i]
            }));
        lemma_enc_packages_ignores_local_paths(ps.drop_first(), qs.drop_first());
    }
}

/// Round trip for any store: decoding an encoded store yields the encoded
/// package list with every transient local path dropped — names, versions,
/// states and file lists survive exactly, in order, and the local paths,
/// which are never serialized, come back empty.
pub proof fn lemma_store_round_trip_drops_local_paths(ps: Seq<PackageView>)
    requires
        store_encodable(ps),
    ensures
        spec_decode_store(enc_store(ps)) == Some(
            ps.map_values(|p: PackageView| PackageView { local_path: None, ..p }),
        ),
{
    let cleared = ps.map_values(|p: PackageView| PackageView { local_path: None, ..p });
    assert(forall|i: int|
        0 <= i < ps.len() ==> #[trigger] cleared[i] == (PackageView {
            local_path: None,
            ..ps[i]
        }));
    assert(forall|i: int| 0 <= i < cleared.len() ==> package_encodable(#[trigger] cleared[i]));
    assert(forall|i: int| 0 <= i < cleared.len() ==> (#[trigger] cleared[i]).local_path is None);
    lemma_enc_packages_ignores_local_paths(ps, cleared);
    assert(enc_store(cleared) == enc_store(ps));
    lemma_store_round_trip(cleared);
}

/// Whether no two of these packages share a name.
pub open spec fn names_unique(ps: Seq<PackageView>) -> bool {
    forall|i: int, j: int| 0 <= i < j < ps.len() ==> ps[i].name != ps[j].name
}

/// Append the little-endian bytes of a word.
fn push_u64(out: &mut Vec<u8>, x: u64)
    ensures
        final (out)@ == old(out)@ + u64_le_bytes(x),
{
    out.push(#[verifier::truncate] ((x & 0xff) as u8));
    out.push(#[verifier::truncate] (((x >> 8) & 0xff) as u8));
    out.push(#[verifier::truncate] (((x >> 16) & 0xff) as u8));
    out.push(#[verifier::truncate] (((x >> 24) & 0xff) as u8));
    out.push(#[verifier::truncate] (((x >> 32) & 0xff) as u8));
    out.push(#[verifier::truncate] (((x >> 40) & 0xff) as u8));
    out.push(#[verifier::truncate] (((x >> 48) & 0xff) as u8));
    out.push(#[verifier::truncate] (((x >> 56) & 0xff) as u8));
    proof {
        assert(out@ =~= old(out)@ + u64_le_bytes(x));
    }
}

/// Append a length-prefixed string.
fn push_str(out: &mut Vec<u8>, s: &String)
    ensures
        final (out)@ == old(out)@ + enc_str(s@),
{
    let bytes = s.as_str().as_bytes_vec();
    proof {
        assert(bytes@ == encode_utf8(s@));
    }
    push_u64(out, bytes.len() as u64);
    out.extend_from_slice(bytes.as_slice());
    proof {
        assert(out@ =~= old(out)@ + enc_str(s@));
    }
}

/// Append a version.
fn push_version(out: &mut Vec<u8>, v: &Version)
    ensures
        final (out)@ == old(out)@ + enc_version(*v),
{
    match v {
        Version::Unknown => {
            out.push(0u8);
            proof {
                assert(out@ =~= old(out)@ + enc_version(*v));
            }
        },
        Version::SemVer(a, mi, pa) => {
            out.push(1u8);
            push_u64(out, *a as u64);
            push_u64(out, *mi as u64);
            push_u64(out, *pa as u64);
            proof {
                assert(out@ =~= old(out)@ + enc_version(*v));
            }
        },
    }
}

/// Append an install state.
fn push_state(out: &mut Vec<u8>, st: InstallState)
    ensures
        final (out)@ == old(out)@ + enc_state(st),
{
    let tag: u8 = match st {
        InstallState::Manual => 0u8,
        InstallState::Dependency => 1u8,
        InstallState::Uninstalled => 2u8,
    };
    out.push(tag);
    proof {
        assert(out@ =~= old(out)@ + enc_state(st));
    }
}

/// Append one package: name, version, state, file count, files.
fn push_package(out: &mut Vec<u8>, p: &Package)
    ensures
        final (out)@ == old(out)@ + enc_package(p.deep_view()),
{
    let ghost v = p.deep_view();
    push_str(out, &p.name);
    push_version(out, &p.version);
    push_state(out, p.state);
    let count = p.files.len();
    push_u64(out, count as u64);
    let ghost mid = out@;
    proof {
        assert(p.files.deep_view().take(0) =~= Seq::<Seq<char>>::empty());
        assert(out@ =~= mid + enc_strs(p.files.deep_view().take(0)));
    }
    for i in 0..count
        invariant
            count == p.files@.len(),
            out@ == mid + enc_strs(p.files.deep_view().take(i as int)),
    {
        proof {
            assert(p.files.deep_view().len() == p.files@.len());
        }
        push_str(out, &p.files[i]);
        proof {
            let views = p.files.deep_view();
            assert(views[i as int] == p.files@[i as int]@);
            lemma_enc_strs_push(views.take(i as int), views[i as int]);
            assert(views.take(i as int).push(views[i as int]) =~= views.take(i as int + 1));
            assert(out@ =~= mid + enc_strs(views.take(i as int + 1)));
        }
    }
    proof {
        let views = p.files.deep_view();
        assert(views.take(count as int) =~= views);
        assert(out@ =~= old(out)@ + enc_package(v));
    }
}

impl Database {
    /// Serialize the store as one binary blob: the ordered package list,
    /// without the cache directory and without any transient local path.
    pub fn to_bytes(&self) -> (r: Vec<u8>)
        ensures
            r@ == enc_store(self.packages.deep_view()),
    {
        let ghost views = self.packages.deep_view();
        let mut out: Vec<u8> = Vec::new();
        let count = self.packages.len();
        push_u64(&mut out, count as u64);
        proof {
            assert(views.take(0) =~= Seq::<PackageView>::empty());
            assert(out@ =~= u64_le_bytes(count as u64) + enc_packages(views.take(0)));
        }
        for i in 0..count
            invariant
                count == self.packages@.len(),
                views == self.packages.deep_view(),
                out@ == u64_le_bytes(count as u64) + enc_packages(views.take(i as int)),
        {
            proof {
                assert(views.len() == self.packages@.len());
            }
            push_package(&mut out, &self.packages[i]);
            proof {
                assert(views[i as int] == self.packages@[i as int].deep_view());
                lemma_enc_packages_push(views.take(i as int), views[i as int]);
                assert(views.take(i as int).push(views[i as int]) =~= views.take(i as int + 1));
                assert(out@ =~= u64_le_bytes(count as u64) + enc_packages(views.take(i as int + 1)));
            }
        }
        proof {
            assert(views.take(count as int) =~= views);
        }
        out
    }

    /// Rebuild a store from a serialized snapshot, re-supplying the cache
    /// directory, which is never persisted. Fails with a serialization error
    /// when the bytes are not exactly one encoded store, or when the decoded
    /// packages break the store invariant by sharing a name.
    pub fn from_bytes(bytes: &Vec<u8>, package_cache: String) -> (r: Result<Database, MixError>)
        ensures
            match r {
                Ok(db) => {
                    &&& spec_decode_store(bytes@) == Some(db.packages.deep_view())
                    &&& names_unique(db.packages.deep_view())
                    &&& db.wf()
                    &&& db.spec_cache_dir() == package_cache@
                },
                Err(e) => {
                    &&& e == MixError::SerializationError
                    &&& match spec_decode_store(bytes@) {
                        None => true,
                        Some(ps) => !names_unique(ps),
                    }
                },
            },
    {
        proof {
            assert(bytes@.skip(0) =~= bytes@);
        }
        let (count, p1) = match read_u64(bytes, 0) {
            Some(pair) => pair,
            None => {
                return Err(MixError::SerializationError);
            },
        };
        let (packages, p2) = match read_packages(bytes, p1, count) {
            Some(pair) => pair,
            None => {
                return Err(MixError::SerializationError);
            },
        };
        if p2 != bytes.len() {
            proof {
                assert(bytes@.skip(p2 as int).len() > 0);
            }
            return Err(MixError::SerializationError);
        }
        proof {
            assert(bytes@.skip(p2 as int).len() == 0);
        }
        if !names_distinct(&packages) {
            return Err(MixError::SerializationError);
        }
        let db = Database { packages, package_cache };
        proof {
            assert forall|i: int, j: int|
                0 <= i < j < db.packages@.len() implies db.packages@[i].name@ != db
                .packages@[j].name@ by {
                assert(db.packages.deep_view()[i].name == db.packages@[i].name@);
                assert(db.packages.deep_view()[j].name == db.packages@[j].name@);
            }
        }
        Ok(db)
    }
}

/// Whether no two of these package records share a name.
fn names_distinct(packages: &Vec<Package>) -> (r: bool)
    ensures
        r == names_unique(packages.deep_view()),
{
    let n = packages.len();
    for i in 0..n
        invariant
            n == packages@.len(),
            forall|a: int, b: int|
                0 <= a < b < packages@.len() && a < i ==> packages.deep_view()[a].name
                    != packages.deep_view()[b].name,
    {
        for j in (i + 1)..n
            invariant
                n == packages@.len(),
                i < n,
                forall|a: int, b: int|
                    0 <= a < b < packages@.len() && a < i ==> packages.deep_view()[a].name
                        != packages.deep_view()[b].name,
                forall|b: int|
                    i < b < j ==> packages.deep_view()[i as int].name
                        != packages.deep_view()[b].name,
        {
            if packages[i].name == packages[j].name {
                proof {
                    assert(packages.deep_view()[i as int].name == packages.deep_view()[
                        j as int].name);
                }
                return false;
            }
        }
    }
    true
}

/// Read one word.
fn read_u64(bytes: &Vec<u8>, pos: usize) -> (r: Option<(u64, usize)>)
    requires
        pos <= bytes@.len(),
    ensures
        match r {
            Some(pair) => {
                &&& pos <= pair.1 <= bytes@.len()
                &&& dec_u64(bytes@.skip(pos as int)) == Some((pair.0, bytes@.skip(pair.1 as int)))
            },
            None => dec_u64(bytes@.skip(pos as int)) is None,
        },
{
    let n = bytes.len();
    if n - pos < 8 {
        return None;
    }
    let b0 = bytes[pos] as u64;
    let b1 = bytes[pos + 1] as u64;
    let b2 = bytes[pos + 2] as u64;
    let b3 = bytes[pos + 3] as u64;
    let b4 = bytes[pos + 4] as u64;
    let b5 = bytes[pos + 5] as u64;
    let b6 = bytes[pos + 6] as u64;
    let b7 = bytes[pos + 7] as u64;
    let x = b0 | (b1 << 8) | (b2 << 16) | (b3 << 24) | (b4 << 32) | (b5 << 40) | (b6 << 48) | (b7
        << 56);
    proof {
        let s = bytes@.skip(pos as int);
        assert(s.take(8)[0] == bytes@[pos as int]);
        assert(s.take(8)[1] == bytes@[pos as int + 1]);
        assert(s.take(8)[2] == bytes@[pos as int + 2]);
        assert(s.take(8)[3] == bytes@[pos as int + 3]);
        assert(s.take(8)[4] == bytes@[pos as int + 4]);
        assert(s.take(8)[5] == bytes@[pos as int + 5]);
        assert(s.take(8)[6] == bytes@[pos as int + 6]);
        assert(s.take(8)[7] == bytes@[pos as int + 7]);
        assert(bytes@.skip(pos as int + 8) =~= s.skip(8));
    }
    Some((x, pos + 8))
}

/// Read one length-prefixed string.
fn read_str(bytes: &Vec<u8>, pos: usize) -> (r: Option<(String, usize)>)
    requires
        pos <= bytes@.len(),
    ensures
        match r {
            Some(pair) => {
                &&& pos <= pair.1 <= bytes@.len()
                &&& dec_str(bytes@.skip(pos as int)) == Some((pair.0@, bytes@.skip(pair.1 as int)))
            },
            None => dec_str(bytes@.skip(pos as int)) is None,
        },
{
    let (n, p1) = match read_u64(bytes, pos) {
        Some(pair) => pair,
        None => {
            return None;
        },
    };
    let remaining = bytes.len() - p1;
    if n > remaining as u64 {
        return None;
    }
    let n_usize = n as usize;
    proof {
        assert(bytes@.skip(p1 as int).len() == remaining);
    }
    let chunk = slice_to_vec(slice_subrange(bytes.as_slice(), p1, p1 + n_usize));
    proof {
        assert(chunk@ =~= bytes@.skip(p1 as int).take(n as int));
    }
    let text = match bytes_to_utf8(&chunk) {
        Some(text) => text,
        None => {
            return None;
        },
    };
    proof {
        assert(bytes@.skip(p1 as int + n_usize as int) =~= bytes@.skip(p1 as int).skip(n as int));
    }
    Some((text, p1 + n_usize))
}

/// Read one version.
fn read_version(bytes: &Vec<u8>, pos: usize) -> (r: Option<(Version, usize)>)
    requires
        pos <= bytes@.len(),
    ensures
        match r {
            Some(pair) => {
                &&& pos <= pair.1 <= bytes@.len()
                &&& dec_version(bytes@.skip(pos as int)) == Some(
                    (pair.0, bytes@.skip(pair.1 as int)),
                )
            },
            None => dec_version(bytes@.skip(pos as int)) is None,
        },
{
    if pos >= bytes.len() {
        return None;
    }
    let tag = bytes[pos];
    proof {
        assert(bytes@.skip(pos as int)[0] == bytes@[pos as int]);
        assert(bytes@.skip(pos as int + 1) =~= bytes@.skip(pos as int).skip(1));
    }
    if tag == 0u8 {
        Some((Version::Unknown, pos + 1))
    } else if tag == 1u8 {
        let (a, p1) = match read_u64(bytes, pos + 1) {
            Some(pair) => pair,
            None => {
                return None;
            },
        };
        let (mi, p2) = match read_u64(bytes, p1) {
            Some(pair) => pair,
            None => {
                return None;
            },
        };
        let (pa, p3) = match read_u64(bytes, p2) {
            Some(pair) => pair,
            None => {
                return None;
            },
        };
        if a <= 0xffff_ffffu64 && mi <= 0xffff_ffffu64 && pa <= 0xffff_ffffu64 {
            Some((Version::SemVer(a as u32, mi as u32, pa as u32), p3))
        } else {
            None
        }
    } else {
        None
    }
}

/// Read one install state.
fn read_state(bytes: &Vec<u8>, pos: usize) -> (r: Option<(InstallState, usize)>)
    requires
        pos <= bytes@.len(),
    ensures
        match r {
            Some(pair) => {
                &&& pos <= pair.1 <= bytes@.len()
                &&& dec_state(bytes@.skip(pos as int)) == Some(
                    (pair.0, bytes@.skip(pair.1 as int)),
                )
            },
            None => dec_state(bytes@.skip(pos as int)) is None,
        },
{
    if pos >= bytes.len() {
        return None;
    }
    let tag = bytes[pos];
    proof {
        assert(bytes@.skip(pos as int)[0] == bytes@[pos as int]);
        assert(bytes@.skip(pos as int + 1) =~= bytes@.skip(pos as int).skip(1));
    }
    if tag == 0u8 {
        Some((InstallState::Manual, pos + 1))
    } else if tag == 1u8 {
        Some((InstallState::Dependency, pos + 1))
    } else if tag == 2u8 {
        Some((InstallState::Uninstalled, pos + 1))
    } else {
        None
    }
}

/// Read `count` length-prefixed strings.
fn read_strs(bytes: &Vec<u8>, pos: usize, count: u64) -> (r: Option<(Vec<String>, usize)>)
    requires
        pos <= bytes@.len(),
    ensures
        match r {
            Some(pair) => {
                &&& pos <= pair.1 <= bytes@.len()
                &&& dec_strs(bytes@.skip(pos as int), count as nat) == Some(
                    (pair.0.deep_view(), bytes@.skip(pair.1 as int)),
                )
            },
            None => dec_strs(bytes@.skip(pos as int), count as nat) is None,
        },
    decreases count,
{
    if count == 0 {
        let empty: Vec<String> = Vec::new();
        proof {
            assert(empty.deep_view() =~= Seq::<Seq<char>>::empty());
        }
        return Some((empty, pos));
    }
    let (s, p1) = match read_str(bytes, pos) {
        Some(pair) => pair,
        None => {
            return None;
        },
    };
    let (mut ss, p2) = match read_strs(bytes, p1, count - 1) {
        Some(pair) => pair,
        None => {
            return None;
        },
    };
    let ghost tail_views = ss.deep_view();
    ss.insert(0, s);
    proof {
        assert(ss.deep_view() =~= seq![s@] + tail_views);
    }
    Some((ss, p2))
}

/// Read one package.
fn read_package(bytes: &Vec<u8>, pos: usize) -> (r: Option<(Package, usize)>)
    requires
        pos <= bytes@.len(),
    ensures
        match r {
            Some(pair) => {
                &&& pos <= pair.1 <= bytes@.len()
                &&& dec_package(bytes@.skip(pos as int)) == Some(
                    (pair.0.deep_view(), bytes@.skip(pair.1 as int)),
                )
            },
            None => dec_package(bytes@.skip(pos as int)) is None,
        },
{
    let (name, p1) = match read_str(bytes, pos) {
        Some(pair) => pair,
        None => {
            return None;
        },
    };
    let (version, p2) = match read_version(bytes, p1) {
        Some(pair) => pair,
        None => {
            return None;
        },
    };
    let (state, p3) = match read_state(bytes, p2) {
        Some(pair) => pair,
        None => {
            return None;
        },
    };
    let (count, p4) = match read_u64(bytes, p3) {
        Some(pair) => pair,
        None => {
            return None;
        },
    };
    let (files, p5) = match read_strs(bytes, p4, count) {
        Some(pair) => pair,
        None => {
            return None;
        },
    };
    let package = Package { name, version, state, files, local_path: None };
    proof {
        assert(package.deep_view() =~= (PackageView {
            name: package.name@,
            version: package.version,
            state: package.state,
            files: package.files.deep_view(),
            local_path: None,
        }));
    }
    Some((package, p5))
}

/// Read `count` packages.
#[verifier::rlimit(30)]
fn read_packages(bytes: &Vec<u8>, pos: usize, count: u64) -> (r: Option<(Vec<Package>, usize)>)
    requires
        pos <= bytes@.len(),
    ensures
        match r {
            Some(pair) => {
                &&& pos <= pair.1 <= bytes@.len()
                &&& dec_packages(bytes@.skip(pos as int), count as nat) == Some(
                    (pair.0.deep_view(), bytes@.skip(pair.1 as int)),
                )
            },
            None => dec_packages(bytes@.skip(pos as int), count as nat) is None,
        },
    decreases count,
{
    if count == 0 {
        let empty: Vec<Package> = Vec::new();
        proof {
            assert(empty.deep_view() =~= Seq::<PackageView>::empty());
        }
        return Some((empty, pos));
    }
    let (p, p1) = match read_package(bytes, pos) {
        Some(pair) => pair,
        None => {
            return None;
        },
    };
    let (mut ps, p2) = match read_packages(bytes, p1, count - 1) {
        Some(pair) => pair,
        None => {
            return None;
        },
    };
    let ghost tail_views = ps.deep_view();
    let ghost head_view = p.deep_view();
    ps.insert(0, p);
    proof {
        assert(ps.deep_view() =~= seq![head_view] + tail_views);
    }
    Some((ps, p2))
}

} // verus!
