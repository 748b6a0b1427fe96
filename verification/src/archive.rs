//! Reading the package container format: a single-stream xz-compressed tar
//! archive holding a `.MANIFEST` document beside the package's files.
//!
//! Decompression, tar framing and manifest-document parsing are performed by
//! outside crates behind trusted wrappers; everything downstream of the
//! plain values they return is verified.

use vstd::prelude::*;

verus! {

/// One entry of the container, as plain values: its path, the type byte of
/// its tar header, its permission bits, and its contents.
#[derive(Clone, Debug)]
pub struct ArchiveEntry {
    /// The entry's path, relative to the install root.
    pub path: String,
    /// The raw type flag of the entry's header.
    pub type_byte: u8,
    /// The permission bits recorded for the entry.
    pub mode: u32,
    /// The entry's contents.
    pub data: Vec<u8>,
}

/// The spec-level value of an archive entry.
#[verifier::ext_equal]
pub struct ArchiveEntryView {
    /// The entry's path.
    pub path: Seq<char>,
    /// The raw type flag.
    pub type_byte: u8,
    /// The permission bits.
    pub mode: u32,
    /// The entry's contents.
    pub data: Seq<u8>,
}

impl View for ArchiveEntry {
    type V = ArchiveEntryView;

    open spec fn view(&self) -> ArchiveEntryView {
        ArchiveEntryView {
            path: self.path@,
            type_byte: self.type_byte,
            mode: self.mode,
            data: self.data@,
        }
    }
}

impl DeepView for ArchiveEntry {
    type V = ArchiveEntryView;

    open spec fn deep_view(&self) -> ArchiveEntryView {
        self.view()
    }
}

/// The kind of filesystem object an entry describes.
#[derive(Clone, Copy, Debug, PartialEq, Eq, Structural)]
pub enum EntryKind {
    /// A regular file.
    Regular,
    /// A directory.
    Directory,
    /// A hard link.
    Link,
    /// A symbolic link.
    Symlink,
    /// Any other entry type.
    Other,
}

/// How a tar header's type flag byte is read: `0` and `'0'` mark a regular
/// file, `'1'` a hard link, `'2'` a symbolic link, `'5'` a directory.
pub open spec fn spec_entry_kind(type_byte: u8) -> EntryKind {
    if type_byte == 0u8 || type_byte == 48u8 {
        EntryKind::Regular
    } else if type_byte == 53u8 {
        EntryKind::Directory
    } else if type_byte == 49u8 {
        EntryKind::Link
    } else if type_byte == 50u8 {
        EntryKind::Symlink
    } else {
        EntryKind::Other
    }
}

/// Read a tar header type flag.
pub fn entry_kind(type_byte: u8) -> (r: EntryKind)
    ensures
        r == spec_entry_kind(type_byte),
{
    if type_byte == 0u8 || type_byte == 48u8 {
        EntryKind::Regular
    } else if type_byte == 53u8 {
        EntryKind::Directory
    } else if type_byte == 49u8 {
        EntryKind::Link
    } else if type_byte == 50u8 {
        EntryKind::Symlink
    } else {
        EntryKind::Other
    }
}

/// Whether a path names the manifest entry of the container.
pub open spec fn is_manifest_path(path: Seq<char>) -> bool {
    path == ".MANIFEST"@
}

/// What xz decompression yields on a byte stream; nothing when the stream is
/// not a valid compressed block.
pub uninterp spec fn xz_decoded(data: Seq<u8>) -> Option<Seq<u8>>;

/// Relies on xz2's `XzDecoder`: decompressing a byte stream read from memory
/// is a function of the bytes alone.
#[verifier::external_body]
fn xz_decompress(data: &Vec<u8>) -> (r: Option<Vec<u8>>)
    ensures
        match r {
            Some(plain) => xz_decoded(data@) == Some(plain@),
            None => xz_decoded(data@) is None,
        },
{
    let mut decoder = xz2::read::XzDecoder::new(data.as_slice());
    let mut plain = Vec::new();
    match std::io::Read::read_to_end(&mut decoder, &mut plain) {
        Ok(_) => Some(plain),
        Err(_) => None,
    }
}

/// The entry list the tar reader yields on a decompressed stream; nothing
/// when the bytes do not form a readable tar archive.
pub uninterp spec fn tar_entries_of(data: Seq<u8>) -> Option<Seq<ArchiveEntryView>>;

/// Relies on the tar crate's `Archive`: the entries of an in-memory stream,
/// their header type flags and modes, and their contents are a function of
/// the bytes alone.
#[verifier::external_body]
fn tar_read_entries(data: &Vec<u8>) -> (r: Option<Vec<ArchiveEntry>>)
    ensures
        match r {
            Some(entries) => tar_entries_of(data@) == Some(entries.deep_view()),
            None => tar_entries_of(data@) is None,
        },
{
    let mut archive = tar::Archive::new(data.as_slice());
    let mut out = Vec::new();
    for entry in archive.entries().ok()? {
        let mut entry = entry.ok()?;
        let path = entry.path().ok()?.to_string_lossy().into_owned();
        let mode = entry.header().mode().ok()?;
        let type_byte = entry.header().entry_type().as_byte();
        let mut contents = Vec::new();
        std::io::Read::read_to_end(&mut entry, &mut contents).ok()?;
        out.push(ArchiveEntry { path, type_byte, mode, data: contents });
    }
    Some(out)
}

/// Relies on `String::from_utf8`: it succeeds exactly on valid UTF-8, and
/// the returned string holds the decoded characters.
#[verifier::external_body]
pub(crate) fn bytes_to_utf8(data: &Vec<u8>) -> (r: Option<String>)
    ensures
        match r {
            Some(text) => vstd::utf8::valid_utf8(data@) && text@ == vstd::utf8::decode_utf8(data@),
            None => !vstd::utf8::valid_utf8(data@),
        },
{
    match String::from_utf8(data.clone()) {
        Ok(text) => Some(text),
        Err(_) => None,
    }
}

/// The outcome of looking one string field up in a manifest document.
#[derive(Clone, Debug)]
pub enum ManifestLookup {
    /// The document is a table and holds the key with a string value.
    Value(String),
    /// The document parsed, but lacks the key or holds a value of another
    /// type there.
    Invalid,
    /// The document is not parseable.
    Unparseable,
}

/// The spec-level value of a manifest lookup.
pub enum ManifestLookupView {
    /// The field's string value.
    Value(Seq<char>),
    /// Parsed, but the field is absent or not a string.
    Invalid,
    /// Not parseable.
    Unparseable,
}

impl View for ManifestLookup {
    type V = ManifestLookupView;

    open spec fn view(&self) -> ManifestLookupView {
        match self {
            ManifestLookup::Value(s) => ManifestLookupView::Value(s@),
            ManifestLookup::Invalid => ManifestLookupView::Invalid,
            ManifestLookup::Unparseable => ManifestLookupView::Unparseable,
        }
    }
}

/// What the manifest-document parser yields for one text and key.
pub uninterp spec fn manifest_lookup(text: Seq<char>, key: Seq<char>) -> ManifestLookupView;

/// Relies on the toml crate: parsing a document into its top-level table and
/// reading one string field out of it is a function of the text and the key
/// alone.
#[verifier::external_body]
pub(crate) fn manifest_string_field(text: &str, key: &str) -> (r: ManifestLookup)
    ensures
        r@ == manifest_lookup(text@, key@),
{
    match text.parse::<toml::Table>() {
        Ok(table) => match table.get(key) {
            Some(toml::Value::String(value)) => ManifestLookup::Value(value.clone()),
            _ => ManifestLookup::Invalid,
        },
        Err(_) => ManifestLookup::Unparseable,
    }
}

/// The file paths of an entry list: every entry that is not the manifest
/// contributes its path, in order.
pub open spec fn spec_file_paths(entries: Seq<ArchiveEntryView>) -> Seq<Seq<char>> {
    entries.filter_map(
        |e: ArchiveEntryView|
            if is_manifest_path(e.path) {
                None
            } else {
                Some(e.path)
            },
    )
}

/// The manifest entries of an entry list, in order.
pub open spec fn spec_manifest_entries(entries: Seq<ArchiveEntryView>) -> Seq<ArchiveEntryView> {
    entries.filter(|e: ArchiveEntryView| is_manifest_path(e.path))
}

/// The contents of the first manifest entry, if the archive has one.
pub open spec fn spec_manifest_data(entries: Seq<ArchiveEntryView>) -> Option<Seq<u8>> {
    if spec_manifest_entries(entries).len() == 0 {
        None
    } else {
        Some(spec_manifest_entries(entries)[0].data)
    }
}

/// Decompress an archive and list its entries.
pub fn read_archive(data: &Vec<u8>) -> (r: Option<Vec<ArchiveEntry>>)
    ensures
        match r {
            Some(entries) => spec_archive_entries(data@) == Some(entries.deep_view()),
            None => spec_archive_entries(data@) is None,
        },
{
    let plain = match xz_decompress(data) {
        Some(plain) => plain,
        None => {
            return None;
        },
    };
    tar_read_entries(&plain)
}

/// The entries of a compressed archive: what the tar reader yields on the
/// decompressed stream.
pub open spec fn spec_archive_entries(data: Seq<u8>) -> Option<Seq<ArchiveEntryView>> {
    match xz_decoded(data) {
        None => None,
        Some(plain) => tar_entries_of(plain),
    }
}

/// Scan an entry list: collect the non-manifest paths, and the contents of
/// the first manifest entry if one exists.
pub fn scan_entries(entries: &Vec<ArchiveEntry>) -> (r: (Vec<String>, Option<Vec<u8>>))
    ensures
        r.0.deep_view() == spec_file_paths(entries.deep_view()),
        match r.1 {
            Some(data) => spec_manifest_data(entries.deep_view()) == Some(data@),
            None => spec_manifest_data(entries.deep_view()) is None,
        },
{
    let ghost all = entries.deep_view();
    let ghost file_pred = |e: ArchiveEntryView|
        if is_manifest_path(e.path) {
            Option::<Seq<char>>::None
        } else {
            Some(e.path)
        };
    let ghost manifest_pred = |e: ArchiveEntryView| is_manifest_path(e.path);
    let mut files: Vec<String> = Vec::new();
    let mut manifest: Option<Vec<u8>> = None;
    let count = entries.len();
    proof {
        reveal(Seq::filter);
        assert(all.take(0) =~= Seq::<ArchiveEntryView>::empty());
    }
    for k in 0..count
        invariant
            count == entries@.len(),
            all == entries.deep_view(),
            file_pred == (|e: ArchiveEntryView|
                if is_manifest_path(e.path) {
                    Option::<Seq<char>>::None
                } else {
                    Some(e.path)
                }),
            manifest_pred == (|e: ArchiveEntryView| is_manifest_path(e.path)),
            files.deep_view() == all.take(k as int).filter_map(file_pred),
            match manifest {
                Some(data) => {
                    &&& all.take(k as int).filter(manifest_pred).len() > 0
                    &&& all.take(k as int).filter(manifest_pred)[0].data == data@
                },
                None => all.take(k as int).filter(manifest_pred).len() == 0,
            },
    {
        proof {
            reveal(Seq::filter);
            assert(all.len() == entries@.len());
            assert(all.take(k as int + 1).drop_last() =~= all.take(k as int));
            assert(all.take(k as int + 1).last() == all[k as int]);
            assert(all[k as int] == entries@[k as int]@);
        }
        let entry = &entries[k];
        let is_manifest = compare_str(entry.path.as_str(), ".MANIFEST");
        if is_manifest {
            if manifest.is_none() {
                manifest = Some(entry.data.clone());
                proof {
                    let taken = all.take(k as int + 1).filter(manifest_pred);
                    assert(taken[0] == all[k as int]);
                }
            }
            proof {
                let prev = all.take(k as int).filter(manifest_pred);
                let taken = all.take(k as int + 1).filter(manifest_pred);
                if prev.len() > 0 {
                    assert(taken[0] == prev[0]);
                }
            }
        } else {
            files.push(entry.path.clone());
            proof {
                assert(files.deep_view() =~= all.take(k as int + 1).filter_map(file_pred));
            }
        }
    }
    proof {
        assert(all.take(count as int) =~= all);
    }
    (files, manifest)
}

/// Whether two strings hold the same characters.
pub fn compare_str(a: &str, b: &str) -> (r: bool)
    ensures
        r == (a@ == b@),
{
    let a_string = a.to_owned();
    let b_string = b.to_owned();
    a_string == b_string
}

} // verus!
