//! Planning the placement of archive entries under a filesystem root.
//!
//! The planner turns each entry into one explicit action; the caller performs
//! the actions against the real filesystem, in order, stopping at the first
//! failure. A model of the touched filesystem region ties the actions to
//! their intended effect: directory placement is idempotent, file placement
//! refuses to overwrite.

use crate::archive::compare_str;
use crate::archive::entry_kind;
use crate::archive::is_manifest_path;
use crate::archive::spec_entry_kind;
use crate::archive::ArchiveEntry;
use crate::archive::ArchiveEntryView;
use crate::archive::EntryKind;
use crate::error::MixError;
use vstd::prelude::*;

verus! {

/// What the installer must do with one archive entry.
#[derive(Clone, Debug)]
pub enum EntryAction {
    /// The manifest entry: place nothing.
    Skip,
    /// Ensure a directory exists: create it with the recorded mode when
    /// absent, leave an existing directory entirely untouched.
    EnsureDir {
        /// The directory's path under the install root.
        path: String,
        /// The permission bits to give a newly created directory.
        mode: u32,
    },
    /// Create a new regular file holding these contents; fail rather than
    /// overwrite anything already at the path.
    WriteNewFile {
        /// The file's path under the install root.
        path: String,
        /// The file's contents.
        data: Vec<u8>,
    },
}

/// The spec-level value of an action.
#[verifier::ext_equal]
pub enum EntryActionView {
    /// Place nothing.
    Skip,
    /// Ensure a directory exists.
    EnsureDir {
        /// The directory's path.
        path: Seq<char>,
        /// The permission bits for a new directory.
        mode: u32,
    },
    /// Create a new regular file.
    WriteNewFile {
        /// The file's path.
        path: Seq<char>,
        /// The file's contents.
        data: Seq<u8>,
    },
}

impl View for EntryAction {
    type V = EntryActionView;

    open spec fn view(&self) -> EntryActionView {
        match self {
            EntryAction::Skip => EntryActionView::Skip,
            EntryAction::EnsureDir { path, mode } => EntryActionView::EnsureDir {
                path: path@,
                mode: *mode,
            },
            EntryAction::WriteNewFile { path, data } => EntryActionView::WriteNewFile {
                path: path@,
                data: data@,
            },
        }
    }
}

impl DeepView for EntryAction {
    type V = EntryActionView;

    open spec fn deep_view(&self) -> EntryActionView {
        self.view()
    }
}

/// The action one entry calls for: the manifest is skipped, a directory is
/// ensured, a regular file is created new; links, symbolic links and rarer
/// entry types are an explicit unsupported-entry error.
pub open spec fn spec_plan_entry(e: ArchiveEntryView) -> Result<EntryActionView, MixError> {
    if is_manifest_path(e.path) {
        Ok(EntryActionView::Skip)
    } else {
        match spec_entry_kind(e.type_byte) {
            EntryKind::Directory => Ok(EntryActionView::EnsureDir { path: e.path, mode: e.mode }),
            EntryKind::Regular => Ok(EntryActionView::WriteNewFile { path: e.path, data: e.data }),
            _ => Err(MixError::UnsupportedEntryType),
        }
    }
}

/// The plan for a whole entry list, in order; the first entry that cannot be
/// planned decides the error.
pub open spec fn spec_plan_entries(entries: Seq<ArchiveEntryView>) -> Result<
    Seq<EntryActionView>,
    MixError,
>
    decreases entries.len(),
{
    if entries.len() == 0 {
        Ok(Seq::empty())
    } else {
        match spec_plan_entries(entries.drop_last()) {
            Err(e) => Err(e),
            Ok(pre) => match spec_plan_entry(entries.last()) {
                Ok(a) => Ok(pre.push(a)),
                Err(e) => Err(e),
            },
        }
    }
}

/// Plan one entry.
pub fn plan_entry(entry: &ArchiveEntry) -> (r: Result<EntryAction, MixError>)
    ensures
        match r {
            Ok(a) => spec_plan_entry(entry@) == Ok::<EntryActionView, MixError>(a@),
            Err(e) => spec_plan_entry(entry@) == Err::<EntryActionView, MixError>(e),
        },
{
    let is_manifest = compare_str(entry.path.as_str(), ".MANIFEST");
    if is_manifest {
        Ok(EntryAction::Skip)
    } else {
        match entry_kind(entry.type_byte) {
            EntryKind::Directory => {
                let r = EntryAction::EnsureDir { path: entry.path.clone(), mode: entry.mode };
                proof {
                    assert(r@ =~= (EntryActionView::EnsureDir {
                        path: entry@.path,
                        mode: entry@.mode,
                    }));
                }
                Ok(r)
            },
            EntryKind::Regular => {
                let data = entry.data.clone();
                proof {
                    assert(data@ =~= entry.data@);
                }
                let r = EntryAction::WriteNewFile { path: entry.path.clone(), data };
                proof {
                    assert(r@ =~= (EntryActionView::WriteNewFile {
                        path: entry@.path,
                        data: entry@.data,
                    }));
                }
                Ok(r)
            },
            _ => Err(MixError::UnsupportedEntryType),
        }
    }
}

/// An error in any prefix of an entry list decides the plan of the whole
/// list.
proof fn lemma_plan_prefix_error(entries: Seq<ArchiveEntryView>, k: int)
    requires
        0 <= k <= entries.len(),
        spec_plan_entries(entries.take(k)) is Err,
    ensures
        spec_plan_entries(entries) == spec_plan_entries(entries.take(k)),
    decreases entries.len(),
{
    if k < entries.len() {
        assert(entries.drop_last().take(k) =~= entries.take(k));
        lemma_plan_prefix_error(entries.drop_last(), k);
    } else {
        assert(entries.take(k) =~= entries);
    }
}

/// Plan a whole entry list: every entry becomes its action, or the first
/// entry that cannot be placed decides the error.
pub fn plan_install(entries: &Vec<ArchiveEntry>) -> (r: Result<Vec<EntryAction>, MixError>)
    ensures
        match r {
            Ok(plan) => spec_plan_entries(entries.deep_view()) == Ok::<
                Seq<EntryActionView>,
                MixError,
            >(plan.deep_view()),
            Err(e) => spec_plan_entries(entries.deep_view()) == Err::<
                Seq<EntryActionView>,
                MixError,
            >(e),
        },
{
    let ghost all = entries.deep_view();
    let mut plan: Vec<EntryAction> = Vec::new();
    let count = entries.len();
    proof {
        assert(all.take(0) =~= Seq::<ArchiveEntryView>::empty());
        assert(plan.deep_view() =~= Seq::<EntryActionView>::empty());
    }
    for k in 0..count
        invariant
            count == entries@.len(),
            all == entries.deep_view(),
            spec_plan_entries(all.take(k as int)) == Ok::<Seq<EntryActionView>, MixError>(
                plan.deep_view(),
            ),
    {
        proof {
            assert(all.len() == entries@.len());
            assert(all.take(k as int + 1).drop_last() =~= all.take(k as int));
            assert(all.take(k as int + 1).last() == all[k as int]);
            assert(all[k as int] == entries@[k as int]@);
        }
        match plan_entry(&entries[k]) {
            Ok(action) => {
                plan.push(action);
                proof {
                    assert(plan.deep_view() =~= spec_plan_entries(
                        all.take(k as int),
                    ).unwrap().push(action@));
                }
            },
            Err(e) => {
                proof {
                    assert(spec_plan_entries(all.take(k as int + 1)) == Err::<
                        Seq<EntryActionView>,
                        MixError,
                    >(e));
                    lemma_plan_prefix_error(all, k as int + 1);
                }
                return Err(e);
            },
        }
    }
    proof {
        assert(all.take(count as int) =~= all);
    }
    Ok(plan)
}

/// A model of the filesystem region an install touches: what stands at each
/// path.
pub enum FsNode {
    /// A directory and its permission bits.
    Dir {
        /// The permission bits.
        mode: u32,
    },
    /// A regular file and its contents.
    File {
        /// The file's contents.
        data: Seq<u8>,
    },
}

/// The effect one action has on the filesystem model: skipping changes
/// nothing; a directory is created only where the path is vacant and an
/// occupied path is left entirely untouched; a file is created only where
/// the path is vacant, and an occupied path is a failure rather than an
/// overwrite.
pub open spec fn spec_apply_action(fs: Map<Seq<char>, FsNode>, a: EntryActionView) -> Option<
    Map<Seq<char>, FsNode>,
> {
    match a {
        EntryActionView::Skip => Some(fs),
        EntryActionView::EnsureDir { path, mode } => if fs.dom().contains(path) {
            Some(fs)
        } else {
            Some(fs.insert(path, FsNode::Dir { mode }))
        },
        EntryActionView::WriteNewFile { path, data } => if fs.dom().contains(path) {
            None
        } else {
            Some(fs.insert(path, FsNode::File { data }))
        },
    }
}

/// The effect of a whole plan, performed in order; the first failing action
/// fails the install.
pub open spec fn spec_apply_plan(fs: Map<Seq<char>, FsNode>, plan: Seq<EntryActionView>) -> Option<
    Map<Seq<char>, FsNode>,
>
    decreases plan.len(),
{
    if plan.len() == 0 {
        Some(fs)
    } else {
        match spec_apply_plan(fs, plan.drop_last()) {
            None => None,
            Some(mid) => spec_apply_action(mid, plan.last()),
        }
    }
}

/// Placing a directory that already exists on disk succeeds and leaves the
/// filesystem exactly as it was.
pub proof fn lemma_existing_dir_kept(fs: Map<Seq<char>, FsNode>, path: Seq<char>, mode: u32)
    requires
        fs.dom().contains(path),
    ensures
        spec_apply_action(fs, EntryActionView::EnsureDir { path, mode }) == Some(fs),
{
}

/// Placing a regular file where something already exists fails: an install
/// never silently overwrites.
pub proof fn lemma_existing_file_rejected(fs: Map<Seq<char>, FsNode>, path: Seq<char>, data: Seq<u8>)
    requires
        fs.dom().contains(path),
    ensures
        spec_apply_action(fs, EntryActionView::WriteNewFile { path, data }) is None,
{
}

/// Re-installing the directory skeleton of a package is a no-op: a plan of
/// skips and directory placements whose paths all exist succeeds and changes
/// nothing.
pub proof fn lemma_reinstall_dirs_noop(fs: Map<Seq<char>, FsNode>, plan: Seq<EntryActionView>)
    requires
        forall|i: int|
            0 <= i < plan.len() ==> match #[trigger] plan[i] {
                EntryActionView::Skip => true,
                EntryActionView::EnsureDir { path, mode } => fs.dom().contains(path),
                EntryActionView::WriteNewFile { .. } => false,
            },
    ensures
        spec_apply_plan(fs, plan) == Some(fs),
    decreases plan.len(),
{
    if plan.len() > 0 {
        lemma_reinstall_dirs_noop(fs, plan.drop_last());
    }
}

/// Whatever a successful install placed, it never removed anything: every
/// path present before is present after.
pub proof fn lemma_apply_keeps_paths(
    fs: Map<Seq<char>, FsNode>,
    plan: Seq<EntryActionView>,
    path: Seq<char>,
)
    requires
        fs.dom().contains(path),
        spec_apply_plan(fs, plan) is Some,
    ensures
        spec_apply_plan(fs, plan)->Some_0.dom().contains(path),
    decreases plan.len(),
{
    if plan.len() > 0 {
        lemma_apply_keeps_paths(fs, plan.drop_last(), path);
    }
}

/// If any regular file of the plan already exists on disk, the install
/// fails, wherever in the plan that file stands.
pub proof fn lemma_existing_file_fails_plan(
    fs: Map<Seq<char>, FsNode>,
    plan: Seq<EntryActionView>,
    k: int,
)
    requires
        0 <= k < plan.len(),
        plan[k] matches EntryActionView::WriteNewFile { path, .. } && fs.dom().contains(path),
    ensures
        spec_apply_plan(fs, plan) is None,
    decreases plan.len(),
{
    if k < plan.len() - 1 {
        lemma_existing_file_fails_plan(fs, plan.drop_last(), k);
    } else {
        if spec_apply_plan(fs, plan.drop_last()) is Some {
            let path = plan[k]->WriteNewFile_path;
            lemma_apply_keeps_paths(fs, plan.drop_last(), path);
        }
    }
}

} // verus!
