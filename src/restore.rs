//! The restore resolver: from what a snapshot holds and what stands at the
//! target now, the steps that put the snapshot's content back.
use vstd::prelude::*;
use crate::text::{join_of, join_path, parent_of, parent_path};
use crate::error::SyncError;
use crate::model::SyncItem;
use crate::snapshot::{
    entries_view, is_backup_plan, stored_name_of, BackupCopy, BackupPlan, DirEntryInfo, EntryKind,
    EntryView,
};

verus! {

/// The copy that puts a snapshot's content back.
#[derive(Debug, Clone)]
pub enum RestoreCopy {
    /// Copy the file `from` to `to`.
    File { from: String, to: String },
    /// Create the directory `to` and copy the contents of the directory
    /// `from` into it, recursively.
    DirectoryContents { from: String, to: String },
    /// List the directory `dir`, pick its first regular file with
    /// [`file_to_restore`], and copy that file to `to`.
    FirstFileOf { dir: String, to: String },
    /// Copy the directory `from`, under its own name, into `into`.
    Verbatim { from: String, into: String },
}

/// The steps of a restore, in order: make sure `parent` exists; if
/// `clear` names what stands at `target`, remove it (recursively for a
/// directory); then make the copy. Nothing undoes the removal if the copy
/// then fails: the target is left absent.
#[derive(Debug, Clone)]
pub struct RestorePlan {
    pub parent: String,
    pub target: String,
    pub clear: Option<EntryKind>,
    pub copy: RestoreCopy,
}

/// Whether a target that stands as `target` now (`None`: nothing) is to be
/// restored as a directory.
pub open spec fn expects_directory(target: Option<EntryKind>) -> bool {
    target is None || target == Some(EntryKind::Directory)
}

/// The copy that restores `source` from the snapshot directory `snap`
/// whose entries are `contents` (not empty), where `parent` holds `source`.
pub open spec fn restore_copy_of(
    snap: Seq<char>,
    contents: Seq<EntryView>,
    source: Seq<char>,
    parent: Seq<char>,
    target: Option<EntryKind>,
) -> RestoreCopyView {
    if contents.len() == 1 && contents[0].kind == EntryKind::File {
        RestoreCopyView::File { from: join_of(snap, contents[0].name), to: source }
    } else if contents.len() == 1 && contents[0].kind == EntryKind::Directory {
        if expects_directory(target) {
            RestoreCopyView::DirectoryContents { from: join_of(snap, contents[0].name), to: source }
        } else {
            RestoreCopyView::FirstFileOf { dir: join_of(snap, contents[0].name), to: source }
        }
    } else {
        RestoreCopyView::Verbatim { from: snap, into: parent }
    }
}

pub enum RestoreCopyView {
    File { from: Seq<char>, to: Seq<char> },
    DirectoryContents { from: Seq<char>, to: Seq<char> },
    FirstFileOf { dir: Seq<char>, to: Seq<char> },
    Verbatim { from: Seq<char>, into: Seq<char> },
}

impl View for RestoreCopy {
    type V = RestoreCopyView;

    open spec fn view(&self) -> RestoreCopyView {
        match self {
            RestoreCopy::File { from, to } => RestoreCopyView::File { from: from@, to: to@ },
            RestoreCopy::DirectoryContents { from, to } => RestoreCopyView::DirectoryContents {
                from: from@,
                to: to@,
            },
            RestoreCopy::FirstFileOf { dir, to } => RestoreCopyView::FirstFileOf { dir: dir@, to: to@ },
            RestoreCopy::Verbatim { from, into } => RestoreCopyView::Verbatim { from: from@, into: into@ },
        }
    }
}

/// Whether `plan` restores `source` from the snapshot directory `snap`
/// whose entries are `contents`, where `target` is what stands at `source`
/// now.
pub open spec fn is_restore_plan(
    plan: RestorePlan,
    source: Seq<char>,
    snap: Seq<char>,
    contents: Seq<EntryView>,
    target: Option<EntryKind>,
) -> bool {
    &&& parent_of(source) matches Some(parent)
    &&& plan.parent@ == parent
    &&& plan.target@ == source
    &&& plan.clear == target
    &&& plan.copy@ == restore_copy_of(snap, contents, source, parent, target)
}

/// Resolves the restore of `item` from the snapshot directory `snapshot_dir`.
/// `contents` lists that directory (`None`: it does not exist), `target` is
/// what stands at the item's source path now (`None`: nothing).
///
/// A snapshot that is missing or empty is not found, and the plan is not
/// made: nothing at the source path is touched. An empty source path names
/// nothing: it is an invalid selection, and no plan is made either.
/// Otherwise the snapshot's single
/// file is copied to the source path; its single directory is copied back
/// as the source directory, or, where a file stands at the source path,
/// its first regular file is; any other content is copied whole into the
/// source's parent.
pub fn resolve_restore(
    item: &SyncItem,
    snapshot_dir: &str,
    contents: &Option<Vec<DirEntryInfo>>,
    target: Option<EntryKind>,
) -> (r: Result<RestorePlan, SyncError>)
    ensures
        match contents {
            None => r matches Err(SyncError::NotFound { path }) && path@ == snapshot_dir@,
            Some(c) => if c.len() == 0 {
                r matches Err(SyncError::NotFound { path }) && path@ == snapshot_dir@
            } else if item.source_path@.len() == 0 {
                r matches Err(SyncError::InvalidSelection)
            } else {
                r matches Ok(plan) && is_restore_plan(
                    plan,
                    item.source_path@,
                    snapshot_dir@,
                    entries_view(c@),
                    target,
                )
            },
        },
{
    let c = match contents {
        None => {
            return Err(SyncError::NotFound { path: snapshot_dir.to_string() });
        },
        Some(c) => c,
    };
    if c.len() == 0 {
        return Err(SyncError::NotFound { path: snapshot_dir.to_string() });
    }
    let parent = match parent_path(item.source_path.as_str()) {
        None => {
            return Err(SyncError::InvalidSelection);
        },
        Some(p) => p,
    };
    let ghost cv = entries_view(c@);
    proof {
        assert(cv[0] == c@[0]@);
    }
    let copy = if c.len() == 1 && c[0].kind == EntryKind::File {
        RestoreCopy::File {
            from: join_path(snapshot_dir, c[0].name.as_str()),
            to: item.source_path.clone(),
        }
    } else if c.len() == 1 && c[0].kind == EntryKind::Directory {
        let from = join_path(snapshot_dir, c[0].name.as_str());
        let expect_dir = match target {
            None => true,
            Some(k) => k == EntryKind::Directory,
        };
        if expect_dir {
            RestoreCopy::DirectoryContents { from, to: item.source_path.clone() }
        } else {
            RestoreCopy::FirstFileOf { dir: from, to: item.source_path.clone() }
        }
    } else {
        RestoreCopy::Verbatim { from: snapshot_dir.to_string(), into: parent.clone() }
    };
    Ok(RestorePlan { parent, target: item.source_path.clone(), clear: target, copy })
}

/// The position of the first regular file in `s`, if any.
pub open spec fn first_file_index(s: Seq<EntryView>) -> Option<int>
    decreases s.len(),
{
    if s.len() == 0 {
        None
    } else if s[0].kind == EntryKind::File {
        Some(0)
    } else {
        match first_file_index(s.drop_first()) {
            Some(k) => Some(k + 1),
            None => None,
        }
    }
}

/// The file that a `FirstFileOf` copy takes from the directory `dir`, whose
/// entries, in the order listed, are `entries`: its first regular file.
/// A directory without a regular file has nothing to restore, which is
/// reported as not found.
pub fn file_to_restore(dir: &str, entries: &Vec<DirEntryInfo>) -> (r: Result<String, SyncError>)
    ensures
        match first_file_index(entries_view(entries@)) {
            Some(k) => r matches Ok(p) && p@ == join_of(dir@, entries_view(entries@)[k].name),
            None => r matches Err(SyncError::NotFound { path }) && path@ == dir@,
        },
{
    let ghost ev = entries_view(entries@);
    let mut i: usize = 0;
    assert(ev.subrange(0, ev.len() as int) =~= ev);
    while i < entries.len()
        invariant
            i <= entries.len(),
            ev == entries_view(entries@),
            first_file_index(ev) == (match first_file_index(ev.subrange(i as int, ev.len() as int)) {
                Some(k) => Some(k + i),
                None => None::<int>,
            }),
        decreases entries.len() - i,
    {
        let ghost rest = ev.subrange(i as int, ev.len() as int);
        proof {
            assert(rest[0] == entries@[i as int]@);
            assert(rest.drop_first() =~= ev.subrange(i + 1, ev.len() as int));
        }
        if entries[i].kind == EntryKind::File {
            return Ok(join_path(dir, entries[i].name.as_str()));
        }
        i = i + 1;
    }
    assert(ev.subrange(i as int, ev.len() as int).len() == 0);
    Err(SyncError::NotFound { path: dir.to_string() })
}

/// A directory backed up and then restored comes back from where the backup
/// put it: where the backup of a directory source copied its contents into
/// the one directory of the snapshot, restoring the source from that
/// snapshot (with a directory or nothing at the source path) copies that
/// directory's contents back to the source path.
pub proof fn lemma_directory_round_trip(
    backup: BackupPlan,
    restore: RestorePlan,
    name: Seq<char>,
    source: Seq<char>,
    root: Seq<char>,
    timestamp: nat,
    stored: EntryView,
    target: Option<EntryKind>,
)
    requires
        is_backup_plan(backup, name, source, root, EntryKind::Directory, timestamp),
        stored.kind == EntryKind::Directory,
        stored.name == stored_name_of(source),
        expects_directory(target),
        is_restore_plan(restore, source, backup.snapshot_dir@, seq![stored], target),
    ensures
        backup.copy matches BackupCopy::DirectoryContents { from, to }
            && restore.copy@ == (RestoreCopyView::DirectoryContents { from: to@, to: from@ }),
{
}

/// A file backed up and then restored comes back from where the backup put
/// it: where the backup of a file source copied it as the one file of the
/// snapshot, restoring the source from that snapshot copies that file back
/// to the source path, whatever stands there now.
pub proof fn lemma_file_round_trip(
    backup: BackupPlan,
    restore: RestorePlan,
    name: Seq<char>,
    source: Seq<char>,
    root: Seq<char>,
    timestamp: nat,
    stored: EntryView,
    target: Option<EntryKind>,
)
    requires
        is_backup_plan(backup, name, source, root, EntryKind::File, timestamp),
        stored.kind == EntryKind::File,
        stored.name == stored_name_of(source),
        is_restore_plan(restore, source, backup.snapshot_dir@, seq![stored], target),
    ensures
        backup.copy matches BackupCopy::File { from, to }
            && restore.copy@ == (RestoreCopyView::File { from: to@, to: from@ }),
{
}

} // verus!
