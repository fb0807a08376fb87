//! Bulk backup and restore over a scope, the confirmation gate of bulk
//! restores, and the changes that the registry allows.
use vstd::prelude::*;
use crate::text::{lower_of, lowercase, parsed_usize, trim, trim_of};
use crate::error::SyncError;
use crate::filter::{covers, in_scope, select, selection, Scope, ScopeView};
use crate::model::{items_view, Config, SyncItem};
use crate::snapshot::{
    entries_view, is_backup_result, latest_snapshot, plan_backup, snapshot_listing, BackupPlan,
    DirEntryInfo, EntryKind,
};
use crate::text::{join_of, join_path, parse_usize};

verus! {

/// What a numbered choice typed by the user picks.
#[derive(Debug, Clone, Copy, PartialEq, Eq, Structural)]
pub enum Selection {
    /// The entry at this position (from 0).
    Index(usize),
    /// `0`: nothing, the user backs out.
    Cancel,
    /// Not a number, or past the last entry.
    Invalid,
}

/// What the choice `input` picks among `count` entries numbered from 1.
pub open spec fn selection_of(input: Seq<char>, count: nat) -> Selection {
    match parsed_usize(trim_of(input)) {
        Some(n) => if 1 <= n && n <= count {
            Selection::Index((n - 1) as usize)
        } else if n == 0 {
            Selection::Cancel
        } else {
            Selection::Invalid
        },
        None => Selection::Invalid,
    }
}

/// Reads a choice among `count` entries numbered from 1, with `0` to back
/// out; white space around the number is ignored.
pub fn parse_selection(input: &str, count: usize) -> (r: Selection)
    ensures
        r == selection_of(input@, count as nat),
{
    let t = trim(input);
    match parse_usize(t.as_str()) {
        Some(n) => {
            if 1 <= n && n <= count {
                Selection::Index(n - 1)
            } else if n == 0 {
                Selection::Cancel
            } else {
                Selection::Invalid
            }
        },
        None => Selection::Invalid,
    }
}

/// The word that confirms a destructive operation.
pub open spec fn affirmative() -> Seq<char> {
    seq!['y', 'e', 's']
}

/// Tests whether an answer, already trimmed and lowercased, is the word
/// that confirms.
pub fn is_yes(folded: &str) -> (r: bool)
    ensures
        r == (folded@ == affirmative()),
{
    let yes = "yes";
    proof {
        reveal_strlit("yes");
    }
    assert(yes@ =~= affirmative());
    let a = folded.to_string();
    let b = yes.to_string();
    a == b
}

/// Tests whether the answer `input` confirms: once trimmed and lowercased
/// it reads `yes`.
pub fn is_confirmed(input: &str) -> (r: bool)
    ensures
        r == (lower_of(trim_of(input@)) == affirmative()),
{
    let t = trim(input);
    let folded = lowercase(t.as_str());
    is_yes(folded.as_str())
}

/// The backup into the backup root `root` of each item of the registry that
/// `scope` covers, at the item's own position; `None` where `scope` does
/// not cover the item. `sources[i]` is what stands at the source path of
/// `items[i]` now.
pub open spec fn is_scope_backup(
    r: Seq<Option<Result<BackupPlan, SyncError>>>,
    items: Seq<SyncItem>,
    scope: ScopeView,
    root: Seq<char>,
    sources: Seq<Option<EntryKind>>,
    timestamp: nat,
) -> bool {
    &&& r.len() == items.len()
    &&& forall|i: int| 0 <= i < items.len() ==> match #[trigger] r[i] {
        Some(x) => in_scope(items[i]@, scope) && is_backup_result(x, items[i]@, root, sources[i], timestamp),
        None => !in_scope(items[i]@, scope),
    }
}

/// Plans the backup into `backup_root` of every item that `scope` covers,
/// each on its own: a missing source is reported for its item and does not
/// stop the others.
pub fn plan_scope_backup(
    items: &Vec<SyncItem>,
    scope: &Scope,
    backup_root: &str,
    sources: &Vec<Option<EntryKind>>,
    timestamp: u64,
) -> (r: Vec<Option<Result<BackupPlan, SyncError>>>)
    requires
        sources.len() == items.len(),
    ensures
        is_scope_backup(r@, items@, scope@, backup_root@, sources@, timestamp as nat),
{
    let mut r: Vec<Option<Result<BackupPlan, SyncError>>> = Vec::new();
    let mut i: usize = 0;
    while i < items.len()
        invariant
            i <= items.len(),
            sources.len() == items.len(),
            r.len() == i,
            forall|j: int| 0 <= j < i ==> match #[trigger] r@[j] {
                Some(x) => in_scope(items@[j]@, scope@) && is_backup_result(
                    x,
                    items@[j]@,
                    backup_root@,
                    sources@[j],
                    timestamp as nat,
                ),
                None => !in_scope(items@[j]@, scope@),
            },
        decreases items.len() - i,
    {
        if covers(scope, &items[i]) {
            let p = plan_backup(&items[i], backup_root, sources[i], timestamp);
            r.push(Some(p));
        } else {
            r.push(None);
        }
        i = i + 1;
    }
    r
}

/// Plans the backup of every enabled item into the backup directory at
/// `timestamp`. `sources[i]` is what stands at the source path of the
/// `i`-th item now.
pub fn backup_all(config: &Config, sources: &Vec<Option<EntryKind>>, timestamp: u64) -> (r: Vec<
    Option<Result<BackupPlan, SyncError>>,
>)
    requires
        sources.len() == config.sync_items.len(),
    ensures
        is_scope_backup(
            r@,
            config.sync_items@,
            ScopeView::All,
            config.backup_dir@,
            sources@,
            timestamp as nat,
        ),
{
    plan_scope_backup(&config.sync_items, &Scope::All, config.backup_dir.as_str(), sources, timestamp)
}

/// Plans the backup of the enabled items of the group at `group_index`. A
/// disabled group is backed up only on a confirming `confirmation`.
pub fn backup_group(
    config: &Config,
    group_index: usize,
    confirmation: &str,
    sources: &Vec<Option<EntryKind>>,
    timestamp: u64,
) -> (r: Result<Vec<Option<Result<BackupPlan, SyncError>>>, SyncError>)
    requires
        sources.len() == config.sync_items.len(),
    ensures
        group_index >= config.sync_groups.len() ==> r matches Err(SyncError::InvalidSelection),
        group_index < config.sync_groups.len() ==> {
            let g = config.sync_groups@[group_index as int];
            if !g.is_enabled && lower_of(trim_of(confirmation@)) != affirmative() {
                r matches Err(SyncError::Unconfirmed)
            } else {
                r matches Ok(plans) && is_scope_backup(
                    plans@,
                    config.sync_items@,
                    ScopeView::Group(g.name@),
                    config.backup_dir@,
                    sources@,
                    timestamp as nat,
                )
            }
        },
{
    if group_index >= config.sync_groups.len() {
        return Err(SyncError::InvalidSelection);
    }
    let g = &config.sync_groups[group_index];
    if !g.is_enabled && !is_confirmed(confirmation) {
        return Err(SyncError::Unconfirmed);
    }
    let scope = Scope::Group(g.name.clone());
    Ok(plan_scope_backup(&config.sync_items, &scope, config.backup_dir.as_str(), sources, timestamp))
}

/// The items that a restore of every enabled item works on, once
/// `confirmation` confirms it; nothing is restored without it.
pub fn restore_all(config: &Config, confirmation: &str) -> (r: Result<Vec<SyncItem>, SyncError>)
    ensures
        lower_of(trim_of(confirmation@)) != affirmative() ==> r matches Err(SyncError::Unconfirmed),
        lower_of(trim_of(confirmation@)) == affirmative() ==> (r matches Ok(items) && items_view(items@)
            == selection(items_view(config.sync_items@), ScopeView::All)),
{
    if !is_confirmed(confirmation) {
        return Err(SyncError::Unconfirmed);
    }
    Ok(select(&config.sync_items, &Scope::All))
}

/// The items that a restore of the group at `group_index` works on, once
/// `confirmation` confirms it.
pub fn restore_group(config: &Config, group_index: usize, confirmation: &str) -> (r: Result<
    Vec<SyncItem>,
    SyncError,
>)
    ensures
        group_index >= config.sync_groups.len() ==> r matches Err(SyncError::InvalidSelection),
        group_index < config.sync_groups.len() && lower_of(trim_of(confirmation@)) != affirmative()
            ==> r matches Err(SyncError::Unconfirmed),
        group_index < config.sync_groups.len() && lower_of(trim_of(confirmation@)) == affirmative()
            ==> (r matches Ok(items) && items_view(items@) == selection(
            items_view(config.sync_items@),
            ScopeView::Group(config.sync_groups@[group_index as int].name@),
        )),
{
    if group_index >= config.sync_groups.len() {
        return Err(SyncError::InvalidSelection);
    }
    if !is_confirmed(confirmation) {
        return Err(SyncError::Unconfirmed);
    }
    let scope = Scope::Group(config.sync_groups[group_index].name.clone());
    Ok(select(&config.sync_items, &scope))
}

/// The snapshot that restoring the item `item_name` uses: the newest of
/// its snapshot directories among `root_entries`, the entries of the
/// backup root `backup_root`. An item without a snapshot has nothing to
/// restore from, which is reported as not found at the backup root.
pub fn locate_latest(item_name: &str, backup_root: &str, root_entries: &Vec<DirEntryInfo>) -> (r: Result<
    String,
    SyncError,
>)
    ensures
        ({
            let l = snapshot_listing(entries_view(root_entries@), item_name@);
            if l.len() == 0 {
                r matches Err(SyncError::NotFound { path }) && path@ == backup_root@
            } else {
                r matches Ok(dir) && dir@ == join_of(backup_root@, l[0].name)
            }
        }),
{
    match latest_snapshot(item_name, root_entries) {
        None => Err(SyncError::NotFound { path: backup_root.to_string() }),
        Some(e) => Ok(join_path(backup_root, e.name.as_str())),
    }
}

/// How a bulk operation went as a whole.
#[derive(Debug, Clone, Copy, PartialEq, Eq, Structural)]
pub enum BatchStatus {
    /// The scope covered no item.
    Nothing,
    /// Every item went through.
    Complete,
    /// Some items went through and some did not.
    Partial,
    /// No item went through.
    Failed,
}

/// How many of the outcomes are successes.
pub open spec fn successes(s: Seq<bool>) -> nat
    decreases s.len(),
{
    if s.len() == 0 {
        0
    } else {
        successes(s.drop_last()) + if s.last() { 1nat } else { 0nat }
    }
}

/// The status of a bulk operation whose items went through or not as
/// `outcomes` says.
pub open spec fn status_of(outcomes: Seq<bool>) -> BatchStatus {
    if outcomes.len() == 0 {
        BatchStatus::Nothing
    } else if successes(outcomes) == outcomes.len() {
        BatchStatus::Complete
    } else if successes(outcomes) == 0 {
        BatchStatus::Failed
    } else {
        BatchStatus::Partial
    }
}

proof fn lemma_successes_bound(s: Seq<bool>)
    ensures
        successes(s) <= s.len(),
    decreases s.len(),
{
    if s.len() > 0 {
        lemma_successes_bound(s.drop_last());
    }
}

/// Sums up a bulk operation from the outcome of each of its items, in
/// order: `true` where the item went through.
pub fn batch_status(outcomes: &Vec<bool>) -> (r: BatchStatus)
    ensures
        r == status_of(outcomes@),
{
    let mut ok: usize = 0;
    let mut i: usize = 0;
    while i < outcomes.len()
        invariant
            i <= outcomes.len(),
            ok == successes(outcomes@.take(i as int)),
        decreases outcomes.len() - i,
    {
        proof {
            assert(outcomes@.take(i + 1).drop_last() =~= outcomes@.take(i as int));
            lemma_successes_bound(outcomes@.take(i as int));
        }
        if outcomes[i] {
            ok = ok + 1;
        }
        i = i + 1;
    }
    assert(outcomes@.take(outcomes.len() as int) =~= outcomes@);
    if outcomes.len() == 0 {
        BatchStatus::Nothing
    } else if ok == outcomes.len() {
        BatchStatus::Complete
    } else if ok == 0 {
        BatchStatus::Failed
    } else {
        BatchStatus::Partial
    }
}

} // verus!
