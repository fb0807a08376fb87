//! Script files and directories, backed up together into one directory per
//! backup, and the game's configuration, backed up as an item of its own.
use vstd::prelude::*;
use vstd::string::*;
use crate::text::{
    base_name, base_name_of, decimal, format_decimal, join_of, join_path, parent_of, parent_path,
    parsed_usize, parse_usize, push_char,
};
use crate::error::SyncError;
use crate::model::{Config, SyncItem, SyncItemView};
use crate::restore::{resolve_restore, RestoreCopy, RestoreCopyView, RestorePlan, is_restore_plan};
use crate::snapshot::{
    is_backup_result, plan_backup, snapshot_name, snapshot_name_of, BackupCopy, BackupPlan,
    DirEntryInfo, EntryKind, entries_view,
};

verus! {

/// The name under which the game's configuration is backed up.
pub open spec fn game_config_name() -> Seq<char> {
    seq!['g', 'a', 'm', 'e', '_', 'c', 'o', 'n', 'f', 'i', 'g']
}

/// The game's configuration as an item: named `game_config`, backed up
/// into the backup directory.
pub open spec fn game_config_item_of(config: Config) -> SyncItemView {
    SyncItemView {
        name: game_config_name(),
        source_path: config.game_config_path@,
        backup_path: config.backup_dir@,
        is_enabled: true,
        group: None,
    }
}

/// The game's configuration as an item.
pub fn game_config_item(config: &Config) -> (r: SyncItem)
    ensures
        r@ == game_config_item_of(*config),
{
    let name = "game_config";
    proof {
        reveal_strlit("game_config");
    }
    assert(name@ =~= game_config_name());
    SyncItem {
        name: name.to_string(),
        source_path: config.game_config_path.clone(),
        backup_path: config.backup_dir.clone(),
        is_enabled: true,
        group: None,
    }
}

/// Plans the backup of the game's configuration at `timestamp`, given what
/// stands at its path now.
pub fn backup_game_config(config: &Config, source: Option<EntryKind>, timestamp: u64) -> (r: Result<
    BackupPlan,
    SyncError,
>)
    ensures
        is_backup_result(r, game_config_item_of(*config), config.backup_dir@, source, timestamp as nat),
{
    let item = game_config_item(config);
    plan_backup(&item, config.backup_dir.as_str(), source, timestamp)
}

/// Resolves the restore of the game's configuration from the snapshot
/// directory `snapshot_dir`, as [`resolve_restore`] does for an item.
pub fn restore_game_config(
    config: &Config,
    snapshot_dir: &str,
    contents: &Option<Vec<DirEntryInfo>>,
    target: Option<EntryKind>,
) -> (r: Result<RestorePlan, SyncError>)
    ensures
        match contents {
            None => r matches Err(SyncError::NotFound { path }) && path@ == snapshot_dir@,
            Some(c) => if c.len() == 0 {
                r matches Err(SyncError::NotFound { path }) && path@ == snapshot_dir@
            } else if config.game_config_path@.len() == 0 {
                r matches Err(SyncError::InvalidSelection)
            } else {
                r matches Ok(plan) && is_restore_plan(
                    plan,
                    config.game_config_path@,
                    snapshot_dir@,
                    entries_view(c@),
                    target,
                )
            },
        },
{
    let item = game_config_item(config);
    resolve_restore(&item, snapshot_dir, contents, target)
}

/// The text that starts the name of every backup of the scripts.
pub open spec fn scripts_prefix() -> Seq<char> {
    seq!['s', 'c', 'r', 'i', 'p', 't', 's']
}

/// The name under which the script path `path` at `index` is stored in a
/// backup of the scripts: `{index}_{last component}`, with `unknown` for a
/// path without a last component.
pub open spec fn script_entry_name_of(index: nat, path: Seq<char>) -> Seq<char> {
    decimal(index).push('_') + if base_name_of(path).len() > 0 {
        base_name_of(path)
    } else {
        seq!['u', 'n', 'k', 'n', 'o', 'w', 'n']
    }
}

/// The name under which the script path `path` at `index` is stored.
pub fn script_entry_name(index: usize, path: &str) -> (r: String)
    ensures
        r@ == script_entry_name_of(index as nat, path@),
{
    let mut r = format_decimal(index as u64);
    push_char(&mut r, '_');
    let b = base_name(path);
    if b.as_str().unicode_len() > 0 {
        r.append(b.as_str());
    } else {
        let u = "unknown";
        proof {
            reveal_strlit("unknown");
        }
        assert(u@ =~= seq!['u', 'n', 'k', 'n', 'o', 'w', 'n']);
        r.append(u);
    }
    r
}

/// Whether `plan` backs up the script `path` at `index`, of kind `kind`,
/// into the directory `dir`.
pub open spec fn is_script_copy(copy: BackupCopy, dir: Seq<char>, index: nat, path: Seq<char>, kind: EntryKind) -> bool {
    let to = join_of(dir, script_entry_name_of(index, path));
    match copy {
        BackupCopy::DirectoryContents { from, to: t } => kind == EntryKind::Directory && from@ == path
            && t@ == to,
        BackupCopy::File { from, to: t } => kind != EntryKind::Directory && from@ == path && t@ == to,
    }
}

/// A backup of the scripts: create the fresh directory `snapshot_dir` in
/// the backup directory `backup_root`, then make each copy that is there;
/// a script path that was missing is reported in its place.
#[derive(Debug, Clone)]
pub struct ScriptBackup {
    pub backup_root: String,
    pub snapshot_dir: String,
    pub copies: Vec<Result<BackupCopy, SyncError>>,
}

/// Plans a backup of every script path at `timestamp`; `sources[i]` is what
/// stands at the `i`-th script path now. The backup goes into
/// `scripts_{timestamp}` in the backup directory, each script stored
/// under [`script_entry_name`]. Without any script path there is nothing
/// to back up, which is an invalid selection.
pub fn backup_scripts(config: &Config, sources: &Vec<Option<EntryKind>>, timestamp: u64) -> (r: Result<
    ScriptBackup,
    SyncError,
>)
    requires
        sources.len() == config.script_paths.len(),
    ensures
        config.script_paths.len() == 0 ==> r matches Err(SyncError::InvalidSelection),
        config.script_paths.len() > 0 ==> (r matches Ok(b) && {
            let dir = join_of(config.backup_dir@, snapshot_name_of(scripts_prefix(), timestamp as nat));
            &&& b.backup_root@ == config.backup_dir@
            &&& b.snapshot_dir@ == dir
            &&& b.copies.len() == config.script_paths.len()
            &&& forall|i: int| 0 <= i < b.copies.len() ==> match #[trigger] b.copies@[i] {
                Ok(c) => sources@[i] matches Some(kind) && is_script_copy(
                    c,
                    dir,
                    i as nat,
                    config.script_paths@[i]@,
                    kind,
                ),
                Err(e) => sources@[i] is None && (e matches SyncError::NotFound { path }
                    && path@ == config.script_paths@[i]@),
            }
        }),
{
    if config.script_paths.len() == 0 {
        return Err(SyncError::InvalidSelection);
    }
    let prefix = "scripts";
    proof {
        reveal_strlit("scripts");
    }
    assert(prefix@ =~= scripts_prefix());
    let name = snapshot_name(prefix, timestamp);
    let dir = join_path(config.backup_dir.as_str(), name.as_str());
    let mut copies: Vec<Result<BackupCopy, SyncError>> = Vec::new();
    let mut i: usize = 0;
    while i < config.script_paths.len()
        invariant
            i <= config.script_paths.len(),
            sources.len() == config.script_paths.len(),
            copies.len() == i,
            dir@ == join_of(config.backup_dir@, snapshot_name_of(scripts_prefix(), timestamp as nat)),
            forall|j: int| 0 <= j < i ==> match #[trigger] copies@[j] {
                Ok(c) => sources@[j] matches Some(kind) && is_script_copy(
                    c,
                    dir@,
                    j as nat,
                    config.script_paths@[j]@,
                    kind,
                ),
                Err(e) => sources@[j] is None && (e matches SyncError::NotFound { path }
                    && path@ == config.script_paths@[j]@),
            },
        decreases config.script_paths.len() - i,
    {
        let p = &config.script_paths[i];
        match sources[i] {
            None => {
                copies.push(Err(SyncError::NotFound { path: p.clone() }));
            },
            Some(kind) => {
                let entry = script_entry_name(i, p.as_str());
                let to = join_path(dir.as_str(), entry.as_str());
                if kind == EntryKind::Directory {
                    copies.push(Ok(BackupCopy::DirectoryContents { from: p.clone(), to }));
                } else {
                    copies.push(Ok(BackupCopy::File { from: p.clone(), to }));
                }
            },
        }
        i = i + 1;
    }
    Ok(ScriptBackup { backup_root: config.backup_dir.clone(), snapshot_dir: dir, copies })
}

/// The position of the first `_` in `s`, if any.
pub open spec fn first_underscore(s: Seq<char>) -> Option<int>
    decreases s.len(),
{
    if s.len() == 0 {
        None
    } else if s[0] == '_' {
        Some(0)
    } else {
        match first_underscore(s.drop_first()) {
            Some(k) => Some(k + 1),
            None => None,
        }
    }
}

/// Which script path an entry of a backup of the scripts restores.
#[derive(Debug, Clone, Copy, PartialEq, Eq, Structural)]
pub enum ScriptEntry {
    /// The script path at this position.
    Target(usize),
    /// The name has no `_` after its index.
    NoSeparator,
    /// What precedes the first `_` is not an index.
    BadIndex,
    /// The index is past the last script path; it is given.
    OutOfRange(usize),
}

/// Which script path the entry named `name` restores, among `count`.
pub open spec fn script_entry_of(name: Seq<char>, count: nat) -> ScriptEntry {
    match first_underscore(name) {
        None => ScriptEntry::NoSeparator,
        Some(k) => match parsed_usize(name.take(k)) {
            None => ScriptEntry::BadIndex,
            Some(i) => if i < count {
                ScriptEntry::Target(i as usize)
            } else {
                ScriptEntry::OutOfRange(i as usize)
            },
        },
    }
}

/// Reads which script path the entry named `name` restores, among `count`:
/// the number before its first `_`.
pub fn script_entry_target(name: &str, count: usize) -> (r: ScriptEntry)
    ensures
        r == script_entry_of(name@, count as nat),
{
    let n = name.unicode_len();
    let mut k: usize = 0;
    assert(name@.subrange(0, n as int) =~= name@);
    while k < n && name.get_char(k) != '_'
        invariant
            k <= n,
            n == name@.len(),
            first_underscore(name@) == (match first_underscore(name@.subrange(k as int, n as int)) {
                Some(j) => Some(j + k),
                None => None::<int>,
            }),
        decreases n - k,
    {
        assert(name@.subrange(k as int, n as int).drop_first() =~= name@.subrange(k + 1, n as int));
        k = k + 1;
    }
    if k == n {
        assert(name@.subrange(k as int, n as int).len() == 0);
        return ScriptEntry::NoSeparator;
    }
    let head = name.substring_char(0, k);
    assert(head@ =~= name@.take(k as int));
    match parse_usize(head) {
        None => ScriptEntry::BadIndex,
        Some(i) => {
            if i < count {
                ScriptEntry::Target(i)
            } else {
                ScriptEntry::OutOfRange(i)
            }
        },
    }
}

/// The restore of one entry of a backup of the scripts, found at `entry`
/// in the backup's directory, onto the script path `target_path`, where
/// `target` stands now (`None`: nothing): a directory's contents or a
/// file are copied to the script path, after clearing what stood there.
pub fn plan_script_restore(entry: &str, kind: EntryKind, target_path: &str, target: Option<EntryKind>) -> (r:
    Result<RestorePlan, SyncError>)
    ensures
        parent_of(target_path@) is None ==> r matches Err(SyncError::InvalidSelection),
        parent_of(target_path@) matches Some(parent) ==> (r matches Ok(plan) && plan.parent@ == parent
            && plan.target@ == target_path@ && plan.clear == target && plan.copy@ == if kind
            == EntryKind::Directory {
            RestoreCopyView::DirectoryContents { from: entry@, to: target_path@ }
        } else {
            RestoreCopyView::File { from: entry@, to: target_path@ }
        }),
{
    let parent = match parent_path(target_path) {
        None => {
            return Err(SyncError::InvalidSelection);
        },
        Some(p) => p,
    };
    let copy = if kind == EntryKind::Directory {
        RestoreCopy::DirectoryContents { from: entry.to_string(), to: target_path.to_string() }
    } else {
        RestoreCopy::File { from: entry.to_string(), to: target_path.to_string() }
    };
    Ok(RestorePlan { parent, target: target_path.to_string(), clear: target, copy })
}

} // verus!
