//! The registry's records: accounts, sync groups, sync items and the
//! configuration that holds them. Paths are held as text.
use vstd::prelude::*;
use crate::text::{join_of, join_path};

verus! {

/// The view of an optional text.
pub open spec fn opt_view(o: Option<String>) -> Option<Seq<char>> {
    match o {
        Some(s) => Some(s@),
        None => None,
    }
}

/// Copies an optional text.
pub fn copy_opt(o: &Option<String>) -> (r: Option<String>)
    ensures
        opt_view(r) == opt_view(*o),
{
    match o {
        Some(s) => Some(s.clone()),
        None => None,
    }
}

/// Whether `o` holds the text `s`.
pub fn opt_is(o: &Option<String>, s: &str) -> (r: bool)
    ensures
        r == (opt_view(*o) == Some(s@)),
{
    match o {
        Some(t) => {
            let u = s.to_string();
            *t == u
        },
        None => false,
    }
}

/// A login kept by the registry.
#[derive(Debug, Clone)]
pub struct Account {
    pub username: String,
    pub password: String,
    pub note: Option<String>,
}

/// A named set of items that can be switched on and off as a whole.
#[derive(Debug, Clone)]
pub struct SyncGroup {
    pub name: String,
    pub description: Option<String>,
    pub is_enabled: bool,
}

/// A named file or directory tree to back up. `backup_path` is where the
/// registry files it; its snapshots go to the registry's backup directory.
#[derive(Debug, Clone)]
pub struct SyncItem {
    pub name: String,
    pub source_path: String,
    pub backup_path: String,
    pub is_enabled: bool,
    pub group: Option<String>,
}

pub struct SyncGroupView {
    pub name: Seq<char>,
    pub description: Option<Seq<char>>,
    pub is_enabled: bool,
}

pub struct SyncItemView {
    pub name: Seq<char>,
    pub source_path: Seq<char>,
    pub backup_path: Seq<char>,
    pub is_enabled: bool,
    pub group: Option<Seq<char>>,
}

impl View for SyncGroup {
    type V = SyncGroupView;

    open spec fn view(&self) -> SyncGroupView {
        SyncGroupView {
            name: self.name@,
            description: opt_view(self.description),
            is_enabled: self.is_enabled,
        }
    }
}

impl View for SyncItem {
    type V = SyncItemView;

    open spec fn view(&self) -> SyncItemView {
        SyncItemView {
            name: self.name@,
            source_path: self.source_path@,
            backup_path: self.backup_path@,
            is_enabled: self.is_enabled,
            group: opt_view(self.group),
        }
    }
}

impl SyncGroup {
    /// A field-by-field copy.
    pub fn copied(&self) -> (r: SyncGroup)
        ensures
            r@ == self@,
    {
        SyncGroup {
            name: self.name.clone(),
            description: copy_opt(&self.description),
            is_enabled: self.is_enabled,
        }
    }
}

impl SyncItem {
    /// A field-by-field copy.
    pub fn copied(&self) -> (r: SyncItem)
        ensures
            r@ == self@,
    {
        SyncItem {
            name: self.name.clone(),
            source_path: self.source_path.clone(),
            backup_path: self.backup_path.clone(),
            is_enabled: self.is_enabled,
            group: copy_opt(&self.group),
        }
    }
}

/// The views of a sequence of items.
pub open spec fn items_view(items: Seq<SyncItem>) -> Seq<SyncItemView> {
    items.map_values(|i: SyncItem| i@)
}

/// The views of a sequence of groups.
pub open spec fn groups_view(groups: Seq<SyncGroup>) -> Seq<SyncGroupView> {
    groups.map_values(|g: SyncGroup| g@)
}

/// No two items of `s` share a name.
pub open spec fn item_names_distinct(s: Seq<SyncItemView>) -> bool {
    forall|i: int, j: int| 0 <= i < j < s.len() ==> s[i].name != s[j].name
}

/// No two groups of `s` share a name.
pub open spec fn group_names_distinct(s: Seq<SyncGroupView>) -> bool {
    forall|i: int, j: int| 0 <= i < j < s.len() ==> s[i].name != s[j].name
}

/// The whole registry: accounts, script paths, the backup directory, the
/// sync items and the sync groups.
#[derive(Debug)]
pub struct Config {
    pub accounts: Vec<Account>,
    pub game_config_path: String,
    pub script_paths: Vec<String>,
    pub backup_dir: String,
    pub sync_items: Vec<SyncItem>,
    pub sync_groups: Vec<SyncGroup>,
}

/// The name of the registry's file, kept beside the program.
pub open spec fn config_file_name() -> Seq<char> {
    seq!['c', 'o', 'n', 'f', 'i', 'g', '.', 'j', 's', 'o', 'n']
}

/// The registry's file inside the program's directory `exe_dir`.
pub fn get_config_path(exe_dir: &str) -> (r: String)
    ensures
        r@ == join_of(exe_dir@, config_file_name()),
{
    let name = "config.json";
    proof {
        reveal_strlit("config.json");
    }
    assert(name@ =~= config_file_name());
    join_path(exe_dir, name)
}

/// The directory for backups that a fresh registry uses, inside `exe_dir`.
pub fn default_backup_dir(exe_dir: &str) -> (r: String)
    ensures
        r@ == join_of(exe_dir@, seq!['b', 'a', 'c', 'k', 'u', 'p', 's']),
{
    let name = "backups";
    proof {
        reveal_strlit("backups");
    }
    assert(name@ =~= seq!['b', 'a', 'c', 'k', 'u', 'p', 's']);
    join_path(exe_dir, name)
}

impl Config {
    /// A well-formed registry: names identify items, and names identify
    /// groups.
    pub open spec fn wf(&self) -> bool {
        item_names_distinct(items_view(self.sync_items@)) && group_names_distinct(
            groups_view(self.sync_groups@),
        )
    }

    /// A fresh registry for a program in `exe_dir`: no accounts, script
    /// paths, items or groups; backups in `backups` beside the program; the
    /// game's configuration where the game installs it by default.
    pub fn with_defaults(exe_dir: &str) -> (r: Config)
        ensures
            r.accounts@.len() == 0,
            r.script_paths@.len() == 0,
            r.sync_items@.len() == 0,
            r.sync_groups@.len() == 0,
            r.wf(),
            r.backup_dir@ == join_of(exe_dir@, seq!['b', 'a', 'c', 'k', 'u', 'p', 's']),
            r.game_config_path@ == "C:\\Riot Games\\League of Legends\\Config"@,
    {
        Config {
            accounts: Vec::new(),
            game_config_path: "C:\\Riot Games\\League of Legends\\Config".to_string(),
            script_paths: Vec::new(),
            backup_dir: default_backup_dir(exe_dir),
            sync_items: Vec::new(),
            sync_groups: Vec::new(),
        }
    }
}

} // verus!
