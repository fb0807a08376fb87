use game_sync::error::SyncError;
use game_sync::keys::{char_to_scan_code, key_strokes, needs_shift, KeyStroke};
use game_sync::model::{Config, SyncGroup, SyncItem};
use game_sync::registry::{
    add_account, add_script_path, add_sync_group, add_sync_item, assign_group_to_item,
    group_member_count, remove_account, remove_script_path, remove_sync_group, remove_sync_item,
    toggle_sync_group, toggle_sync_item, MemberPolicy,
};
use game_sync::scripts::{
    backup_game_config, backup_scripts, plan_script_restore, restore_game_config,
    script_entry_name, script_entry_target, ScriptEntry,
};
use game_sync::restore::RestoreCopy;
use game_sync::snapshot::{BackupCopy, DirEntryInfo, EntryKind};

fn config() -> Config {
    Config {
        accounts: Vec::new(),
        game_config_path: "/games/lol/Config".to_string(),
        script_paths: Vec::new(),
        backup_dir: "/backups".to_string(),
        sync_items: Vec::new(),
        sync_groups: Vec::new(),
    }
}

fn group(name: &str) -> SyncGroup {
    SyncGroup { name: name.to_string(), description: None, is_enabled: true }
}

fn member(name: &str, g: Option<&str>) -> SyncItem {
    SyncItem {
        name: name.to_string(),
        source_path: format!("/s/{}", name),
        backup_path: format!("/backups/{}", name),
        is_enabled: true,
        group: g.map(|s| s.to_string()),
    }
}

#[test]
fn fresh_registry() {
    let c = Config::with_defaults("/opt/tool");
    assert_eq!(c.backup_dir, "/opt/tool/backups");
    assert_eq!(c.game_config_path, "C:\\Riot Games\\League of Legends\\Config");
    assert!(c.sync_items.is_empty() && c.sync_groups.is_empty() && c.accounts.is_empty());
}

#[test]
fn adding_items() {
    let mut c = config();
    c.sync_groups.push(group("g"));
    assert!(add_sync_item(&mut c, " cfg \n", " /home/u/cfg ", true, Some(0)).is_ok());
    let it = &c.sync_items[0];
    assert_eq!(it.name, "cfg");
    assert_eq!(it.source_path, "/home/u/cfg");
    assert_eq!(it.backup_path, "/backups/cfg");
    assert!(it.is_enabled);
    assert_eq!(it.group.as_deref(), Some("g"));
    match add_sync_item(&mut c, "cfg", "/x", true, None) {
        Err(SyncError::AlreadyExists { name }) => assert_eq!(name, "cfg"),
        other => panic!("unexpected {:?}", other),
    }
    match add_sync_item(&mut c, "new", " /missing ", false, None) {
        Err(SyncError::NotFound { path }) => assert_eq!(path, "/missing"),
        other => panic!("unexpected {:?}", other),
    }
    assert!(matches!(add_sync_item(&mut c, "new", "/x", true, Some(5)), Err(SyncError::InvalidSelection)));
    assert_eq!(c.sync_items.len(), 1);
    assert!(add_sync_item(&mut c, "new", "/x", true, None).is_ok());
    assert_eq!(c.sync_items[1].group, None);
}

#[test]
fn toggling_and_removing_items() {
    let mut c = config();
    c.sync_items.push(member("a", None));
    c.sync_items.push(member("b", None));
    assert_eq!(toggle_sync_item(&mut c, 1).unwrap(), false);
    assert!(!c.sync_items[1].is_enabled);
    assert_eq!(toggle_sync_item(&mut c, 1).unwrap(), true);
    assert!(matches!(toggle_sync_item(&mut c, 2), Err(SyncError::InvalidSelection)));
    assert_eq!(remove_sync_item(&mut c, 0).unwrap().name, "a");
    assert_eq!(c.sync_items.len(), 1);
    assert!(matches!(remove_sync_item(&mut c, 1), Err(SyncError::InvalidSelection)));
}

#[test]
fn groups() {
    let mut c = config();
    assert!(add_sync_group(&mut c, " g ", "  ").is_ok());
    assert_eq!(c.sync_groups[0].name, "g");
    assert_eq!(c.sync_groups[0].description, None);
    assert!(c.sync_groups[0].is_enabled);
    assert!(add_sync_group(&mut c, "h", " games ").is_ok());
    assert_eq!(c.sync_groups[1].description.as_deref(), Some("games"));
    assert!(matches!(add_sync_group(&mut c, "g", ""), Err(SyncError::AlreadyExists { .. })));
    assert_eq!(toggle_sync_group(&mut c, 0).unwrap(), false);
    assert!(matches!(toggle_sync_group(&mut c, 9), Err(SyncError::InvalidSelection)));
}

#[test]
fn removing_a_group_ungroups_or_cascades() {
    let mut c = config();
    c.sync_groups.push(group("g"));
    c.sync_groups.push(group("h"));
    c.sync_items.push(member("a", Some("g")));
    c.sync_items.push(member("b", Some("h")));
    c.sync_items.push(member("c", Some("g")));
    assert_eq!(group_member_count(&c.sync_items, "g"), 2);
    assert_eq!(group_member_count(&c.sync_items, "zz"), 0);

    let mut u = config();
    u.sync_groups = c.sync_groups.clone();
    u.sync_items = c.sync_items.clone();
    assert_eq!(remove_sync_group(&mut u, 0, MemberPolicy::Ungroup).unwrap().name, "g");
    assert_eq!(u.sync_groups.len(), 1);
    assert_eq!(u.sync_items.len(), 3);
    assert_eq!(u.sync_items[0].group, None);
    assert_eq!(u.sync_items[1].group.as_deref(), Some("h"));
    assert_eq!(u.sync_items[2].group, None);

    assert_eq!(remove_sync_group(&mut c, 0, MemberPolicy::Cascade).unwrap().name, "g");
    assert_eq!(c.sync_items.len(), 1);
    assert_eq!(c.sync_items[0].name, "b");
    assert!(matches!(remove_sync_group(&mut c, 4, MemberPolicy::Cascade), Err(SyncError::InvalidSelection)));
}

#[test]
fn assigning_groups() {
    let mut c = config();
    c.sync_groups.push(group("g"));
    c.sync_items.push(member("a", None));
    assert!(assign_group_to_item(&mut c, 0, Some(0)).is_ok());
    assert_eq!(c.sync_items[0].group.as_deref(), Some("g"));
    assert!(assign_group_to_item(&mut c, 0, None).is_ok());
    assert_eq!(c.sync_items[0].group, None);
    assert!(matches!(assign_group_to_item(&mut c, 1, None), Err(SyncError::InvalidSelection)));
    assert!(matches!(assign_group_to_item(&mut c, 0, Some(1)), Err(SyncError::InvalidSelection)));
}

#[test]
fn accounts_and_script_paths() {
    let mut c = config();
    add_account(&mut c, "me".to_string(), "pw".to_string(), "  ".to_string()).unwrap();
    add_account(&mut c, "you".to_string(), "pw2".to_string(), "main".to_string()).unwrap();
    assert_eq!(c.accounts[0].note, None);
    assert_eq!(c.accounts[1].note.as_deref(), Some("main"));
    assert_eq!(remove_account(&mut c, 0).unwrap().username, "me");
    assert!(matches!(remove_account(&mut c, 5), Err(SyncError::InvalidSelection)));
    assert!(add_script_path(&mut c, " /s/x.lua ", true).is_ok());
    assert_eq!(c.script_paths, vec!["/s/x.lua".to_string()]);
    assert!(matches!(add_script_path(&mut c, "/nope", false), Err(SyncError::NotFound { .. })));
    assert_eq!(remove_script_path(&mut c, 0).unwrap(), "/s/x.lua");
    assert!(matches!(remove_script_path(&mut c, 0), Err(SyncError::InvalidSelection)));
}

#[test]
fn scan_codes() {
    assert_eq!(char_to_scan_code('a'), Some(0x04));
    assert_eq!(char_to_scan_code('Z'), Some(0x1D));
    assert_eq!(char_to_scan_code('1'), Some(0x1E));
    assert_eq!(char_to_scan_code('!'), Some(0x1E));
    assert_eq!(char_to_scan_code('0'), Some(0x27));
    assert_eq!(char_to_scan_code(')'), Some(0x27));
    assert_eq!(char_to_scan_code(' '), Some(0x2C));
    assert_eq!(char_to_scan_code('?'), Some(0x38));
    assert_eq!(char_to_scan_code('"'), Some(0x34));
    assert_eq!(char_to_scan_code('\u{e9}'), None);
    assert!(needs_shift('Q'));
    assert!(needs_shift('{'));
    assert!(!needs_shift('q'));
    assert!(!needs_shift('['));
    assert_eq!(
        key_strokes("aB!\u{e9}"),
        vec![
            KeyStroke { code: 0x04, shift: false },
            KeyStroke { code: 0x05, shift: true },
            KeyStroke { code: 0x1E, shift: true },
        ]
    );
}

#[test]
fn game_config_goes_through_the_engine() {
    let c = config();
    let plan = backup_game_config(&c, Some(EntryKind::Directory), 9).unwrap();
    assert_eq!(plan.snapshot_dir, "/backups/game_config_9");
    match &plan.copy {
        BackupCopy::DirectoryContents { from, to } => {
            assert_eq!(from, "/games/lol/Config");
            assert_eq!(to, "/backups/game_config_9/Config");
        }
        other => panic!("unexpected {:?}", other),
    }
    let contents = Some(vec![DirEntryInfo { name: "Config".to_string(), kind: EntryKind::Directory, modified: 9 }]);
    let r = restore_game_config(&c, "/backups/game_config_9", &contents, None).unwrap();
    assert_eq!(r.parent, "/games/lol");
    assert!(matches!(r.copy, RestoreCopy::DirectoryContents { .. }));
}

#[test]
fn scripts() {
    let mut c = config();
    assert!(matches!(backup_scripts(&c, &Vec::new(), 1), Err(SyncError::InvalidSelection)));
    c.script_paths.push("/s/one.lua".to_string());
    c.script_paths.push("/s/gone".to_string());
    c.script_paths.push("/s/dir/".to_string());
    let b = backup_scripts(&c, &vec![Some(EntryKind::File), None, Some(EntryKind::Directory)], 77).unwrap();
    assert_eq!(b.snapshot_dir, "/backups/scripts_77");
    match &b.copies[0] {
        Ok(BackupCopy::File { from, to }) => {
            assert_eq!(from, "/s/one.lua");
            assert_eq!(to, "/backups/scripts_77/0_one.lua");
        }
        other => panic!("unexpected {:?}", other),
    }
    assert!(matches!(&b.copies[1], Err(SyncError::NotFound { .. })));
    match &b.copies[2] {
        Ok(BackupCopy::DirectoryContents { to, .. }) => assert_eq!(to, "/backups/scripts_77/2_unknown"),
        other => panic!("unexpected {:?}", other),
    }
    assert_eq!(script_entry_name(12, "C:\\x\\y.lua"), "12_y.lua");
    assert_eq!(script_entry_target("1_y.lua", 3), ScriptEntry::Target(1));
    assert_eq!(script_entry_target("1_a_b", 3), ScriptEntry::Target(1));
    assert_eq!(script_entry_target("7_y.lua", 3), ScriptEntry::OutOfRange(7));
    assert_eq!(script_entry_target("x_y.lua", 3), ScriptEntry::BadIndex);
    assert_eq!(script_entry_target("nounderscore", 3), ScriptEntry::NoSeparator);
    let p = plan_script_restore("/backups/scripts_77/0_one.lua", EntryKind::File, "/s/one.lua", Some(EntryKind::File))
        .unwrap();
    assert_eq!(p.parent, "/s");
    assert_eq!(p.clear, Some(EntryKind::File));
    assert!(matches!(p.copy, RestoreCopy::File { .. }));
}
