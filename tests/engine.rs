use game_sync::error::SyncError;
use game_sync::filter::{select, Scope};
use game_sync::model::{get_config_path, Config, SyncGroup, SyncItem};
use game_sync::restore::{file_to_restore, resolve_restore, RestoreCopy};
use game_sync::snapshot::{
    latest_snapshot, list_snapshots, plan_backup, snapshot_name, stored_name, BackupCopy,
    DirEntryInfo, EntryKind,
};
use game_sync::sync::{
    backup_all, backup_group, batch_status, is_confirmed, is_yes, locate_latest, parse_selection,
    restore_all, restore_group, BatchStatus, Selection,
};
use game_sync::text::{base_name, format_decimal, join_path, parent_path, parse_usize, trim};

fn item(name: &str, source: &str, root: &str, enabled: bool, group: Option<&str>) -> SyncItem {
    SyncItem {
        name: name.to_string(),
        source_path: source.to_string(),
        backup_path: root.to_string(),
        is_enabled: enabled,
        group: group.map(|g| g.to_string()),
    }
}

fn dir(name: &str, modified: i128) -> DirEntryInfo {
    DirEntryInfo { name: name.to_string(), kind: EntryKind::Directory, modified }
}

fn file(name: &str, modified: i128) -> DirEntryInfo {
    DirEntryInfo { name: name.to_string(), kind: EntryKind::File, modified }
}

fn empty_config() -> Config {
    Config {
        accounts: Vec::new(),
        game_config_path: "/games/cfg".to_string(),
        script_paths: Vec::new(),
        backup_dir: "/backups".to_string(),
        sync_items: Vec::new(),
        sync_groups: Vec::new(),
    }
}

fn names(items: &[SyncItem]) -> Vec<String> {
    items.iter().map(|i| i.name.clone()).collect()
}

#[test]
fn decimal_and_snapshot_names() {
    assert_eq!(format_decimal(0), "0");
    assert_eq!(format_decimal(1700000000), "1700000000");
    assert_eq!(format_decimal(u64::MAX), "18446744073709551615");
    assert_eq!(snapshot_name("cfg", 1700000000), "cfg_1700000000");
}

#[test]
fn path_helpers() {
    assert_eq!(join_path("/backups", "cfg"), "/backups/cfg");
    assert_eq!(join_path("/backups/", "cfg"), "/backups/cfg");
    assert_eq!(join_path("", "cfg"), "cfg");
    assert_eq!(join_path("C:\\data\\", "cfg"), "C:\\data\\cfg");
    assert_eq!(base_name("/home/u/notes.txt"), "notes.txt");
    assert_eq!(base_name("C:\\games\\Config"), "Config");
    assert_eq!(base_name("plain"), "plain");
    assert_eq!(parent_path("/home/u/notes.txt"), Some("/home/u".to_string()));
    assert_eq!(parent_path("/notes.txt"), Some("/".to_string()));
    assert_eq!(parent_path("C:\\Config"), Some("C:\\".to_string()));
    assert_eq!(parent_path("notes.txt"), Some(".".to_string()));
    assert_eq!(parent_path(""), None);
    assert_eq!(stored_name("/home/u/"), "backup");
    assert_eq!(get_config_path("/opt/tool"), "/opt/tool/config.json");
}

#[test]
fn trim_and_numbers() {
    assert_eq!(trim("  3 \n"), "3");
    assert_eq!(trim("\u{3000}yes\t"), "yes");
    assert_eq!(trim("   "), "");
    assert_eq!(parse_usize("42"), Some(42));
    assert_eq!(parse_usize("+7"), Some(7));
    assert_eq!(parse_usize("+"), None);
    assert_eq!(parse_usize("-1"), None);
    assert_eq!(parse_usize(""), None);
    assert_eq!(parse_usize("4x"), None);
    assert_eq!(parse_usize("99999999999999999999999"), None);
    assert_eq!(parse_usize(&usize::MAX.to_string()), Some(usize::MAX));
}

#[test]
fn selections() {
    assert_eq!(parse_selection(" 2\n", 3), Selection::Index(1));
    assert_eq!(parse_selection("3", 3), Selection::Index(2));
    assert_eq!(parse_selection("4", 3), Selection::Invalid);
    assert_eq!(parse_selection("0", 3), Selection::Cancel);
    assert_eq!(parse_selection("abc", 3), Selection::Invalid);
    assert_eq!(parse_selection("1", 0), Selection::Invalid);
}

#[test]
fn confirmation() {
    assert!(is_yes("yes"));
    assert!(!is_yes("YES"));
    assert!(is_confirmed("yes\n"));
    assert!(is_confirmed("  YeS "));
    assert!(!is_confirmed("y"));
    assert!(!is_confirmed("no"));
    assert!(!is_confirmed(""));
}

#[test]
fn group_filter_keeps_enabled_members_in_order() {
    let items = vec![
        item("a", "/s/a", "/b", true, Some("g")),
        item("b", "/s/b", "/b", false, Some("g")),
        item("c", "/s/c", "/b", true, Some("h")),
        item("d", "/s/d", "/b", true, None),
        item("e", "/s/e", "/b", true, Some("g")),
    ];
    let g = select(&items, &Scope::Group("g".to_string()));
    assert_eq!(names(&g), vec!["a", "e"]);
    for i in &g {
        assert!(i.is_enabled);
        assert_eq!(i.group.as_deref(), Some("g"));
    }
    assert!(select(&items, &Scope::Group("nope".to_string())).is_empty());
    assert!(select(&Vec::new(), &Scope::Group("g".to_string())).is_empty());
    let all = select(&items, &Scope::All);
    assert_eq!(names(&all), vec!["a", "c", "d", "e"]);
}

#[test]
fn listing_is_newest_first_and_filters_by_prefix() {
    let entries = vec![
        dir("cfg_100", 100),
        dir("other_300", 300),
        dir("cfg_300", 300),
        file("cfg_400", 400),
        dir("cfgx_500", 500),
        dir("cfg_200", 200),
    ];
    let l = list_snapshots("cfg", &entries);
    let n: Vec<&str> = l.iter().map(|e| e.name.as_str()).collect();
    assert_eq!(n, vec!["cfg_300", "cfg_200", "cfg_100"]);
    for w in l.windows(2) {
        assert!(w[0].modified >= w[1].modified);
    }
    let again = list_snapshots("cfg", &entries);
    let m: Vec<&str> = again.iter().map(|e| e.name.as_str()).collect();
    assert_eq!(n, m);
    assert!(list_snapshots("cfg", &Vec::new()).is_empty());
    assert_eq!(latest_snapshot("cfg", &entries).map(|e| e.name), Some("cfg_300".to_string()));
    assert!(latest_snapshot("zzz", &entries).is_none());
}

#[test]
fn listing_orders_equal_times_by_name() {
    let entries = vec![dir("cfg_2", 50), dir("cfg_1", 50), dir("cfg_3", 60)];
    let l = list_snapshots("cfg", &entries);
    let n: Vec<&str> = l.iter().map(|e| e.name.as_str()).collect();
    assert_eq!(n, vec!["cfg_3", "cfg_1", "cfg_2"]);
}

#[test]
fn listing_does_not_depend_on_enumeration_order() {
    let a = vec![dir("cfg_b", 5), dir("cfg_a", 5), dir("x_1", 9), dir("cfg_c", 7), dir("cfg_ab", 5)];
    let b = vec![dir("cfg_ab", 5), dir("cfg_c", 7), dir("x_1", 9), dir("cfg_a", 5), dir("cfg_b", 5)];
    let la: Vec<String> = list_snapshots("cfg", &a).into_iter().map(|e| e.name).collect();
    let lb: Vec<String> = list_snapshots("cfg", &b).into_iter().map(|e| e.name).collect();
    assert_eq!(la, vec!["cfg_c", "cfg_a", "cfg_ab", "cfg_b"]);
    assert_eq!(la, lb);
}

#[test]
fn directory_backup_then_restore_copies_back() {
    let it = item("cfg", "/home/u/cfg", "/backups", true, None);
    let plan = plan_backup(&it, "/backups", Some(EntryKind::Directory), 1000).unwrap();
    assert_eq!(plan.backup_root, "/backups");
    assert_eq!(plan.snapshot_dir, "/backups/cfg_1000");
    match &plan.copy {
        BackupCopy::DirectoryContents { from, to } => {
            assert_eq!(from, "/home/u/cfg");
            assert_eq!(to, "/backups/cfg_1000/cfg");
        }
        other => panic!("unexpected copy {:?}", other),
    }
    let contents = Some(vec![dir("cfg", 1000)]);
    let r = resolve_restore(&it, &plan.snapshot_dir, &contents, Some(EntryKind::Directory)).unwrap();
    assert_eq!(r.parent, "/home/u");
    assert_eq!(r.clear, Some(EntryKind::Directory));
    match &r.copy {
        RestoreCopy::DirectoryContents { from, to } => {
            assert_eq!(from, "/backups/cfg_1000/cfg");
            assert_eq!(to, "/home/u/cfg");
        }
        other => panic!("unexpected copy {:?}", other),
    }
    let r2 = resolve_restore(&it, &plan.snapshot_dir, &contents, None).unwrap();
    assert_eq!(r2.clear, None);
    assert!(matches!(r2.copy, RestoreCopy::DirectoryContents { .. }));
}

#[test]
fn file_backup_then_restore_copies_back() {
    let it = item("notes", "/home/u/notes.txt", "/backups", true, None);
    let plan = plan_backup(&it, "/backups", Some(EntryKind::File), 7).unwrap();
    assert_eq!(plan.snapshot_dir, "/backups/notes_7");
    match &plan.copy {
        BackupCopy::File { from, to } => {
            assert_eq!(from, "/home/u/notes.txt");
            assert_eq!(to, "/backups/notes_7/notes.txt");
        }
        other => panic!("unexpected copy {:?}", other),
    }
    let contents = Some(vec![file("notes.txt", 7)]);
    let r = resolve_restore(&it, "/backups/notes_7", &contents, None).unwrap();
    match &r.copy {
        RestoreCopy::File { from, to } => {
            assert_eq!(from, "/backups/notes_7/notes.txt");
            assert_eq!(to, "/home/u/notes.txt");
        }
        other => panic!("unexpected copy {:?}", other),
    }
}

#[test]
fn backup_of_missing_source_is_not_found() {
    let it = item("gone", "/nowhere/x", "/backups", true, None);
    match plan_backup(&it, "/backups", None, 5) {
        Err(SyncError::NotFound { path }) => assert_eq!(path, "/nowhere/x"),
        other => panic!("unexpected {:?}", other),
    }
}

#[test]
fn restore_from_missing_snapshot_is_not_found() {
    let it = item("cfg", "/home/u/cfg", "/backups", true, None);
    match resolve_restore(&it, "/backups/cfg_999", &None, Some(EntryKind::Directory)) {
        Err(SyncError::NotFound { path }) => assert_eq!(path, "/backups/cfg_999"),
        other => panic!("unexpected {:?}", other),
    }
    match resolve_restore(&it, "/backups/cfg_999", &Some(Vec::new()), None) {
        Err(SyncError::NotFound { path }) => assert_eq!(path, "/backups/cfg_999"),
        other => panic!("unexpected {:?}", other),
    }
    let blank = item("cfg", "", "/backups", true, None);
    assert!(matches!(
        resolve_restore(&blank, "/backups/cfg_1", &Some(vec![dir("cfg", 1)]), None),
        Err(SyncError::InvalidSelection)
    ));
}

#[test]
fn restore_of_directory_snapshot_onto_a_file_takes_first_file() {
    let it = item("cfg", "/home/u/cfg.ini", "/backups", true, None);
    let r = resolve_restore(&it, "/b/cfg_1", &Some(vec![dir("cfg", 1)]), Some(EntryKind::File)).unwrap();
    match &r.copy {
        RestoreCopy::FirstFileOf { dir: d, to } => {
            assert_eq!(d, "/b/cfg_1/cfg");
            assert_eq!(to, "/home/u/cfg.ini");
        }
        other => panic!("unexpected copy {:?}", other),
    }
    let inner = vec![dir("sub", 1), file("a.ini", 1), file("b.ini", 1)];
    assert_eq!(file_to_restore("/b/cfg_1/cfg", &inner).unwrap(), "/b/cfg_1/cfg/a.ini");
    match file_to_restore("/b/cfg_1/cfg", &vec![dir("sub", 1)]) {
        Err(SyncError::NotFound { path }) => assert_eq!(path, "/b/cfg_1/cfg"),
        other => panic!("unexpected {:?}", other),
    }
}

#[test]
fn restore_of_snapshot_with_several_entries_is_verbatim() {
    let it = item("cfg", "/home/u/cfg", "/backups", true, None);
    let contents = Some(vec![file("a", 1), file("b", 1)]);
    let r = resolve_restore(&it, "/backups/cfg_1", &contents, None).unwrap();
    match &r.copy {
        RestoreCopy::Verbatim { from, into } => {
            assert_eq!(from, "/backups/cfg_1");
            assert_eq!(into, "/home/u");
        }
        other => panic!("unexpected copy {:?}", other),
    }
}

#[test]
fn two_backups_then_restore_the_older() {
    let it = item("cfg", "/data/cfg", "/backup_root", true, None);
    let first = plan_backup(&it, "/backup_root", Some(EntryKind::Directory), 100).unwrap();
    let second = plan_backup(&it, "/backup_root", Some(EntryKind::Directory), 200).unwrap();
    assert_eq!(first.snapshot_dir, "/backup_root/cfg_100");
    assert_eq!(second.snapshot_dir, "/backup_root/cfg_200");
    let root = vec![dir("cfg_100", 100_000), dir("cfg_200", 200_000)];
    let l = list_snapshots("cfg", &root);
    let n: Vec<&str> = l.iter().map(|e| e.name.as_str()).collect();
    assert_eq!(n, vec!["cfg_200", "cfg_100"]);
    assert_eq!(locate_latest("cfg", "/backup_root", &root).unwrap(), "/backup_root/cfg_200");
    let r = resolve_restore(&it, "/backup_root/cfg_100", &Some(vec![dir("cfg", 100_000)]), Some(EntryKind::Directory))
        .unwrap();
    match &r.copy {
        RestoreCopy::DirectoryContents { from, to } => {
            assert_eq!(from, "/backup_root/cfg_100/cfg");
            assert_eq!(to, "/data/cfg");
        }
        other => panic!("unexpected copy {:?}", other),
    }
    match locate_latest("cfg", "/backup_root", &Vec::new()) {
        Err(SyncError::NotFound { path }) => assert_eq!(path, "/backup_root"),
        other => panic!("unexpected {:?}", other),
    }
}

#[test]
fn backup_all_skips_missing_source_and_reports_partial() {
    let mut cfg = empty_config();
    cfg.sync_items.push(item("present", "/s/present", "/b", true, None));
    cfg.sync_items.push(item("missing", "/s/missing", "/b", true, None));
    cfg.sync_items.push(item("off", "/s/off", "/b", false, None));
    let sources = vec![Some(EntryKind::File), None, Some(EntryKind::File)];
    let plans = backup_all(&cfg, &sources, 42);
    assert_eq!(plans.len(), 3);
    let p0 = plans[0].as_ref().unwrap().as_ref().unwrap();
    assert_eq!(p0.snapshot_dir, "/backups/present_42");
    match plans[1].as_ref().unwrap() {
        Err(SyncError::NotFound { path }) => assert_eq!(path, "/s/missing"),
        other => panic!("unexpected {:?}", other),
    }
    assert!(plans[2].is_none());
    let outcomes: Vec<bool> = plans.iter().flatten().map(|p| p.is_ok()).collect();
    assert_eq!(batch_status(&outcomes), BatchStatus::Partial);
}

#[test]
fn batch_statuses() {
    assert_eq!(batch_status(&vec![]), BatchStatus::Nothing);
    assert_eq!(batch_status(&vec![true, true]), BatchStatus::Complete);
    assert_eq!(batch_status(&vec![false, false]), BatchStatus::Failed);
    assert_eq!(batch_status(&vec![false, true]), BatchStatus::Partial);
}

#[test]
fn group_backup_and_restore_gates() {
    let mut cfg = empty_config();
    cfg.sync_groups.push(SyncGroup { name: "g".to_string(), description: None, is_enabled: false });
    cfg.sync_items.push(item("a", "/s/a", "/b", true, Some("g")));
    cfg.sync_items.push(item("b", "/s/b", "/b", true, None));
    let sources = vec![Some(EntryKind::Directory), Some(EntryKind::File)];
    assert!(matches!(backup_group(&cfg, 1, "yes", &sources, 1), Err(SyncError::InvalidSelection)));
    assert!(matches!(backup_group(&cfg, 0, "no", &sources, 1), Err(SyncError::Unconfirmed)));
    let plans = backup_group(&cfg, 0, "YES", &sources, 1).unwrap();
    assert!(plans[0].is_some());
    assert!(plans[1].is_none());
    assert!(matches!(restore_all(&cfg, "nope"), Err(SyncError::Unconfirmed)));
    assert_eq!(names(&restore_all(&cfg, "yes").unwrap()), vec!["a", "b"]);
    assert!(matches!(restore_group(&cfg, 3, "yes"), Err(SyncError::InvalidSelection)));
    assert!(matches!(restore_group(&cfg, 0, ""), Err(SyncError::Unconfirmed)));
    assert_eq!(names(&restore_group(&cfg, 0, "yes").unwrap()), vec!["a"]);
}
