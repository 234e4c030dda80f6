use memury_card::engine::{copy_target, save_watcher, FileOp, FileOpCmd};
use memury_card::path::SavePath;
use memury_card::registry::{find_appropriate_savedef_path, Registry};
use memury_card::save::{RuleList, SaveDef, SaveDir, SaveFile, SaveOpts};
use memury_card::scan::{find_json_settings, save_scanner, scan_requests, ChangeEvent, ScanEntry};

fn sp(s: &str) -> SavePath {
    SavePath::from_text(s)
}

fn list(v: &[&str]) -> Vec<String> {
    v.iter().map(|s| s.to_string()).collect()
}

fn dir_allowed(path: &str, loc: &str, exts: &[&str]) -> SaveDef {
    SaveDef {
        name: "dir".to_string(),
        path: sp(path),
        sync_loc: sp(loc),
        options: SaveOpts::Dir(SaveDir { rule_list: RuleList::Allowed(list(exts)) }),
    }
}

fn dir_disallowed(path: &str, loc: &str, sufs: &[&str]) -> SaveDef {
    SaveDef {
        name: "dir".to_string(),
        path: sp(path),
        sync_loc: sp(loc),
        options: SaveOpts::Dir(SaveDir { rule_list: RuleList::Disallowed(list(sufs)) }),
    }
}

fn single_file(path: &str, loc: &str) -> SaveDef {
    SaveDef { name: "file".to_string(), path: sp(path), sync_loc: sp(loc), options: SaveOpts::File(SaveFile {}) }
}

fn registry_of(defs: Vec<SaveDef>) -> Registry {
    let mut reg = Registry::new();
    for d in defs {
        reg.insert(d);
    }
    reg
}

#[test]
fn ancestor_resolution_finds_the_root_at_any_depth() {
    let reg = registry_of(vec![dir_disallowed("/saves", "m", &[])]);
    assert_eq!(find_appropriate_savedef_path(&sp("/saves/x.sav"), &reg), Ok(sp("/saves")));
    assert_eq!(find_appropriate_savedef_path(&sp("/saves/a/b/c/x.sav"), &reg), Ok(sp("/saves")));
    assert_eq!(find_appropriate_savedef_path(&sp("/saves"), &reg), Ok(sp("/saves")));
}

#[test]
fn resolution_fails_outside_all_roots() {
    let reg = registry_of(vec![dir_disallowed("/saves", "m", &[])]);
    assert_eq!(
        find_appropriate_savedef_path(&sp("/other/x.sav"), &reg),
        Err("Path not in save map".to_string())
    );
    assert_eq!(
        find_appropriate_savedef_path(&sp("/savesx/x.sav"), &reg),
        Err("Path not in save map".to_string())
    );
    assert_eq!(
        find_appropriate_savedef_path(&sp("saves/x.sav"), &reg),
        Err("Path not in save map".to_string())
    );
    assert_eq!(
        find_appropriate_savedef_path(&sp("/"), &Registry::new()),
        Err("Path not in save map".to_string())
    );
}

#[test]
fn longest_prefix_takes_precedence() {
    let reg = registry_of(vec![dir_disallowed("/a", "one", &[]), dir_disallowed("/a/b", "two", &[])]);
    assert_eq!(find_appropriate_savedef_path(&sp("/a/b/c"), &reg), Ok(sp("/a/b")));
    assert_eq!(find_appropriate_savedef_path(&sp("/a/x"), &reg), Ok(sp("/a")));
    let reg = registry_of(vec![dir_disallowed("/a/b", "two", &[]), dir_disallowed("/a", "one", &[])]);
    assert_eq!(find_appropriate_savedef_path(&sp("/a/b/c"), &reg), Ok(sp("/a/b")));
}

#[test]
fn root_and_empty_path_can_be_registered() {
    let reg = registry_of(vec![dir_disallowed("/", "r", &[]), dir_disallowed("", "e", &[])]);
    assert_eq!(find_appropriate_savedef_path(&sp("/x/y"), &reg), Ok(sp("/")));
    assert_eq!(find_appropriate_savedef_path(&sp("x/y"), &reg), Ok(sp("")));
}

#[test]
fn allow_list_filtering() {
    let d = SaveDir { rule_list: RuleList::Allowed(list(&["sav"])) };
    assert!(d.meets_rules(&sp("/s/x.sav")));
    assert!(!d.meets_rules(&sp("/s/x.bak")));
    assert!(!d.meets_rules(&sp("/s/x")));
    assert!(!d.meets_rules(&sp("/s/x.SAV")));
    assert!(!d.meets_rules(&sp("/s/x.sav.bak")));
    assert!(!d.meets_rules(&sp("/s/sav")));
    let two = SaveDir { rule_list: RuleList::Allowed(list(&["sav", "srm"])) };
    assert!(two.meets_rules(&sp("/s/x.srm")));
    let none = SaveDir { rule_list: RuleList::Allowed(vec![]) };
    assert!(!none.meets_rules(&sp("/s/x.sav")));
}

#[test]
fn disallow_list_filtering() {
    let d = SaveDir { rule_list: RuleList::Disallowed(list(&[".bak"])) };
    assert!(!d.meets_rules(&sp("/s/x.bak")));
    assert!(d.meets_rules(&sp("/s/x.sav")));
    assert!(d.meets_rules(&sp("/s/x")));
    let by_name = SaveDir { rule_list: RuleList::Disallowed(list(&["autosave.sav", ".tmp"])) };
    assert!(!by_name.meets_rules(&sp("/s/g/autosave.sav")));
    assert!(by_name.meets_rules(&sp("/s/g/slot1.sav")));
    assert!(!by_name.meets_rules(&sp("/s/g/x.tmp")));
    let none = SaveDir { rule_list: RuleList::Disallowed(vec![]) };
    assert!(none.meets_rules(&sp("/s/x.bak")));
}

#[test]
fn single_file_always_passes() {
    assert!(SaveOpts::File(SaveFile {}).admits(&sp("/s/x")));
    assert!(SaveOpts::File(SaveFile {}).admits(&sp("/s/x.bak")));
    assert!(!SaveOpts::Dir(SaveDir { rule_list: RuleList::Allowed(list(&["sav"])) }).admits(&sp("/s/x.bak")));
}

#[test]
fn structure_preservation() {
    let def = dir_allowed("/saves", "mirror", &["sav"]);
    let (dir, dst) = copy_target(&sp("/out"), &def, &sp("/saves/g/slot1.sav"));
    assert_eq!(dir.to_text(), "/out/mirror/g");
    assert_eq!(dst.to_text(), "/out/mirror/g/slot1.sav");
    let (dir, dst) = copy_target(&sp("/out"), &def, &sp("/saves/a/b/c/slot.sav"));
    assert_eq!(dir.to_text(), "/out/mirror/a/b/c");
    assert_eq!(dst.to_text(), "/out/mirror/a/b/c/slot.sav");
    let (dir, dst) = copy_target(&sp("/out"), &def, &sp("/saves/slot"));
    assert_eq!(dir.to_text(), "/out/mirror");
    assert_eq!(dst.to_text(), "/out/mirror/slot");
}

#[test]
fn target_of_a_single_file() {
    let def = single_file("/home/u/game.sav", "single");
    let (dir, dst) = copy_target(&sp("/out"), &def, &sp("/home/u/game.sav"));
    assert_eq!(dir.to_text(), "/out/single");
    assert_eq!(dst.to_text(), "/out/single/game.sav");
}

#[test]
fn target_with_empty_or_rooted_sync_location() {
    let def = dir_disallowed("/saves", "", &[]);
    let (_, dst) = copy_target(&sp("/out"), &def, &sp("/saves/g/x.sav"));
    assert_eq!(dst.to_text(), "/out/g/x.sav");
    let def = dir_disallowed("/saves", "/elsewhere", &[]);
    let (_, dst) = copy_target(&sp("/out"), &def, &sp("/saves/g/x.sav"));
    assert_eq!(dst.to_text(), "/elsewhere/g/x.sav");
}

#[test]
fn target_drops_a_trailing_dot() {
    let def = dir_disallowed("/saves", "m", &[]);
    let (_, dst) = copy_target(&sp("/out"), &def, &sp("/saves/x."));
    assert_eq!(dst.to_text(), "/out/m/x");
}

#[test]
fn watch_registers_once() {
    let mut reg = Registry::new();
    let op = save_watcher(&sp("/out"), &mut reg, FileOpCmd::Watch(dir_allowed("/saves", "first", &["sav"])));
    assert_eq!(op, FileOp::Watch(sp("/saves")));
    assert_eq!(reg.len(), 1);
    let op = save_watcher(&sp("/out"), &mut reg, FileOpCmd::Watch(dir_allowed("/saves", "second", &["bak"])));
    assert_eq!(op, FileOp::Watch(sp("/saves")));
    assert_eq!(reg.len(), 1);
    assert_eq!(reg.get(&sp("/saves")).unwrap().sync_loc, sp("first"));
    assert!(reg.contains_key(&sp("/saves")));
    assert!(!reg.contains_key(&sp("/saves/x")));
    assert!(reg.get(&sp("/other")).is_none());
}

#[test]
fn insert_reports_whether_it_added() {
    let mut reg = Registry::new();
    assert!(reg.insert(dir_allowed("/a", "x", &[])));
    assert!(!reg.insert(dir_allowed("/a//", "y", &[])));
    assert!(reg.insert(dir_allowed("/b", "z", &[])));
    assert_eq!(reg.paths(), vec![sp("/a"), sp("/b")]);
}

#[test]
fn copy_resolves_filters_and_places() {
    let mut reg = registry_of(vec![dir_allowed("/saves", "mirror", &["sav"])]);
    let op = save_watcher(&sp("/out"), &mut reg, FileOpCmd::Copy(sp("/saves/g/slot1.sav")));
    assert_eq!(
        op,
        FileOp::Copy { src: sp("/saves/g/slot1.sav"), dir: sp("/out/mirror/g"), dst: sp("/out/mirror/g/slot1.sav") }
    );
    let op = save_watcher(&sp("/out"), &mut reg, FileOpCmd::Copy(sp("/saves/g/slot1.bak")));
    assert_eq!(op, FileOp::Suppressed(sp("/saves/g/slot1.bak")));
    let op = save_watcher(&sp("/out"), &mut reg, FileOpCmd::Copy(sp("/saves/g/noext")));
    assert_eq!(op, FileOp::Suppressed(sp("/saves/g/noext")));
    assert_eq!(reg.len(), 1);
}

#[test]
fn copy_uses_the_innermost_registration() {
    let mut reg = registry_of(vec![dir_allowed("/a", "outer", &["sav"]), dir_disallowed("/a/b", "inner", &[".sav"])]);
    let op = save_watcher(&sp("/out"), &mut reg, FileOpCmd::Copy(sp("/a/b/c.sav")));
    assert_eq!(op, FileOp::Suppressed(sp("/a/b/c.sav")));
    let op = save_watcher(&sp("/out"), &mut reg, FileOpCmd::Copy(sp("/a/b/c.txt")));
    assert_eq!(op, FileOp::Copy { src: sp("/a/b/c.txt"), dir: sp("/out/inner"), dst: sp("/out/inner/c.txt") });
}

#[test]
fn fault_isolation() {
    let mut reg = registry_of(vec![dir_allowed("/saves", "mirror", &["sav"])]);
    let op = save_watcher(&sp("/out"), &mut reg, FileOpCmd::Copy(sp("/nowhere/a.sav")));
    assert_eq!(op, FileOp::Unresolved(sp("/nowhere/a.sav")));
    let op = save_watcher(&sp("/out"), &mut reg, FileOpCmd::Copy(sp("/saves/b.sav")));
    assert_eq!(op, FileOp::Copy { src: sp("/saves/b.sav"), dir: sp("/out/mirror"), dst: sp("/out/mirror/b.sav") });
}

#[test]
fn unwatch_does_nothing() {
    let mut reg = registry_of(vec![dir_allowed("/saves", "mirror", &["sav"])]);
    let op = save_watcher(&sp("/out"), &mut reg, FileOpCmd::Unwatch("/saves".to_string()));
    assert_eq!(op, FileOp::Idle);
    assert!(reg.contains_key(&sp("/saves")));
}

#[test]
fn scan_walks_every_root() {
    let mut reg = registry_of(vec![dir_allowed("/saves", "a", &[]), single_file("/home/u/one.sav", "b")]);
    let op = save_watcher(&sp("/out"), &mut reg, FileOpCmd::Scan());
    assert_eq!(op, FileOp::Walk(vec![sp("/saves"), sp("/home/u/one.sav")]));
    let op = save_watcher(&sp("/out"), &mut Registry::new(), FileOpCmd::Scan());
    assert_eq!(op, FileOp::Walk(vec![]));
}

#[test]
fn scan_completeness() {
    let entries = vec![
        ScanEntry { path: sp("/saves"), is_file: false },
        ScanEntry { path: sp("/saves/a.sav"), is_file: true },
        ScanEntry { path: sp("/saves/g"), is_file: false },
        ScanEntry { path: sp("/saves/g/b.sav"), is_file: true },
        ScanEntry { path: sp("/saves/g/c.bak"), is_file: true },
    ];
    let cmds = scan_requests(&entries);
    assert_eq!(
        cmds,
        vec![
            FileOpCmd::Copy(sp("/saves/a.sav")),
            FileOpCmd::Copy(sp("/saves/g/b.sav")),
            FileOpCmd::Copy(sp("/saves/g/c.bak")),
        ]
    );
    assert_eq!(scan_requests(&vec![]), vec![]);
}

#[test]
fn scan_then_copy_makes_one_operation_per_file() {
    let mut reg = registry_of(vec![dir_disallowed("/saves", "mirror", &[])]);
    let entries: Vec<ScanEntry> =
        (0..7).map(|i| ScanEntry { path: sp(&format!("/saves/d{}/f{}.sav", i % 3, i)), is_file: true }).collect();
    let mut copies = 0;
    for cmd in scan_requests(&entries) {
        match save_watcher(&sp("/out"), &mut reg, cmd) {
            FileOp::Copy { .. } => copies += 1,
            other => panic!("{:?}", other),
        }
    }
    assert_eq!(copies, 7);
}

#[test]
fn find_json_settings_makes_watch_commands() {
    let cmds = find_json_settings(vec![dir_allowed("/a", "x", &["sav"]), single_file("/b/c.sav", "y")]);
    assert_eq!(
        cmds,
        vec![FileOpCmd::Watch(dir_allowed("/a", "x", &["sav"])), FileOpCmd::Watch(single_file("/b/c.sav", "y"))]
    );
    assert_eq!(find_json_settings(vec![]), vec![]);
}

#[test]
fn detector_forwards_writes_creations_and_permission_changes() {
    assert_eq!(save_scanner(ChangeEvent::Write(sp("/s/a"))), Some(FileOpCmd::Copy(sp("/s/a"))));
    assert_eq!(save_scanner(ChangeEvent::Chmod(sp("/s/b"))), Some(FileOpCmd::Copy(sp("/s/b"))));
    assert_eq!(save_scanner(ChangeEvent::Create(sp("/s/c"))), Some(FileOpCmd::Copy(sp("/s/c"))));
}

#[test]
fn detector_drops_the_other_events() {
    assert_eq!(save_scanner(ChangeEvent::NoticeWrite(sp("/s/a"))), None);
    assert_eq!(save_scanner(ChangeEvent::NoticeRemove(sp("/s/a"))), None);
    assert_eq!(save_scanner(ChangeEvent::Remove(sp("/s/a"))), None);
    assert_eq!(save_scanner(ChangeEvent::Rename(sp("/s/a"), sp("/s/b"))), None);
    assert_eq!(save_scanner(ChangeEvent::Rescan), None);
    assert_eq!(save_scanner(ChangeEvent::Error), None);
}

#[test]
fn policy_lines_for_the_log() {
    let allowed = SaveDir { rule_list: RuleList::Allowed(list(&["sav", "srm"])) };
    assert_eq!(allowed.print(), vec!["allowed_filetypes", "sav", "srm"]);
    assert_eq!(allowed.print_rules(), vec!["Allowed:", "\tsav", "\tsrm"]);
    let disallowed = SaveDir { rule_list: RuleList::Disallowed(list(&[".bak"])) };
    assert_eq!(disallowed.print(), vec!["disallowed_filetypes", ".bak"]);
    assert_eq!(disallowed.print_rules(), vec!["Disallowed:", "\t.bak"]);
    let none = SaveDir { rule_list: RuleList::Disallowed(vec![]) };
    assert_eq!(none.print(), vec!["disallowed_filetypes"]);
    assert_eq!(none.print_rules(), vec!["Disallowed:"]);
    assert_eq!(single_file("/home/u/one.sav", "b").print(), "/home/u/one.sav");
}
