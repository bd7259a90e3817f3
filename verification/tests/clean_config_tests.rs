use realmctl::clean::{plan_clean, CleanAction};
use realmctl::config::{realmlist_contents, select_config, verify_game_integrity, Config};
use realmctl::fstree::{FsKind, TreeEntry, TreeView};

fn tree(entries: &[(&str, FsKind)]) -> TreeView {
    TreeView {
        entries: entries
            .iter()
            .map(|(p, k)| TreeEntry { path: p.to_string(), kind: *k })
            .collect(),
    }
}

fn cfg(directory: &str) -> Config {
    Config {
        directory: directory.to_string(),
        executable: "Wow.exe".to_string(),
        launch_cmd: None,
        realmlist: None,
        realmlist_rel_path: None,
        account: None,
        password: None,
        accounts: None,
        clear_cache: None,
    }
}

#[test]
fn test_plan_clean_ephemeral_dirs_only() {
    let t = tree(&[
        ("Cache", FsKind::Dir),
        ("Logs", FsKind::Dir),
        ("Data", FsKind::Dir),
        ("Data/creaturecache.wdb", FsKind::File),
    ]);
    let plan = plan_clean(&t, false);
    assert_eq!(
        plan,
        vec![
            CleanAction::RemoveDir("Cache".to_string()),
            CleanAction::RemoveDir("Logs".to_string()),
        ]
    );
}

#[test]
fn test_plan_clean_with_wdb_files() {
    let t = tree(&[
        ("Cache", FsKind::Dir),
        ("Data", FsKind::Dir),
        ("Data/creaturecache.wdb", FsKind::File),
        ("Data/readme.txt", FsKind::File),
        ("Data/enUS", FsKind::Dir),
        ("Data/enUS/itemcache.wdb", FsKind::File),
        ("Data/en-US", FsKind::Dir),
        ("Data/en-US/other.wdb", FsKind::File),
        ("Data/common.MPQ", FsKind::File),
    ]);
    let plan = plan_clean(&t, true);
    assert_eq!(
        plan,
        vec![
            CleanAction::RemoveDir("Cache".to_string()),
            CleanAction::RemoveFile("Data/creaturecache.wdb".to_string()),
            // enUS is four letters: its cache file is removed; the
            // five-character "en-US" is no locale directory.
            CleanAction::RemoveFile("Data/enUS/itemcache.wdb".to_string()),
        ]
    );
}

#[test]
fn test_plan_clean_bare_wdb_suffix_is_no_cache_file() {
    // ".wdb" alone has no stem and is not treated as a cache file.
    let t = tree(&[("Data", FsKind::Dir), ("Data/.wdb", FsKind::File)]);
    let plan = plan_clean(&t, true);
    assert!(plan.is_empty());
}

#[test]
fn test_select_config_is_case_insensitive_first_match() {
    let entries = vec![
        ("Chromie".to_string(), cfg("/games/chromie")),
        ("vanilla".to_string(), cfg("/games/vanilla")),
        ("CHROMIE".to_string(), cfg("/games/other")),
    ];
    let i = select_config(&entries, "chromie").unwrap();
    assert_eq!(i, 0);
    assert_eq!(entries[i].1.directory, "/games/chromie");
    let j = select_config(&entries, "VANILLA").unwrap();
    assert_eq!(j, 1);
    assert!(select_config(&entries, "turtle").is_none());
}

#[test]
fn test_realmlist_contents() {
    assert_eq!(
        realmlist_contents("logon.example.org"),
        "set realmlist to logon.example.org"
    );
}

#[test]
fn test_verify_game_integrity() {
    let good = tree(&[
        ("Data", FsKind::Dir),
        ("Battle.net.dll", FsKind::File),
        ("Data/lichking.MPQ", FsKind::File),
        ("Data/patch-3.MPQ", FsKind::File),
    ]);
    assert!(verify_game_integrity(&good));
    let missing_dll = tree(&[
        ("Data", FsKind::Dir),
        ("Data/lichking.MPQ", FsKind::File),
        ("Data/patch-3.MPQ", FsKind::File),
    ]);
    assert!(!verify_game_integrity(&missing_dll));
    let data_is_file = tree(&[
        ("Data", FsKind::File),
        ("Battle.net.dll", FsKind::File),
        ("Data/lichking.MPQ", FsKind::File),
        ("Data/patch-3.MPQ", FsKind::File),
    ]);
    assert!(!verify_game_integrity(&data_is_file));
}
