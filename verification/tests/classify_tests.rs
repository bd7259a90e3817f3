use realmctl::fstree::{FsKind, TreeEntry, TreeView};
use realmctl::roles::{profile_named, FileRole, Profile, RequirementError};

fn tree(entries: &[(&str, FsKind)]) -> TreeView {
    TreeView {
        entries: entries
            .iter()
            .map(|(p, k)| TreeEntry { path: p.to_string(), kind: *k })
            .collect(),
    }
}

#[test]
fn test_classify_chromie_roles() {
    let p = Profile::chromie_335a();
    assert_eq!(p.classify_path("Wow.exe"), FileRole::Executable);
    assert_eq!(p.classify_path("Data/common.MPQ"), FileRole::BaseData);
    assert_eq!(p.classify_path("Data/common-2.MPQ"), FileRole::BaseData);
    assert_eq!(p.classify_path("Data/expansion.MPQ"), FileRole::BaseData);
    assert_eq!(p.classify_path("Data/lichking.MPQ"), FileRole::BaseData);
    assert_eq!(p.classify_path("Data/patch.MPQ"), FileRole::MutableData);
    assert_eq!(p.classify_path("Data/patch-3.MPQ"), FileRole::MutableData);
    assert_eq!(p.classify_path("Screenshots"), FileRole::UserMedia);
    assert_eq!(p.classify_path("Screenshots/WoWScrnShot_001.jpg"), FileRole::UserMedia);
    assert_eq!(p.classify_path("WTF"), FileRole::UserConfig);
    assert_eq!(p.classify_path("WTF/Config.wtf"), FileRole::UserConfig);
    assert_eq!(p.classify_path("Interface/AddOns"), FileRole::UserConfig);
    assert_eq!(p.classify_path("Cache"), FileRole::Ephemeral);
    assert_eq!(p.classify_path("Logs/gm.log"), FileRole::Ephemeral);
    assert_eq!(p.classify_path("Errors"), FileRole::Ephemeral);
}

#[test]
fn test_classify_no_match_is_other() {
    let p = Profile::chromie_335a();
    assert_eq!(p.classify_path("Data"), FileRole::Other);
    assert_eq!(p.classify_path("README.txt"), FileRole::Other);
    // The pattern ends in `.MPQ$`, so other files under Data stay Other
    assert_eq!(p.classify_path("Data/common.txt"), FileRole::Other);
    // Patterns are anchored by the profile itself; no substring match
    assert_eq!(p.classify_path("XData/common.MPQ"), FileRole::Other);
}

#[test]
fn test_classify_is_deterministic_first_match() {
    // "Data/patch.MPQ" is matched by the MutableData rule and would
    // also match the BaseData rule for "^Data/.*\.MPQ$" in the 1.12
    // profile, which lists BaseData first: the earlier rule wins.
    let p = Profile::vanilla_112();
    assert_eq!(p.classify_path("Data/patch.MPQ"), FileRole::BaseData);
    // Two calls on the same inputs give the same role.
    assert_eq!(
        p.classify_path("Screenshots/a.jpg"),
        p.classify_path("Screenshots/a.jpg")
    );
}

#[test]
fn test_verify_requirements_ok() {
    let p = Profile::chromie_335a();
    let t = tree(&[
        ("Wow.exe", FsKind::File),
        ("Data", FsKind::Dir),
        ("Data/common.MPQ", FsKind::File),
        ("Data/patch.MPQ", FsKind::File),
        ("Data/lichking.MPQ", FsKind::File),
    ]);
    assert!(p.verify_requirements(&t).is_ok());
}

#[test]
fn test_verify_requirements_reports_first_missing_file() {
    let p = Profile::chromie_335a();
    let t = tree(&[
        ("Wow.exe", FsKind::File),
        ("Data", FsKind::Dir),
        ("Data/common.MPQ", FsKind::File),
    ]);
    assert_eq!(
        p.verify_requirements(&t),
        Err(RequirementError::MissingFile("Data/patch.MPQ".to_string()))
    );
}

#[test]
fn test_verify_requirements_file_must_be_plain() {
    let p = Profile::chromie_335a();
    let t = tree(&[
        ("Wow.exe", FsKind::Dir), // present, but not a plain file
        ("Data", FsKind::Dir),
        ("Data/common.MPQ", FsKind::File),
        ("Data/patch.MPQ", FsKind::File),
        ("Data/lichking.MPQ", FsKind::File),
    ]);
    assert_eq!(
        p.verify_requirements(&t),
        Err(RequirementError::MissingFile("Wow.exe".to_string()))
    );
}

#[test]
fn test_verify_requirements_reports_missing_dir() {
    let p = Profile::vanilla_112();
    let t = tree(&[
        ("WoW.exe", FsKind::File),
        ("realmlist.wtf", FsKind::File),
        ("Data", FsKind::Dir),
        ("WTF", FsKind::Dir),
    ]);
    assert_eq!(
        p.verify_requirements(&t),
        Err(RequirementError::MissingDir("Interface".to_string()))
    );
}

#[test]
fn test_check_warnings_lists_present_triggers() {
    let p = Profile::chromie_335a();
    let t = tree(&[("Cache", FsKind::Dir), ("Errors", FsKind::Dir)]);
    let w = p.check_warnings(&t);
    assert_eq!(
        w,
        vec![
            "Cache directory present in base - should be ephemeral".to_string(),
            "Errors directory present in base - should be ephemeral".to_string(),
        ]
    );
    let none = p.check_warnings(&tree(&[("Data", FsKind::Dir)]));
    assert!(none.is_empty());
}

#[test]
fn test_profile_named_aliases() {
    assert_eq!(profile_named("chromie-3.3.5a").unwrap().name, "chromie-3.3.5a");
    assert_eq!(profile_named("3.3.5a").unwrap().name, "chromie-3.3.5a");
    assert_eq!(profile_named("335").unwrap().name, "chromie-3.3.5a");
    assert_eq!(profile_named("335a").unwrap().name, "chromie-3.3.5a");
    assert_eq!(profile_named("vanilla-1.12").unwrap().name, "vanilla-1.12");
    assert_eq!(profile_named("1.12").unwrap().name, "vanilla-1.12");
    assert_eq!(profile_named("112").unwrap().name, "vanilla-1.12");
    assert!(profile_named("2.4.3").is_none());
}
