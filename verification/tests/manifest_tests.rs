use realmctl::manifest::{scan_and_build_manifest, ScanEntry, ScanError};
use realmctl::fstree::FsKind;
use realmctl::roles::{FileRole, Profile};

fn file(path: &str, data: &[u8]) -> ScanEntry {
    ScanEntry { path: path.to_string(), kind: FsKind::File, data: Some(data.to_vec()) }
}

fn dir(path: &str) -> ScanEntry {
    ScanEntry { path: path.to_string(), kind: FsKind::Dir, data: None }
}

fn role_of(m: &realmctl::manifest::BaseManifest, p: &str) -> Option<FileRole> {
    m.role_for(p)
}

#[test]
fn test_scan_records_roles_and_metadata() {
    let p = Profile::chromie_335a();
    let tree = vec![
        file("Wow.exe", b"exe"),
        dir("Data"),
        file("Data/common.MPQ", b"123456789"),
        dir("Screenshots"),
        dir("WTF"),
    ];
    let m = scan_and_build_manifest(&tree, &p, "/base", "1700000000").unwrap();
    assert_eq!(m.profile, "chromie-3.3.5a");
    assert_eq!(m.base_path, "/base");
    assert_eq!(m.created_at, "1700000000");
    assert_eq!(m.version, Some("3.3.5a".to_string()));
    assert_eq!(role_of(&m, "Wow.exe"), Some(FileRole::Executable));
    assert_eq!(role_of(&m, "Data"), Some(FileRole::Other));
    assert_eq!(role_of(&m, "Data/common.MPQ"), Some(FileRole::BaseData));
    assert_eq!(role_of(&m, "Screenshots"), Some(FileRole::UserMedia));
    assert_eq!(role_of(&m, "WTF"), Some(FileRole::UserConfig));
    assert_eq!(role_of(&m, "absent"), None);
}

#[test]
fn test_scan_checksums_only_base_data() {
    let p = Profile::chromie_335a();
    let tree = vec![
        file("Wow.exe", b"exe"),
        dir("Data"),
        file("Data/common.MPQ", b"123456789"),
        file("Data/patch.MPQ", b"patch bytes"),
    ];
    let m = scan_and_build_manifest(&tree, &p, "/base", "0").unwrap();
    // Exactly one checksum: the immutable data file; and the CRC-32 of
    // b"123456789" is the classic check value 0xcbf43926.
    assert_eq!(m.checksums.len(), 1);
    assert_eq!(m.checksums[0].path, "Data/common.MPQ");
    assert_eq!(m.checksums[0].checksum, "cbf43926");
}

#[test]
fn test_scan_skips_descendants_of_ephemeral_dirs() {
    let p = Profile::chromie_335a();
    let tree = vec![
        dir("Cache"),
        file("Cache/huge.bin", b"x"),
        dir("Cache/WDB"),
        dir("Logs"),
        file("Logs/gm.log", b"y"),
        file("Wow.exe", b"exe"),
    ];
    let m = scan_and_build_manifest(&tree, &p, "/base", "0").unwrap();
    // The ephemeral directories themselves are recorded, their
    // descendants are not.
    assert_eq!(role_of(&m, "Cache"), Some(FileRole::Ephemeral));
    assert_eq!(role_of(&m, "Logs"), Some(FileRole::Ephemeral));
    assert_eq!(role_of(&m, "Cache/huge.bin"), None);
    assert_eq!(role_of(&m, "Cache/WDB"), None);
    assert_eq!(role_of(&m, "Logs/gm.log"), None);
    assert_eq!(role_of(&m, "Wow.exe"), Some(FileRole::Executable));
    assert_eq!(m.file_roles.len(), 3);
}

#[test]
fn test_scan_unreadable_base_data_aborts() {
    let p = Profile::chromie_335a();
    let tree = vec![
        dir("Data"),
        ScanEntry { path: "Data/common.MPQ".to_string(), kind: FsKind::File, data: None },
    ];
    let r = scan_and_build_manifest(&tree, &p, "/base", "0");
    assert_eq!(r.unwrap_err(), ScanError { path: "Data/common.MPQ".to_string() });
}

#[test]
fn test_scan_unreadable_mutable_file_is_tolerated() {
    let p = Profile::chromie_335a();
    let tree = vec![
        dir("Data"),
        ScanEntry { path: "Data/patch.MPQ".to_string(), kind: FsKind::File, data: None },
    ];
    let m = scan_and_build_manifest(&tree, &p, "/base", "0").unwrap();
    assert_eq!(role_of(&m, "Data/patch.MPQ"), Some(FileRole::MutableData));
    assert!(m.checksums.is_empty());
}
