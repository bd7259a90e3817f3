use realmctl::fstree::{FsKind, TreeEntry, TreeView};
use realmctl::link::{plan_workspace_links, LinkAction, Scope};
use realmctl::manifest::{scan_and_build_manifest, ScanEntry};
use realmctl::roles::Profile;
use realmctl::sharing::{SharingRules, SharingStrategy};

fn file(path: &str, data: &[u8]) -> ScanEntry {
    ScanEntry { path: path.to_string(), kind: FsKind::File, data: Some(data.to_vec()) }
}

fn dir(path: &str) -> ScanEntry {
    ScanEntry { path: path.to_string(), kind: FsKind::Dir, data: None }
}

fn tree_of(scan: &[ScanEntry]) -> TreeView {
    TreeView {
        entries: scan
            .iter()
            .map(|e| TreeEntry { path: e.path.clone(), kind: e.kind })
            .collect(),
    }
}

/// The end-to-end scenario: an executable, an immutable archive, a
/// media directory shared globally, and a private configuration
/// directory.
fn scenario() -> (realmctl::manifest::BaseManifest, TreeView, SharingRules) {
    let p = Profile::chromie_335a();
    let scan = vec![
        file("Wow.exe", b"exe"),
        dir("Data"),
        file("Data/common.MPQ", b"123456789"),
        dir("Screenshots"),
        dir("WTF"),
    ];
    let tree = tree_of(&scan);
    let manifest = scan_and_build_manifest(&scan, &p, "/base", "0").unwrap();
    let mut rules = SharingRules::new();
    rules.insert("screenshots".to_string(), SharingStrategy::Global);
    rules.insert("wtf".to_string(), SharingStrategy::Workspace);
    (manifest, tree, rules)
}

#[test]
fn test_end_to_end_plan() {
    let (manifest, tree, rules) = scenario();
    let plan = plan_workspace_links(&manifest, &tree, &rules);
    assert_eq!(
        plan,
        vec![
            LinkAction::EnsureSharedDir(Scope::Global, "Screenshots".to_string()),
            LinkAction::Symlink("Screenshots".to_string(), Scope::Global),
            LinkAction::EnsureDir("WTF".to_string()),
            LinkAction::LinkFile("Wow.exe".to_string()),
            LinkAction::EnsureDir("Data".to_string()),
            LinkAction::LinkFile("Data/common.MPQ".to_string()),
        ]
    );
}

#[test]
fn test_two_workspaces_share_one_target() {
    // The plan has no workspace identity in it: two workspaces built
    // from the same base resolve the same shared target, while the
    // private WTF directory is created separately in each.
    let (manifest, tree, rules) = scenario();
    let plan_a = plan_workspace_links(&manifest, &tree, &rules);
    let plan_b = plan_workspace_links(&manifest, &tree, &rules);
    assert_eq!(plan_a, plan_b);
    assert!(plan_a.contains(&LinkAction::Symlink("Screenshots".to_string(), Scope::Global)));
    assert!(plan_a.contains(&LinkAction::EnsureDir("WTF".to_string())));
    assert!(!plan_a
        .iter()
        .any(|a| matches!(a, LinkAction::Symlink(p, _) if p == "WTF")));
}

#[test]
fn test_ancestor_skip_in_plan() {
    // Interface/AddOns is shared per base; nothing nested below it is
    // ever independently linked, and its descendants get no entries.
    let p = Profile::chromie_335a();
    let scan = vec![
        dir("Interface"),
        dir("Interface/AddOns"),
        dir("Interface/AddOns/SomeAddon"),
        file("Interface/AddOns/SomeAddon/SomeAddon.toc", b"toc"),
    ];
    let tree = tree_of(&scan);
    let manifest = scan_and_build_manifest(&scan, &p, "/base", "0").unwrap();
    let mut rules = SharingRules::new();
    rules.insert("addons".to_string(), SharingStrategy::Base);
    let plan = plan_workspace_links(&manifest, &tree, &rules);
    assert_eq!(
        plan,
        vec![
            // Interface itself: private directory (default Workspace)
            LinkAction::EnsureDir("Interface".to_string()),
            // AddOns: linked per base
            LinkAction::EnsureSharedDir(Scope::PerBase, "Interface/AddOns".to_string()),
            LinkAction::Symlink("Interface/AddOns".to_string(), Scope::PerBase),
            // SomeAddon lies below the shared link: skipped entirely,
            // and no parent directories are created through the link.
        ]
    );
}

#[test]
fn test_base_strategy_uses_per_base_scope() {
    let p = Profile::chromie_335a();
    let scan = vec![dir("Interface"), dir("Interface/AddOns")];
    let tree = tree_of(&scan);
    let manifest = scan_and_build_manifest(&scan, &p, "/base", "0").unwrap();
    let mut rules = SharingRules::new();
    rules.insert("interface/addons".to_string(), SharingStrategy::Base);
    let plan = plan_workspace_links(&manifest, &tree, &rules);
    assert!(plan.contains(&LinkAction::Symlink("Interface/AddOns".to_string(), Scope::PerBase)));
    assert!(plan.contains(&LinkAction::EnsureSharedDir(
        Scope::PerBase,
        "Interface/AddOns".to_string()
    )));
}

#[test]
fn test_link_fidelity_in_plan() {
    // Executable and BaseData files are linked, MutableData and Other
    // files are copied; neither kind ever gets the other treatment.
    let p = Profile::chromie_335a();
    let scan = vec![
        file("Wow.exe", b"exe"),
        dir("Data"),
        file("Data/common.MPQ", b"123456789"),
        file("Data/patch.MPQ", b"p"),
        file("README.txt", b"r"),
    ];
    let tree = tree_of(&scan);
    let manifest = scan_and_build_manifest(&scan, &p, "/base", "0").unwrap();
    let rules = SharingRules::new();
    let plan = plan_workspace_links(&manifest, &tree, &rules);
    assert!(plan.contains(&LinkAction::LinkFile("Wow.exe".to_string())));
    assert!(plan.contains(&LinkAction::LinkFile("Data/common.MPQ".to_string())));
    assert!(plan.contains(&LinkAction::CopyFile("Data/patch.MPQ".to_string())));
    assert!(plan.contains(&LinkAction::CopyFile("README.txt".to_string())));
    assert!(!plan.contains(&LinkAction::CopyFile("Wow.exe".to_string())));
    assert!(!plan.contains(&LinkAction::CopyFile("Data/common.MPQ".to_string())));
    assert!(!plan.contains(&LinkAction::LinkFile("Data/patch.MPQ".to_string())));
    assert!(!plan.contains(&LinkAction::LinkFile("README.txt".to_string())));
}

#[test]
fn test_ephemeral_dirs_created_empty() {
    let p = Profile::chromie_335a();
    let scan = vec![dir("Cache"), file("Wow.exe", b"exe")];
    let tree = tree_of(&scan);
    let manifest = scan_and_build_manifest(&scan, &p, "/base", "0").unwrap();
    let rules = SharingRules::new();
    let plan = plan_workspace_links(&manifest, &tree, &rules);
    assert_eq!(
        plan,
        vec![
            LinkAction::EnsureDir("Cache".to_string()),
            LinkAction::LinkFile("Wow.exe".to_string()),
        ]
    );
}

#[test]
fn test_parents_processed_before_children() {
    // A deeper media directory is sorted after its shallower parent,
    // whatever the manifest order.
    let p = Profile::chromie_335a();
    let scan = vec![
        dir("Screenshots/2024-12"),
        dir("Screenshots"),
    ];
    let tree = tree_of(&scan);
    let manifest = scan_and_build_manifest(&scan, &p, "/base", "0").unwrap();
    let mut rules = SharingRules::new();
    rules.insert("screenshots".to_string(), SharingStrategy::Global);
    let plan = plan_workspace_links(&manifest, &tree, &rules);
    // The parent is linked; the child, below an already-shared
    // directory, is skipped.
    assert_eq!(
        plan,
        vec![
            LinkAction::EnsureSharedDir(Scope::Global, "Screenshots".to_string()),
            LinkAction::Symlink("Screenshots".to_string(), Scope::Global),
        ]
    );
}
