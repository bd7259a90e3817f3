use realmctl::fstree::{FsKind, PathSet, TreeEntry, TreeView};
use realmctl::link::Scope;
use realmctl::manifest::{scan_and_build_manifest, ScanEntry};
use realmctl::repair::{plan_repair, RepairAction, WsEntry, WsState, WsTree};
use realmctl::roles::Profile;
use realmctl::sharing::{SharingRules, SharingStrategy};

fn file(path: &str, data: &[u8]) -> ScanEntry {
    ScanEntry { path: path.to_string(), kind: FsKind::File, data: Some(data.to_vec()) }
}

fn dir(path: &str) -> ScanEntry {
    ScanEntry { path: path.to_string(), kind: FsKind::Dir, data: None }
}

fn tree_of(scan: &[ScanEntry]) -> TreeView {
    TreeView {
        entries: scan
            .iter()
            .map(|e| TreeEntry { path: e.path.clone(), kind: e.kind })
            .collect(),
    }
}

fn paths(ps: &[&str]) -> PathSet {
    PathSet { paths: ps.iter().map(|p| p.to_string()).collect() }
}

fn ws(entries: &[(&str, WsState)]) -> WsTree {
    WsTree {
        entries: entries
            .iter()
            .map(|(p, s)| WsEntry { path: p.to_string(), state: *s })
            .collect(),
    }
}

fn scenario() -> (realmctl::manifest::BaseManifest, TreeView, SharingRules) {
    let p = Profile::chromie_335a();
    let scan = vec![
        file("Wow.exe", b"exe"),
        dir("Data"),
        file("Data/common.MPQ", b"123456789"),
        dir("Screenshots"),
        dir("WTF"),
    ];
    let tree = tree_of(&scan);
    let manifest = scan_and_build_manifest(&scan, &p, "/base", "0").unwrap();
    let mut rules = SharingRules::new();
    rules.insert("screenshots".to_string(), SharingStrategy::Global);
    rules.insert("wtf".to_string(), SharingStrategy::Workspace);
    (manifest, tree, rules)
}

#[test]
fn test_repair_untouched_workspace_plans_nothing() {
    let (manifest, tree, rules) = scenario();
    // The workspace exactly as creation left it: a live link for the
    // shared candidate, a real directory for the private one.
    let w = ws(&[
        ("Wow.exe", WsState::File),
        ("Data", WsState::Dir),
        ("Data/common.MPQ", WsState::File),
        ("Screenshots", WsState::LinkTo(Scope::Global, true)),
        ("WTF", WsState::Dir),
    ]);
    let plan = plan_repair(
        &manifest,
        &tree,
        &rules,
        &w,
        &paths(&["Screenshots"]),
        &paths(&[]),
        true,
        true,
    );
    assert!(plan.is_empty());
}

#[test]
fn test_repair_recreates_missing_shared_target() {
    let (manifest, tree, rules) = scenario();
    // The shared target was deleted while the workspace link remains:
    // repair recreates the target and leaves the link alone.
    let w = ws(&[
        ("Screenshots", WsState::LinkTo(Scope::Global, false)),
        ("WTF", WsState::Dir),
    ]);
    let plan = plan_repair(&manifest, &tree, &rules, &w, &paths(&[]), &paths(&[]), true, true);
    assert_eq!(
        plan,
        vec![RepairAction::CreateTarget(Scope::Global, "Screenshots".to_string())]
    );
}

#[test]
fn test_repair_preserves_replaced_symlink() {
    let (manifest, tree, rules) = scenario();
    // The user replaced the shared link with a real directory full of
    // their own files: repair only records an advisory and never plans
    // a link, a directory or any removal at that path.
    let w = ws(&[
        ("Screenshots", WsState::Dir),
        ("WTF", WsState::Dir),
    ]);
    let plan = plan_repair(
        &manifest,
        &tree,
        &rules,
        &w,
        &paths(&["Screenshots"]),
        &paths(&[]),
        true,
        true,
    );
    assert_eq!(
        plan,
        vec![RepairAction::WarnReplacedLink("Screenshots".to_string())]
    );
}

#[test]
fn test_repair_creates_absent_candidates() {
    let (manifest, tree, rules) = scenario();
    // A fresh, empty workspace: the shared candidate needs target and
    // link, the private candidate a real directory.
    let w = ws(&[]);
    let plan = plan_repair(&manifest, &tree, &rules, &w, &paths(&[]), &paths(&[]), true, true);
    assert_eq!(
        plan,
        vec![
            RepairAction::CreateTarget(Scope::Global, "Screenshots".to_string()),
            RepairAction::CreateLink("Screenshots".to_string(), Scope::Global),
            RepairAction::CreateDir("WTF".to_string()),
        ]
    );
}

#[test]
fn test_repair_skips_link_reachable_through_ancestor() {
    // AddOns is linked; a nested shared candidate below it would
    // resolve through the ancestor link once its target exists, so no
    // second link is planned.
    let p = Profile::chromie_335a();
    let scan = vec![
        dir("Interface"),
        dir("Interface/AddOns"),
        dir("Interface/AddOns/SomeAddon"),
    ];
    let tree = tree_of(&scan);
    let manifest = scan_and_build_manifest(&scan, &p, "/base", "0").unwrap();
    let mut rules = SharingRules::new();
    rules.insert("addons".to_string(), SharingStrategy::Base);
    let w = ws(&[
        ("Interface", WsState::Dir),
        ("Interface/AddOns", WsState::LinkTo(Scope::PerBase, true)),
    ]);
    let plan = plan_repair(
        &manifest,
        &tree,
        &rules,
        &w,
        &paths(&[]),
        &paths(&["Interface/AddOns"]),
        true,
        true,
    );
    // SomeAddon is absent from the walk: repair creates its shared
    // target, but plans no link since the path resolves through the
    // AddOns link once the target exists.
    assert_eq!(
        plan,
        vec![RepairAction::CreateTarget(
            Scope::PerBase,
            "Interface/AddOns/SomeAddon".to_string()
        )]
    );
}

#[test]
fn test_repair_warns_on_symlinked_private_dir() {
    let (manifest, tree, rules) = scenario();
    // The private candidate was turned into a symlink by the user:
    // advisory only.
    let w = ws(&[
        ("Screenshots", WsState::LinkTo(Scope::Global, true)),
        ("WTF", WsState::LinkOther(true)),
    ]);
    let plan = plan_repair(
        &manifest,
        &tree,
        &rules,
        &w,
        &paths(&["Screenshots"]),
        &paths(&[]),
        true,
        true,
    );
    assert_eq!(
        plan,
        vec![RepairAction::WarnLinkExpectedDir("WTF".to_string())]
    );
}

#[test]
fn test_repair_ensures_missing_roots() {
    let (manifest, tree, rules) = scenario();
    let w = ws(&[
        ("Screenshots", WsState::LinkTo(Scope::Global, true)),
        ("WTF", WsState::Dir),
    ]);
    let plan = plan_repair(
        &manifest,
        &tree,
        &rules,
        &w,
        &paths(&["Screenshots"]),
        &paths(&[]),
        false,
        false,
    );
    assert_eq!(
        plan,
        vec![
            RepairAction::EnsureRoot(Scope::Global),
            RepairAction::EnsureRoot(Scope::PerBase),
        ]
    );
}
