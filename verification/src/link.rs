//! Planning the materialization of a new workspace.
//!
//! The planner consumes a manifest, a snapshot of the base tree, and the
//! workspace's sharing rules, and produces the ordered list of actions
//! that builds the workspace: pass one walks the sharing candidates
//! (user-data directories) shallowest first, linking each into its
//! shared root or creating it privately; pass two materializes every
//! other entry by role. The front end applies the actions in order;
//! every action is a guarded, idempotent filesystem primitive, so a
//! re-run over an existing tree never overwrites anything.

use vstd::prelude::*;

use crate::fstree::{kind_in, FsKind, PathSet, TreeEntryModel, TreeView};
use crate::manifest::{BaseManifest, RoleEntry, RoleEntryModel};
use crate::path_util::{depth_of, is_dir_prefix, parent_of, strict_under};
use crate::roles::{default_strategy, spec_default_strategy, FileRole};
use crate::sharing::{
    determine_strategy, spec_determine, SharingRuleModel, SharingRules, SharingStrategy,
};

verus! {

/// Which shared root a deduplicated path lives under.
#[derive(Clone, Copy, Debug, PartialEq, Eq, Structural)]
pub enum Scope {
    /// `.shared/global`: one instance across all bases.
    Global,
    /// `.shared/<base-name>`: one instance per base.
    PerBase,
}

/// One planned filesystem action, relative to the workspace directory
/// and the two shared roots. Every action is idempotent or guarded: if
/// its effect is already present, applying it changes nothing.
#[derive(Clone, Debug, PartialEq, Eq)]
pub enum LinkAction {
    /// Create this directory (with any missing ancestors) inside the
    /// workspace, if absent.
    EnsureDir(String),
    /// Create the mirrored directory under the given shared root, if
    /// absent.
    EnsureSharedDir(Scope, String),
    /// Create a symbolic link at the workspace path pointing at its
    /// mirror under the given shared root.
    Symlink(String, Scope),
    /// Hard-link the base file to the workspace path, falling back to a
    /// symbolic link; skipped if the workspace path exists.
    LinkFile(String),
    /// Copy the base file's bytes to the workspace path; skipped if the
    /// workspace path exists.
    CopyFile(String),
}

/// Mathematical model of a [`LinkAction`].
#[verifier::ext_equal]
pub enum LinkActionModel {
    EnsureDir(Seq<char>),
    EnsureSharedDir(Scope, Seq<char>),
    Symlink(Seq<char>, Scope),
    LinkFile(Seq<char>),
    CopyFile(Seq<char>),
}

impl View for LinkAction {
    type V = LinkActionModel;

    open spec fn view(&self) -> LinkActionModel {
        match self {
            LinkAction::EnsureDir(p) => LinkActionModel::EnsureDir(p@),
            LinkAction::EnsureSharedDir(sc, p) => LinkActionModel::EnsureSharedDir(*sc, p@),
            LinkAction::Symlink(p, sc) => LinkActionModel::Symlink(p@, *sc),
            LinkAction::LinkFile(p) => LinkActionModel::LinkFile(p@),
            LinkAction::CopyFile(p) => LinkActionModel::CopyFile(p@),
        }
    }
}

/// The models of a list of actions.
pub open spec fn action_models(v: Seq<LinkAction>) -> Seq<LinkActionModel> {
    v.map_values(|a: LinkAction| a@)
}

/// The persisted description of one workspace: where it lives, which
/// base it was built from, and the sharing rules it was built with.
/// Written once at creation and read back for later repair.
#[derive(Clone, Debug)]
pub struct WorkspaceConfig {
    pub name: String,
    pub base_name: String,
    pub base_path: String,
    pub workspace_path: String,
    pub created_at: String,
    pub sharing_rules: SharingRules,
}

/// A sharing candidate: a user-data entry that is a directory in the
/// base tree.
pub open spec fn is_candidate(e: RoleEntryModel, tree: Seq<TreeEntryModel>) -> bool {
    (e.role == FileRole::UserMedia || e.role == FileRole::UserConfig) && kind_in(tree, e.path)
        == Some(FsKind::Dir)
}

/// The sharing candidates among the manifest entries, in manifest order.
pub open spec fn candidates_of(
    roles: Seq<RoleEntryModel>,
    tree: Seq<TreeEntryModel>,
) -> Seq<RoleEntryModel>
    decreases roles.len(),
{
    if roles.len() == 0 {
        Seq::empty()
    } else {
        let rest = candidates_of(roles.drop_last(), tree);
        if is_candidate(roles.last(), tree) {
            rest.push(roles.last())
        } else {
            rest
        }
    }
}

/// The entries whose path has exactly depth `d`, kept in order.
pub open spec fn with_depth(c: Seq<RoleEntryModel>, d: nat) -> Seq<RoleEntryModel>
    decreases c.len(),
{
    if c.len() == 0 {
        Seq::empty()
    } else {
        let rest = with_depth(c.drop_last(), d);
        if depth_of(c.last().path) == d {
            rest.push(c.last())
        } else {
            rest
        }
    }
}

/// All entries of depth zero up to depth `d`, grouped by rising depth,
/// order within one depth preserved: a stable depth sort.
pub open spec fn by_depth_upto(c: Seq<RoleEntryModel>, d: nat) -> Seq<RoleEntryModel>
    decreases d,
{
    if d == 0 {
        with_depth(c, 0)
    } else {
        by_depth_upto(c, (d - 1) as nat) + with_depth(c, d)
    }
}

/// The largest depth among the entries.
pub open spec fn max_depth_of(c: Seq<RoleEntryModel>) -> nat
    decreases c.len(),
{
    if c.len() == 0 {
        0
    } else {
        let rest = max_depth_of(c.drop_last());
        if depth_of(c.last().path) > rest {
            depth_of(c.last().path)
        } else {
            rest
        }
    }
}

/// The sharing candidates ordered shallowest first (parents before
/// children), ties kept in manifest order.
pub open spec fn sorted_candidates(
    roles: Seq<RoleEntryModel>,
    tree: Seq<TreeEntryModel>,
) -> Seq<RoleEntryModel> {
    by_depth_upto(candidates_of(roles, tree), max_depth_of(candidates_of(roles, tree)))
}

/// The effective strategy of a candidate: its resolved rule, or its
/// role's default.
pub open spec fn strategy_of(rules: Seq<SharingRuleModel>, e: RoleEntryModel) -> SharingStrategy {
    spec_determine(rules, e.path, spec_default_strategy(e.role))
}

/// A candidate below an already-shared directory is skipped: linking it
/// separately would nest one shared link inside another.
pub open spec fn skip_blocked(processed: Seq<Seq<char>>, p: Seq<char>) -> bool {
    exists|k: int| 0 <= k < processed.len() && strict_under(p, #[trigger] processed[k])
}

/// Pass one over the ordered candidates: `processed` collects the paths
/// already turned into shared links, `acc` the actions so far.
pub open spec fn pass1(
    cands: Seq<RoleEntryModel>,
    rules: Seq<SharingRuleModel>,
    processed: Seq<Seq<char>>,
    acc: Seq<LinkActionModel>,
) -> (Seq<LinkActionModel>, Seq<Seq<char>>)
    decreases cands.len(),
{
    if cands.len() == 0 {
        (acc, processed)
    } else {
        let e = cands[0];
        if skip_blocked(processed, e.path) {
            pass1(cands.skip(1), rules, processed, acc)
        } else {
            let st = strategy_of(rules, e);
            if st == SharingStrategy::Workspace {
                pass1(cands.skip(1), rules, processed, acc.push(LinkActionModel::EnsureDir(e.path)))
            } else {
                let sc = if st == SharingStrategy::Global {
                    Scope::Global
                } else {
                    Scope::PerBase
                };
                pass1(
                    cands.skip(1),
                    rules,
                    processed.push(e.path),
                    acc + seq![
                        LinkActionModel::EnsureSharedDir(sc, e.path),
                        LinkActionModel::Symlink(e.path, sc),
                    ],
                )
            }
        }
    }
}

/// Whether some rule key covers the path `a` (exact, case-sensitive
/// comparison, as pass two of the engine applies it to ancestors).
pub open spec fn hits_rule_key(rules: Seq<SharingRuleModel>, a: Seq<char>) -> bool {
    exists|k: int| 0 <= k < rules.len() && is_dir_prefix(#[trigger] rules[k].key, a)
}

pub proof fn lemma_parent_len(p: Seq<char>)
    ensures
        match parent_of(p) {
            Some(q) => q.len() < p.len(),
            None => true,
        },
    decreases p.len(),
{
    if p.len() > 0 && p.last() != '/' {
        lemma_parent_len(p.drop_last());
    }
}

/// Whether `a` or any of its ancestors is a planned shared link or is
/// covered by a sharing-rule key: parent creation must stop there, since
/// the ancestor resolves the path by itself.
pub open spec fn chain_blocked(
    a: Seq<char>,
    links: Seq<Seq<char>>,
    rules: Seq<SharingRuleModel>,
) -> bool
    decreases a.len(),
    via chain_blocked_decreases
{
    links.contains(a) || hits_rule_key(rules, a) || match parent_of(a) {
        Some(pp) => chain_blocked(pp, links, rules),
        None => false,
    }
}

#[via_fn]
proof fn chain_blocked_decreases(a: Seq<char>, links: Seq<Seq<char>>, rules: Seq<SharingRuleModel>) {
    lemma_parent_len(a);
}

/// The pass-two actions of one manifest entry: ensure its parent exists
/// unless an ancestor resolves it, and materialize it by role.
pub open spec fn entry_actions(
    e: RoleEntryModel,
    tree: Seq<TreeEntryModel>,
    rules: Seq<SharingRuleModel>,
    links: Seq<Seq<char>>,
) -> Seq<LinkActionModel> {
    if is_candidate(e, tree) {
        Seq::empty()
    } else {
        let par_acts = match parent_of(e.path) {
            Some(par) => if chain_blocked(par, links, rules) {
                Seq::empty()
            } else {
                seq![LinkActionModel::EnsureDir(par)]
            },
            None => Seq::empty(),
        };
        let mat: Seq<LinkActionModel> = match e.role {
            FileRole::Executable | FileRole::BaseData => if kind_in(tree, e.path) == Some(
                FsKind::File,
            ) {
                seq![LinkActionModel::LinkFile(e.path)]
            } else {
                Seq::empty()
            },
            FileRole::MutableData | FileRole::Other => if kind_in(tree, e.path) == Some(
                FsKind::File,
            ) {
                seq![LinkActionModel::CopyFile(e.path)]
            } else {
                Seq::empty()
            },
            FileRole::Ephemeral => if kind_in(tree, e.path) == Some(FsKind::Dir) {
                seq![LinkActionModel::EnsureDir(e.path)]
            } else {
                Seq::empty()
            },
            FileRole::UserMedia | FileRole::UserConfig => Seq::empty(),
        };
        par_acts + mat
    }
}

/// Pass two over all manifest entries, appending each entry's actions.
pub open spec fn pass2(
    roles: Seq<RoleEntryModel>,
    tree: Seq<TreeEntryModel>,
    rules: Seq<SharingRuleModel>,
    links: Seq<Seq<char>>,
    acc: Seq<LinkActionModel>,
) -> Seq<LinkActionModel>
    decreases roles.len(),
{
    if roles.len() == 0 {
        acc
    } else {
        pass2(
            roles.skip(1),
            tree,
            rules,
            links,
            acc + entry_actions(roles[0], tree, rules, links),
        )
    }
}

/// The complete creation plan for one workspace.
pub open spec fn spec_link_plan(
    roles: Seq<RoleEntryModel>,
    tree: Seq<TreeEntryModel>,
    rules: Seq<SharingRuleModel>,
) -> Seq<LinkActionModel> {
    let pr = pass1(sorted_candidates(roles, tree), rules, Seq::empty(), Seq::empty());
    pass2(roles, tree, rules, pr.1, pr.0)
}

/// The strategy whose candidates live under the given shared root.
pub open spec fn scope_strategy(sc: Scope) -> SharingStrategy {
    match sc {
        Scope::Global => SharingStrategy::Global,
        Scope::PerBase => SharingStrategy::Base,
    }
}

/// The shared root that serves a (non-private) strategy.
pub open spec fn scope_of(st: SharingStrategy) -> Scope {
    if st == SharingStrategy::Global {
        Scope::Global
    } else {
        Scope::PerBase
    }
}

/// Structural facts about pass one: the accumulator is a prefix of the
/// result; every planned link path is recorded as processed; every link
/// comes from a candidate whose strategy selects that scope; and no
/// later link lies below an earlier one.
proof fn lemma_pass1_props(
    cands: Seq<RoleEntryModel>,
    rules: Seq<SharingRuleModel>,
    processed: Seq<Seq<char>>,
    acc: Seq<LinkActionModel>,
)
    requires
        forall|i: int|
            0 <= i < acc.len() ==> (#[trigger] acc[i] matches LinkActionModel::Symlink(p, sc)
                ==> processed.contains(p)),
        forall|i: int, j: int|
            0 <= i < j < acc.len() ==> (#[trigger] acc[i] matches LinkActionModel::Symlink(p1, sc1)
                ==> #[trigger] acc[j] matches LinkActionModel::Symlink(p2, sc2) ==> !strict_under(p2, p1)),
    ensures
        ({
            let r = pass1(cands, rules, processed, acc);
            &&& r.0.len() >= acc.len()
            &&& forall|i: int| 0 <= i < acc.len() ==> r.0[i] == acc[i]
            &&& forall|s: Seq<char>| processed.contains(s) ==> r.1.contains(s)
            &&& forall|i: int|
                0 <= i < r.0.len() ==> (#[trigger] r.0[i] matches LinkActionModel::Symlink(p, sc)
                    ==> r.1.contains(p))
            &&& forall|i: int|
                acc.len() <= i < r.0.len() ==> (#[trigger] r.0[i] matches LinkActionModel::Symlink(
                    p,
                    sc,
                ) ==> exists|k: int|
                    0 <= k < cands.len() && (#[trigger] cands[k]).path == p && strategy_of(
                        rules,
                        cands[k],
                    ) == scope_strategy(sc))
            &&& forall|i: int, j: int|
                0 <= i < j < r.0.len() ==> (#[trigger] r.0[i] matches LinkActionModel::Symlink(
                    p1,
                    sc1,
                ) ==> #[trigger] r.0[j] matches LinkActionModel::Symlink(p2, sc2) ==> !strict_under(
                    p2,
                    p1,
                ))
            &&& forall|i: int|
                acc.len() <= i < r.0.len() ==> !((#[trigger] r.0[i]) matches
                LinkActionModel::LinkFile(q)) && !(r.0[i] matches LinkActionModel::CopyFile(q2))
        }),
    decreases cands.len(),
{
    if cands.len() > 0 {
        let e = cands[0];
        let rest = cands.skip(1);
        if skip_blocked(processed, e.path) {
            lemma_pass1_props(rest, rules, processed, acc);
            lemma_pass1_origin_shift(cands, rules, processed, acc, acc);
        } else {
            let st = strategy_of(rules, e);
            if st == SharingStrategy::Workspace {
                let acc1 = acc.push(LinkActionModel::EnsureDir(e.path));
                assert(acc1[acc.len() as int] == LinkActionModel::EnsureDir(e.path));
                assert forall|i: int|
                    0 <= i < acc1.len() implies (#[trigger] acc1[i] matches
                LinkActionModel::Symlink(p, sc2) ==> processed.contains(p)) by {
                    if i < acc.len() {
                        assert(acc1[i] == acc[i]);
                    }
                }
                assert forall|i: int, j: int|
                    0 <= i < j < acc1.len() implies (#[trigger] acc1[i] matches
                LinkActionModel::Symlink(p1, sc1) ==> #[trigger] acc1[j] matches
                LinkActionModel::Symlink(p2, sc2) ==> !strict_under(p2, p1)) by {
                    if j < acc.len() {
                        assert(acc1[i] == acc[i]);
                        assert(acc1[j] == acc[j]);
                    } else {
                        assert(acc1[j] == LinkActionModel::EnsureDir(e.path));
                    }
                }
                lemma_pass1_props(rest, rules, processed, acc1);
                lemma_pass1_origin_shift(cands, rules, processed, acc1, acc);
                let r = pass1(cands, rules, processed, acc);
                assert(r == pass1(rest, rules, processed, acc1));
                assert(r.0.len() >= acc.len());
                assert forall|i: int| 0 <= i < acc.len() implies r.0[i] == acc[i] by {
                    assert(r.0[i] == acc1[i]);
                    assert(acc1[i] == acc[i]);
                }
                assert forall|i: int|
                    acc.len() <= i < r.0.len() implies !((#[trigger] r.0[i]) matches
                LinkActionModel::LinkFile(q)) && !(r.0[i] matches LinkActionModel::CopyFile(
                    q2,
                )) by {
                    if i < acc1.len() {
                        assert(r.0[i] == acc1[i]);
                        assert(acc1[i] == LinkActionModel::EnsureDir(e.path));
                    }
                }
            } else {
                let sc = if st == SharingStrategy::Global {
                    Scope::Global
                } else {
                    Scope::PerBase
                };
                let acc1 = acc + seq![
                    LinkActionModel::EnsureSharedDir(sc, e.path),
                    LinkActionModel::Symlink(e.path, sc),
                ];
                let processed1 = processed.push(e.path);
                assert(acc1[acc.len() as int + 1] == LinkActionModel::Symlink(e.path, sc));
                assert(processed1[processed.len() as int] == e.path);
                assert(processed1.contains(e.path));
                assert forall|i: int|
                    0 <= i < acc1.len() implies (#[trigger] acc1[i] matches
                LinkActionModel::Symlink(p, sc2) ==> processed1.contains(p)) by {
                    if i < acc.len() {
                        assert(acc1[i] == acc[i]);
                        match acc[i] {
                            LinkActionModel::Symlink(p, sc2) => {
                                assert(processed.contains(p));
                                let k = choose|k: int|
                                    0 <= k < processed.len() && processed[k] == p;
                                assert(processed1[k] == p);
                                assert(processed1.contains(p));
                            },
                            _ => {},
                        }
                    }
                }
                assert forall|i: int, j: int|
                    0 <= i < j < acc1.len() implies (#[trigger] acc1[i] matches
                LinkActionModel::Symlink(p1, sc1) ==> #[trigger] acc1[j] matches
                LinkActionModel::Symlink(p2, sc2) ==> !strict_under(p2, p1)) by {
                    if j < acc.len() {
                        assert(acc1[i] == acc[i]);
                        assert(acc1[j] == acc[j]);
                    } else if j == acc.len() + 1 && i < acc.len() {
                        assert(acc1[i] == acc[i]);
                        match acc[i] {
                            LinkActionModel::Symlink(p1, sc1) => {
                                assert(processed.contains(p1));
                                assert(!skip_blocked(processed, e.path));
                                assert(!strict_under(e.path, p1));
                            },
                            _ => {},
                        }
                    }
                }
                assert forall|s2: Seq<char>| processed.contains(s2) implies processed1.contains(
                    s2,
                ) by {
                    let k = choose|k: int| 0 <= k < processed.len() && processed[k] == s2;
                    assert(processed1[k] == s2);
                }
                lemma_pass1_props(rest, rules, processed1, acc1);
                lemma_pass1_origin_shift(cands, rules, processed1, acc1, acc);
                let r = pass1(cands, rules, processed, acc);
                assert(r == pass1(rest, rules, processed1, acc1));
                assert(r.0.len() >= acc.len());
                assert forall|i: int| 0 <= i < acc.len() implies r.0[i] == acc[i] by {
                    assert(r.0[i] == acc1[i]);
                    assert(acc1[i] == acc[i]);
                }
                assert forall|s2: Seq<char>| processed.contains(s2) implies r.1.contains(s2) by {
                    assert(processed1.contains(s2));
                }
                assert forall|i: int|
                    acc.len() <= i < r.0.len() implies !((#[trigger] r.0[i]) matches
                LinkActionModel::LinkFile(q)) && !(r.0[i] matches LinkActionModel::CopyFile(
                    q2,
                )) by {
                    if i < acc1.len() {
                        assert(r.0[i] == acc1[i]);
                        if i == acc.len() {
                            assert(acc1[i] == LinkActionModel::EnsureSharedDir(sc, e.path));
                        } else {
                            assert(acc1[i] == LinkActionModel::Symlink(e.path, sc));
                        }
                    }
                }
            }
        }
    }
}

/// Shifts pass-one link origins from the tail of the candidate list to
/// the whole list, across one unfolding step.
proof fn lemma_pass1_origin_shift(
    cands: Seq<RoleEntryModel>,
    rules: Seq<SharingRuleModel>,
    processed1: Seq<Seq<char>>,
    acc1: Seq<LinkActionModel>,
    acc: Seq<LinkActionModel>,
)
    requires
        cands.len() > 0,
        acc.len() <= acc1.len(),
        ({
            let r = pass1(cands.skip(1), rules, processed1, acc1);
            forall|i: int|
                acc1.len() <= i < r.0.len() ==> (#[trigger] r.0[i] matches
                LinkActionModel::Symlink(p, sc) ==> exists|k: int|
                    0 <= k < cands.skip(1).len() && (#[trigger] cands.skip(1)[k]).path == p
                        && strategy_of(rules, cands.skip(1)[k]) == scope_strategy(sc))
        }),
        forall|i: int|
            acc.len() <= i < acc1.len() ==> (#[trigger] acc1[i] matches LinkActionModel::Symlink(
                p,
                sc,
            ) ==> cands[0].path == p && strategy_of(rules, cands[0]) == scope_strategy(sc)),
        ({
            let r = pass1(cands.skip(1), rules, processed1, acc1);
            forall|i: int| 0 <= i < acc1.len() ==> r.0[i] == acc1[i]
        }),
    ensures
        ({
            let r = pass1(cands.skip(1), rules, processed1, acc1);
            forall|i: int|
                acc.len() <= i < r.0.len() ==> (#[trigger] r.0[i] matches LinkActionModel::Symlink(
                    p,
                    sc,
                ) ==> exists|k: int|
                    0 <= k < cands.len() && (#[trigger] cands[k]).path == p && strategy_of(
                        rules,
                        cands[k],
                    ) == scope_strategy(sc))
        }),
{
    let r = pass1(cands.skip(1), rules, processed1, acc1);
    assert forall|i: int|
        acc.len() <= i < r.0.len() implies (#[trigger] r.0[i] matches LinkActionModel::Symlink(
        p,
        sc,
    ) ==> exists|k: int|
        0 <= k < cands.len() && (#[trigger] cands[k]).path == p && strategy_of(rules, cands[k])
            == scope_strategy(sc)) by {
        match r.0[i] {
            LinkActionModel::Symlink(p, sc) => {
                if i < acc1.len() {
                    assert(r.0[i] == acc1[i]);
                    assert(cands[0].path == p && strategy_of(rules, cands[0]) == scope_strategy(
                        sc,
                    ));
                } else {
                    let k = choose|k: int|
                        0 <= k < cands.skip(1).len() && (#[trigger] cands.skip(1)[k]).path == p
                            && strategy_of(rules, cands.skip(1)[k]) == scope_strategy(sc);
                    assert(cands.skip(1)[k] == cands[k + 1]);
                    assert(cands[k + 1].path == p && strategy_of(rules, cands[k + 1])
                        == scope_strategy(sc));
                }
            },
            _ => {},
        }
    }
}

/// Whether `p` lies below one of the already-processed shared paths.
fn skip_blocked_check(processed: &PathSet, p: &str) -> (r: bool)
    ensures
        r == skip_blocked(processed.models(), p@),
{
    let n = processed.paths.len();
    let mut i: usize = 0;
    while i < n
        invariant
            n == processed.paths.len(),
            i <= n,
            forall|k: int| 0 <= k < i ==> !strict_under(p@, #[trigger] processed.models()[k]),
        decreases n - i,
    {
        if crate::path_util::strict_under_check(p, processed.paths[i].as_str()) {
            assert(strict_under(p@, processed.models()[i as int]));
            return true;
        }
        i = i + 1;
    }
    false
}

/// Whether some rule key covers `a` exactly or as a directory prefix.
fn hits_rule_key_check(rules: &SharingRules, a: &str) -> (r: bool)
    ensures
        r == hits_rule_key(rules.models(), a@),
{
    let n = rules.rules.len();
    let mut i: usize = 0;
    while i < n
        invariant
            n == rules.rules.len(),
            i <= n,
            forall|k: int| 0 <= k < i ==> !is_dir_prefix(#[trigger] rules.models()[k].key, a@),
        decreases n - i,
    {
        if crate::path_util::dir_prefix_check(rules.rules[i].key.as_str(), a) {
            assert(is_dir_prefix(rules.models()[i as int].key, a@));
            return true;
        }
        i = i + 1;
    }
    false
}

/// Whether `a` or one of its ancestors is a planned link or is covered
/// by a rule key.
fn chain_blocked_check(a: &str, links: &PathSet, rules: &SharingRules) -> (r: bool)
    ensures
        r == chain_blocked(a@, links.models(), rules.models()),
    decreases a@.len(),
{
    if links.contains_path(a) {
        return true;
    }
    if hits_rule_key_check(rules, a) {
        return true;
    }
    match crate::path_util::parent_path(a) {
        Some(par) => {
            proof {
                lemma_parent_len(a@);
            }
            chain_blocked_check(par.as_str(), links, rules)
        },
        None => false,
    }
}

/// Collects the sharing candidates of a manifest (user-data entries
/// that are directories in the base tree), ordered shallowest first,
/// ties in manifest order: the candidate list both the creation and the
/// repair planner walk.
pub fn sorted_candidate_vec(manifest: &BaseManifest, base_tree: &TreeView) -> (r: Vec<RoleEntry>)
    ensures
        r@.map_values(|e: RoleEntry| e@) == sorted_candidates(
            manifest.role_models(),
            base_tree.models(),
        ),
{
    let ghost roles_m = manifest.role_models();
    let ghost tree_m = base_tree.models();

    let n = manifest.file_roles.len();
    let mut cands: Vec<RoleEntry> = Vec::new();
    let mut i: usize = 0;
    proof {
        assert(roles_m.take(0) =~= Seq::<RoleEntryModel>::empty());
        assert(cands@.map_values(|e: RoleEntry| e@) =~= candidates_of(roles_m.take(0), tree_m));
    }
    while i < n
        invariant
            n == manifest.file_roles.len(),
            i <= n,
            roles_m == manifest.role_models(),
            tree_m == base_tree.models(),
            cands@.map_values(|e: RoleEntry| e@) == candidates_of(roles_m.take(i as int), tree_m),
        decreases n - i,
    {
        proof {
            assert(roles_m.take(i as int + 1).drop_last() =~= roles_m.take(i as int));
            assert(roles_m.take(i as int + 1).last() == roles_m[i as int]);
        }
        let entry = &manifest.file_roles[i];
        let um = match entry.role {
            FileRole::UserMedia | FileRole::UserConfig => true,
            _ => false,
        };
        if um {
            let isdir = match base_tree.kind_of(entry.path.as_str()) {
                Some(FsKind::Dir) => true,
                _ => false,
            };
            if isdir {
                cands.push(RoleEntry { path: entry.path.clone(), role: entry.role });
            }
        }
        proof {
            assert(cands@.map_values(|e: RoleEntry| e@) =~= candidates_of(
                roles_m.take(i as int + 1),
                tree_m,
            ));
        }
        i = i + 1;
    }
    proof {
        assert(roles_m.take(n as int) =~= roles_m);
    }
    let ghost cands_m = candidates_of(roles_m, tree_m);

    let m = cands.len();
    let mut maxd: usize = 0;
    let mut j: usize = 0;
    proof {
        assert(cands_m.take(0) =~= Seq::<RoleEntryModel>::empty());
    }
    while j < m
        invariant
            m == cands.len(),
            j <= m,
            cands@.map_values(|e: RoleEntry| e@) == cands_m,
            maxd == max_depth_of(cands_m.take(j as int)),
        decreases m - j,
    {
        proof {
            assert(cands_m.take(j as int + 1).drop_last() =~= cands_m.take(j as int));
            assert(cands_m.take(j as int + 1).last() == cands_m[j as int]);
        }
        let d = crate::path_util::path_depth(cands[j].path.as_str());
        if d > maxd {
            maxd = d;
        }
        j = j + 1;
    }
    proof {
        assert(cands_m.take(m as int) =~= cands_m);
    }

    let mut sorted: Vec<RoleEntry> = Vec::new();
    let mut d: usize = 0;
    loop
        invariant_except_break
            d <= maxd,
            maxd == max_depth_of(cands_m),
            m == cands.len(),
            cands@.map_values(|e: RoleEntry| e@) == cands_m,
            sorted@.map_values(|e: RoleEntry| e@) == (if d == 0 {
                Seq::<RoleEntryModel>::empty()
            } else {
                by_depth_upto(cands_m, (d - 1) as nat)
            }),
        ensures
            sorted@.map_values(|e: RoleEntry| e@) == by_depth_upto(cands_m, max_depth_of(cands_m)),
            cands@.map_values(|e: RoleEntry| e@) == cands_m,
        decreases maxd - d,
    {
        let ghost base_sorted = sorted@.map_values(|e: RoleEntry| e@);
        let mut j2: usize = 0;
        proof {
            assert(cands_m.take(0) =~= Seq::<RoleEntryModel>::empty());
            assert(base_sorted + with_depth(cands_m.take(0), d as nat) =~= base_sorted);
        }
        while j2 < m
            invariant
                m == cands.len(),
                j2 <= m,
                cands@.map_values(|e: RoleEntry| e@) == cands_m,
                sorted@.map_values(|e: RoleEntry| e@) == base_sorted + with_depth(
                    cands_m.take(j2 as int),
                    d as nat,
                ),
            decreases m - j2,
        {
            proof {
                assert(cands_m.take(j2 as int + 1).drop_last() =~= cands_m.take(j2 as int));
                assert(cands_m.take(j2 as int + 1).last() == cands_m[j2 as int]);
            }
            let dd = crate::path_util::path_depth(cands[j2].path.as_str());
            proof {
                assert(cands_m[j2 as int] == cands@.map_values(|e: RoleEntry| e@)[j2 as int]);
                assert(cands_m[j2 as int].path == cands@[j2 as int].path@);
                assert(dd == depth_of(cands_m[j2 as int].path));
            }
            if dd == d {
                sorted.push(RoleEntry { path: cands[j2].path.clone(), role: cands[j2].role });
            }
            proof {
                let ws_old = with_depth(cands_m.take(j2 as int), d as nat);
                let ws_new = with_depth(cands_m.take(j2 as int + 1), d as nat);
                if depth_of(cands_m[j2 as int].path) == d as nat {
                    assert(ws_new == ws_old.push(cands_m[j2 as int]));
                    assert(sorted@.map_values(|e: RoleEntry| e@) =~= (base_sorted
                        + ws_old).push(cands_m[j2 as int]));
                    assert(base_sorted + ws_new =~= (base_sorted + ws_old).push(
                        cands_m[j2 as int],
                    ));
                } else {
                    assert(ws_new == ws_old);
                }
                assert(sorted@.map_values(|e: RoleEntry| e@) =~= base_sorted + with_depth(
                    cands_m.take(j2 as int + 1),
                    d as nat,
                ));
            }
            j2 = j2 + 1;
        }
        proof {
            assert(cands_m.take(m as int) =~= cands_m);
        }
        if d == maxd {
            proof {
                if d == 0 {
                    assert(sorted@.map_values(|e: RoleEntry| e@) == by_depth_upto(
                        cands_m,
                        0,
                    ));
                } else {
                    assert(by_depth_upto(cands_m, d as nat) == by_depth_upto(
                        cands_m,
                        (d - 1) as nat,
                    ) + with_depth(cands_m, d as nat));
                }
            }
            break ;
        }
        proof {
            if d == 0 {
                assert(sorted@.map_values(|e: RoleEntry| e@) == by_depth_upto(cands_m, 0));
            } else {
                assert(by_depth_upto(cands_m, d as nat) == by_depth_upto(cands_m, (d - 1) as nat)
                    + with_depth(cands_m, d as nat));
            }
        }
        d = d + 1;
    }
    proof {
        assert(sorted@.map_values(|e: RoleEntry| e@) == sorted_candidates(roles_m, tree_m));
    }
    sorted
}

/// Computes the creation plan for one workspace: the ordered actions
/// that pass one (shared user-data directories, shallowest first) and
/// pass two (everything else, by role) would perform.
pub fn plan_workspace_links(
    manifest: &BaseManifest,
    base_tree: &TreeView,
    rules: &SharingRules,
) -> (r: Vec<LinkAction>)
    ensures
        action_models(r@) == spec_link_plan(
            manifest.role_models(),
            base_tree.models(),
            rules.models(),
        ),
{
    let ghost roles_m = manifest.role_models();
    let ghost tree_m = base_tree.models();
    let ghost rules_m = rules.models();
    let ghost sc_m = sorted_candidates(roles_m, tree_m);

    let sorted = sorted_candidate_vec(manifest, base_tree);

    let mut acc: Vec<LinkAction> = Vec::new();
    let mut processed = PathSet { paths: Vec::new() };
    let s_len = sorted.len();
    let mut i2: usize = 0;
    proof {
        assert(sc_m.skip(0) =~= sc_m);
        assert(processed.models() =~= Seq::<Seq<char>>::empty());
        assert(action_models(acc@) =~= Seq::<LinkActionModel>::empty());
    }
    while i2 < s_len
        invariant
            s_len == sorted.len(),
            i2 <= s_len,
            sorted@.map_values(|e: RoleEntry| e@) == sc_m,
            rules_m == rules.models(),
            pass1(sc_m, rules_m, Seq::empty(), Seq::empty()) == pass1(
                sc_m.skip(i2 as int),
                rules_m,
                processed.models(),
                action_models(acc@),
            ),
        decreases s_len - i2,
    {
        proof {
            assert(sc_m.skip(i2 as int)[0] == sc_m[i2 as int]);
            assert(sc_m.skip(i2 as int).skip(1) =~= sc_m.skip(i2 as int + 1));
        }
        let ghost e_model = sc_m[i2 as int];
        let ghost pre_processed = processed.models();
        let ghost pre_acc = action_models(acc@);
        let blocked = skip_blocked_check(&processed, sorted[i2].path.as_str());
        if !blocked {
            let st = determine_strategy(
                sorted[i2].path.as_str(),
                rules,
                default_strategy(sorted[i2].role),
            );
            if st == SharingStrategy::Workspace {
                acc.push(LinkAction::EnsureDir(sorted[i2].path.clone()));
                proof {
                    assert(action_models(acc@) =~= pre_acc.push(
                        LinkActionModel::EnsureDir(e_model.path),
                    ));
                }
            } else {
                let sc = if st == SharingStrategy::Global {
                    Scope::Global
                } else {
                    Scope::PerBase
                };
                acc.push(LinkAction::EnsureSharedDir(sc, sorted[i2].path.clone()));
                acc.push(LinkAction::Symlink(sorted[i2].path.clone(), sc));
                processed.paths.push(sorted[i2].path.clone());
                proof {
                    assert(action_models(acc@) =~= pre_acc + seq![
                        LinkActionModel::EnsureSharedDir(sc, e_model.path),
                        LinkActionModel::Symlink(e_model.path, sc),
                    ]);
                    assert(processed.models() =~= pre_processed.push(e_model.path));
                }
            }
        }
        i2 = i2 + 1;
    }
    let ghost links_m = pass1(sc_m, rules_m, Seq::empty(), Seq::empty()).1;
    let ghost pass1_acc = pass1(sc_m, rules_m, Seq::empty(), Seq::empty()).0;
    proof {
        assert(sc_m.skip(s_len as int) =~= Seq::<RoleEntryModel>::empty());
        assert(processed.models() == links_m);
        assert(action_models(acc@) == pass1_acc);
    }

    let n2 = manifest.file_roles.len();
    let mut i3: usize = 0;
    proof {
        assert(roles_m.skip(0) =~= roles_m);
    }
    while i3 < n2
        invariant
            n2 == manifest.file_roles.len(),
            i3 <= n2,
            roles_m == manifest.role_models(),
            tree_m == base_tree.models(),
            rules_m == rules.models(),
            links_m == processed.models(),
            spec_link_plan(roles_m, tree_m, rules_m) == pass2(
                roles_m.skip(i3 as int),
                tree_m,
                rules_m,
                links_m,
                action_models(acc@),
            ),
        decreases n2 - i3,
    {
        proof {
            assert(roles_m.skip(i3 as int)[0] == roles_m[i3 as int]);
            assert(roles_m.skip(i3 as int).skip(1) =~= roles_m.skip(i3 as int + 1));
        }
        let ghost e_model = roles_m[i3 as int];
        let ghost pre_acc = action_models(acc@);
        let entry = &manifest.file_roles[i3];
        let um = match entry.role {
            FileRole::UserMedia | FileRole::UserConfig => true,
            _ => false,
        };
        let isdir = match base_tree.kind_of(entry.path.as_str()) {
            Some(FsKind::Dir) => true,
            _ => false,
        };
        if um && isdir {
            proof {
                assert(entry_actions(e_model, tree_m, rules_m, links_m) =~= Seq::<
                    LinkActionModel,
                >::empty());
                assert(pre_acc + entry_actions(e_model, tree_m, rules_m, links_m) =~= pre_acc);
            }
        } else {
            match crate::path_util::parent_path(entry.path.as_str()) {
                Some(par) => {
                    if !chain_blocked_check(par.as_str(), &processed, rules) {
                        acc.push(LinkAction::EnsureDir(par));
                    }
                },
                None => {},
            }
            let isfile = match base_tree.kind_of(entry.path.as_str()) {
                Some(FsKind::File) => true,
                _ => false,
            };
            match entry.role {
                FileRole::Executable | FileRole::BaseData => {
                    if isfile {
                        acc.push(LinkAction::LinkFile(entry.path.clone()));
                    }
                },
                FileRole::MutableData | FileRole::Other => {
                    if isfile {
                        acc.push(LinkAction::CopyFile(entry.path.clone()));
                    }
                },
                FileRole::Ephemeral => {
                    if isdir {
                        acc.push(LinkAction::EnsureDir(entry.path.clone()));
                    }
                },
                FileRole::UserMedia | FileRole::UserConfig => {},
            }
            proof {
                assert(action_models(acc@) =~= pre_acc + entry_actions(
                    e_model,
                    tree_m,
                    rules_m,
                    links_m,
                ));
            }
        }
        i3 = i3 + 1;
    }
    proof {
        assert(roles_m.skip(n2 as int) =~= Seq::<RoleEntryModel>::empty());
    }
    acc
}

/// The pass-two actions of one entry touch only that entry: no shared
/// links, and a file materialization only at the entry's own path.
proof fn lemma_entry_actions_shape(
    e: RoleEntryModel,
    tree: Seq<TreeEntryModel>,
    rules: Seq<SharingRuleModel>,
    links: Seq<Seq<char>>,
)
    ensures
        ({
            let ea = entry_actions(e, tree, rules, links);
            forall|i: int|
                0 <= i < ea.len() ==> {
                    &&& !((#[trigger] ea[i]) matches LinkActionModel::Symlink(p0, sc0))
                    &&& !(ea[i] matches LinkActionModel::EnsureSharedDir(sc1, p1))
                    &&& (ea[i] matches LinkActionModel::LinkFile(p2) ==> p2 == e.path && (e.role
                        == FileRole::Executable || e.role == FileRole::BaseData) && kind_in(
                        tree,
                        e.path,
                    ) == Some(FsKind::File))
                    &&& (ea[i] matches LinkActionModel::CopyFile(p3) ==> p3 == e.path && (e.role
                        == FileRole::MutableData || e.role == FileRole::Other) && kind_in(
                        tree,
                        e.path,
                    ) == Some(FsKind::File))
                }
        }),
{
}

/// Structural facts about pass two: the accumulator is a prefix of the
/// result; every appended action is a pass-two shape; every immutable
/// base file is planned as a link and every mutable base file as a copy;
/// and every appended link or copy comes from an entry of that role.
proof fn lemma_pass2_props(
    roles: Seq<RoleEntryModel>,
    tree: Seq<TreeEntryModel>,
    rules: Seq<SharingRuleModel>,
    links: Seq<Seq<char>>,
    acc: Seq<LinkActionModel>,
)
    ensures
        ({
            let r = pass2(roles, tree, rules, links, acc);
            &&& r.len() >= acc.len()
            &&& forall|i: int| 0 <= i < acc.len() ==> r[i] == acc[i]
            &&& forall|i: int|
                acc.len() <= i < r.len() ==> !((#[trigger] r[i]) matches LinkActionModel::Symlink(
                    p0,
                    sc0,
                )) && !(r[i] matches LinkActionModel::EnsureSharedDir(sc1, p1))
            &&& forall|k: int|
                0 <= k < roles.len() && ((#[trigger] roles[k]).role == FileRole::Executable
                    || roles[k].role == FileRole::BaseData) && kind_in(tree, roles[k].path) == Some(
                    FsKind::File,
                ) ==> r.contains(LinkActionModel::LinkFile(roles[k].path))
            &&& forall|k: int|
                0 <= k < roles.len() && ((#[trigger] roles[k]).role == FileRole::MutableData
                    || roles[k].role == FileRole::Other) && kind_in(tree, roles[k].path) == Some(
                    FsKind::File,
                ) ==> r.contains(LinkActionModel::CopyFile(roles[k].path))
            &&& forall|i: int|
                acc.len() <= i < r.len() ==> ((#[trigger] r[i]) matches LinkActionModel::LinkFile(
                    p,
                ) ==> exists|k: int|
                    0 <= k < roles.len() && (#[trigger] roles[k]).path == p && (roles[k].role
                        == FileRole::Executable || roles[k].role == FileRole::BaseData) && kind_in(
                        tree,
                        p,
                    ) == Some(FsKind::File))
            &&& forall|i: int|
                acc.len() <= i < r.len() ==> ((#[trigger] r[i]) matches LinkActionModel::CopyFile(
                    p,
                ) ==> exists|k: int|
                    0 <= k < roles.len() && (#[trigger] roles[k]).path == p && (roles[k].role
                        == FileRole::MutableData || roles[k].role == FileRole::Other) && kind_in(
                        tree,
                        p,
                    ) == Some(FsKind::File))
        }),
    decreases roles.len(),
{
    if roles.len() > 0 {
        let e = roles[0];
        let rest = roles.skip(1);
        let ea = entry_actions(e, tree, rules, links);
        let acc1 = acc + ea;
        lemma_entry_actions_shape(e, tree, rules, links);
        lemma_pass2_props(rest, tree, rules, links, acc1);
        let r = pass2(roles, tree, rules, links, acc);
        assert(r == pass2(rest, tree, rules, links, acc1));
        assert forall|i: int| 0 <= i < acc.len() implies r[i] == acc[i] by {
            assert(r[i] == acc1[i]);
            assert(acc1[i] == acc[i]);
        }
        assert forall|i: int|
            acc.len() <= i < r.len() implies !((#[trigger] r[i]) matches LinkActionModel::Symlink(
            p0,
            sc0,
        )) && !(r[i] matches LinkActionModel::EnsureSharedDir(sc1, p1)) by {
            if i < acc1.len() {
                assert(r[i] == acc1[i]);
                assert(acc1[i] == ea[i - acc.len()]);
            }
        }
        assert forall|k: int|
            0 <= k < roles.len() && ((#[trigger] roles[k]).role == FileRole::Executable
                || roles[k].role == FileRole::BaseData) && kind_in(tree, roles[k].path) == Some(
                FsKind::File,
            ) implies r.contains(LinkActionModel::LinkFile(roles[k].path)) by {
            if k == 0 {
                assert(!is_candidate(e, tree));
                assert(ea[ea.len() - 1] == LinkActionModel::LinkFile(e.path));
                assert(acc1[acc1.len() - 1] == LinkActionModel::LinkFile(e.path));
                assert(r[acc1.len() - 1] == LinkActionModel::LinkFile(e.path));
                assert(r.contains(LinkActionModel::LinkFile(e.path)));
            } else {
                assert(rest[k - 1] == roles[k]);
            }
        }
        assert forall|k: int|
            0 <= k < roles.len() && ((#[trigger] roles[k]).role == FileRole::MutableData
                || roles[k].role == FileRole::Other) && kind_in(tree, roles[k].path) == Some(
                FsKind::File,
            ) implies r.contains(LinkActionModel::CopyFile(roles[k].path)) by {
            if k == 0 {
                assert(!is_candidate(e, tree));
                assert(ea[ea.len() - 1] == LinkActionModel::CopyFile(e.path));
                assert(acc1[acc1.len() - 1] == LinkActionModel::CopyFile(e.path));
                assert(r[acc1.len() - 1] == LinkActionModel::CopyFile(e.path));
                assert(r.contains(LinkActionModel::CopyFile(e.path)));
            } else {
                assert(rest[k - 1] == roles[k]);
            }
        }
        assert forall|i: int|
            acc.len() <= i < r.len() implies ((#[trigger] r[i]) matches LinkActionModel::LinkFile(
            p,
        ) ==> exists|k: int|
            0 <= k < roles.len() && (#[trigger] roles[k]).path == p && (roles[k].role
                == FileRole::Executable || roles[k].role == FileRole::BaseData) && kind_in(tree, p)
                == Some(FsKind::File)) by {
            match r[i] {
                LinkActionModel::LinkFile(p) => {
                    if i < acc1.len() {
                        assert(r[i] == acc1[i]);
                        assert(acc1[i] == ea[i - acc.len()]);
                        assert(roles[0].path == p);
                    } else {
                        let k = choose|k: int|
                            0 <= k < rest.len() && (#[trigger] rest[k]).path == p && (rest[k].role
                                == FileRole::Executable || rest[k].role == FileRole::BaseData)
                                && kind_in(tree, p) == Some(FsKind::File);
                        assert(roles[k + 1] == rest[k]);
                    }
                },
                _ => {},
            }
        }
        assert forall|i: int|
            acc.len() <= i < r.len() implies ((#[trigger] r[i]) matches LinkActionModel::CopyFile(
            p,
        ) ==> exists|k: int|
            0 <= k < roles.len() && (#[trigger] roles[k]).path == p && (roles[k].role
                == FileRole::MutableData || roles[k].role == FileRole::Other) && kind_in(tree, p)
                == Some(FsKind::File)) by {
            match r[i] {
                LinkActionModel::CopyFile(p) => {
                    if i < acc1.len() {
                        assert(r[i] == acc1[i]);
                        assert(acc1[i] == ea[i - acc.len()]);
                        assert(roles[0].path == p);
                    } else {
                        let k = choose|k: int|
                            0 <= k < rest.len() && (#[trigger] rest[k]).path == p && (rest[k].role
                                == FileRole::MutableData || rest[k].role == FileRole::Other)
                                && kind_in(tree, p) == Some(FsKind::File);
                        assert(roles[k + 1] == rest[k]);
                    }
                },
                _ => {},
            }
        }
    }
}

/// The accumulator is always a prefix of pass one's result.
proof fn lemma_pass1_prefix(
    cands: Seq<RoleEntryModel>,
    rules: Seq<SharingRuleModel>,
    processed: Seq<Seq<char>>,
    acc: Seq<LinkActionModel>,
)
    ensures
        ({
            let r = pass1(cands, rules, processed, acc);
            &&& r.0.len() >= acc.len()
            &&& forall|i: int| 0 <= i < acc.len() ==> r.0[i] == acc[i]
        }),
    decreases cands.len(),
{
    if cands.len() > 0 {
        let e = cands[0];
        let rest = cands.skip(1);
        let r = pass1(cands, rules, processed, acc);
        if skip_blocked(processed, e.path) {
            lemma_pass1_prefix(rest, rules, processed, acc);
        } else {
            let st = strategy_of(rules, e);
            if st == SharingStrategy::Workspace {
                let acc1 = acc.push(LinkActionModel::EnsureDir(e.path));
                lemma_pass1_prefix(rest, rules, processed, acc1);
                assert forall|i: int| 0 <= i < acc.len() implies r.0[i] == acc[i] by {
                    assert(r.0[i] == acc1[i]);
                    assert(acc1[i] == acc[i]);
                }
            } else {
                let sc = if st == SharingStrategy::Global {
                    Scope::Global
                } else {
                    Scope::PerBase
                };
                let acc1 = acc + seq![
                    LinkActionModel::EnsureSharedDir(sc, e.path),
                    LinkActionModel::Symlink(e.path, sc),
                ];
                lemma_pass1_prefix(rest, rules, processed.push(e.path), acc1);
                assert forall|i: int| 0 <= i < acc.len() implies r.0[i] == acc[i] by {
                    assert(r.0[i] == acc1[i]);
                    assert(acc1[i] == acc[i]);
                }
            }
        }
    }
}

/// A candidate none of whose candidate ancestors is shared is never
/// skipped: pass one emits its actions.
proof fn lemma_pass1_emits(
    cands: Seq<RoleEntryModel>,
    rules: Seq<SharingRuleModel>,
    processed: Seq<Seq<char>>,
    acc: Seq<LinkActionModel>,
    m: int,
)
    requires
        0 <= m < cands.len(),
        forall|s: Seq<char>| processed.contains(s) ==> !strict_under(cands[m].path, s),
        forall|k: int|
            0 <= k < cands.len() && strict_under(cands[m].path, (#[trigger] cands[k]).path)
                ==> strategy_of(rules, cands[k]) == SharingStrategy::Workspace,
    ensures
        ({
            let r = pass1(cands, rules, processed, acc);
            let st = strategy_of(rules, cands[m]);
            &&& st == SharingStrategy::Workspace ==> r.0.contains(
                LinkActionModel::EnsureDir(cands[m].path),
            )
            &&& st != SharingStrategy::Workspace ==> r.0.contains(
                LinkActionModel::EnsureSharedDir(scope_of(st), cands[m].path),
            ) && r.0.contains(LinkActionModel::Symlink(cands[m].path, scope_of(st)))
        }),
    decreases cands.len(),
{
    let e = cands[0];
    let rest = cands.skip(1);
    let r = pass1(cands, rules, processed, acc);
    if m == 0 {
        if skip_blocked(processed, e.path) {
            let k = choose|k: int| 0 <= k < processed.len() && strict_under(e.path, processed[k]);
            assert(processed.contains(processed[k]));
        }
        assert(!skip_blocked(processed, e.path));
        let st = strategy_of(rules, e);
        if st == SharingStrategy::Workspace {
            let acc1 = acc.push(LinkActionModel::EnsureDir(e.path));
            lemma_pass1_prefix(rest, rules, processed, acc1);
            assert(r == pass1(rest, rules, processed, acc1));
            assert(r.0[acc.len() as int] == acc1[acc.len() as int]);
            assert(r.0[acc.len() as int] == LinkActionModel::EnsureDir(e.path));
            assert(r.0.contains(LinkActionModel::EnsureDir(e.path)));
        } else {
            let sc = if st == SharingStrategy::Global {
                Scope::Global
            } else {
                Scope::PerBase
            };
            let acc1 = acc + seq![
                LinkActionModel::EnsureSharedDir(sc, e.path),
                LinkActionModel::Symlink(e.path, sc),
            ];
            lemma_pass1_prefix(rest, rules, processed.push(e.path), acc1);
            assert(r == pass1(rest, rules, processed.push(e.path), acc1));
            assert(r.0[acc.len() as int] == acc1[acc.len() as int]);
            assert(r.0[acc.len() as int] == LinkActionModel::EnsureSharedDir(sc, e.path));
            assert(r.0[acc.len() as int + 1] == acc1[acc.len() as int + 1]);
            assert(r.0[acc.len() as int + 1] == LinkActionModel::Symlink(e.path, sc));
            assert(sc == scope_of(st));
            assert(r.0.contains(LinkActionModel::EnsureSharedDir(sc, e.path)));
            assert(r.0.contains(LinkActionModel::Symlink(e.path, sc)));
        }
    } else {
        assert(rest[m - 1] == cands[m]);
        assert forall|k: int|
            0 <= k < rest.len() && strict_under(cands[m].path, (#[trigger] rest[k]).path)
                implies strategy_of(rules, rest[k]) == SharingStrategy::Workspace by {
            assert(rest[k] == cands[k + 1]);
        }
        if skip_blocked(processed, e.path) {
            lemma_pass1_emits(rest, rules, processed, acc, m - 1);
        } else {
            let st = strategy_of(rules, e);
            if st == SharingStrategy::Workspace {
                lemma_pass1_emits(rest, rules, processed, acc.push(
                    LinkActionModel::EnsureDir(e.path),
                ), m - 1);
            } else {
                let sc = if st == SharingStrategy::Global {
                    Scope::Global
                } else {
                    Scope::PerBase
                };
                let processed1 = processed.push(e.path);
                assert forall|s2: Seq<char>| processed1.contains(s2) implies !strict_under(
                    cands[m].path,
                    s2,
                ) by {
                    let k = choose|k: int| 0 <= k < processed1.len() && processed1[k] == s2;
                    if k < processed.len() {
                        assert(processed[k] == s2);
                        assert(processed.contains(s2));
                    } else {
                        assert(s2 == e.path);
                        if strict_under(cands[m].path, e.path) {
                            assert(strategy_of(rules, cands[0])
                                == SharingStrategy::Workspace);
                        }
                    }
                }
                lemma_pass1_emits(
                    rest,
                    rules,
                    processed1,
                    acc + seq![
                        LinkActionModel::EnsureSharedDir(sc, e.path),
                        LinkActionModel::Symlink(e.path, sc),
                    ],
                    m - 1,
                );
            }
        }
    }
}

/// LAW (ancestor-skip): in a creation plan, no shared link is planned at
/// a path lying below the path of an earlier shared link. A directory
/// nested inside an already-shared directory is never independently
/// linked.
pub proof fn lemma_ancestor_skip(
    roles: Seq<RoleEntryModel>,
    tree: Seq<TreeEntryModel>,
    rules: Seq<SharingRuleModel>,
)
    ensures
        ({
            let plan = spec_link_plan(roles, tree, rules);
            forall|i: int, j: int|
                0 <= i < j < plan.len() ==> (#[trigger] plan[i] matches LinkActionModel::Symlink(
                    p1,
                    sc1,
                ) ==> #[trigger] plan[j] matches LinkActionModel::Symlink(p2, sc2) ==> !strict_under(
                    p2,
                    p1,
                ))
        }),
{
    let cands = sorted_candidates(roles, tree);
    let empty_acc = Seq::<LinkActionModel>::empty();
    let empty_proc = Seq::<Seq<char>>::empty();
    lemma_pass1_props(cands, rules, empty_proc, empty_acc);
    let pr = pass1(cands, rules, empty_proc, empty_acc);
    lemma_pass2_props(roles, tree, rules, pr.1, pr.0);
    let plan = spec_link_plan(roles, tree, rules);
    assert(plan == pass2(roles, tree, rules, pr.1, pr.0));
    assert forall|i: int, j: int|
        0 <= i < j < plan.len() implies (#[trigger] plan[i] matches LinkActionModel::Symlink(
        p1,
        sc1,
    ) ==> #[trigger] plan[j] matches LinkActionModel::Symlink(p2, sc2) ==> !strict_under(
        p2,
        p1,
    )) by {
        match plan[i] {
            LinkActionModel::Symlink(p1, sc1) => {
                match plan[j] {
                    LinkActionModel::Symlink(p2, sc2) => {
                        assert(i < pr.0.len() && plan[i] == pr.0[i]);
                        assert(j < pr.0.len() && plan[j] == pr.0[j]);
                    },
                    _ => {},
                }
            },
            _ => {},
        }
    }
}

/// LAW (dedup): the creation plan is a function of the manifest, the
/// base tree and the sharing rules alone, so two workspaces built from
/// the same base with the same rules plan identical shared targets. A
/// candidate with Global or Base strategy (none of whose candidate
/// ancestors is shared) is linked to the mirrored path under its
/// scope's root; a candidate with Workspace strategy gets a private
/// real directory instead.
pub proof fn lemma_dedup_candidate(
    roles: Seq<RoleEntryModel>,
    tree: Seq<TreeEntryModel>,
    rules: Seq<SharingRuleModel>,
    m: int,
)
    requires
        0 <= m < sorted_candidates(roles, tree).len(),
        forall|k: int|
            0 <= k < sorted_candidates(roles, tree).len() && strict_under(
                sorted_candidates(roles, tree)[m].path,
                (#[trigger] sorted_candidates(roles, tree)[k]).path,
            ) ==> strategy_of(rules, sorted_candidates(roles, tree)[k])
                == SharingStrategy::Workspace,
    ensures
        ({
            let plan = spec_link_plan(roles, tree, rules);
            let e = sorted_candidates(roles, tree)[m];
            let st = strategy_of(rules, e);
            &&& st != SharingStrategy::Workspace ==> plan.contains(
                LinkActionModel::EnsureSharedDir(scope_of(st), e.path),
            ) && plan.contains(LinkActionModel::Symlink(e.path, scope_of(st)))
            &&& st == SharingStrategy::Workspace ==> plan.contains(
                LinkActionModel::EnsureDir(e.path),
            )
        }),
{
    let cands = sorted_candidates(roles, tree);
    let empty_acc = Seq::<LinkActionModel>::empty();
    let empty_proc = Seq::<Seq<char>>::empty();
    lemma_pass1_emits(cands, rules, empty_proc, empty_acc, m);
    lemma_pass1_props(cands, rules, empty_proc, empty_acc);
    let pr = pass1(cands, rules, empty_proc, empty_acc);
    lemma_pass2_props(roles, tree, rules, pr.1, pr.0);
    let plan = spec_link_plan(roles, tree, rules);
    let e = cands[m];
    let st = strategy_of(rules, e);
    if st == SharingStrategy::Workspace {
        let x = LinkActionModel::EnsureDir(e.path);
        if pr.0.contains(x) {
            let i = choose|i: int| 0 <= i < pr.0.len() && pr.0[i] == x;
            assert(plan[i] == x);
            assert(plan.contains(x));
        }
    } else {
        let x = LinkActionModel::EnsureSharedDir(scope_of(st), e.path);
        let y = LinkActionModel::Symlink(e.path, scope_of(st));
        if pr.0.contains(x) {
            let i = choose|i: int| 0 <= i < pr.0.len() && pr.0[i] == x;
            assert(plan[i] == x);
            assert(plan.contains(x));
        }
        if pr.0.contains(y) {
            let i = choose|i: int| 0 <= i < pr.0.len() && pr.0[i] == y;
            assert(plan[i] == y);
            assert(plan.contains(y));
        }
    }
}

/// LAW (dedup, private side): a path that only Workspace-strategy
/// candidates mention is never symlinked anywhere in the plan, so writes
/// beneath it stay private to the workspace.
pub proof fn lemma_private_never_linked(
    roles: Seq<RoleEntryModel>,
    tree: Seq<TreeEntryModel>,
    rules: Seq<SharingRuleModel>,
    p: Seq<char>,
)
    requires
        forall|k: int|
            0 <= k < sorted_candidates(roles, tree).len() && (#[trigger] sorted_candidates(
                roles,
                tree,
            )[k]).path == p ==> strategy_of(rules, sorted_candidates(roles, tree)[k])
                == SharingStrategy::Workspace,
    ensures
        ({
            let plan = spec_link_plan(roles, tree, rules);
            forall|i: int|
                0 <= i < plan.len() ==> ((#[trigger] plan[i]) matches LinkActionModel::Symlink(
                    p2,
                    sc,
                ) ==> p2 != p)
        }),
{
    let cands = sorted_candidates(roles, tree);
    let empty_acc = Seq::<LinkActionModel>::empty();
    let empty_proc = Seq::<Seq<char>>::empty();
    lemma_pass1_props(cands, rules, empty_proc, empty_acc);
    let pr = pass1(cands, rules, empty_proc, empty_acc);
    lemma_pass2_props(roles, tree, rules, pr.1, pr.0);
    let plan = spec_link_plan(roles, tree, rules);
    assert forall|i: int|
        0 <= i < plan.len() implies ((#[trigger] plan[i]) matches LinkActionModel::Symlink(
        p2,
        sc,
    ) ==> p2 != p) by {
        match plan[i] {
            LinkActionModel::Symlink(p2, sc) => {
                assert(i < pr.0.len() && plan[i] == pr.0[i]);
                if p2 == p {
                    let k = choose|k: int|
                        0 <= k < cands.len() && (#[trigger] cands[k]).path == p2 && strategy_of(
                            rules,
                            cands[k],
                        ) == scope_strategy(sc);
                    assert(strategy_of(rules, cands[k]) == SharingStrategy::Workspace);
                }
            },
            _ => {},
        }
    }
}

/// LAW (link fidelity): in a creation plan, every immutable base file
/// (Executable or BaseData) is materialized by linking and never by
/// copy, and every mutable base file (MutableData or Other) by an
/// independent copy and never by a link.
pub proof fn lemma_link_fidelity(
    roles: Seq<RoleEntryModel>,
    tree: Seq<TreeEntryModel>,
    rules: Seq<SharingRuleModel>,
)
    requires
        forall|i: int, j: int| 0 <= i < j < roles.len() ==> roles[i].path != roles[j].path,
    ensures
        ({
            let plan = spec_link_plan(roles, tree, rules);
            &&& forall|k: int|
                0 <= k < roles.len() && ((#[trigger] roles[k]).role == FileRole::Executable
                    || roles[k].role == FileRole::BaseData) && kind_in(tree, roles[k].path) == Some(
                    FsKind::File,
                ) ==> plan.contains(LinkActionModel::LinkFile(roles[k].path))
            &&& forall|k: int|
                0 <= k < roles.len() && ((#[trigger] roles[k]).role == FileRole::MutableData
                    || roles[k].role == FileRole::Other) && kind_in(tree, roles[k].path) == Some(
                    FsKind::File,
                ) ==> plan.contains(LinkActionModel::CopyFile(roles[k].path))
            &&& forall|i: int, k: int|
                0 <= i < plan.len() && 0 <= k < roles.len() && ((#[trigger] roles[k]).role
                    == FileRole::Executable || roles[k].role == FileRole::BaseData) ==> ((
                #[trigger] plan[i]) matches LinkActionModel::CopyFile(p) ==> p != roles[k].path)
            &&& forall|i: int, k: int|
                0 <= i < plan.len() && 0 <= k < roles.len() && ((#[trigger] roles[k]).role
                    == FileRole::MutableData || roles[k].role == FileRole::Other) ==> ((
                #[trigger] plan[i]) matches LinkActionModel::LinkFile(p) ==> p != roles[k].path)
        }),
{
    let cands = sorted_candidates(roles, tree);
    let empty_acc = Seq::<LinkActionModel>::empty();
    let empty_proc = Seq::<Seq<char>>::empty();
    lemma_pass1_props(cands, rules, empty_proc, empty_acc);
    let pr = pass1(cands, rules, empty_proc, empty_acc);
    lemma_pass2_props(roles, tree, rules, pr.1, pr.0);
    let plan = spec_link_plan(roles, tree, rules);
    assert(plan == pass2(roles, tree, rules, pr.1, pr.0));
    assert forall|i: int, k: int|
        0 <= i < plan.len() && 0 <= k < roles.len() && ((#[trigger] roles[k]).role
            == FileRole::Executable || roles[k].role == FileRole::BaseData) implies ((
    #[trigger] plan[i]) matches LinkActionModel::CopyFile(p) ==> p != roles[k].path) by {
        match plan[i] {
            LinkActionModel::CopyFile(p) => {
                if p == roles[k].path {
                    assert(i >= pr.0.len());
                    let k2 = choose|k2: int|
                        0 <= k2 < roles.len() && (#[trigger] roles[k2]).path == p && (roles[k2].role
                            == FileRole::MutableData || roles[k2].role == FileRole::Other)
                            && kind_in(tree, p) == Some(FsKind::File);
                    if k < k2 {
                        assert(roles[k].path != roles[k2].path);
                    } else if k2 < k {
                        assert(roles[k2].path != roles[k].path);
                    }
                }
            },
            _ => {},
        }
    }
    assert forall|i: int, k: int|
        0 <= i < plan.len() && 0 <= k < roles.len() && ((#[trigger] roles[k]).role
            == FileRole::MutableData || roles[k].role == FileRole::Other) implies ((
    #[trigger] plan[i]) matches LinkActionModel::LinkFile(p) ==> p != roles[k].path) by {
        match plan[i] {
            LinkActionModel::LinkFile(p) => {
                if p == roles[k].path {
                    assert(i >= pr.0.len());
                    let k2 = choose|k2: int|
                        0 <= k2 < roles.len() && (#[trigger] roles[k2]).path == p && (roles[k2].role
                            == FileRole::Executable || roles[k2].role == FileRole::BaseData)
                            && kind_in(tree, p) == Some(FsKind::File);
                    if k < k2 {
                        assert(roles[k].path != roles[k2].path);
                    } else if k2 < k {
                        assert(roles[k2].path != roles[k].path);
                    }
                }
            },
            _ => {},
        }
    }
}

} // verus!
