//! Planning the non-destructive repair of an existing workspace.
//!
//! The planner re-derives the same candidate list and ordering as the
//! creation planner and compares each candidate's expected state against
//! a snapshot of the workspace. It only ever plans two kinds of
//! mutation, creating a directory and creating a symbolic link; whenever
//! the workspace holds something a user may have put there, the plan
//! carries an advisory record instead and leaves the path untouched.

use vstd::prelude::*;

use crate::fstree::{PathSet, TreeView};
use crate::link::{sorted_candidate_vec, sorted_candidates, strategy_of, Scope};
use crate::manifest::{BaseManifest, RoleEntry, RoleEntryModel};
use crate::path_util::parent_of;
use crate::roles::default_strategy;
use crate::sharing::{determine_strategy, SharingRuleModel, SharingRules, SharingStrategy};

verus! {

/// What a walk of the workspace (not following links) saw at one path.
#[derive(Clone, Copy, Debug, PartialEq, Eq, Structural)]
pub enum WsState {
    /// A real directory.
    Dir,
    /// A plain file.
    File,
    /// A symbolic link whose target is the path's canonical mirror under
    /// the given shared root; the flag says whether the target exists.
    LinkTo(Scope, bool),
    /// A symbolic link pointing anywhere else; the flag says whether its
    /// target exists.
    LinkOther(bool),
}

/// One observed entry of a workspace walk.
#[derive(Clone, Debug)]
pub struct WsEntry {
    pub path: String,
    pub state: WsState,
}

/// Mathematical model of a [`WsEntry`].
#[verifier::ext_equal]
pub struct WsEntryModel {
    pub path: Seq<char>,
    pub state: WsState,
}

impl View for WsEntry {
    type V = WsEntryModel;

    open spec fn view(&self) -> WsEntryModel {
        WsEntryModel { path: self.path@, state: self.state }
    }
}

/// The state recorded for `p` by the first entry whose path equals `p`.
pub open spec fn state_in(entries: Seq<WsEntryModel>, p: Seq<char>) -> Option<WsState>
    decreases entries.len(),
{
    if entries.len() == 0 {
        None
    } else if entries[0].path == p {
        Some(entries[0].state)
    } else {
        state_in(entries.skip(1), p)
    }
}

/// A snapshot of one workspace tree; paths are unique.
#[derive(Clone, Debug)]
pub struct WsTree {
    pub entries: Vec<WsEntry>,
}

impl WsTree {
    pub open spec fn models(self) -> Seq<WsEntryModel> {
        self.entries@.map_values(|e: WsEntry| e@)
    }

    pub open spec fn wf(self) -> bool {
        forall|i: int, j: int|
            0 <= i < j < self.models().len() ==> self.models()[i].path != self.models()[j].path
    }

    /// Looks a path up in the snapshot.
    pub fn state_of(&self, p: &str) -> (r: Option<WsState>)
        ensures
            r == state_in(self.models(), p@),
    {
        proof {
            assert(self.models().skip(0) =~= self.models());
        }
        let n = self.entries.len();
        let mut i: usize = 0;
        while i < n
            invariant
                n == self.entries.len(),
                i <= n,
                state_in(self.models(), p@) == state_in(self.models().skip(i as int), p@),
            decreases n - i,
        {
            proof {
                assert(self.models().skip(i as int)[0] == self.models()[i as int]);
                assert(self.models().skip(i as int).skip(1) =~= self.models().skip(i as int + 1));
            }
            if crate::path_util::str_eq(self.entries[i].path.as_str(), p) {
                return Some(self.entries[i].state);
            }
            i = i + 1;
        }
        None
    }
}

/// One planned repair record: either an idempotent creation, or an
/// advisory warning about user data left untouched. Repair never plans
/// a deletion or an overwrite; the variants below are all there are.
#[derive(Clone, Debug, PartialEq, Eq)]
pub enum RepairAction {
    /// Create a missing shared root.
    EnsureRoot(Scope),
    /// Create the expected private directory at the workspace path.
    CreateDir(String),
    /// Create (or re-create) the mirrored target directory under the
    /// given shared root.
    CreateTarget(Scope, String),
    /// Create a missing parent directory inside the workspace.
    CreateParent(String),
    /// Create the expected symbolic link at the workspace path.
    CreateLink(String, Scope),
    /// Advisory: a symbolic link stands where a private directory is
    /// expected; left as it is.
    WarnLinkExpectedDir(String),
    /// Advisory: a plain file stands where a private directory is
    /// expected; left as it is.
    WarnFileExpectedDir(String),
    /// Advisory: a real file or directory replaced an expected shared
    /// link; user data is never converted, merged or removed.
    WarnReplacedLink(String),
}

/// Mathematical model of a [`RepairAction`].
#[verifier::ext_equal]
pub enum RepairActionModel {
    EnsureRoot(Scope),
    CreateDir(Seq<char>),
    CreateTarget(Scope, Seq<char>),
    CreateParent(Seq<char>),
    CreateLink(Seq<char>, Scope),
    WarnLinkExpectedDir(Seq<char>),
    WarnFileExpectedDir(Seq<char>),
    WarnReplacedLink(Seq<char>),
}

impl View for RepairAction {
    type V = RepairActionModel;

    open spec fn view(&self) -> RepairActionModel {
        match self {
            RepairAction::EnsureRoot(sc) => RepairActionModel::EnsureRoot(*sc),
            RepairAction::CreateDir(p) => RepairActionModel::CreateDir(p@),
            RepairAction::CreateTarget(sc, p) => RepairActionModel::CreateTarget(*sc, p@),
            RepairAction::CreateParent(p) => RepairActionModel::CreateParent(p@),
            RepairAction::CreateLink(p, sc) => RepairActionModel::CreateLink(p@, *sc),
            RepairAction::WarnLinkExpectedDir(p) => RepairActionModel::WarnLinkExpectedDir(p@),
            RepairAction::WarnFileExpectedDir(p) => RepairActionModel::WarnFileExpectedDir(p@),
            RepairAction::WarnReplacedLink(p) => RepairActionModel::WarnReplacedLink(p@),
        }
    }
}

/// The models of a list of repair records.
pub open spec fn repair_models(v: Seq<RepairAction>) -> Seq<RepairActionModel> {
    v.map_values(|a: RepairAction| a@)
}

/// Whether the shared root of `sc` currently holds the mirrored path `p`.
pub open spec fn shared_has(sg: Seq<Seq<char>>, sb: Seq<Seq<char>>, sc: Scope, p: Seq<char>) -> bool {
    match sc {
        Scope::Global => sg.contains(p),
        Scope::PerBase => sb.contains(p),
    }
}

/// Whether an earlier repair step already planned creating the target
/// `p` under the root of `sc`.
pub open spec fn planned_has(planned: Seq<(Scope, Seq<char>)>, sc: Scope, p: Seq<char>) -> bool {
    exists|k: int| 0 <= k < planned.len() && planned[k] == (sc, p)
}

/// Whether `p` resolves through a symlinked ancestor (`anc` or above)
/// into shared content that exists or is about to be created: creating
/// another link at `p` would collide.
pub open spec fn reaches_via_ancestor(
    ws: Seq<WsEntryModel>,
    sg: Seq<Seq<char>>,
    sb: Seq<Seq<char>>,
    planned: Seq<(Scope, Seq<char>)>,
    anc: Seq<char>,
    p: Seq<char>,
) -> bool
    decreases anc.len(),
    via reaches_via_ancestor_decreases
{
    (match state_in(ws, anc) {
        Some(WsState::LinkTo(sc2, _)) => shared_has(sg, sb, sc2, p) || planned_has(planned, sc2, p),
        _ => false,
    }) || match parent_of(anc) {
        Some(pp) => reaches_via_ancestor(ws, sg, sb, planned, pp, p),
        None => false,
    }
}

#[via_fn]
proof fn reaches_via_ancestor_decreases(
    ws: Seq<WsEntryModel>,
    sg: Seq<Seq<char>>,
    sb: Seq<Seq<char>>,
    planned: Seq<(Scope, Seq<char>)>,
    anc: Seq<char>,
    p: Seq<char>,
) {
    crate::link::lemma_parent_len(anc);
}

/// The records and planned targets one candidate contributes.
pub open spec fn repair_candidate(
    e: RoleEntryModel,
    rules: Seq<SharingRuleModel>,
    ws: Seq<WsEntryModel>,
    sg: Seq<Seq<char>>,
    sb: Seq<Seq<char>>,
    planned: Seq<(Scope, Seq<char>)>,
    acc: Seq<RepairActionModel>,
) -> (Seq<RepairActionModel>, Seq<(Scope, Seq<char>)>) {
    let st = strategy_of(rules, e);
    if st == SharingStrategy::Workspace {
        match state_in(ws, e.path) {
            Some(WsState::Dir) => (acc, planned),
            Some(WsState::File) => (acc.push(RepairActionModel::WarnFileExpectedDir(e.path)), planned),
            Some(WsState::LinkTo(_, _)) => (
                acc.push(RepairActionModel::WarnLinkExpectedDir(e.path)),
                planned,
            ),
            Some(WsState::LinkOther(_)) => (
                acc.push(RepairActionModel::WarnLinkExpectedDir(e.path)),
                planned,
            ),
            None => (acc.push(RepairActionModel::CreateDir(e.path)), planned),
        }
    } else {
        let sc = if st == SharingStrategy::Global {
            Scope::Global
        } else {
            Scope::PerBase
        };
        match state_in(ws, e.path) {
            Some(WsState::LinkTo(_, true)) => (acc, planned),
            Some(WsState::LinkOther(true)) => (acc, planned),
            Some(WsState::LinkTo(_, false)) => (
                acc.push(RepairActionModel::CreateTarget(sc, e.path)),
                planned.push((sc, e.path)),
            ),
            Some(WsState::LinkOther(false)) => (
                acc.push(RepairActionModel::CreateTarget(sc, e.path)),
                planned.push((sc, e.path)),
            ),
            Some(WsState::Dir) => (acc.push(RepairActionModel::WarnReplacedLink(e.path)), planned),
            Some(WsState::File) => (acc.push(RepairActionModel::WarnReplacedLink(e.path)), planned),
            None => {
                let present = shared_has(sg, sb, sc, e.path) || planned_has(planned, sc, e.path);
                let acc1 = if present {
                    acc
                } else {
                    acc.push(RepairActionModel::CreateTarget(sc, e.path))
                };
                let planned1 = if present {
                    planned
                } else {
                    planned.push((sc, e.path))
                };
                let acc2 = match parent_of(e.path) {
                    Some(par) => if state_in(ws, par) is None {
                        acc1.push(RepairActionModel::CreateParent(par))
                    } else {
                        acc1
                    },
                    None => acc1,
                };
                let reach = match parent_of(e.path) {
                    Some(par) => reaches_via_ancestor(ws, sg, sb, planned1, par, e.path),
                    None => false,
                };
                if reach {
                    (acc2, planned1)
                } else {
                    (acc2.push(RepairActionModel::CreateLink(e.path, sc)), planned1)
                }
            },
        }
    }
}

/// The repair fold over the ordered candidates.
pub open spec fn repair_fold(
    cands: Seq<RoleEntryModel>,
    rules: Seq<SharingRuleModel>,
    ws: Seq<WsEntryModel>,
    sg: Seq<Seq<char>>,
    sb: Seq<Seq<char>>,
    planned: Seq<(Scope, Seq<char>)>,
    acc: Seq<RepairActionModel>,
) -> (Seq<RepairActionModel>, Seq<(Scope, Seq<char>)>)
    decreases cands.len(),
{
    if cands.len() == 0 {
        (acc, planned)
    } else {
        let step = repair_candidate(cands[0], rules, ws, sg, sb, planned, acc);
        repair_fold(cands.skip(1), rules, ws, sg, sb, step.1, step.0)
    }
}

/// The records that make sure both shared roots exist.
pub open spec fn root_records(g_root: bool, b_root: bool) -> Seq<RepairActionModel> {
    (if !g_root {
        seq![RepairActionModel::EnsureRoot(Scope::Global)]
    } else {
        Seq::empty()
    }) + (if !b_root {
        seq![RepairActionModel::EnsureRoot(Scope::PerBase)]
    } else {
        Seq::empty()
    })
}

/// The complete repair plan for one workspace.
pub open spec fn spec_repair_plan(
    roles: Seq<RoleEntryModel>,
    tree: Seq<crate::fstree::TreeEntryModel>,
    rules: Seq<SharingRuleModel>,
    ws: Seq<WsEntryModel>,
    sg: Seq<Seq<char>>,
    sb: Seq<Seq<char>>,
    g_root: bool,
    b_root: bool,
) -> Seq<RepairActionModel> {
    repair_fold(
        sorted_candidates(roles, tree),
        rules,
        ws,
        sg,
        sb,
        Seq::empty(),
        root_records(g_root, b_root),
    ).0
}

/// One target an earlier repair step plans to create.
#[derive(Clone, Debug)]
pub struct PlannedTarget {
    pub scope: Scope,
    pub path: String,
}

impl View for PlannedTarget {
    type V = (Scope, Seq<char>);

    open spec fn view(&self) -> (Scope, Seq<char>) {
        (self.scope, self.path@)
    }
}

/// Whether `(sc, p)` is among the planned targets.
fn planned_has_check(planned: &Vec<PlannedTarget>, sc: Scope, p: &str) -> (r: bool)
    ensures
        r == planned_has(planned@.map_values(|t: PlannedTarget| t@), sc, p@),
{
    let ghost pm = planned@.map_values(|t: PlannedTarget| t@);
    let n = planned.len();
    let mut i: usize = 0;
    while i < n
        invariant
            n == planned.len(),
            pm == planned@.map_values(|t: PlannedTarget| t@),
            i <= n,
            forall|k: int| 0 <= k < i ==> pm[k] != (sc, p@),
        decreases n - i,
    {
        let same_scope = match (planned[i].scope, sc) {
            (Scope::Global, Scope::Global) => true,
            (Scope::PerBase, Scope::PerBase) => true,
            _ => false,
        };
        if same_scope && crate::path_util::str_eq(planned[i].path.as_str(), p) {
            assert(pm[i as int] == (sc, p@));
            return true;
        }
        i = i + 1;
    }
    false
}

/// Whether the shared root of `sc` holds the mirrored path `p`.
fn shared_has_check(sg: &PathSet, sb: &PathSet, sc: Scope, p: &str) -> (r: bool)
    ensures
        r == shared_has(sg.models(), sb.models(), sc, p@),
{
    match sc {
        Scope::Global => sg.contains_path(p),
        Scope::PerBase => sb.contains_path(p),
    }
}

/// Whether `p` resolves through a symlinked ancestor at or above `anc`.
fn reaches_via_ancestor_check(
    ws: &WsTree,
    sg: &PathSet,
    sb: &PathSet,
    planned: &Vec<PlannedTarget>,
    anc: &str,
    p: &str,
) -> (r: bool)
    ensures
        r == reaches_via_ancestor(
            ws.models(),
            sg.models(),
            sb.models(),
            planned@.map_values(|t: PlannedTarget| t@),
            anc@,
            p@,
        ),
    decreases anc@.len(),
{
    let here = match ws.state_of(anc) {
        Some(WsState::LinkTo(sc2, _)) => {
            shared_has_check(sg, sb, sc2, p) || planned_has_check(planned, sc2, p)
        },
        _ => false,
    };
    if here {
        return true;
    }
    match crate::path_util::parent_path(anc) {
        Some(pp) => {
            proof {
                crate::link::lemma_parent_len(anc@);
            }
            reaches_via_ancestor_check(ws, sg, sb, planned, pp.as_str(), p)
        },
        None => false,
    }
}

/// Computes the repair plan for one workspace: the creations that bring
/// it back into agreement with the manifest and its sharing rules, and
/// the advisories for every conflict that user data resolves in the
/// user's favour.
pub fn plan_repair(
    manifest: &BaseManifest,
    base_tree: &TreeView,
    rules: &SharingRules,
    ws: &WsTree,
    shared_global: &PathSet,
    shared_base: &PathSet,
    global_root_exists: bool,
    base_root_exists: bool,
) -> (r: Vec<RepairAction>)
    ensures
        repair_models(r@) == spec_repair_plan(
            manifest.role_models(),
            base_tree.models(),
            rules.models(),
            ws.models(),
            shared_global.models(),
            shared_base.models(),
            global_root_exists,
            base_root_exists,
        ),
{
    let ghost roles_m = manifest.role_models();
    let ghost tree_m = base_tree.models();
    let ghost rules_m = rules.models();
    let ghost ws_m = ws.models();
    let ghost sg_m = shared_global.models();
    let ghost sb_m = shared_base.models();
    let ghost sc_m = sorted_candidates(roles_m, tree_m);

    let mut acc: Vec<RepairAction> = Vec::new();
    if !global_root_exists {
        acc.push(RepairAction::EnsureRoot(Scope::Global));
    }
    if !base_root_exists {
        acc.push(RepairAction::EnsureRoot(Scope::PerBase));
    }
    proof {
        assert(repair_models(acc@) =~= root_records(global_root_exists, base_root_exists));
    }

    let sorted = sorted_candidate_vec(manifest, base_tree);
    let mut planned: Vec<PlannedTarget> = Vec::new();
    let s_len = sorted.len();
    let mut i: usize = 0;
    proof {
        assert(sc_m.skip(0) =~= sc_m);
        assert(planned@.map_values(|t: PlannedTarget| t@) =~= Seq::<(Scope, Seq<char>)>::empty());
    }
    while i < s_len
        invariant
            s_len == sorted.len(),
            i <= s_len,
            sorted@.map_values(|e: RoleEntry| e@) == sc_m,
            rules_m == rules.models(),
            ws_m == ws.models(),
            sg_m == shared_global.models(),
            sb_m == shared_base.models(),
            repair_fold(
                sc_m,
                rules_m,
                ws_m,
                sg_m,
                sb_m,
                Seq::empty(),
                root_records(global_root_exists, base_root_exists),
            ) == repair_fold(
                sc_m.skip(i as int),
                rules_m,
                ws_m,
                sg_m,
                sb_m,
                planned@.map_values(|t: PlannedTarget| t@),
                repair_models(acc@),
            ),
        decreases s_len - i,
    {
        proof {
            assert(sc_m.skip(i as int)[0] == sc_m[i as int]);
            assert(sc_m.skip(i as int).skip(1) =~= sc_m.skip(i as int + 1));
        }
        let ghost e_model = sc_m[i as int];
        let ghost pre_acc = repair_models(acc@);
        let ghost pre_planned = planned@.map_values(|t: PlannedTarget| t@);
        proof {
            assert(sorted@.map_values(|e: RoleEntry| e@)[i as int] == e_model);
            assert(sorted@[i as int].path@ == e_model.path);
            assert(sorted@[i as int].role == e_model.role);
        }
        let e_path = sorted[i].path.as_str();
        let st = determine_strategy(e_path, rules, default_strategy(sorted[i].role));
        if st == SharingStrategy::Workspace {
            match ws.state_of(e_path) {
                Some(WsState::Dir) => {},
                Some(WsState::File) => {
                    acc.push(RepairAction::WarnFileExpectedDir(sorted[i].path.clone()));
                    proof {
                        assert(repair_models(acc@) =~= pre_acc.push(
                            RepairActionModel::WarnFileExpectedDir(e_model.path),
                        ));
                    }
                },
                Some(WsState::LinkTo(_, _)) | Some(WsState::LinkOther(_)) => {
                    acc.push(RepairAction::WarnLinkExpectedDir(sorted[i].path.clone()));
                    proof {
                        assert(repair_models(acc@) =~= pre_acc.push(
                            RepairActionModel::WarnLinkExpectedDir(e_model.path),
                        ));
                    }
                },
                None => {
                    acc.push(RepairAction::CreateDir(sorted[i].path.clone()));
                    proof {
                        assert(repair_models(acc@) =~= pre_acc.push(
                            RepairActionModel::CreateDir(e_model.path),
                        ));
                    }
                },
            }
        } else {
            let sc = if st == SharingStrategy::Global {
                Scope::Global
            } else {
                Scope::PerBase
            };
            match ws.state_of(e_path) {
                Some(WsState::LinkTo(_, resolves)) => {
                    if !resolves {
                        acc.push(RepairAction::CreateTarget(sc, sorted[i].path.clone()));
                        planned.push(PlannedTarget { scope: sc, path: sorted[i].path.clone() });
                        proof {
                            assert(repair_models(acc@) =~= pre_acc.push(
                                RepairActionModel::CreateTarget(sc, e_model.path),
                            ));
                            assert(planned@.map_values(|t: PlannedTarget| t@) =~= pre_planned.push(
                                (sc, e_model.path),
                            ));
                        }
                    }
                },
                Some(WsState::LinkOther(resolves)) => {
                    if !resolves {
                        acc.push(RepairAction::CreateTarget(sc, sorted[i].path.clone()));
                        planned.push(PlannedTarget { scope: sc, path: sorted[i].path.clone() });
                        proof {
                            assert(repair_models(acc@) =~= pre_acc.push(
                                RepairActionModel::CreateTarget(sc, e_model.path),
                            ));
                            assert(planned@.map_values(|t: PlannedTarget| t@) =~= pre_planned.push(
                                (sc, e_model.path),
                            ));
                        }
                    }
                },
                Some(WsState::Dir) | Some(WsState::File) => {
                    acc.push(RepairAction::WarnReplacedLink(sorted[i].path.clone()));
                    proof {
                        assert(repair_models(acc@) =~= pre_acc.push(
                            RepairActionModel::WarnReplacedLink(e_model.path),
                        ));
                    }
                },
                None => {
                    let present = shared_has_check(shared_global, shared_base, sc, e_path)
                        || planned_has_check(&planned, sc, e_path);
                    if !present {
                        acc.push(RepairAction::CreateTarget(sc, sorted[i].path.clone()));
                        planned.push(PlannedTarget { scope: sc, path: sorted[i].path.clone() });
                        proof {
                            assert(repair_models(acc@) =~= pre_acc.push(
                                RepairActionModel::CreateTarget(sc, e_model.path),
                            ));
                            assert(planned@.map_values(|t: PlannedTarget| t@) =~= pre_planned.push(
                                (sc, e_model.path),
                            ));
                        }
                    }
                    let ghost acc1_m = repair_models(acc@);
                    let ghost planned1_m = planned@.map_values(|t: PlannedTarget| t@);
                    let reach: bool;
                    match crate::path_util::parent_path(e_path) {
                        Some(par) => {
                            let par_absent = match ws.state_of(par.as_str()) {
                                None => true,
                                Some(_) => false,
                            };
                            if par_absent {
                                acc.push(RepairAction::CreateParent(par.clone()));
                                proof {
                                    assert(repair_models(acc@) =~= acc1_m.push(
                                        RepairActionModel::CreateParent(par@),
                                    ));
                                }
                            }
                            reach = reaches_via_ancestor_check(
                                ws,
                                shared_global,
                                shared_base,
                                &planned,
                                par.as_str(),
                                e_path,
                            );
                        },
                        None => {
                            reach = false;
                        },
                    }
                    let ghost acc2_m = repair_models(acc@);
                    if !reach {
                        acc.push(RepairAction::CreateLink(sorted[i].path.clone(), sc));
                        proof {
                            assert(repair_models(acc@) =~= acc2_m.push(
                                RepairActionModel::CreateLink(e_model.path, sc),
                            ));
                        }
                    }
                },
            }
        }
        proof {
            let step = repair_candidate(e_model, rules_m, ws_m, sg_m, sb_m, pre_planned, pre_acc);
            assert(repair_models(acc@) =~= step.0);
            assert(planned@.map_values(|t: PlannedTarget| t@) =~= step.1);
        }
        i = i + 1;
    }
    proof {
        assert(sc_m.skip(s_len as int) =~= Seq::<RoleEntryModel>::empty());
    }
    acc
}

/// A candidate in exactly the state workspace creation leaves it:
/// private candidates are real directories, shared candidates live
/// links into their canonical target.
pub open spec fn candidate_untouched(
    e: RoleEntryModel,
    rules: Seq<SharingRuleModel>,
    ws: Seq<WsEntryModel>,
) -> bool {
    let st = strategy_of(rules, e);
    if st == SharingStrategy::Workspace {
        state_in(ws, e.path) == Some(WsState::Dir)
    } else {
        state_in(ws, e.path) == Some(WsState::LinkTo(crate::link::scope_of(st), true))
    }
}

/// On untouched candidates the repair fold changes nothing.
proof fn lemma_repair_fold_untouched(
    cands: Seq<RoleEntryModel>,
    rules: Seq<SharingRuleModel>,
    ws: Seq<WsEntryModel>,
    sg: Seq<Seq<char>>,
    sb: Seq<Seq<char>>,
    planned: Seq<(Scope, Seq<char>)>,
    acc: Seq<RepairActionModel>,
)
    requires
        forall|m: int|
            0 <= m < cands.len() ==> candidate_untouched(#[trigger] cands[m], rules, ws),
    ensures
        repair_fold(cands, rules, ws, sg, sb, planned, acc) == (acc, planned),
    decreases cands.len(),
{
    if cands.len() > 0 {
        assert(candidate_untouched(cands[0], rules, ws));
        assert(repair_candidate(cands[0], rules, ws, sg, sb, planned, acc) == (acc, planned));
        assert forall|m: int|
            0 <= m < cands.skip(1).len() implies candidate_untouched(
            #[trigger] cands.skip(1)[m],
            rules,
            ws,
        ) by {
            assert(cands.skip(1)[m] == cands[m + 1]);
        }
        lemma_repair_fold_untouched(cands.skip(1), rules, ws, sg, sb, planned, acc);
    }
}

/// LAW (repair idempotence): repairing a just-created, untouched
/// workspace plans nothing at all. With both shared roots present,
/// every private candidate still a real directory and every shared
/// candidate still a live link into its canonical shared target, the
/// plan is empty: no corrective action and no advisory.
pub proof fn lemma_repair_idempotent(
    roles: Seq<RoleEntryModel>,
    tree: Seq<crate::fstree::TreeEntryModel>,
    rules: Seq<SharingRuleModel>,
    ws: Seq<WsEntryModel>,
    sg: Seq<Seq<char>>,
    sb: Seq<Seq<char>>,
)
    requires
        forall|m: int|
            0 <= m < sorted_candidates(roles, tree).len() ==> candidate_untouched(
                #[trigger] sorted_candidates(roles, tree)[m],
                rules,
                ws,
            ),
    ensures
        spec_repair_plan(roles, tree, rules, ws, sg, sb, true, true) == Seq::<
            RepairActionModel,
        >::empty(),
{
    assert(root_records(true, true) =~= Seq::<RepairActionModel>::empty());
    lemma_repair_fold_untouched(
        sorted_candidates(roles, tree),
        rules,
        ws,
        sg,
        sb,
        Seq::empty(),
        root_records(true, true),
    );
}

/// The accumulator is always a prefix of the repair fold's result.
proof fn lemma_repair_fold_prefix(
    cands: Seq<RoleEntryModel>,
    rules: Seq<SharingRuleModel>,
    ws: Seq<WsEntryModel>,
    sg: Seq<Seq<char>>,
    sb: Seq<Seq<char>>,
    planned: Seq<(Scope, Seq<char>)>,
    acc: Seq<RepairActionModel>,
)
    ensures
        ({
            let r = repair_fold(cands, rules, ws, sg, sb, planned, acc);
            &&& r.0.len() >= acc.len()
            &&& forall|i: int| 0 <= i < acc.len() ==> r.0[i] == acc[i]
        }),
    decreases cands.len(),
{
    if cands.len() > 0 {
        let step = repair_candidate(cands[0], rules, ws, sg, sb, planned, acc);
        assert(step.0.len() >= acc.len());
        assert(forall|i: int| 0 <= i < acc.len() ==> step.0[i] == acc[i]);
        lemma_repair_fold_prefix(cands.skip(1), rules, ws, sg, sb, step.1, step.0);
        let r = repair_fold(cands, rules, ws, sg, sb, planned, acc);
        assert(r == repair_fold(cands.skip(1), rules, ws, sg, sb, step.1, step.0));
        assert forall|i: int| 0 <= i < acc.len() implies r.0[i] == acc[i] by {
            assert(r.0[i] == step.0[i]);
        }
    }
}

/// No repair record ever creates anything at a path the workspace walk
/// saw occupied: mutations of the workspace tree happen only at absent
/// paths.
proof fn lemma_repair_fold_no_touch(
    cands: Seq<RoleEntryModel>,
    rules: Seq<SharingRuleModel>,
    ws: Seq<WsEntryModel>,
    sg: Seq<Seq<char>>,
    sb: Seq<Seq<char>>,
    planned: Seq<(Scope, Seq<char>)>,
    acc: Seq<RepairActionModel>,
    p: Seq<char>,
)
    requires
        state_in(ws, p) is Some,
        forall|i: int|
            0 <= i < acc.len() ==> {
                &&& ((#[trigger] acc[i]) matches RepairActionModel::CreateLink(p2, sc) ==> p2 != p)
                &&& (acc[i] matches RepairActionModel::CreateDir(p3) ==> p3 != p)
                &&& (acc[i] matches RepairActionModel::CreateParent(p4) ==> p4 != p)
            },
    ensures
        ({
            let r = repair_fold(cands, rules, ws, sg, sb, planned, acc);
            forall|i: int|
                0 <= i < r.0.len() ==> {
                    &&& ((#[trigger] r.0[i]) matches RepairActionModel::CreateLink(p2, sc) ==> p2
                        != p)
                    &&& (r.0[i] matches RepairActionModel::CreateDir(p3) ==> p3 != p)
                    &&& (r.0[i] matches RepairActionModel::CreateParent(p4) ==> p4 != p)
                }
        }),
    decreases cands.len(),
{
    if cands.len() > 0 {
        let e = cands[0];
        let step = repair_candidate(e, rules, ws, sg, sb, planned, acc);
        assert forall|i: int|
            0 <= i < step.0.len() implies {
            &&& ((#[trigger] step.0[i]) matches RepairActionModel::CreateLink(p2, sc) ==> p2 != p)
            &&& (step.0[i] matches RepairActionModel::CreateDir(p3) ==> p3 != p)
            &&& (step.0[i] matches RepairActionModel::CreateParent(p4) ==> p4 != p)
        } by {
            if i >= acc.len() {
                match step.0[i] {
                    RepairActionModel::CreateLink(p2, sc) => {
                        assert(state_in(ws, e.path) is None);
                        assert(p2 == e.path);
                    },
                    RepairActionModel::CreateDir(p3) => {
                        assert(state_in(ws, e.path) is None);
                        assert(p3 == e.path);
                    },
                    RepairActionModel::CreateParent(p4) => {
                        assert(state_in(ws, p4) is None);
                    },
                    _ => {},
                }
            }
        }
        lemma_repair_fold_no_touch(cands.skip(1), rules, ws, sg, sb, step.1, step.0, p);
    }
}

/// LAW (repair safety): repair only ever creates directories and links,
/// never deletes or overwrites; and where a real file or directory
/// stands at a workspace path, repair plans no creation there at all.
/// A shared directory replaced by a real directory full of user files
/// is left exactly as the user made it, never converted back into a
/// link.
pub proof fn lemma_repair_preserves_replacements(
    roles: Seq<RoleEntryModel>,
    tree: Seq<crate::fstree::TreeEntryModel>,
    rules: Seq<SharingRuleModel>,
    ws: Seq<WsEntryModel>,
    sg: Seq<Seq<char>>,
    sb: Seq<Seq<char>>,
    g_root: bool,
    b_root: bool,
    p: Seq<char>,
)
    requires
        state_in(ws, p) == Some(WsState::Dir) || state_in(ws, p) == Some(WsState::File),
    ensures
        ({
            let plan = spec_repair_plan(roles, tree, rules, ws, sg, sb, g_root, b_root);
            forall|i: int|
                0 <= i < plan.len() ==> {
                    &&& ((#[trigger] plan[i]) matches RepairActionModel::CreateLink(p2, sc) ==> p2
                        != p)
                    &&& (plan[i] matches RepairActionModel::CreateDir(p3) ==> p3 != p)
                    &&& (plan[i] matches RepairActionModel::CreateParent(p4) ==> p4 != p)
                }
        }),
{
    let head = root_records(g_root, b_root);
    assert forall|i: int|
        0 <= i < head.len() implies {
        &&& ((#[trigger] head[i]) matches RepairActionModel::CreateLink(p2, sc) ==> p2 != p)
        &&& (head[i] matches RepairActionModel::CreateDir(p3) ==> p3 != p)
        &&& (head[i] matches RepairActionModel::CreateParent(p4) ==> p4 != p)
    } by {
        assert(head[i] matches RepairActionModel::EnsureRoot(sc2));
    }
    lemma_repair_fold_no_touch(
        sorted_candidates(roles, tree),
        rules,
        ws,
        sg,
        sb,
        Seq::empty(),
        head,
        p,
    );
}

/// The repair fold emits the record of candidate `m` exactly as its own
/// step computes it, whatever came before: used to show a particular
/// record is planned.
proof fn lemma_repair_fold_emits_target(
    cands: Seq<RoleEntryModel>,
    rules: Seq<SharingRuleModel>,
    ws: Seq<WsEntryModel>,
    sg: Seq<Seq<char>>,
    sb: Seq<Seq<char>>,
    planned: Seq<(Scope, Seq<char>)>,
    acc: Seq<RepairActionModel>,
    m: int,
)
    requires
        0 <= m < cands.len(),
        strategy_of(rules, cands[m]) != SharingStrategy::Workspace,
        (state_in(ws, cands[m].path) == Some(WsState::LinkTo(Scope::Global, false)) || state_in(
            ws,
            cands[m].path,
        ) == Some(WsState::LinkTo(Scope::PerBase, false)) || state_in(ws, cands[m].path) == Some(
            WsState::LinkOther(false),
        )),
    ensures
        repair_fold(cands, rules, ws, sg, sb, planned, acc).0.contains(
            RepairActionModel::CreateTarget(
                crate::link::scope_of(strategy_of(rules, cands[m])),
                cands[m].path,
            ),
        ),
    decreases cands.len(),
{
    let e = cands[0];
    let step = repair_candidate(e, rules, ws, sg, sb, planned, acc);
    let r = repair_fold(cands, rules, ws, sg, sb, planned, acc);
    assert(r == repair_fold(cands.skip(1), rules, ws, sg, sb, step.1, step.0));
    if m == 0 {
        let sc = crate::link::scope_of(strategy_of(rules, e));
        let x = RepairActionModel::CreateTarget(sc, e.path);
        assert(step.0[step.0.len() - 1] == x);
        lemma_repair_fold_prefix(cands.skip(1), rules, ws, sg, sb, step.1, step.0);
        assert(r.0[step.0.len() - 1] == x);
        assert(r.0.contains(x));
    } else {
        assert(cands.skip(1)[m - 1] == cands[m]);
        lemma_repair_fold_emits_target(cands.skip(1), rules, ws, sg, sb, step.1, step.0, m - 1);
    }
}

/// LAW (dangling-link repair): where a shared candidate's link still
/// stands but its target directory is gone, repair re-creates the
/// canonical target under the candidate's shared root and plans nothing
/// at the workspace path itself: the existing link is left untouched and
/// resolves again once its target exists.
pub proof fn lemma_repair_dangling(
    roles: Seq<RoleEntryModel>,
    tree: Seq<crate::fstree::TreeEntryModel>,
    rules: Seq<SharingRuleModel>,
    ws: Seq<WsEntryModel>,
    sg: Seq<Seq<char>>,
    sb: Seq<Seq<char>>,
    g_root: bool,
    b_root: bool,
    m: int,
)
    requires
        0 <= m < sorted_candidates(roles, tree).len(),
        strategy_of(rules, sorted_candidates(roles, tree)[m]) != SharingStrategy::Workspace,
        (state_in(ws, sorted_candidates(roles, tree)[m].path) == Some(
            WsState::LinkTo(Scope::Global, false),
        ) || state_in(ws, sorted_candidates(roles, tree)[m].path) == Some(
            WsState::LinkTo(Scope::PerBase, false),
        ) || state_in(ws, sorted_candidates(roles, tree)[m].path) == Some(
            WsState::LinkOther(false),
        )),
    ensures
        ({
            let plan = spec_repair_plan(roles, tree, rules, ws, sg, sb, g_root, b_root);
            let e = sorted_candidates(roles, tree)[m];
            &&& plan.contains(
                RepairActionModel::CreateTarget(
                    crate::link::scope_of(strategy_of(rules, e)),
                    e.path,
                ),
            )
            &&& forall|i: int|
                0 <= i < plan.len() ==> {
                    &&& ((#[trigger] plan[i]) matches RepairActionModel::CreateLink(p2, sc) ==> p2
                        != e.path)
                    &&& (plan[i] matches RepairActionModel::CreateDir(p3) ==> p3 != e.path)
                    &&& (plan[i] matches RepairActionModel::CreateParent(p4) ==> p4 != e.path)
                }
        }),
{
    let head = root_records(g_root, b_root);
    let e = sorted_candidates(roles, tree)[m];
    lemma_repair_fold_emits_target(
        sorted_candidates(roles, tree),
        rules,
        ws,
        sg,
        sb,
        Seq::empty(),
        head,
        m,
    );
    assert forall|i: int|
        0 <= i < head.len() implies {
        &&& ((#[trigger] head[i]) matches RepairActionModel::CreateLink(p2, sc) ==> p2 != e.path)
        &&& (head[i] matches RepairActionModel::CreateDir(p3) ==> p3 != e.path)
        &&& (head[i] matches RepairActionModel::CreateParent(p4) ==> p4 != e.path)
    } by {
        assert(head[i] matches RepairActionModel::EnsureRoot(sc2));
    }
    lemma_repair_fold_no_touch(
        sorted_candidates(roles, tree),
        rules,
        ws,
        sg,
        sb,
        Seq::empty(),
        head,
        e.path,
    );
}

} // verus!
