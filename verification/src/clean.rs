//! Planning the removal of a workspace's disposable files.
//!
//! Cleaning deletes the three ephemeral directories when present, and on
//! request the client's database cache files: every `.wdb` file directly
//! inside `Data`, and every `.wdb` file one level down inside a
//! four-letter locale directory. The planner decides from a snapshot of
//! the workspace; the front end performs the removals.

use vstd::prelude::*;

use crate::fstree::{kind_in, FsKind, TreeEntryModel, TreeView};
use crate::path_util::parent_of;

verus! {

/// One planned removal.
#[derive(Clone, Debug, PartialEq, Eq)]
pub enum CleanAction {
    /// Remove this directory and everything under it.
    RemoveDir(String),
    /// Remove this single file.
    RemoveFile(String),
}

/// Mathematical model of a [`CleanAction`].
#[verifier::ext_equal]
pub enum CleanActionModel {
    RemoveDir(Seq<char>),
    RemoveFile(Seq<char>),
}

impl View for CleanAction {
    type V = CleanActionModel;

    open spec fn view(&self) -> CleanActionModel {
        match self {
            CleanAction::RemoveDir(p) => CleanActionModel::RemoveDir(p@),
            CleanAction::RemoveFile(p) => CleanActionModel::RemoveFile(p@),
        }
    }
}

/// The models of a list of removals.
pub open spec fn clean_models(v: Seq<CleanAction>) -> Seq<CleanActionModel> {
    v.map_values(|a: CleanAction| a@)
}

/// The final path component: everything after the last separator.
pub open spec fn base_name_of(p: Seq<char>) -> Seq<char> {
    match parent_of(p) {
        Some(par) => p.subrange(par.len() as int + 1, p.len() as int),
        None => p,
    }
}

/// A database cache file name: more than four characters, ending in
/// `.wdb`.
pub open spec fn wdb_name(n: Seq<char>) -> bool {
    n.len() > 4 && n.subrange(n.len() - 4, n.len() as int) == ".wdb"@
}

pub open spec fn ascii_alpha(c: char) -> bool {
    ('a' <= c && c <= 'z') || ('A' <= c && c <= 'Z')
}

/// A locale directory name: exactly four ASCII letters.
pub open spec fn locale_dir_name(n: Seq<char>) -> bool {
    n.len() == 4 && forall|i: int| 0 <= i < 4 ==> ascii_alpha(#[trigger] n[i])
}

/// A cache file directly inside `Data`.
pub open spec fn is_direct_wdb(e: TreeEntryModel) -> bool {
    e.kind == FsKind::File && parent_of(e.path) == Some("Data"@) && wdb_name(base_name_of(e.path))
}

/// A cache file inside a locale directory under `Data`.
pub open spec fn is_locale_wdb(tree: Seq<TreeEntryModel>, e: TreeEntryModel) -> bool {
    &&& e.kind == FsKind::File
    &&& wdb_name(base_name_of(e.path))
    &&& match parent_of(e.path) {
        Some(q) => parent_of(q) == Some("Data"@) && locale_dir_name(base_name_of(q)) && kind_in(
            tree,
            q,
        ) == Some(FsKind::Dir),
        None => false,
    }
}

/// The direct cache-file removals among the first `n` entries.
pub open spec fn direct_wdbs_upto(tree: Seq<TreeEntryModel>, n: int) -> Seq<CleanActionModel>
    decreases n,
{
    if n <= 0 {
        Seq::empty()
    } else {
        let rest = direct_wdbs_upto(tree, n - 1);
        if is_direct_wdb(tree[n - 1]) {
            rest.push(CleanActionModel::RemoveFile(tree[n - 1].path))
        } else {
            rest
        }
    }
}

/// The locale cache-file removals among the first `n` entries.
pub open spec fn locale_wdbs_upto(tree: Seq<TreeEntryModel>, n: int) -> Seq<CleanActionModel>
    decreases n,
{
    if n <= 0 {
        Seq::empty()
    } else {
        let rest = locale_wdbs_upto(tree, n - 1);
        if is_locale_wdb(tree, tree[n - 1]) {
            rest.push(CleanActionModel::RemoveFile(tree[n - 1].path))
        } else {
            rest
        }
    }
}

/// The ephemeral-directory removals: each of the three directories that
/// is present, in fixed order.
pub open spec fn ephemeral_removals(tree: Seq<TreeEntryModel>) -> Seq<CleanActionModel> {
    (if kind_in(tree, "Cache"@) is Some {
        seq![CleanActionModel::RemoveDir("Cache"@)]
    } else {
        Seq::empty()
    }) + (if kind_in(tree, "Logs"@) is Some {
        seq![CleanActionModel::RemoveDir("Logs"@)]
    } else {
        Seq::empty()
    }) + (if kind_in(tree, "Errors"@) is Some {
        seq![CleanActionModel::RemoveDir("Errors"@)]
    } else {
        Seq::empty()
    })
}

/// The complete clean plan for one workspace snapshot.
pub open spec fn spec_clean_plan(tree: Seq<TreeEntryModel>, wdb: bool) -> Seq<CleanActionModel> {
    ephemeral_removals(tree) + (if wdb {
        direct_wdbs_upto(tree, tree.len() as int) + locale_wdbs_upto(tree, tree.len() as int)
    } else {
        Seq::empty()
    })
}

/// Whether the final component of `p` is a cache file name.
fn wdb_name_check(p: &str) -> (r: bool)
    ensures
        r == wdb_name(base_name_of(p@)),
{
    let l = p.unicode_len();
    proof {
        crate::link::lemma_parent_len(p@);
    }
    let start: usize = match crate::path_util::parent_path(p) {
        Some(par) => {
            let pl = par.as_str().unicode_len();
            pl + 1
        },
        None => 0,
    };
    let name = p.substring_char(start, l);
    proof {
        assert(name@ =~= base_name_of(p@));
    }
    let nl = name.unicode_len();
    if nl <= 4 {
        return false;
    }
    let suffix = name.substring_char(nl - 4, nl);
    crate::path_util::str_eq(suffix, ".wdb")
}

/// Whether the final component of `p` is a locale directory name.
fn locale_name_check(p: &str) -> (r: bool)
    ensures
        r == locale_dir_name(base_name_of(p@)),
{
    let l = p.unicode_len();
    proof {
        crate::link::lemma_parent_len(p@);
    }
    let start: usize = match crate::path_util::parent_path(p) {
        Some(par) => {
            let pl = par.as_str().unicode_len();
            pl + 1
        },
        None => 0,
    };
    let name = p.substring_char(start, l);
    proof {
        assert(name@ =~= base_name_of(p@));
    }
    let nl = name.unicode_len();
    if nl != 4 {
        return false;
    }
    let mut i: usize = 0;
    while i < 4
        invariant
            nl == name@.len(),
            nl == 4,
            i <= 4,
            name@ == base_name_of(p@),
            forall|j: int| 0 <= j < i ==> ascii_alpha(#[trigger] name@[j]),
        decreases 4 - i,
    {
        let c = name.get_char(i);
        let ok = ('a' <= c && c <= 'z') || ('A' <= c && c <= 'Z');
        if !ok {
            return false;
        }
        i = i + 1;
    }
    true
}

/// Computes the clean plan: the ephemeral directories to remove, and,
/// when asked, the client's cache files under `Data`.
pub fn plan_clean(tree: &TreeView, clean_wdb: bool) -> (r: Vec<CleanAction>)
    ensures
        clean_models(r@) == spec_clean_plan(tree.models(), clean_wdb),
{
    let ghost tree_m = tree.models();
    let mut out: Vec<CleanAction> = Vec::new();
    let cache_present = match tree.kind_of("Cache") {
        Some(_) => true,
        None => false,
    };
    if cache_present {
        out.push(CleanAction::RemoveDir(String::from_str("Cache")));
    }
    let logs_present = match tree.kind_of("Logs") {
        Some(_) => true,
        None => false,
    };
    if logs_present {
        out.push(CleanAction::RemoveDir(String::from_str("Logs")));
    }
    let errors_present = match tree.kind_of("Errors") {
        Some(_) => true,
        None => false,
    };
    if errors_present {
        out.push(CleanAction::RemoveDir(String::from_str("Errors")));
    }
    proof {
        assert(clean_models(out@) =~= ephemeral_removals(tree_m));
    }
    if !clean_wdb {
        proof {
            assert(clean_models(out@) =~= spec_clean_plan(tree_m, clean_wdb));
        }
        return out;
    }
    let ghost head = ephemeral_removals(tree_m);
    let n = tree.entries.len();
    let mut i: usize = 0;
    proof {
        assert(clean_models(out@) =~= head + direct_wdbs_upto(tree_m, 0));
    }
    while i < n
        invariant
            n == tree.entries.len(),
            i <= n,
            tree_m == tree.models(),
            clean_models(out@) == head + direct_wdbs_upto(tree_m, i as int),
        decreases n - i,
    {
        let entry = &tree.entries[i];
        let is_file = match entry.kind {
            FsKind::File => true,
            FsKind::Dir => false,
        };
        let parent_is_data = match crate::path_util::parent_path(entry.path.as_str()) {
            Some(par) => crate::path_util::str_eq(par.as_str(), "Data"),
            None => false,
        };
        let is_wdb = wdb_name_check(entry.path.as_str());
        proof {
            assert(tree_m[i as int] == tree.entries@[i as int]@);
            assert((is_file && parent_is_data && is_wdb) == is_direct_wdb(tree_m[i as int]));
        }
        if is_file && parent_is_data && is_wdb {
            out.push(CleanAction::RemoveFile(entry.path.clone()));
        }
        proof {
            let old_upto = direct_wdbs_upto(tree_m, i as int);
            let new_upto = direct_wdbs_upto(tree_m, i as int + 1);
            if is_direct_wdb(tree_m[i as int]) {
                let x = CleanActionModel::RemoveFile(tree_m[i as int].path);
                assert(new_upto == old_upto.push(x));
                assert(clean_models(out@) =~= (head + old_upto).push(x));
                assert(head + new_upto =~= (head + old_upto).push(x));
            } else {
                assert(new_upto == old_upto);
            }
            assert(clean_models(out@) =~= head + new_upto);
        }
        i = i + 1;
    }
    let ghost head2 = head + direct_wdbs_upto(tree_m, n as int);
    let mut j: usize = 0;
    proof {
        assert(clean_models(out@) =~= head2 + locale_wdbs_upto(tree_m, 0));
    }
    while j < n
        invariant
            n == tree.entries.len(),
            j <= n,
            tree_m == tree.models(),
            clean_models(out@) == head2 + locale_wdbs_upto(tree_m, j as int),
        decreases n - j,
    {
        let entry = &tree.entries[j];
        let is_file = match entry.kind {
            FsKind::File => true,
            FsKind::Dir => false,
        };
        let mut keep = false;
        if is_file && wdb_name_check(entry.path.as_str()) {
            match crate::path_util::parent_path(entry.path.as_str()) {
                Some(q) => {
                    let q_under_data = match crate::path_util::parent_path(q.as_str()) {
                        Some(qq) => crate::path_util::str_eq(qq.as_str(), "Data"),
                        None => false,
                    };
                    if q_under_data && locale_name_check(q.as_str()) {
                        let q_is_dir = match tree.kind_of(q.as_str()) {
                            Some(FsKind::Dir) => true,
                            _ => false,
                        };
                        if q_is_dir {
                            keep = true;
                        }
                    }
                },
                None => {},
            }
        }
        proof {
            assert(tree_m[j as int] == tree.entries@[j as int]@);
            assert(keep == is_locale_wdb(tree_m, tree_m[j as int]));
        }
        if keep {
            out.push(CleanAction::RemoveFile(entry.path.clone()));
        }
        proof {
            let old_upto = locale_wdbs_upto(tree_m, j as int);
            let new_upto = locale_wdbs_upto(tree_m, j as int + 1);
            if is_locale_wdb(tree_m, tree_m[j as int]) {
                let x = CleanActionModel::RemoveFile(tree_m[j as int].path);
                assert(new_upto == old_upto.push(x));
                assert(clean_models(out@) =~= (head2 + old_upto).push(x));
                assert(head2 + new_upto =~= (head2 + old_upto).push(x));
            } else {
                assert(new_upto == old_upto);
            }
            assert(clean_models(out@) =~= head2 + new_upto);
        }
        j = j + 1;
    }
    proof {
        assert(clean_models(out@) =~= spec_clean_plan(tree_m, clean_wdb));
    }
    out
}

} // verus!
