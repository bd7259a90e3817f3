//! Pure snapshots of directory trees.
//!
//! The planners in this crate never touch the filesystem; the front end
//! walks a real tree once and hands over a [`TreeView`]: the list of the
//! entries it found, each a relative path together with whether it is a
//! plain file or a directory.

use vstd::prelude::*;

verus! {

/// What kind of object a path refers to.
#[derive(Clone, Copy, Debug, PartialEq, Eq, Structural)]
pub enum FsKind {
    File,
    Dir,
}

/// One observed entry of a tree.
#[derive(Clone, Debug)]
pub struct TreeEntry {
    pub path: String,
    pub kind: FsKind,
}

/// Mathematical model of a [`TreeEntry`].
#[verifier::ext_equal]
pub struct TreeEntryModel {
    pub path: Seq<char>,
    pub kind: FsKind,
}

impl View for TreeEntry {
    type V = TreeEntryModel;

    open spec fn view(&self) -> TreeEntryModel {
        TreeEntryModel { path: self.path@, kind: self.kind }
    }
}

/// The kind recorded for `p` by the first entry whose path equals `p`.
pub open spec fn kind_in(entries: Seq<TreeEntryModel>, p: Seq<char>) -> Option<FsKind>
    decreases entries.len(),
{
    if entries.len() == 0 {
        None
    } else if entries[0].path == p {
        Some(entries[0].kind)
    } else {
        kind_in(entries.skip(1), p)
    }
}

/// A snapshot of one directory tree: every path is relative to the
/// snapshot's root and listed at most once.
#[derive(Clone, Debug)]
pub struct TreeView {
    pub entries: Vec<TreeEntry>,
}

impl TreeView {
    pub open spec fn models(self) -> Seq<TreeEntryModel> {
        self.entries@.map_values(|e: TreeEntry| e@)
    }

    /// Paths are unique, so `kind_in` is the only entry mentioning a path.
    pub open spec fn wf(self) -> bool {
        forall|i: int, j: int|
            0 <= i < j < self.models().len() ==> self.models()[i].path != self.models()[j].path
    }

    /// Looks a path up in the snapshot.
    pub fn kind_of(&self, p: &str) -> (r: Option<FsKind>)
        ensures
            r == kind_in(self.models(), p@),
    {
        proof {
            assert(self.models().skip(0) =~= self.models());
        }
        let n = self.entries.len();
        let mut i: usize = 0;
        while i < n
            invariant
                n == self.entries.len(),
                i <= n,
                kind_in(self.models(), p@) == kind_in(self.models().skip(i as int), p@),
            decreases n - i,
        {
            proof {
                assert(self.models().skip(i as int)[0] == self.models()[i as int]);
                assert(self.models().skip(i as int).skip(1) =~= self.models().skip(i as int + 1));
            }
            if crate::path_util::str_eq(self.entries[i].path.as_str(), p) {
                return Some(self.entries[i].kind);
            }
            i = i + 1;
        }
        None
    }
}

/// A plain set of relative paths, used to describe which paths currently
/// exist under a shared root.
#[derive(Clone, Debug)]
pub struct PathSet {
    pub paths: Vec<String>,
}

impl PathSet {
    pub open spec fn models(self) -> Seq<Seq<char>> {
        self.paths@.map_values(|s: String| s@)
    }

    /// Whether `p` is one of the recorded paths.
    pub fn contains_path(&self, p: &str) -> (r: bool)
        ensures
            r == self.models().contains(p@),
    {
        let n = self.paths.len();
        let mut i: usize = 0;
        while i < n
            invariant
                n == self.paths.len(),
                i <= n,
                forall|j: int| 0 <= j < i ==> self.models()[j] != p@,
            decreases n - i,
        {
            if crate::path_util::str_eq(self.paths[i].as_str(), p) {
                assert(self.models()[i as int] == p@);
                assert(self.models().contains(p@));
                return true;
            }
            i = i + 1;
        }
        false
    }
}

} // verus!
