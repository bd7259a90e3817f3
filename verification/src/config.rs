//! Launch-time configuration: the record a front end reads for one
//! workspace, and the small decisions around launching.
//!
//! File I/O, deserialization and process start-up live outside the
//! library; what stands here is the data type, the case-insensitive
//! selection of a configuration by name, the realmlist line to write,
//! and the integrity check over a tree snapshot.

use vstd::prelude::*;

use crate::fstree::{kind_in, FsKind, TreeView};
use crate::path_util::norm;

verus! {

/// The launch configuration of one workspace.
#[derive(Clone, Debug)]
pub struct Config {
    pub directory: String,
    pub executable: String,
    pub launch_cmd: Option<String>,
    pub realmlist: Option<String>,
    pub realmlist_rel_path: Option<String>,
    pub account: Option<String>,
    pub password: Option<String>,
    pub accounts: Option<Vec<(String, String)>>,
    pub clear_cache: Option<bool>,
}

/// The executable a configuration falls back to when it names none.
pub fn default_executable() -> (r: String)
    ensures
        r@ == "Wow.exe"@,
{
    String::from_str("Wow.exe")
}

/// The index of the first configuration whose key equals `game` up to
/// ASCII case, if any.
pub fn select_config(entries: &Vec<(String, Config)>, game: &str) -> (r: Option<usize>)
    ensures
        match r {
            Some(i) => i < entries@.len() && norm(entries@[i as int].0@) == norm(game@) && forall|
                j: int,
            |
                0 <= j < i ==> norm((#[trigger] entries@[j]).0@) != norm(game@),
            None => forall|j: int|
                0 <= j < entries@.len() ==> norm((#[trigger] entries@[j]).0@) != norm(game@),
        },
{
    let n = entries.len();
    let mut i: usize = 0;
    while i < n
        invariant
            n == entries@.len(),
            i <= n,
            forall|j: int| 0 <= j < i ==> norm((#[trigger] entries@[j]).0@) != norm(game@),
        decreases n - i,
    {
        if crate::path_util::str_eq_norm(entries[i].0.as_str(), game) {
            return Some(i);
        }
        i = i + 1;
    }
    None
}

/// The single line written into the realmlist file to point the client
/// at `realmlist`.
pub fn realmlist_contents(realmlist: &str) -> (r: String)
    ensures
        r@ == "set realmlist to "@ + realmlist@,
{
    let mut s = String::from_str("set realmlist to ");
    s.append(realmlist);
    s
}

/// Whether a 3.3.5a installation has its required directories and
/// files: the `Data` directory, and the launcher library with the two
/// expansion archives as plain files.
pub fn verify_game_integrity(tree: &TreeView) -> (r: bool)
    ensures
        r == (kind_in(tree.models(), "Data"@) == Some(FsKind::Dir) && kind_in(
            tree.models(),
            "Battle.net.dll"@,
        ) == Some(FsKind::File) && kind_in(tree.models(), "Data/lichking.MPQ"@) == Some(
            FsKind::File,
        ) && kind_in(tree.models(), "Data/patch-3.MPQ"@) == Some(FsKind::File)),
{
    let data_ok = match tree.kind_of("Data") {
        Some(FsKind::Dir) => true,
        _ => false,
    };
    if !data_ok {
        return false;
    }
    let dll_ok = match tree.kind_of("Battle.net.dll") {
        Some(FsKind::File) => true,
        _ => false,
    };
    if !dll_ok {
        return false;
    }
    let lich_ok = match tree.kind_of("Data/lichking.MPQ") {
        Some(FsKind::File) => true,
        _ => false,
    };
    if !lich_ok {
        return false;
    }
    match tree.kind_of("Data/patch-3.MPQ") {
        Some(FsKind::File) => true,
        _ => false,
    }
}

} // verus!
