//! Building the persisted manifest of a base tree.
//!
//! The front end walks the base once and hands over one [`ScanEntry`]
//! per path it found, with the bytes of every file it could read that
//! may need a checksum. The builder classifies every entry, skips the
//! descendants of ephemeral directories, records an integrity checksum
//! for immutable data files, and refuses to produce a manifest at all if
//! an immutable file could not be read.

use vstd::prelude::*;

use crate::fstree::FsKind;
use crate::path_util::strict_under;
use crate::roles::{spec_classify, FileRole, Profile, RoleRuleModel};

verus! {

/// One entry of a base-tree walk: a relative path, what kind of object
/// it is, and, for files, their contents if they could be read.
#[derive(Clone, Debug)]
pub struct ScanEntry {
    pub path: String,
    pub kind: FsKind,
    pub data: Option<Vec<u8>>,
}

/// Mathematical model of a [`ScanEntry`].
#[verifier::ext_equal]
pub struct ScanEntryModel {
    pub path: Seq<char>,
    pub kind: FsKind,
    pub data: Option<Seq<u8>>,
}

impl View for ScanEntry {
    type V = ScanEntryModel;

    open spec fn view(&self) -> ScanEntryModel {
        ScanEntryModel {
            path: self.path@,
            kind: self.kind,
            data: match self.data {
                Some(d) => Some(d@),
                None => None,
            },
        }
    }
}

/// One role assignment of the manifest.
#[derive(Clone, Debug)]
pub struct RoleEntry {
    pub path: String,
    pub role: FileRole,
}

/// Mathematical model of a [`RoleEntry`].
#[verifier::ext_equal]
pub struct RoleEntryModel {
    pub path: Seq<char>,
    pub role: FileRole,
}

impl View for RoleEntry {
    type V = RoleEntryModel;

    open spec fn view(&self) -> RoleEntryModel {
        RoleEntryModel { path: self.path@, role: self.role }
    }
}

/// One integrity checksum of the manifest.
#[derive(Clone, Debug)]
pub struct ChecksumEntry {
    pub path: String,
    pub checksum: String,
}

/// Mathematical model of a [`ChecksumEntry`].
#[verifier::ext_equal]
pub struct ChecksumEntryModel {
    pub path: Seq<char>,
    pub checksum: Seq<char>,
}

impl View for ChecksumEntry {
    type V = ChecksumEntryModel;

    open spec fn view(&self) -> ChecksumEntryModel {
        ChecksumEntryModel { path: self.path@, checksum: self.checksum@ }
    }
}

/// The role recorded for `p` by the first entry whose path equals `p`.
pub open spec fn role_of(roles: Seq<RoleEntryModel>, p: Seq<char>) -> Option<FileRole>
    decreases roles.len(),
{
    if roles.len() == 0 {
        None
    } else if roles[0].path == p {
        Some(roles[0].role)
    } else {
        role_of(roles.skip(1), p)
    }
}

/// The persisted description of one base tree: every path's role, and a
/// checksum for every immutable data file. Immutable once produced; a
/// re-scan builds a new manifest.
#[derive(Clone, Debug)]
pub struct BaseManifest {
    pub profile: String,
    pub base_path: String,
    pub created_at: String,
    pub file_roles: Vec<RoleEntry>,
    pub checksums: Vec<ChecksumEntry>,
    pub version: Option<String>,
}

impl BaseManifest {
    pub open spec fn role_models(self) -> Seq<RoleEntryModel> {
        self.file_roles@.map_values(|e: RoleEntry| e@)
    }

    pub open spec fn checksum_models(self) -> Seq<ChecksumEntryModel> {
        self.checksums@.map_values(|e: ChecksumEntry| e@)
    }

    /// Role paths are unique, checksum paths are unique, and every
    /// checksummed path is recorded as immutable base data.
    pub open spec fn wf(self) -> bool {
        &&& forall|i: int, j: int|
            0 <= i < j < self.role_models().len() ==> self.role_models()[i].path
                != self.role_models()[j].path
        &&& forall|i: int, j: int|
            0 <= i < j < self.checksum_models().len() ==> self.checksum_models()[i].path
                != self.checksum_models()[j].path
        &&& forall|i: int|
            0 <= i < self.checksum_models().len() ==> role_of(
                self.role_models(),
                #[trigger] self.checksum_models()[i].path,
            ) == Some(FileRole::BaseData)
    }

    /// Looks up the role recorded for a path.
    pub fn role_for(&self, p: &str) -> (r: Option<FileRole>)
        ensures
            r == role_of(self.role_models(), p@),
    {
        proof {
            assert(self.role_models().skip(0) =~= self.role_models());
        }
        let n = self.file_roles.len();
        let mut i: usize = 0;
        while i < n
            invariant
                n == self.file_roles.len(),
                i <= n,
                role_of(self.role_models(), p@) == role_of(
                    self.role_models().skip(i as int),
                    p@,
                ),
            decreases n - i,
        {
            proof {
                assert(self.role_models().skip(i as int)[0] == self.role_models()[i as int]);
                assert(self.role_models().skip(i as int).skip(1) =~= self.role_models().skip(
                    i as int + 1,
                ));
            }
            if crate::path_util::str_eq(self.file_roles[i].path.as_str(), p) {
                return Some(self.file_roles[i].role);
            }
            i = i + 1;
        }
        None
    }
}

/// The hexadecimal rendering (eight lower-case digits) of the CRC-32 of
/// a byte string; a function of those bytes alone, which is all this
/// name asserts.
pub uninterp spec fn crc32_hex_of(data: Seq<u8>) -> Seq<char>;

/// Relies on `crc32fast::Hasher` (`new`, `update`, `finalize`): the
/// CRC-32 of a byte string depends on those bytes alone, whatever
/// hardware implementation the crate selects, and the `{:08x}` rendering
/// of a 32-bit value is exactly eight characters.
#[verifier::external_body]
fn crc32_hex(data: &Vec<u8>) -> (r: String)
    ensures
        r@ == crc32_hex_of(data@),
        r@.len() == 8,
{
    let mut hasher = crc32fast::Hasher::new();
    hasher.update(data.as_slice());
    format!("{:08x}", hasher.finalize())
}

/// An immutable data file whose contents could not be read; the scan is
/// aborted and no manifest is produced.
#[derive(Clone, Debug, PartialEq, Eq)]
pub struct ScanError {
    pub path: String,
}

/// `p` lies below a directory entry that classifies as ephemeral; such
/// descendants get no manifest entries of their own.
pub open spec fn skipped_by_ephemeral(
    entries: Seq<ScanEntryModel>,
    rules: Seq<RoleRuleModel>,
    p: Seq<char>,
) -> bool {
    exists|j: int|
        0 <= j < entries.len() && strict_under(p, #[trigger] entries[j].path) && entries[j].kind
            == FsKind::Dir && spec_classify(rules, entries[j].path) == FileRole::Ephemeral
}

/// The roles recorded for the first `n` scan entries: one per entry that
/// is not below an ephemeral directory, in scan order.
pub open spec fn scan_roles_upto(
    all: Seq<ScanEntryModel>,
    rules: Seq<RoleRuleModel>,
    n: int,
) -> Seq<RoleEntryModel>
    decreases n,
{
    if n <= 0 {
        Seq::empty()
    } else {
        let rest = scan_roles_upto(all, rules, n - 1);
        let e = all[n - 1];
        if skipped_by_ephemeral(all, rules, e.path) {
            rest
        } else {
            rest.push(RoleEntryModel { path: e.path, role: spec_classify(rules, e.path) })
        }
    }
}

/// Whether entry `e` gets a checksum: a kept, readable plain file whose
/// role is immutable base data.
pub open spec fn takes_checksum(
    all: Seq<ScanEntryModel>,
    rules: Seq<RoleRuleModel>,
    e: ScanEntryModel,
) -> bool {
    &&& !skipped_by_ephemeral(all, rules, e.path)
    &&& e.kind == FsKind::File
    &&& spec_classify(rules, e.path) == FileRole::BaseData
    &&& e.data is Some
}

/// The checksums recorded for the first `n` scan entries.
pub open spec fn scan_checksums_upto(
    all: Seq<ScanEntryModel>,
    rules: Seq<RoleRuleModel>,
    n: int,
) -> Seq<ChecksumEntryModel>
    decreases n,
{
    if n <= 0 {
        Seq::empty()
    } else {
        let rest = scan_checksums_upto(all, rules, n - 1);
        let e = all[n - 1];
        if takes_checksum(all, rules, e) {
            rest.push(
                ChecksumEntryModel {
                    path: e.path,
                    checksum: crc32_hex_of(match e.data {
                        Some(d) => d,
                        None => Seq::empty(),
                    }),
                },
            )
        } else {
            rest
        }
    }
}

/// The first kept immutable data file whose contents are missing,
/// looking from scan position `n` on.
pub open spec fn first_unreadable_from(
    all: Seq<ScanEntryModel>,
    rules: Seq<RoleRuleModel>,
    n: int,
) -> Option<Seq<char>>
    decreases all.len() - n,
{
    if n < 0 || n >= all.len() {
        None
    } else if !skipped_by_ephemeral(all, rules, all[n].path) && all[n].kind == FsKind::File
        && spec_classify(rules, all[n].path) == FileRole::BaseData && all[n].data is None {
        Some(all[n].path)
    } else {
        first_unreadable_from(all, rules, n + 1)
    }
}

/// The models of a list of scan entries.
pub open spec fn scan_models(v: Seq<ScanEntry>) -> Seq<ScanEntryModel> {
    v.map_values(|e: ScanEntry| e@)
}

/// Appending a role entry changes `role_of` only for its own path, and
/// only if that path was absent.
proof fn lemma_role_of_push(s: Seq<RoleEntryModel>, e: RoleEntryModel, p: Seq<char>)
    ensures
        role_of(s.push(e), p) == (if role_of(s, p) is Some {
            role_of(s, p)
        } else if e.path == p {
            Some(e.role)
        } else {
            None
        }),
    decreases s.len(),
{
    let post = s.push(e);
    if s.len() == 0 {
        assert(post[0] == e);
        assert(post.skip(1) =~= Seq::<RoleEntryModel>::empty());
        if e.path == p {
            assert(role_of(post, p) == Some(e.role));
        } else {
            assert(role_of(post, p) == role_of(post.skip(1), p));
            assert(role_of(post.skip(1), p) == None::<FileRole>);
        }
    } else {
        assert(post[0] == s[0]);
        assert(post.skip(1) =~= s.skip(1).push(e));
        lemma_role_of_push(s.skip(1), e, p);
        if s[0].path == p {
            assert(role_of(post, p) == Some(s[0].role));
            assert(role_of(s, p) == Some(s[0].role));
        } else {
            assert(role_of(post, p) == role_of(s.skip(1).push(e), p));
            assert(role_of(s, p) == role_of(s.skip(1), p));
        }
    }
}

/// A path no entry records has no role.
proof fn lemma_role_of_absent(s: Seq<RoleEntryModel>, p: Seq<char>)
    requires
        forall|m: int| 0 <= m < s.len() ==> s[m].path != p,
    ensures
        role_of(s, p) == None::<FileRole>,
    decreases s.len(),
{
    if s.len() > 0 {
        lemma_role_of_absent(s.skip(1), p);
    }
}

/// Every recorded role path is one of the first `n` scanned paths, and
/// every recorded checksum path likewise.
proof fn lemma_scan_paths(all: Seq<ScanEntryModel>, rules: Seq<RoleRuleModel>, n: int)
    requires
        0 <= n <= all.len(),
    ensures
        forall|m: int|
            0 <= m < scan_roles_upto(all, rules, n).len() ==> exists|k: int|
                0 <= k < n && #[trigger] scan_roles_upto(all, rules, n)[m].path == all[k].path,
        forall|m: int|
            0 <= m < scan_checksums_upto(all, rules, n).len() ==> exists|k: int|
                0 <= k < n && #[trigger] scan_checksums_upto(all, rules, n)[m].path == all[k].path,
    decreases n,
{
    if n > 0 {
        lemma_scan_paths(all, rules, n - 1);
        assert forall|m: int| 0 <= m < scan_roles_upto(all, rules, n).len() implies exists|k: int|
            0 <= k < n && #[trigger] scan_roles_upto(all, rules, n)[m].path == all[k].path by {
            if m < scan_roles_upto(all, rules, n - 1).len() {
                assert(scan_roles_upto(all, rules, n)[m] == scan_roles_upto(all, rules, n - 1)[m]);
            } else {
                assert(scan_roles_upto(all, rules, n)[m].path == all[n - 1].path);
            }
        }
        assert forall|m: int|
            0 <= m < scan_checksums_upto(all, rules, n).len() implies exists|k: int|
            0 <= k < n && #[trigger] scan_checksums_upto(all, rules, n)[m].path == all[k].path by {
            if m < scan_checksums_upto(all, rules, n - 1).len() {
                assert(scan_checksums_upto(all, rules, n)[m] == scan_checksums_upto(
                    all,
                    rules,
                    n - 1,
                )[m]);
            } else {
                assert(scan_checksums_upto(all, rules, n)[m].path == all[n - 1].path);
            }
        }
    }
}

/// With unique scan paths, the recorded roles and checksums have unique
/// paths too, and every checksummed path is recorded as immutable data.
proof fn lemma_scan_wf(all: Seq<ScanEntryModel>, rules: Seq<RoleRuleModel>, n: int)
    requires
        0 <= n <= all.len(),
        forall|i: int, j: int| 0 <= i < j < all.len() ==> all[i].path != all[j].path,
    ensures
        forall|i: int, j: int|
            0 <= i < j < scan_roles_upto(all, rules, n).len() ==> scan_roles_upto(
                all,
                rules,
                n,
            )[i].path != scan_roles_upto(all, rules, n)[j].path,
        forall|i: int, j: int|
            0 <= i < j < scan_checksums_upto(all, rules, n).len() ==> scan_checksums_upto(
                all,
                rules,
                n,
            )[i].path != scan_checksums_upto(all, rules, n)[j].path,
        forall|i: int|
            0 <= i < scan_checksums_upto(all, rules, n).len() ==> role_of(
                scan_roles_upto(all, rules, n),
                #[trigger] scan_checksums_upto(all, rules, n)[i].path,
            ) == Some(FileRole::BaseData),
    decreases n,
{
    if n > 0 {
        lemma_scan_wf(all, rules, n - 1);
        lemma_scan_paths(all, rules, n - 1);
        let prev_roles = scan_roles_upto(all, rules, n - 1);
        let prev_sums = scan_checksums_upto(all, rules, n - 1);
        let cur_roles = scan_roles_upto(all, rules, n);
        let cur_sums = scan_checksums_upto(all, rules, n);
        let e = all[n - 1];
        assert forall|m: int| 0 <= m < prev_roles.len() implies prev_roles[m].path != e.path by {
            let k = choose|k: int| 0 <= k < n - 1 && prev_roles[m].path == all[k].path;
            assert(all[k].path != all[n - 1].path);
        }
        assert forall|m: int| 0 <= m < prev_sums.len() implies prev_sums[m].path != e.path by {
            let k = choose|k: int| 0 <= k < n - 1 && prev_sums[m].path == all[k].path;
            assert(all[k].path != all[n - 1].path);
        }
        if !skipped_by_ephemeral(all, rules, e.path) {
            let new_role = RoleEntryModel { path: e.path, role: spec_classify(rules, e.path) };
            assert(cur_roles == prev_roles.push(new_role));
            lemma_role_of_absent(prev_roles, e.path);
            assert forall|i: int| 0 <= i < cur_sums.len() implies role_of(
                cur_roles,
                #[trigger] cur_sums[i].path,
            ) == Some(FileRole::BaseData) by {
                if i < prev_sums.len() {
                    assert(cur_sums[i] == prev_sums[i]);
                    lemma_role_of_push(prev_roles, new_role, cur_sums[i].path);
                } else {
                    assert(takes_checksum(all, rules, e));
                    assert(cur_sums[i].path == e.path);
                    lemma_role_of_push(prev_roles, new_role, e.path);
                }
            }
        } else {
            assert(cur_roles == prev_roles);
            assert(cur_sums == prev_sums);
        }
    }
}

/// Whether `p` lies below an ephemeral directory entry of the scan.
fn entry_skipped(tree: &Vec<ScanEntry>, profile: &Profile, p: &str) -> (r: bool)
    ensures
        r == skipped_by_ephemeral(scan_models(tree@), profile.rule_models(), p@),
{
    let n = tree.len();
    let mut j: usize = 0;
    while j < n
        invariant
            n == tree.len(),
            j <= n,
            forall|k: int|
                0 <= k < j ==> !(strict_under(p@, #[trigger] scan_models(tree@)[k].path)
                    && scan_models(tree@)[k].kind == FsKind::Dir && spec_classify(
                    profile.rule_models(),
                    scan_models(tree@)[k].path,
                ) == FileRole::Ephemeral),
        decreases n - j,
    {
        let entry = &tree[j];
        if crate::path_util::strict_under_check(p, entry.path.as_str()) {
            let is_dir = match entry.kind {
                FsKind::Dir => true,
                FsKind::File => false,
            };
            if is_dir {
                let role = profile.classify_path(entry.path.as_str());
                if role == FileRole::Ephemeral {
                    assert(strict_under(p@, scan_models(tree@)[j as int].path)
                        && scan_models(tree@)[j as int].kind == FsKind::Dir && spec_classify(
                        profile.rule_models(),
                        scan_models(tree@)[j as int].path,
                    ) == FileRole::Ephemeral);
                    return true;
                }
            }
        }
        j = j + 1;
    }
    false
}

/// Builds the manifest of one base tree from a completed walk.
///
/// Every entry is classified in scan order; descendants of ephemeral
/// directories are left out; every kept immutable data file must come
/// with its contents, which are checksummed, or the whole scan fails and
/// nothing is produced.
pub fn scan_and_build_manifest(
    tree: &Vec<ScanEntry>,
    profile: &Profile,
    base_path: &str,
    created_at: &str,
) -> (r: Result<BaseManifest, ScanError>)
    requires
        forall|i: int, j: int|
            0 <= i < j < scan_models(tree@).len() ==> scan_models(tree@)[i].path != scan_models(
                tree@,
            )[j].path,
    ensures
        match r {
            Ok(m) => {
                &&& m.profile@ == profile.name@
                &&& m.base_path@ == base_path@
                &&& m.created_at@ == created_at@
                &&& match m.version {
                    Some(v) => v@ == profile.version@,
                    None => false,
                }
                &&& m.role_models() == scan_roles_upto(
                    scan_models(tree@),
                    profile.rule_models(),
                    tree@.len() as int,
                )
                &&& m.checksum_models() == scan_checksums_upto(
                    scan_models(tree@),
                    profile.rule_models(),
                    tree@.len() as int,
                )
                &&& first_unreadable_from(scan_models(tree@), profile.rule_models(), 0)
                    == None::<Seq<char>>
                &&& m.wf()
            },
            Err(e) => first_unreadable_from(scan_models(tree@), profile.rule_models(), 0) == Some(
                e.path@,
            ),
        },
{
    let ghost all = scan_models(tree@);
    let ghost rules = profile.rule_models();
    let n = tree.len();
    let mut roles_vec: Vec<RoleEntry> = Vec::new();
    let mut sums: Vec<ChecksumEntry> = Vec::new();
    let mut i: usize = 0;
    proof {
        assert(roles_vec@.map_values(|e: RoleEntry| e@) =~= scan_roles_upto(all, rules, 0));
        assert(sums@.map_values(|e: ChecksumEntry| e@) =~= scan_checksums_upto(all, rules, 0));
    }
    while i < n
        invariant
            n == tree.len(),
            i <= n,
            all == scan_models(tree@),
            rules == profile.rule_models(),
            forall|i2: int, j2: int| 0 <= i2 < j2 < all.len() ==> all[i2].path != all[j2].path,
            roles_vec@.map_values(|e: RoleEntry| e@) == scan_roles_upto(all, rules, i as int),
            sums@.map_values(|e: ChecksumEntry| e@) == scan_checksums_upto(all, rules, i as int),
            first_unreadable_from(all, rules, 0) == first_unreadable_from(all, rules, i as int),
        decreases n - i,
    {
        let skipped = entry_skipped(tree, profile, tree[i].path.as_str());
        let ghost e_model = all[i as int];
        if !skipped {
            let role = profile.classify_path(tree[i].path.as_str());
            roles_vec.push(RoleEntry { path: tree[i].path.clone(), role });
            let is_file = match tree[i].kind {
                FsKind::File => true,
                FsKind::Dir => false,
            };
            if role == FileRole::BaseData && is_file {
                let entry = &tree[i];
                match &entry.data {
                    Some(d) => {
                        let h = crc32_hex(d);
                        sums.push(ChecksumEntry { path: entry.path.clone(), checksum: h });
                    },
                    None => {
                        proof {
                            assert(first_unreadable_from(all, rules, i as int) == Some(
                                e_model.path,
                            ));
                        }
                        return Err(ScanError { path: entry.path.clone() });
                    },
                }
            }
        }
        proof {
            assert(roles_vec@.map_values(|e: RoleEntry| e@) =~= scan_roles_upto(
                all,
                rules,
                i as int + 1,
            ));
            assert(sums@.map_values(|e: ChecksumEntry| e@) =~= scan_checksums_upto(
                all,
                rules,
                i as int + 1,
            ));
            assert(first_unreadable_from(all, rules, i as int) == first_unreadable_from(
                all,
                rules,
                i as int + 1,
            ));
        }
        i = i + 1;
    }
    let m = BaseManifest {
        profile: profile.name.clone(),
        base_path: base_path.to_owned(),
        created_at: created_at.to_owned(),
        file_roles: roles_vec,
        checksums: sums,
        version: Some(profile.version.clone()),
    };
    proof {
        lemma_scan_wf(all, rules, n as int);
    }
    Ok(m)
}

} // verus!
