//! Role classification of base-tree paths.
//!
//! A profile carries an ordered list of rules, each a literal path or a
//! regular-expression pattern together with a role. Classification walks
//! the list in declared order and the first matching rule wins; a path no
//! rule matches is `Other`.

use vstd::prelude::*;

use crate::fstree::{kind_in, FsKind, TreeEntryModel, TreeView};
use crate::path_util::is_dir_prefix;
use crate::sharing::SharingStrategy;

verus! {

/// The role a path plays in a base tree.
#[derive(Clone, Copy, Debug, PartialEq, Eq, Structural)]
pub enum FileRole {
    /// The main executable.
    Executable,
    /// Immutable base data; deduplicated by hard link and checksummed.
    BaseData,
    /// Data expected to change; copied per workspace.
    MutableData,
    /// User-created media; a sharing candidate.
    UserMedia,
    /// User configuration; a sharing candidate.
    UserConfig,
    /// Disposable caches and logs; recreated empty, never copied.
    Ephemeral,
    /// Everything else; copied per workspace.
    Other,
}

/// The role-specific default strategy a sharing candidate falls back to
/// when no rule key matches it.
pub open spec fn spec_default_strategy(role: FileRole) -> SharingStrategy {
    match role {
        FileRole::UserMedia => SharingStrategy::Global,
        _ => SharingStrategy::Workspace,
    }
}

pub fn default_strategy(role: FileRole) -> (r: SharingStrategy)
    ensures
        r == spec_default_strategy(role),
{
    match role {
        FileRole::UserMedia => SharingStrategy::Global,
        _ => SharingStrategy::Workspace,
    }
}

/// One classification rule: a literal path or a regular-expression
/// pattern, and the role it assigns.
#[derive(Clone, Debug)]
pub struct RoleRule {
    pub pattern: String,
    pub role: FileRole,
    pub is_regex: bool,
}

/// Mathematical model of a [`RoleRule`].
#[verifier::ext_equal]
pub struct RoleRuleModel {
    pub pattern: Seq<char>,
    pub role: FileRole,
    pub is_regex: bool,
}

impl View for RoleRule {
    type V = RoleRuleModel;

    open spec fn view(&self) -> RoleRuleModel {
        RoleRuleModel { pattern: self.pattern@, role: self.role, is_regex: self.is_regex }
    }
}

/// An advisory rule: a path whose presence under the base deserves a
/// human-readable warning; never fatal.
#[derive(Clone, Debug)]
pub struct WarningRule {
    pub pattern: String,
    pub message: String,
}

/// Mathematical model of a [`WarningRule`].
#[verifier::ext_equal]
pub struct WarningRuleModel {
    pub pattern: Seq<char>,
    pub message: Seq<char>,
}

impl View for WarningRule {
    type V = WarningRuleModel;

    open spec fn view(&self) -> WarningRuleModel {
        WarningRuleModel { pattern: self.pattern@, message: self.message@ }
    }
}

/// Whether the pattern `pattern` compiles as a regular expression and
/// matches somewhere inside `text`. Both are functions of the two
/// strings alone, which is all this name asserts.
pub uninterp spec fn regex_match_of(pattern: Seq<char>, text: Seq<char>) -> bool;

/// Relies on `regex::Regex::new` and `regex::Regex::is_match`: compiling
/// a pattern and matching it anywhere in a haystack are deterministic in
/// the two strings. A pattern that does not compile matches nothing,
/// mirroring how classification skips uncompilable rules.
#[verifier::external_body]
fn regex_is_match(pattern: &str, text: &str) -> (r: bool)
    ensures
        r == regex_match_of(pattern@, text@),
{
    match regex::Regex::new(pattern) {
        Ok(re) => re.is_match(text),
        Err(_) => false,
    }
}

/// Whether one rule matches a path: a regex rule matches wherever its
/// pattern matches inside the path (patterns must anchor themselves); a
/// literal rule matches the exact path or anything below it.
pub open spec fn rule_matches(r: RoleRuleModel, p: Seq<char>) -> bool {
    if r.is_regex {
        regex_match_of(r.pattern, p)
    } else {
        is_dir_prefix(r.pattern, p)
    }
}

/// First-match classification: the role of the first rule in declared
/// order that matches `p`, or `Other` if none does.
pub open spec fn spec_classify(rules: Seq<RoleRuleModel>, p: Seq<char>) -> FileRole
    decreases rules.len(),
{
    if rules.len() == 0 {
        FileRole::Other
    } else if rule_matches(rules[0], p) {
        rules[0].role
    } else {
        spec_classify(rules.skip(1), p)
    }
}

/// Classification returns the role of the first matching rule: it is a
/// deterministic function of the rule list and the path, and never
/// depends on later rules once one has matched.
pub proof fn lemma_classify_first_match(rules: Seq<RoleRuleModel>, p: Seq<char>, i: int)
    requires
        0 <= i < rules.len(),
        rule_matches(rules[i], p),
        forall|j: int| 0 <= j < i ==> !rule_matches(rules[j], p),
    ensures
        spec_classify(rules, p) == rules[i].role,
    decreases i,
{
    if i > 0 {
        assert(rules.skip(1)[i - 1] == rules[i]);
        lemma_classify_first_match(rules.skip(1), p, i - 1);
    }
}

/// A path no rule matches is classified `Other`.
pub proof fn lemma_classify_no_match(rules: Seq<RoleRuleModel>, p: Seq<char>)
    requires
        forall|j: int| 0 <= j < rules.len() ==> !rule_matches(rules[j], p),
    ensures
        spec_classify(rules, p) == FileRole::Other,
    decreases rules.len(),
{
    if rules.len() > 0 {
        lemma_classify_no_match(rules.skip(1), p);
    }
}

/// The message of every advisory rule whose trigger path exists in the
/// tree, in declared order.
pub open spec fn spec_warnings(ws: Seq<WarningRuleModel>, tree: Seq<TreeEntryModel>) -> Seq<
    Seq<char>,
>
    decreases ws.len(),
{
    if ws.len() == 0 {
        Seq::empty()
    } else {
        spec_warnings(ws.drop_last(), tree) + (if kind_in(tree, ws.last().pattern) is Some {
            seq![ws.last().message]
        } else {
            Seq::empty()
        })
    }
}

/// The first required file that is absent or not a plain file.
pub open spec fn spec_first_missing_file(files: Seq<Seq<char>>, tree: Seq<TreeEntryModel>) -> Option<
    Seq<char>,
>
    decreases files.len(),
{
    if files.len() == 0 {
        None
    } else if kind_in(tree, files[0]) != Some(FsKind::File) {
        Some(files[0])
    } else {
        spec_first_missing_file(files.skip(1), tree)
    }
}

/// The first required directory that is absent or not a directory.
pub open spec fn spec_first_missing_dir(dirs: Seq<Seq<char>>, tree: Seq<TreeEntryModel>) -> Option<
    Seq<char>,
>
    decreases dirs.len(),
{
    if dirs.len() == 0 {
        None
    } else if kind_in(tree, dirs[0]) != Some(FsKind::Dir) {
        Some(dirs[0])
    } else {
        spec_first_missing_dir(dirs.skip(1), tree)
    }
}

/// A profile requirement that the base tree does not meet.
#[derive(Clone, Debug, PartialEq, Eq)]
pub enum RequirementError {
    MissingFile(String),
    MissingDir(String),
}

/// Mathematical model of a [`RequirementError`].
#[verifier::ext_equal]
pub enum RequirementErrorModel {
    MissingFile(Seq<char>),
    MissingDir(Seq<char>),
}

impl View for RequirementError {
    type V = RequirementErrorModel;

    open spec fn view(&self) -> RequirementErrorModel {
        match self {
            RequirementError::MissingFile(p) => RequirementErrorModel::MissingFile(p@),
            RequirementError::MissingDir(p) => RequirementErrorModel::MissingDir(p@),
        }
    }
}

/// A named rule set for one kind of base installation.
#[derive(Clone, Debug)]
pub struct Profile {
    pub name: String,
    pub version: String,
    pub required_files: Vec<String>,
    pub required_dirs: Vec<String>,
    pub role_rules: Vec<RoleRule>,
    pub warnings: Vec<WarningRule>,
}

impl Profile {
    pub open spec fn rule_models(self) -> Seq<RoleRuleModel> {
        self.role_rules@.map_values(|r: RoleRule| r@)
    }

    pub open spec fn warning_models(self) -> Seq<WarningRuleModel> {
        self.warnings@.map_values(|w: WarningRule| w@)
    }

    pub open spec fn req_file_views(self) -> Seq<Seq<char>> {
        self.required_files@.map_values(|s: String| s@)
    }

    pub open spec fn req_dir_views(self) -> Seq<Seq<char>> {
        self.required_dirs@.map_values(|s: String| s@)
    }

    /// The built-in profile for the 3.3.5a client.
    pub fn chromie_335a() -> (r: Profile)
        ensures
            chromie_profile_ok(r),
    {
        let mut required_files: Vec<String> = Vec::new();
        required_files.push(String::from_str("Wow.exe"));
        required_files.push(String::from_str("Data/common.MPQ"));
        required_files.push(String::from_str("Data/patch.MPQ"));
        required_files.push(String::from_str("Data/lichking.MPQ"));
        let mut required_dirs: Vec<String> = Vec::new();
        required_dirs.push(String::from_str("Data"));
        let mut role_rules: Vec<RoleRule> = Vec::new();
        role_rules.push(
            RoleRule {
                pattern: String::from_str("Wow.exe"),
                role: FileRole::Executable,
                is_regex: false,
            },
        );
        role_rules.push(
            RoleRule {
                pattern: String::from_str("^Data/common.*\\.MPQ$"),
                role: FileRole::BaseData,
                is_regex: true,
            },
        );
        role_rules.push(
            RoleRule {
                pattern: String::from_str("^Data/expansion.*\\.MPQ$"),
                role: FileRole::BaseData,
                is_regex: true,
            },
        );
        role_rules.push(
            RoleRule {
                pattern: String::from_str("^Data/lichking.*\\.MPQ$"),
                role: FileRole::BaseData,
                is_regex: true,
            },
        );
        role_rules.push(
            RoleRule {
                pattern: String::from_str("^Data/patch.*\\.MPQ$"),
                role: FileRole::MutableData,
                is_regex: true,
            },
        );
        role_rules.push(
            RoleRule {
                pattern: String::from_str("^Screenshots($|/)"),
                role: FileRole::UserMedia,
                is_regex: true,
            },
        );
        role_rules.push(
            RoleRule {
                pattern: String::from_str("^WTF($|/)"),
                role: FileRole::UserConfig,
                is_regex: true,
            },
        );
        role_rules.push(
            RoleRule {
                pattern: String::from_str("^Interface($|/)"),
                role: FileRole::UserConfig,
                is_regex: true,
            },
        );
        role_rules.push(
            RoleRule {
                pattern: String::from_str("^Cache($|/)"),
                role: FileRole::Ephemeral,
                is_regex: true,
            },
        );
        role_rules.push(
            RoleRule {
                pattern: String::from_str("^Logs($|/)"),
                role: FileRole::Ephemeral,
                is_regex: true,
            },
        );
        role_rules.push(
            RoleRule {
                pattern: String::from_str("^Errors($|/)"),
                role: FileRole::Ephemeral,
                is_regex: true,
            },
        );
        let mut warnings: Vec<WarningRule> = Vec::new();
        warnings.push(
            WarningRule {
                pattern: String::from_str("Cache"),
                message: String::from_str("Cache directory present in base - should be ephemeral"),
            },
        );
        warnings.push(
            WarningRule {
                pattern: String::from_str("Logs"),
                message: String::from_str("Logs directory present in base - should be ephemeral"),
            },
        );
        warnings.push(
            WarningRule {
                pattern: String::from_str("Errors"),
                message: String::from_str("Errors directory present in base - should be ephemeral"),
            },
        );
        Profile {
            name: String::from_str("chromie-3.3.5a"),
            version: String::from_str("3.3.5a"),
            required_files,
            required_dirs,
            role_rules,
            warnings,
        }
    }

    /// The built-in profile for the 1.12 client.
    pub fn vanilla_112() -> (r: Profile)
        ensures
            vanilla_profile_ok(r),
    {
        let mut required_files: Vec<String> = Vec::new();
        required_files.push(String::from_str("WoW.exe"));
        required_files.push(String::from_str("realmlist.wtf"));
        let mut required_dirs: Vec<String> = Vec::new();
        required_dirs.push(String::from_str("Data"));
        required_dirs.push(String::from_str("WTF"));
        required_dirs.push(String::from_str("Interface"));
        let mut role_rules: Vec<RoleRule> = Vec::new();
        role_rules.push(
            RoleRule {
                pattern: String::from_str("WoW.exe"),
                role: FileRole::Executable,
                is_regex: false,
            },
        );
        role_rules.push(
            RoleRule {
                pattern: String::from_str("^Data/.*\\.MPQ$"),
                role: FileRole::BaseData,
                is_regex: true,
            },
        );
        role_rules.push(
            RoleRule {
                pattern: String::from_str("^Data/patch.*\\.MPQ$"),
                role: FileRole::MutableData,
                is_regex: true,
            },
        );
        role_rules.push(
            RoleRule {
                pattern: String::from_str("^Screenshots($|/)"),
                role: FileRole::UserMedia,
                is_regex: true,
            },
        );
        role_rules.push(
            RoleRule {
                pattern: String::from_str("^WTF($|/)"),
                role: FileRole::UserConfig,
                is_regex: true,
            },
        );
        role_rules.push(
            RoleRule {
                pattern: String::from_str("^Interface($|/)"),
                role: FileRole::UserConfig,
                is_regex: true,
            },
        );
        role_rules.push(
            RoleRule {
                pattern: String::from_str("^Logs($|/)"),
                role: FileRole::Ephemeral,
                is_regex: true,
            },
        );
        role_rules.push(
            RoleRule {
                pattern: String::from_str("^Errors($|/)"),
                role: FileRole::Ephemeral,
                is_regex: true,
            },
        );
        role_rules.push(
            RoleRule {
                pattern: String::from_str("^WDB($|/)"),
                role: FileRole::Ephemeral,
                is_regex: true,
            },
        );
        let mut warnings: Vec<WarningRule> = Vec::new();
        warnings.push(
            WarningRule {
                pattern: String::from_str("Logs"),
                message: String::from_str("Logs directory present in base - should be ephemeral"),
            },
        );
        warnings.push(
            WarningRule {
                pattern: String::from_str("Errors"),
                message: String::from_str("Errors directory present in base - should be ephemeral"),
            },
        );
        Profile {
            name: String::from_str("vanilla-1.12"),
            version: String::from_str("1.12"),
            required_files,
            required_dirs,
            role_rules,
            warnings,
        }
    }

    /// Classifies one relative path by this profile's rules, first match
    /// winning.
    pub fn classify_path(&self, rel_path: &str) -> (r: FileRole)
        ensures
            r == spec_classify(self.rule_models(), rel_path@),
    {
        proof {
            assert(self.rule_models().skip(0) =~= self.rule_models());
        }
        let n = self.role_rules.len();
        let mut i: usize = 0;
        while i < n
            invariant
                n == self.role_rules.len(),
                i <= n,
                spec_classify(self.rule_models(), rel_path@) == spec_classify(
                    self.rule_models().skip(i as int),
                    rel_path@,
                ),
            decreases n - i,
        {
            proof {
                assert(self.rule_models().skip(i as int)[0] == self.rule_models()[i as int]);
                assert(self.rule_models().skip(i as int).skip(1) =~= self.rule_models().skip(
                    i as int + 1,
                ));
            }
            let rule = &self.role_rules[i];
            let matched = if rule.is_regex {
                regex_is_match(rule.pattern.as_str(), rel_path)
            } else {
                crate::path_util::dir_prefix_check(rule.pattern.as_str(), rel_path)
            };
            if matched {
                return rule.role;
            }
            i = i + 1;
        }
        FileRole::Other
    }

    /// Checks the profile's required files and directories against a
    /// snapshot of the base tree, reporting the first requirement the
    /// tree misses.
    pub fn verify_requirements(&self, tree: &TreeView) -> (r: Result<(), RequirementError>)
        ensures
            match r {
                Ok(()) => spec_first_missing_file(self.req_file_views(), tree.models())
                    == None::<Seq<char>> && spec_first_missing_dir(
                    self.req_dir_views(),
                    tree.models(),
                ) == None::<Seq<char>>,
                Err(e) => match e@ {
                    RequirementErrorModel::MissingFile(f) => spec_first_missing_file(
                        self.req_file_views(),
                        tree.models(),
                    ) == Some(f),
                    RequirementErrorModel::MissingDir(d) => spec_first_missing_file(
                        self.req_file_views(),
                        tree.models(),
                    ) == None::<Seq<char>> && spec_first_missing_dir(
                        self.req_dir_views(),
                        tree.models(),
                    ) == Some(d),
                },
            },
    {
        proof {
            assert(self.req_file_views().skip(0) =~= self.req_file_views());
        }
        let nf = self.required_files.len();
        let mut i: usize = 0;
        while i < nf
            invariant
                nf == self.required_files.len(),
                i <= nf,
                spec_first_missing_file(self.req_file_views(), tree.models())
                    == spec_first_missing_file(
                    self.req_file_views().skip(i as int),
                    tree.models(),
                ),
            decreases nf - i,
        {
            proof {
                assert(self.req_file_views().skip(i as int)[0] == self.req_file_views()[i as int]);
                assert(self.req_file_views().skip(i as int).skip(1) =~= self.req_file_views().skip(
                    i as int + 1,
                ));
            }
            let is_file = match tree.kind_of(self.required_files[i].as_str()) {
                Some(FsKind::File) => true,
                _ => false,
            };
            if !is_file {
                return Err(RequirementError::MissingFile(self.required_files[i].clone()));
            }
            i = i + 1;
        }
        proof {
            assert(self.req_dir_views().skip(0) =~= self.req_dir_views());
        }
        let nd = self.required_dirs.len();
        let mut j: usize = 0;
        while j < nd
            invariant
                nd == self.required_dirs.len(),
                j <= nd,
                spec_first_missing_file(self.req_file_views(), tree.models()) == None::<Seq<char>>,
                spec_first_missing_dir(self.req_dir_views(), tree.models())
                    == spec_first_missing_dir(self.req_dir_views().skip(j as int), tree.models()),
            decreases nd - j,
        {
            proof {
                assert(self.req_dir_views().skip(j as int)[0] == self.req_dir_views()[j as int]);
                assert(self.req_dir_views().skip(j as int).skip(1) =~= self.req_dir_views().skip(
                    j as int + 1,
                ));
            }
            let is_dir = match tree.kind_of(self.required_dirs[j].as_str()) {
                Some(FsKind::Dir) => true,
                _ => false,
            };
            if !is_dir {
                return Err(RequirementError::MissingDir(self.required_dirs[j].clone()));
            }
            j = j + 1;
        }
        Ok(())
    }

    /// Collects the advisory messages whose trigger paths exist in the
    /// base tree; never fails.
    pub fn check_warnings(&self, tree: &TreeView) -> (r: Vec<String>)
        ensures
            r@.map_values(|s: String| s@) == spec_warnings(self.warning_models(), tree.models()),
    {
        let n = self.warnings.len();
        let mut out: Vec<String> = Vec::new();
        let mut i: usize = 0;
        proof {
            assert(self.warning_models().take(0) =~= Seq::<WarningRuleModel>::empty());
            assert(out@.map_values(|s: String| s@) =~= spec_warnings(
                self.warning_models().take(0),
                tree.models(),
            ));
        }
        while i < n
            invariant
                n == self.warnings.len(),
                i <= n,
                out@.map_values(|s: String| s@) == spec_warnings(
                    self.warning_models().take(i as int),
                    tree.models(),
                ),
            decreases n - i,
        {
            proof {
                assert(self.warning_models().take(i as int + 1).drop_last()
                    =~= self.warning_models().take(i as int));
                assert(self.warning_models().take(i as int + 1).last()
                    == self.warning_models()[i as int]);
            }
            let present = match tree.kind_of(self.warnings[i].pattern.as_str()) {
                Some(_) => true,
                None => false,
            };
            if present {
                out.push(self.warnings[i].message.clone());
            }
            proof {
                assert(out@.map_values(|s: String| s@) =~= spec_warnings(
                    self.warning_models().take(i as int + 1),
                    tree.models(),
                ));
            }
            i = i + 1;
        }
        proof {
            assert(self.warning_models().take(n as int) =~= self.warning_models());
        }
        out
    }
}

/// The full contents of the built-in profile for the 3.3.5a client.
pub open spec fn chromie_profile_ok(p: Profile) -> bool {
    &&& p.name@ == "chromie-3.3.5a"@
    &&& p.version@ == "3.3.5a"@
    &&& p.req_file_views() =~= seq![
        "Wow.exe"@,
        "Data/common.MPQ"@,
        "Data/patch.MPQ"@,
        "Data/lichking.MPQ"@,
    ]
    &&& p.req_dir_views() =~= seq!["Data"@]
    &&& p.rule_models() =~= seq![
        RoleRuleModel { pattern: "Wow.exe"@, role: FileRole::Executable, is_regex: false },
        RoleRuleModel {
            pattern: "^Data/common.*\\.MPQ$"@,
            role: FileRole::BaseData,
            is_regex: true,
        },
        RoleRuleModel {
            pattern: "^Data/expansion.*\\.MPQ$"@,
            role: FileRole::BaseData,
            is_regex: true,
        },
        RoleRuleModel {
            pattern: "^Data/lichking.*\\.MPQ$"@,
            role: FileRole::BaseData,
            is_regex: true,
        },
        RoleRuleModel {
            pattern: "^Data/patch.*\\.MPQ$"@,
            role: FileRole::MutableData,
            is_regex: true,
        },
        RoleRuleModel { pattern: "^Screenshots($|/)"@, role: FileRole::UserMedia, is_regex: true },
        RoleRuleModel { pattern: "^WTF($|/)"@, role: FileRole::UserConfig, is_regex: true },
        RoleRuleModel { pattern: "^Interface($|/)"@, role: FileRole::UserConfig, is_regex: true },
        RoleRuleModel { pattern: "^Cache($|/)"@, role: FileRole::Ephemeral, is_regex: true },
        RoleRuleModel { pattern: "^Logs($|/)"@, role: FileRole::Ephemeral, is_regex: true },
        RoleRuleModel { pattern: "^Errors($|/)"@, role: FileRole::Ephemeral, is_regex: true },
    ]
    &&& p.warning_models() =~= seq![
        WarningRuleModel {
            pattern: "Cache"@,
            message: "Cache directory present in base - should be ephemeral"@,
        },
        WarningRuleModel {
            pattern: "Logs"@,
            message: "Logs directory present in base - should be ephemeral"@,
        },
        WarningRuleModel {
            pattern: "Errors"@,
            message: "Errors directory present in base - should be ephemeral"@,
        },
    ]
}

/// The full contents of the built-in profile for the 1.12 client.
pub open spec fn vanilla_profile_ok(p: Profile) -> bool {
    &&& p.name@ == "vanilla-1.12"@
    &&& p.version@ == "1.12"@
    &&& p.req_file_views() =~= seq!["WoW.exe"@, "realmlist.wtf"@]
    &&& p.req_dir_views() =~= seq!["Data"@, "WTF"@, "Interface"@]
    &&& p.rule_models() =~= seq![
        RoleRuleModel { pattern: "WoW.exe"@, role: FileRole::Executable, is_regex: false },
        RoleRuleModel { pattern: "^Data/.*\\.MPQ$"@, role: FileRole::BaseData, is_regex: true },
        RoleRuleModel {
            pattern: "^Data/patch.*\\.MPQ$"@,
            role: FileRole::MutableData,
            is_regex: true,
        },
        RoleRuleModel { pattern: "^Screenshots($|/)"@, role: FileRole::UserMedia, is_regex: true },
        RoleRuleModel { pattern: "^WTF($|/)"@, role: FileRole::UserConfig, is_regex: true },
        RoleRuleModel { pattern: "^Interface($|/)"@, role: FileRole::UserConfig, is_regex: true },
        RoleRuleModel { pattern: "^Logs($|/)"@, role: FileRole::Ephemeral, is_regex: true },
        RoleRuleModel { pattern: "^Errors($|/)"@, role: FileRole::Ephemeral, is_regex: true },
        RoleRuleModel { pattern: "^WDB($|/)"@, role: FileRole::Ephemeral, is_regex: true },
    ]
    &&& p.warning_models() =~= seq![
        WarningRuleModel {
            pattern: "Logs"@,
            message: "Logs directory present in base - should be ephemeral"@,
        },
        WarningRuleModel {
            pattern: "Errors"@,
            message: "Errors directory present in base - should be ephemeral"@,
        },
    ]
}

/// The accepted spellings of the 3.3.5a profile's name.
pub open spec fn chromie_alias(n: Seq<char>) -> bool {
    n == "chromie-3.3.5a"@ || n == "3.3.5a"@ || n == "335"@ || n == "335a"@
}

/// The accepted spellings of the 1.12 profile's name.
pub open spec fn vanilla_alias(n: Seq<char>) -> bool {
    n == "vanilla-1.12"@ || n == "1.12"@ || n == "112"@
}

/// Looks a built-in profile up by any of its accepted names.
pub fn profile_named(name: &str) -> (r: Option<Profile>)
    ensures
        match r {
            Some(p) => (chromie_alias(name@) && chromie_profile_ok(p)) || (!chromie_alias(name@)
                && vanilla_alias(name@) && vanilla_profile_ok(p)),
            None => !chromie_alias(name@) && !vanilla_alias(name@),
        },
{
    if crate::path_util::str_eq(name, "chromie-3.3.5a") || crate::path_util::str_eq(name, "3.3.5a")
        || crate::path_util::str_eq(name, "335") || crate::path_util::str_eq(name, "335a") {
        return Some(Profile::chromie_335a());
    }
    if crate::path_util::str_eq(name, "vanilla-1.12") || crate::path_util::str_eq(name, "1.12")
        || crate::path_util::str_eq(name, "112") {
        return Some(Profile::vanilla_112());
    }
    None
}

} // verus!
