//! Sharing policies: which paths of a workspace are deduplicated, and at
//! which scope.
//!
//! A rule map binds free-form keys to strategies. A key matches a path
//! if, after ASCII lower-casing both, the path equals the key, lies below
//! it, or has a single component equal to it. The map is kept as an
//! ordered list with unique keys, and the first matching rule in list
//! order wins: this replaces the unordered tie-breaking a hash map would
//! give with an explicit, deterministic one.

use vstd::prelude::*;

use crate::path_util::{has_norm_component, norm_dir_prefix};

verus! {

/// How one shared path is deduplicated.
#[derive(Clone, Copy, Debug, PartialEq, Eq, Structural)]
pub enum SharingStrategy {
    /// One shared instance across all bases and workspaces.
    Global,
    /// One shared instance per base.
    Base,
    /// Private to each workspace.
    Workspace,
}

/// One rule: a key matched against normalized relative paths, and the
/// strategy it selects.
#[derive(Clone, Debug)]
pub struct SharingRule {
    pub key: String,
    pub strategy: SharingStrategy,
}

/// Mathematical model of a [`SharingRule`].
#[verifier::ext_equal]
pub struct SharingRuleModel {
    pub key: Seq<char>,
    pub strategy: SharingStrategy,
}

impl View for SharingRule {
    type V = SharingRuleModel;

    open spec fn view(&self) -> SharingRuleModel {
        SharingRuleModel { key: self.key@, strategy: self.strategy }
    }
}

/// Whether rule key `k` matches path `p` (both taken case-insensitively):
/// `p` is `k`, lies below `k`, or has a component equal to `k`.
pub open spec fn key_matches(p: Seq<char>, k: Seq<char>) -> bool {
    norm_dir_prefix(k, p) || has_norm_component(p, k)
}

/// The strategy of the first rule in list order whose key matches `p`,
/// or `default` if none matches.
pub open spec fn spec_determine(
    rules: Seq<SharingRuleModel>,
    p: Seq<char>,
    default: SharingStrategy,
) -> SharingStrategy
    decreases rules.len(),
{
    if rules.len() == 0 {
        default
    } else if key_matches(p, rules[0].key) {
        rules[0].strategy
    } else {
        spec_determine(rules.skip(1), p, default)
    }
}

/// The strategy bound to exact key `k`, if any.
pub open spec fn spec_rule_for(rules: Seq<SharingRuleModel>, k: Seq<char>) -> Option<
    SharingStrategy,
>
    decreases rules.len(),
{
    if rules.len() == 0 {
        None
    } else if rules[0].key == k {
        Some(rules[0].strategy)
    } else {
        spec_rule_for(rules.skip(1), k)
    }
}

/// An ordered rule map with unique keys.
#[derive(Clone, Debug)]
pub struct SharingRules {
    pub rules: Vec<SharingRule>,
}

impl SharingRules {
    pub open spec fn models(self) -> Seq<SharingRuleModel> {
        self.rules@.map_values(|r: SharingRule| r@)
    }

    pub open spec fn wf(self) -> bool {
        forall|i: int, j: int|
            0 <= i < j < self.models().len() ==> self.models()[i].key != self.models()[j].key
    }

    /// An empty rule map.
    pub fn new() -> (r: SharingRules)
        ensures
            r.models() =~= Seq::<SharingRuleModel>::empty(),
            r.wf(),
    {
        SharingRules { rules: Vec::new() }
    }

    /// The strategy bound to exact key `k`, if any.
    pub fn get(&self, k: &str) -> (r: Option<SharingStrategy>)
        ensures
            r == spec_rule_for(self.models(), k@),
    {
        proof {
            assert(self.models().skip(0) =~= self.models());
        }
        let n = self.rules.len();
        let mut i: usize = 0;
        while i < n
            invariant
                n == self.rules.len(),
                i <= n,
                spec_rule_for(self.models(), k@) == spec_rule_for(
                    self.models().skip(i as int),
                    k@,
                ),
            decreases n - i,
        {
            proof {
                assert(self.models().skip(i as int)[0] == self.models()[i as int]);
                assert(self.models().skip(i as int).skip(1) =~= self.models().skip(i as int + 1));
            }
            if crate::path_util::str_eq(self.rules[i].key.as_str(), k) {
                return Some(self.rules[i].strategy);
            }
            i = i + 1;
        }
        None
    }

    /// The index of the rule bound to exact key `k`, if any.
    fn find_key(&self, k: &str) -> (r: Option<usize>)
        ensures
            match r {
                Some(i) => i < self.models().len() && self.models()[i as int].key == k@ && forall|
                    j: int,
                |
                    0 <= j < i ==> self.models()[j].key != k@,
                None => forall|j: int| 0 <= j < self.models().len() ==> self.models()[j].key != k@,
            },
    {
        let n = self.rules.len();
        let mut i: usize = 0;
        while i < n
            invariant
                n == self.rules.len(),
                i <= n,
                forall|j: int| 0 <= j < i ==> self.models()[j].key != k@,
            decreases n - i,
        {
            if crate::path_util::str_eq(self.rules[i].key.as_str(), k) {
                return Some(i);
            }
            i = i + 1;
        }
        None
    }

    /// Binds `key` to `strategy`, replacing in place any rule already
    /// bound to the same key.
    pub fn insert(&mut self, key: String, strategy: SharingStrategy)
        requires
            old(self).wf(),
        ensures
            final(self).wf(),
            spec_rule_for(final(self).models(), key@) == Some(strategy),
            forall|k: Seq<char>|
                k != key@ ==> #[trigger] spec_rule_for(final(self).models(), k) == spec_rule_for(
                    old(self).models(),
                    k,
                ),
            final(self).models().len() <= old(self).models().len() + 1,
    {
        let ghost pre = self.models();
        match self.find_key(key.as_str()) {
            Some(i) => {
                self.rules[i] = SharingRule { key, strategy };
                proof {
                    assert(self.models()[i as int].key == pre[i as int].key);
                    assert(forall|j: int|
                        0 <= j < pre.len() && j != i ==> self.models()[j] == pre[j]);
                    lemma_rule_for_update(pre, self.models(), i as int, strategy);
                    assert forall|i2: int, j2: int|
                        0 <= i2 < j2 < self.models().len() implies self.models()[i2].key
                        != self.models()[j2].key by {
                        assert(pre[i2].key != pre[j2].key);
                    }
                }
            },
            None => {
                self.rules.push(SharingRule { key, strategy });
                proof {
                    assert(self.models() =~= pre.push(SharingRuleModel { key: key@, strategy }));
                    lemma_rule_for_push(pre, key@, strategy);
                    assert forall|i2: int, j2: int|
                        0 <= i2 < j2 < self.models().len() implies self.models()[i2].key
                        != self.models()[j2].key by {
                        if j2 < pre.len() {
                            assert(pre[i2].key != pre[j2].key);
                        } else {
                            assert(pre[i2].key != key@);
                        }
                    }
                }
            },
        }
    }
}

/// Replacing the rule at `i` with the same key changes only that binding.
proof fn lemma_rule_for_update(
    pre: Seq<SharingRuleModel>,
    post: Seq<SharingRuleModel>,
    i: int,
    strategy: SharingStrategy,
)
    requires
        0 <= i < pre.len(),
        post.len() == pre.len(),
        post[i].key == pre[i].key,
        post[i].strategy == strategy,
        forall|j: int| 0 <= j < pre.len() && j != i ==> post[j] == pre[j],
        forall|j: int| 0 <= j < i ==> pre[j].key != pre[i].key,
    ensures
        spec_rule_for(post, pre[i].key) == Some(strategy),
        forall|k: Seq<char>|
            k != pre[i].key ==> #[trigger] spec_rule_for(post, k) == spec_rule_for(pre, k),
    decreases pre.len(),
{
    if pre.len() > 0 {
        if i == 0 {
            assert forall|k: Seq<char>| k != pre[0].key implies #[trigger] spec_rule_for(post, k)
                == spec_rule_for(pre, k) by {
                assert(post.skip(1) =~= pre.skip(1));
            }
        } else {
            assert(forall|j: int|
                0 <= j < pre.skip(1).len() && j != i - 1 ==> post.skip(1)[j] == pre.skip(1)[j]);
            assert(post.skip(1)[i - 1] == post[i]);
            assert(pre.skip(1)[i - 1] == pre[i]);
            lemma_rule_for_update(pre.skip(1), post.skip(1), i - 1, strategy);
            assert(post[0] == pre[0]);
            assert(pre[0].key != pre[i].key);
            assert forall|k: Seq<char>| k != pre[i].key implies #[trigger] spec_rule_for(post, k)
                == spec_rule_for(pre, k) by {
                if k != pre[0].key {
                    assert(spec_rule_for(post, k) == spec_rule_for(post.skip(1), k));
                    assert(spec_rule_for(pre, k) == spec_rule_for(pre.skip(1), k));
                }
            }
        }
    }
}

/// Appending a fresh key adds exactly one binding.
proof fn lemma_rule_for_push(pre: Seq<SharingRuleModel>, key: Seq<char>, strategy: SharingStrategy)
    requires
        forall|j: int| 0 <= j < pre.len() ==> pre[j].key != key,
    ensures
        spec_rule_for(pre.push(SharingRuleModel { key, strategy }), key) == Some(strategy),
        forall|k: Seq<char>|
            k != key ==> #[trigger] spec_rule_for(pre.push(SharingRuleModel { key, strategy }), k)
                == spec_rule_for(pre, k),
    decreases pre.len(),
{
    let post = pre.push(SharingRuleModel { key, strategy });
    if pre.len() == 0 {
        assert(post[0].key == key);
        assert(post.skip(1) =~= Seq::<SharingRuleModel>::empty());
        assert forall|k: Seq<char>| k != key implies #[trigger] spec_rule_for(post, k)
            == spec_rule_for(pre, k) by {
            assert(spec_rule_for(post, k) == spec_rule_for(post.skip(1), k));
        }
    } else {
        lemma_rule_for_push(pre.skip(1), key, strategy);
        assert(post.skip(1) =~= pre.skip(1).push(SharingRuleModel { key, strategy }));
        assert(post[0] == pre[0]);
        assert(pre[0].key != key);
        assert forall|k: Seq<char>| k != key implies #[trigger] spec_rule_for(post, k)
            == spec_rule_for(pre, k) by {
            if k != pre[0].key {
                assert(spec_rule_for(post, k) == spec_rule_for(post.skip(1), k));
                assert(spec_rule_for(pre, k) == spec_rule_for(pre.skip(1), k));
            }
        }
    }
}

/// The rule map every workspace starts from: screenshots are shared
/// everywhere, addons per base, and the configuration folder stays
/// private to each workspace.
pub fn default_sharing_rules() -> (r: SharingRules)
    ensures
        r.wf(),
        r.models().len() == 3,
        r.models()[0] == (SharingRuleModel { key: "screenshots"@, strategy: SharingStrategy::Global }),
        r.models()[1] == (SharingRuleModel { key: "addons"@, strategy: SharingStrategy::Base }),
        r.models()[2] == (SharingRuleModel { key: "wtf"@, strategy: SharingStrategy::Workspace }),
{
    let mut rules: Vec<SharingRule> = Vec::new();
    rules.push(SharingRule { key: String::from_str("screenshots"), strategy: SharingStrategy::Global });
    rules.push(SharingRule { key: String::from_str("addons"), strategy: SharingStrategy::Base });
    rules.push(SharingRule { key: String::from_str("wtf"), strategy: SharingStrategy::Workspace });
    let r = SharingRules { rules };
    proof {
        reveal_strlit("screenshots");
        reveal_strlit("addons");
        reveal_strlit("wtf");
        assert(r.models().len() == 3);
        assert(r.models()[0].key == "screenshots"@);
        assert(r.models()[1].key == "addons"@);
        assert(r.models()[2].key == "wtf"@);
        assert("screenshots"@.len() == 11);
        assert("addons"@.len() == 6);
        assert("wtf"@.len() == 3);
    }
    r
}

/// Resolves the effective strategy for `rel_path`: the first rule in
/// list order whose key matches wins; with no match, the caller's
/// role-specific `default` applies.
pub fn determine_strategy(
    rel_path: &str,
    rules: &SharingRules,
    default: SharingStrategy,
) -> (r: SharingStrategy)
    ensures
        r == spec_determine(rules.models(), rel_path@, default),
{
    proof {
        assert(rules.models().skip(0) =~= rules.models());
    }
    let n = rules.rules.len();
    let mut i: usize = 0;
    while i < n
        invariant
            n == rules.rules.len(),
            i <= n,
            spec_determine(rules.models(), rel_path@, default) == spec_determine(
                rules.models().skip(i as int),
                rel_path@,
                default,
            ),
        decreases n - i,
    {
        proof {
            assert(rules.models().skip(i as int)[0] == rules.models()[i as int]);
            assert(rules.models().skip(i as int).skip(1) =~= rules.models().skip(i as int + 1));
        }
        let key = rules.rules[i].key.as_str();
        if crate::path_util::norm_dir_prefix_check(key, rel_path)
            || crate::path_util::has_component_check(rel_path, key) {
            return rules.rules[i].strategy;
        }
        i = i + 1;
    }
    default
}

/// The rule-file spelling of each strategy.
pub open spec fn strategy_name(st: SharingStrategy) -> Seq<char> {
    match st {
        SharingStrategy::Global => "global"@,
        SharingStrategy::Base => "base"@,
        SharingStrategy::Workspace => "workspace"@,
    }
}

/// The reading of one `key=value` sharing override.
#[derive(Clone, Debug, PartialEq, Eq)]
pub enum ShareArg {
    /// A well-formed override: this key maps to this strategy.
    Rule(String, SharingStrategy),
    /// Not of the form `key=value`; such arguments are ignored.
    Skip,
    /// Shaped like `key=value` but the value names no strategy; the
    /// whole invocation is rejected.
    Invalid,
}

/// Parses one `key=value` sharing override: the value must spell a
/// strategy; an argument without exactly one `=` is ignored.
pub fn parse_share_arg(arg: &str) -> (r: ShareArg)
    ensures
        match r {
            ShareArg::Skip => crate::path_util::count_char(arg@, '=') != 1,
            ShareArg::Rule(k, st) => crate::path_util::count_char(arg@, '=') == 1 && exists|i: int|
                0 <= i < arg@.len() && #[trigger] arg@[i] == '=' && k@ == arg@.subrange(0, i)
                    && arg@.subrange(i + 1, arg@.len() as int) == strategy_name(st),
            ShareArg::Invalid => crate::path_util::count_char(arg@, '=') == 1 && !(exists|i: int|
                0 <= i < arg@.len() && #[trigger] arg@[i] == '=' && (arg@.subrange(
                    i + 1,
                    arg@.len() as int,
                ) == "global"@ || arg@.subrange(i + 1, arg@.len() as int) == "base"@
                    || arg@.subrange(i + 1, arg@.len() as int) == "workspace"@)),
        },
{
    let l = arg.unicode_len();
    let (cnt, pos) = crate::path_util::count_char_with_pos(arg, '=');
    if cnt != 1 {
        return ShareArg::Skip;
    }
    let key = arg.substring_char(0, pos).to_owned();
    let val = arg.substring_char(pos + 1, l);
    if crate::path_util::str_eq(val, "global") {
        assert(arg@.subrange(pos as int + 1, arg@.len() as int) == strategy_name(
            SharingStrategy::Global,
        ));
        return ShareArg::Rule(key, SharingStrategy::Global);
    }
    if crate::path_util::str_eq(val, "base") {
        assert(arg@.subrange(pos as int + 1, arg@.len() as int) == strategy_name(
            SharingStrategy::Base,
        ));
        return ShareArg::Rule(key, SharingStrategy::Base);
    }
    if crate::path_util::str_eq(val, "workspace") {
        assert(arg@.subrange(pos as int + 1, arg@.len() as int) == strategy_name(
            SharingStrategy::Workspace,
        ));
        return ShareArg::Rule(key, SharingStrategy::Workspace);
    }
    proof {
        assert forall|i: int|
            0 <= i < arg@.len() && #[trigger] arg@[i] == '=' implies i == pos as int by {
            if i < pos as int {
                crate::path_util::lemma_count_char_two(arg@, '=', i, pos as int);
            } else if i > pos as int {
                crate::path_util::lemma_count_char_two(arg@, '=', pos as int, i);
            }
        }
    }
    ShareArg::Invalid
}

} // verus!
