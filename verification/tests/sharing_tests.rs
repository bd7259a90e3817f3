use realmctl::sharing::{
    default_sharing_rules, determine_strategy, parse_share_arg, ShareArg, SharingRules,
    SharingStrategy,
};

#[test]
fn test_default_sharing_rules() {
    let rules = default_sharing_rules();

    // Verify expected sharing strategies
    assert_eq!(rules.get("screenshots"), Some(SharingStrategy::Global));
    assert_eq!(rules.get("addons"), Some(SharingStrategy::Base));
    assert_eq!(rules.get("wtf"), Some(SharingStrategy::Workspace));
}

#[test]
fn test_get_absent_key() {
    let rules = default_sharing_rules();
    assert_eq!(rules.get("interface"), None);
    assert_eq!(rules.get("Screenshots"), None); // exact-key lookup is case-sensitive
}

#[test]
fn test_insert_replaces_in_place() {
    let mut rules = default_sharing_rules();
    rules.insert("addons".to_string(), SharingStrategy::Global);
    assert_eq!(rules.get("addons"), Some(SharingStrategy::Global));
    assert_eq!(rules.rules.len(), 3);
    rules.insert("cache".to_string(), SharingStrategy::Workspace);
    assert_eq!(rules.get("cache"), Some(SharingStrategy::Workspace));
    assert_eq!(rules.rules.len(), 4);
}

#[test]
fn test_determine_strategy_exact_and_prefix() {
    let rules = default_sharing_rules();
    // Case-insensitive exact match on a component-free key
    assert_eq!(
        determine_strategy("Screenshots", &rules, SharingStrategy::Workspace),
        SharingStrategy::Global
    );
    // Paths below the key match through the prefix rule
    assert_eq!(
        determine_strategy("Screenshots/2024-12", &rules, SharingStrategy::Workspace),
        SharingStrategy::Global
    );
    // A single component equal to a key matches anywhere in the path
    assert_eq!(
        determine_strategy("Interface/AddOns", &rules, SharingStrategy::Global),
        SharingStrategy::Base
    );
    assert_eq!(
        determine_strategy("WTF/Account", &rules, SharingStrategy::Global),
        SharingStrategy::Workspace
    );
}

#[test]
fn test_determine_strategy_default_when_no_match() {
    let rules = default_sharing_rules();
    assert_eq!(
        determine_strategy("Interface/icons", &rules, SharingStrategy::Workspace),
        SharingStrategy::Workspace
    );
    assert_eq!(
        determine_strategy("Movies", &rules, SharingStrategy::Global),
        SharingStrategy::Global
    );
}

#[test]
fn test_determine_strategy_first_match_in_list_order_wins() {
    // Two keys that both match "Interface/AddOns": the one inserted
    // first wins, deterministically.
    let mut rules = SharingRules::new();
    rules.insert("addons".to_string(), SharingStrategy::Global);
    rules.insert("interface/addons".to_string(), SharingStrategy::Base);
    assert_eq!(
        determine_strategy("Interface/AddOns", &rules, SharingStrategy::Workspace),
        SharingStrategy::Global
    );

    let mut rules2 = SharingRules::new();
    rules2.insert("interface/addons".to_string(), SharingStrategy::Base);
    rules2.insert("addons".to_string(), SharingStrategy::Global);
    assert_eq!(
        determine_strategy("Interface/AddOns", &rules2, SharingStrategy::Workspace),
        SharingStrategy::Base
    );
}

#[test]
fn test_parse_share_arg_variants() {
    assert_eq!(
        parse_share_arg("screenshots=global"),
        ShareArg::Rule("screenshots".to_string(), SharingStrategy::Global)
    );
    assert_eq!(
        parse_share_arg("Interface/AddOns=base"),
        ShareArg::Rule("Interface/AddOns".to_string(), SharingStrategy::Base)
    );
    assert_eq!(
        parse_share_arg("wtf=workspace"),
        ShareArg::Rule("wtf".to_string(), SharingStrategy::Workspace)
    );
    // No '=' or several: the argument is ignored
    assert_eq!(parse_share_arg("screenshots"), ShareArg::Skip);
    assert_eq!(parse_share_arg("a=b=c"), ShareArg::Skip);
    // One '=' but no such strategy: rejected
    assert_eq!(parse_share_arg("screenshots=everywhere"), ShareArg::Invalid);
    assert_eq!(parse_share_arg("screenshots=Global"), ShareArg::Invalid);
}
