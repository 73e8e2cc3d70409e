use rot::collections::SortedSet;
use rot::gates::{CfgProfile, PackageFeatures};
use rot::model::{Activation, Reachability};

fn names(items: &[&str]) -> SortedSet<String> {
    let mut set: SortedSet<String> = SortedSet::new();
    for item in items {
        set.insert(item.to_string());
    }
    set
}

fn profile(known_true: &[&str], known_false: &[&str]) -> CfgProfile {
    CfgProfile::new(names(known_true), names(known_false), names(&[]), &Vec::new())
}

fn first_item_gate(source: &str, features: PackageFeatures) -> Reachability {
    profile(&[], &[]).item_gate(source, Some(&features)).expect("fixture item")
}

#[test]
fn compound_test_cfg_is_test_only_without_feature() {
    let gate = first_item_gate(
        "#[cfg(any(test, feature = \"testability\"))]\nfn helper() {}",
        PackageFeatures::new(),
    );
    assert_eq!(gate, Reachability::test());
}

#[test]
fn compound_test_cfg_is_production_when_feature_is_enabled() {
    let mut features = PackageFeatures::new();
    features.enabled.insert("testability".to_owned());
    let gate = first_item_gate(
        "#[cfg(any(test, feature = \"testability\"))]\nfn helper() {}",
        features,
    );
    assert_eq!(gate, Reachability::both());
}

#[test]
fn cfg_attr_without_a_gating_attribute_keeps_the_item() {
    let gate = first_item_gate(
        "#[cfg_attr(test, derive(Debug))]\nstruct Value;",
        PackageFeatures::new(),
    );
    assert_eq!(gate, Reachability::both());
}

#[test]
fn forced_key_value_does_not_close_a_custom_cfg_namespace() {
    let gate = profile(&["mode=one"], &[])
        .item_gate("#[cfg(mode = \"two\")] fn other() {}", Some(&PackageFeatures::new()))
        .unwrap();
    assert_eq!(
        gate,
        Reachability { production: Activation::Maybe, test: Activation::Maybe }
    );
}

#[test]
fn what_is_known_decides_conditions() {
    let cfg = profile(&["mode=one"], &["fast"]);
    let features = PackageFeatures::new();
    assert_eq!(
        cfg.item_gate("#[cfg(mode = \"one\")] fn f() {}", Some(&features)),
        Some(Reachability::both())
    );
    assert_eq!(
        cfg.item_gate("#[cfg(fast)] fn f() {}", Some(&features)),
        Some(Reachability::never())
    );
    assert_eq!(
        cfg.item_gate("#[cfg(not(fast))] fn f() {}", Some(&features)),
        Some(Reachability::both())
    );
    assert_eq!(
        cfg.item_gate("#[cfg(windows)] fn f() {}", Some(&features)),
        Some(Reachability::never())
    );
    assert_eq!(
        cfg.item_gate("#[cfg(all(test, not(test)))] fn f() {}", Some(&features)),
        Some(Reachability::never())
    );
    assert_eq!(cfg.item_gate("// nothing", Some(&features)), None);
}

#[test]
fn excluded_features_are_off() {
    let mut features = PackageFeatures::new();
    features.enabled.insert("fast".to_owned());
    features.excluded.insert("fast".to_owned());
    assert_eq!(
        first_item_gate("#[cfg(feature = \"fast\")] fn f() {}", features),
        Reachability::never()
    );
    assert_eq!(
        profile(&[], &[]).item_gate("#[cfg(feature = \"fast\")] fn f() {}", None),
        Some(Reachability { production: Activation::Maybe, test: Activation::Maybe })
    );
}

#[test]
fn test_attributes_mark_tests() {
    assert_eq!(
        first_item_gate("#[tokio::test] fn f() {}", PackageFeatures::new()),
        Reachability::test()
    );
    assert_eq!(
        first_item_gate("#[cfg_attr(test, cfg(test))] fn f() {}", PackageFeatures::new()),
        Reachability::both()
    );
    let cfg = CfgProfile::new(names(&[]), names(&[]), names(&[]), &vec!["my::test".to_owned()]);
    assert_eq!(cfg.item_gate("#[my::test] fn f() {}", None), Some(Reachability::test()));
}
