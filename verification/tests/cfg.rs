use cargo_impact::cfg::{cfg_matches, parse_and_filter, with_features, ActiveFeatures, FeatureSet};
use cargo_impact::features::{
    expand_transitive, resolve_features, same_crate_feature_name, split_flags, ManifestError,
};
use cargo_impact::names::NameSet;
use cargo_impact::syntax::{parse_source, ItemBody, ItemKind};

fn set(items: &[&str]) -> FeatureSet {
    let items: Vec<String> = items.iter().map(|s| s.to_string()).collect();
    FeatureSet::Exact(NameSet::from_names(&items))
}

fn eval(src: &str, set: &FeatureSet) -> bool {
    let tree = parse_source(src).expect("parse");
    let item = tree.items.into_iter().next().expect("one item");
    item.attrs.iter().all(|a| cfg_matches(a, set))
}

#[test]
fn permissive_treats_every_cfg_as_active() {
    assert!(FeatureSet::Permissive.is_feature_active("anything"));
}

#[test]
fn exact_respects_membership() {
    let s = set(&["foo"]);
    assert!(s.is_feature_active("foo"));
    assert!(!s.is_feature_active("bar"));
}

#[test]
fn feature_cfg_matches_when_active() {
    assert!(eval(
        "#[cfg(feature = \"tokio\")] fn f() {}",
        &set(&["tokio"])
    ));
}

#[test]
fn feature_cfg_rejects_when_inactive() {
    assert!(!eval(
        "#[cfg(feature = \"tokio\")] fn f() {}",
        &set(&["async-std"])
    ));
}

#[test]
fn cfg_test_is_always_active() {
    // So the test-scanner keeps seeing `#[cfg(test)] mod tests`.
    assert!(eval("#[cfg(test)] fn f() {}", &set(&[])));
}

#[test]
fn target_cfgs_stay_permissive() {
    // We don't model target triples yet — be liberal.
    assert!(eval("#[cfg(target_os = \"linux\")] fn f() {}", &set(&[])));
}

#[test]
fn not_negates() {
    assert!(eval(
        "#[cfg(not(feature = \"foo\"))] fn f() {}",
        &set(&["bar"])
    ));
    assert!(!eval(
        "#[cfg(not(feature = \"foo\"))] fn f() {}",
        &set(&["foo"])
    ));
}

#[test]
fn all_requires_every_inner() {
    assert!(eval(
        "#[cfg(all(feature = \"a\", feature = \"b\"))] fn f() {}",
        &set(&["a", "b"])
    ));
    assert!(!eval(
        "#[cfg(all(feature = \"a\", feature = \"b\"))] fn f() {}",
        &set(&["a"])
    ));
}

#[test]
fn any_requires_at_least_one_inner() {
    assert!(eval(
        "#[cfg(any(feature = \"a\", feature = \"b\"))] fn f() {}",
        &set(&["b"])
    ));
    assert!(!eval(
        "#[cfg(any(feature = \"a\", feature = \"b\"))] fn f() {}",
        &set(&["c"])
    ));
}

#[test]
fn nested_combinators() {
    assert!(eval(
        "#[cfg(all(not(feature = \"off\"), any(feature = \"a\", feature = \"b\")))] fn f() {}",
        &set(&["a"])
    ));
    assert!(!eval(
        "#[cfg(all(not(feature = \"off\"), feature = \"a\"))] fn f() {}",
        &set(&["off", "a"])
    ));
}

#[test]
fn parse_and_filter_strips_inactive_items_under_with_features() {
    let src = "\
        fn always() {}\n\
        #[cfg(feature = \"tokio\")] fn only_tokio() {}\n\
        #[cfg(feature = \"async-std\")] fn only_astd() {}\n\
    ";
    let active = ActiveFeatures::new();
    let tree = with_features(&active, set(&["tokio"]), |a: &ActiveFeatures| {
        parse_and_filter(src, &a.current).unwrap()
    });
    let names: Vec<_> = tree
        .items
        .iter()
        .filter(|i| i.kind == ItemKind::Fn)
        .filter_map(|i| i.name.clone())
        .collect();
    assert_eq!(names, vec!["always", "only_tokio"]);
}

#[test]
fn permissive_default_keeps_all_items() {
    let src = "\
        fn a() {}\n\
        #[cfg(feature = \"tokio\")] fn b() {}\n\
    ";
    let tree = parse_and_filter(src, &ActiveFeatures::new().current).unwrap();
    assert_eq!(tree.items.len(), 2);
}

#[test]
fn with_features_restores_previous_on_drop() {
    let active = ActiveFeatures::new();
    let inside = with_features(&active, set(&["foo"]), |a: &ActiveFeatures| {
        a.current.is_feature_active("foo") && !a.current.is_permissive()
    });
    assert!(inside);
    assert!(active.current.is_permissive());
}

#[test]
fn filter_recurses_into_inline_modules() {
    let src = "\
        mod outer {\n\
            fn keep() {}\n\
            #[cfg(feature = \"off\")] fn drop_me() {}\n\
        }\n\
    ";
    let active = ActiveFeatures::new();
    let tree = with_features(&active, set(&[]), |a: &ActiveFeatures| {
        parse_and_filter(src, &a.current).unwrap()
    });
    let Some(item) = tree.items.first() else {
        panic!("expected mod");
    };
    assert_eq!(item.kind, ItemKind::Mod);
    let ItemBody::Module(Some(inner)) = &item.body else {
        panic!("expected inline items");
    };
    assert_eq!(inner.len(), 1);
    assert_eq!(inner[0].name.as_deref(), Some("keep"));
    // The text of the module is that of what is left of it.
    assert!(!item.tokens.contains("drop_me"));
    assert!(item.tokens.contains("keep"));
}

#[test]
fn resolve_uses_default_features_when_allowed() {
    let manifest = Some(
        "\
        [package]\nname=\"x\"\nversion=\"0.1.0\"\nedition=\"2021\"\n\
        [features]\ndefault = [\"a\"]\na = []\nb = []\n",
    );
    let f = resolve_features(manifest, &vec![], false, false).unwrap();
    assert!(f.is_feature_active("a"));
    assert!(!f.is_feature_active("b"));
}

#[test]
fn no_default_features_skips_defaults() {
    let manifest = Some(
        "\
        [package]\nname=\"x\"\nversion=\"0.1.0\"\nedition=\"2021\"\n\
        [features]\ndefault = [\"a\"]\na = []\n",
    );
    let f = resolve_features(manifest, &vec![], true, false).unwrap();
    assert!(!f.is_feature_active("a"));
}

#[test]
fn user_features_union_with_defaults() {
    let manifest = Some(
        "\
        [package]\nname=\"x\"\nversion=\"0.1.0\"\nedition=\"2021\"\n\
        [features]\ndefault = [\"a\"]\na = []\nb = []\n",
    );
    let f = resolve_features(manifest, &vec!["b".into()], false, false).unwrap();
    assert!(f.is_feature_active("a"));
    assert!(f.is_feature_active("b"));
}

#[test]
fn transitive_expansion_propagates() {
    let manifest = Some(
        "\
        [package]\nname=\"x\"\nversion=\"0.1.0\"\nedition=\"2021\"\n\
        [features]\ndefault=[]\n\
        tokio = [\"async-runtime\"]\n\
        async-runtime = [\"io\"]\n\
        io = []\n",
    );
    let f = resolve_features(manifest, &vec!["tokio".into()], false, false).unwrap();
    assert!(f.is_feature_active("tokio"));
    assert!(f.is_feature_active("async-runtime"));
    assert!(f.is_feature_active("io"));
}

#[test]
fn all_features_activates_every_non_default_entry() {
    let manifest = Some(
        "\
        [package]\nname=\"x\"\nversion=\"0.1.0\"\nedition=\"2021\"\n\
        [features]\ndefault=[\"a\"]\na=[]\nb=[]\nc=[]\n",
    );
    let f = resolve_features(manifest, &vec![], false, true).unwrap();
    assert!(f.is_feature_active("a"));
    assert!(f.is_feature_active("b"));
    assert!(f.is_feature_active("c"));
    // "default" itself is a meta-feature, not a real flag to activate.
    assert!(!f.is_feature_active("default"));
}

#[test]
fn missing_manifest_falls_back_to_permissive() {
    let manifest = None;
    let f = resolve_features(manifest, &vec![], false, false).unwrap();
    assert!(f.is_permissive());
}

#[test]
fn missing_manifest_with_explicit_features_uses_exact() {
    let manifest = None;
    let f = resolve_features(manifest, &vec!["x".into()], false, false).unwrap();
    assert!(!f.is_permissive());
    assert!(f.is_feature_active("x"));
}

#[test]
fn cross_crate_and_dep_prefixed_features_are_skipped() {
    let manifest = Some(
        "\
        [package]\nname=\"x\"\nversion=\"0.1.0\"\nedition=\"2021\"\n\
        [features]\ndefault=[]\n\
        full = [\"dep:serde\", \"tokio/rt\", \"self_feature\"]\n\
        self_feature = []\n",
    );
    let f = resolve_features(manifest, &vec!["full".into()], false, false).unwrap();
    assert!(f.is_feature_active("full"));
    assert!(f.is_feature_active("self_feature"));
    assert!(!f.is_feature_active("serde"));
    assert!(!f.is_feature_active("tokio"));
}

#[test]
fn comma_separated_user_feature_list_is_split() {
    let manifest = None;
    let f = resolve_features(manifest, &vec!["foo,bar,baz".into()], false, false).unwrap();
    assert!(f.is_feature_active("foo"));
    assert!(f.is_feature_active("bar"));
    assert!(f.is_feature_active("baz"));
}

#[test]
fn text_that_is_no_rust_has_no_items() {
    assert!(parse_and_filter("fn (", &FeatureSet::Permissive).is_none());
    assert!(parse_source("struct").is_none());
    assert_eq!(parse_source("").unwrap().items.len(), 0);
}

#[test]
fn a_manifest_that_is_no_toml_is_an_error() {
    let r = resolve_features(Some("[features\n"), &vec![], false, false);
    assert_eq!(r.err(), Some(ManifestError::Unparseable));
}

#[test]
fn a_manifest_without_features_leaves_the_named_ones() {
    let manifest = Some("[package]\nname=\"x\"\n");
    let f = resolve_features(manifest, &vec!["a".into()], false, false).unwrap();
    assert!(f.is_feature_active("a"));
    assert!(!f.is_permissive());
    let f = resolve_features(manifest, &vec![], false, false).unwrap();
    assert_eq!(f, set(&[]));
}

#[test]
fn feature_cycles_end() {
    let manifest = Some("[features]\na = [\"b\"]\nb = [\"a\", \"c\"]\n");
    let f = resolve_features(manifest, &vec!["a".into()], true, false).unwrap();
    assert_eq!(f, set(&["a", "b", "c"]));
    let table = vec![
        ("a".to_string(), Some(vec![Some("b".to_string())])),
        ("b".to_string(), Some(vec![Some("a".to_string()), None])),
    ];
    assert_eq!(expand_transitive(&vec!["a".to_string()], &table), vec!["a", "b"]);
}

#[test]
fn foreign_feature_names_are_told_apart() {
    assert_eq!(same_crate_feature_name("a"), Some("a".to_string()));
    assert_eq!(same_crate_feature_name("dep:a"), None);
    assert_eq!(same_crate_feature_name("a/b"), None);
}

#[test]
fn flags_are_split_and_trimmed() {
    let flags = vec!["a, b".to_string(), "".to_string(), ",c".to_string()];
    assert_eq!(split_flags(&flags), vec!["a", "b", "c"]);
}

#[test]
fn bare_and_unknown_predicates_hold() {
    assert!(eval("#[cfg(unix)] fn f() {}", &set(&[])));
    assert!(eval("#[cfg(version(\"1.0\"))] fn f() {}", &set(&[])));
    assert!(eval("#[cfg(all())] fn f() {}", &set(&[])));
    assert!(!eval("#[cfg(any())] fn f() {}", &set(&[])));
}

#[test]
fn nested_installations_are_undone_one_by_one() {
    let active = ActiveFeatures::new();
    let seen = with_features(&active, set(&["outer"]), |a: &ActiveFeatures| {
        let deep = with_features(a, set(&["inner"]), |b: &ActiveFeatures| {
            b.current.is_feature_active("inner") && !b.current.is_feature_active("outer")
        });
        deep && a.current.is_feature_active("outer")
    });
    assert!(seen);
    assert_eq!(active, ActiveFeatures::new());
}

#[test]
fn permissive_keeps_negated_features_too() {
    let src = "#[cfg(not(feature = \"x\"))] fn f() {}";
    assert!(eval(src, &FeatureSet::Permissive));
    assert!(eval(src, &set(&[])));
    assert!(!eval(src, &set(&["x"])));
}

#[test]
fn filtering_keeps_the_spacing_of_uninterpreted_items() {
    let joint = "mod m { const A: u8;#[x] struct S; #[cfg(feature = \"x\")] fn f() {} }";
    let apart = "mod m { const A: u8; #[x] struct S; #[cfg(feature = \"x\")] fn f() {} }";
    let a = parse_and_filter(joint, &set(&[])).unwrap().items;
    let b = parse_and_filter(apart, &set(&[])).unwrap().items;
    let (ItemBody::Module(Some(x)), ItemBody::Module(Some(y))) = (&a[0].body, &b[0].body) else {
        panic!("modules");
    };
    assert_eq!(x.len(), 2);
    assert!(x[0].joint && !y[0].joint);
    assert_eq!(x[0].tokens, y[0].tokens);
    assert_ne!(a[0].tokens, b[0].tokens);
}

#[test]
fn the_set_in_force_can_be_read_while_another_is_installed() {
    let active = ActiveFeatures { current: set(&["outer"]) };
    let seen = with_features(&active, set(&["inner"]), |a: &ActiveFeatures| {
        (a.current.is_feature_active("inner"), active.current.is_feature_active("outer"))
    });
    assert_eq!(seen, (true, true));
    assert_eq!(active, ActiveFeatures { current: set(&["outer"]) });
}

#[test]
fn filtering_keeps_the_attributes_of_the_file() {
    let src = "#![a]\n#![cfg(feature = \"x\")]\nfn f() {}\n";
    let tree = parse_and_filter(src, &set(&[])).unwrap();
    let idents: Vec<_> = tree.attrs.iter().filter_map(|a| a.ident.as_deref()).collect();
    assert_eq!(idents, vec!["a", "cfg"]);
    assert_eq!(tree.items.len(), 1);
}
