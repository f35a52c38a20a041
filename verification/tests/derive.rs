use cargo_impact::cfg::FeatureSet;
use cargo_impact::derive::find_derive_impls;
use cargo_impact::finding::{Finding, FindingKind, SeverityClass, Tier};
use cargo_impact::names::NameSet;
use cargo_impact::symbols::SourceFile;

fn files(list: &[(&str, &str)]) -> Vec<SourceFile> {
    list.iter()
        .map(|(path, text)| SourceFile { path: path.to_string(), text: text.to_string() })
        .collect()
}

fn traits(list: &[&str]) -> NameSet {
    let list: Vec<String> = list.iter().map(|s| s.to_string()).collect();
    NameSet::from_names(&list)
}

fn payloads(findings: &[Finding]) -> Vec<(String, String)> {
    findings
        .iter()
        .filter_map(|f| match &f.kind {
            FindingKind::DerivedTraitImpl { trait_name, impl_for, .. } => {
                Some((trait_name.clone(), impl_for.clone()))
            }
            _ => None,
        })
        .collect()
}

#[test]
fn detects_bare_derive() {
    let dir = files(&[("src/lib.rs", "#[derive(Greeter)]\nstruct Foo;\n")]);
    let hits = find_derive_impls(&dir, &traits(&["Greeter"]), &FeatureSet::Permissive);
    assert_eq!(
        payloads(&hits),
        vec![("Greeter".to_string(), "Foo".to_string())]
    );
}

#[test]
fn matches_qualified_derive_path_via_last_segment() {
    let dir = files(&[("src/lib.rs", "#[derive(serde::Serialize)]\nstruct Foo;\n")]);
    let hits = find_derive_impls(&dir, &traits(&["Serialize"]), &FeatureSet::Permissive);
    assert_eq!(hits.len(), 1);
}

#[test]
fn multi_trait_derive_emits_one_finding_per_match() {
    let dir = files(&[(
        "src/lib.rs",
        "#[derive(Debug, Greeter, Clone)]\nstruct Foo;\n",
    )]);
    let hits = find_derive_impls(&dir, &traits(&["Greeter"]), &FeatureSet::Permissive);
    assert_eq!(hits.len(), 1);
    // Unrelated derives in the same attribute don't add noise.
    let hits2 = find_derive_impls(&dir, &traits(&["Debug", "Greeter"]), &FeatureSet::Permissive);
    assert_eq!(hits2.len(), 2);
}

#[test]
fn works_for_enum_and_union() {
    let dir = files(&[(
        "src/lib.rs",
        "#[derive(Greeter)]\nenum E { A, B }\n\
         #[derive(Greeter)]\nunion U { a: i32, b: u32 }\n",
    )]);
    let hits = find_derive_impls(&dir, &traits(&["Greeter"]), &FeatureSet::Permissive);
    let pairs = payloads(&hits);
    assert!(pairs.contains(&("Greeter".into(), "E".into())));
    assert!(pairs.contains(&("Greeter".into(), "U".into())));
}

#[test]
fn recurses_into_inline_modules() {
    let dir = files(&[(
        "src/lib.rs",
        "mod nested { #[derive(Greeter)] pub struct Inner; }\n",
    )]);
    let hits = find_derive_impls(&dir, &traits(&["Greeter"]), &FeatureSet::Permissive);
    assert_eq!(
        payloads(&hits),
        vec![("Greeter".to_string(), "Inner".to_string())]
    );
}

#[test]
fn ignores_unrelated_derives() {
    let dir = files(&[("src/lib.rs", "#[derive(Debug, Clone)]\nstruct Foo;\n")]);
    let hits = find_derive_impls(&dir, &traits(&["Greeter"]), &FeatureSet::Permissive);
    assert!(hits.is_empty());
}

#[test]
fn finding_carries_expected_tier_and_severity() {
    let dir = files(&[("src/lib.rs", "#[derive(Greeter)]\nstruct Foo;\n")]);
    let hits = find_derive_impls(&dir, &traits(&["Greeter"]), &FeatureSet::Permissive);
    assert_eq!(hits[0].tier, Tier::Likely);
    assert_eq!(hits[0].confidence, 80);
    assert_eq!(hits[0].severity, SeverityClass::High);
}

#[test]
fn derive_empty_changed_set_returns_empty() {
    let dir = files(&[("src/lib.rs", "#[derive(Greeter)]\nstruct Foo;\n")]);
    let hits = find_derive_impls(&dir, &traits(&[]), &FeatureSet::Permissive);
    assert!(hits.is_empty());
}

// --- cfg_attr-wrapped derives ---

#[test]
fn cfg_attr_derive_detected_under_permissive() {
    // Default feature set is Permissive — all cfg predicates are
    // treated as active, so cfg_attr-wrapped derives fire.
    let dir = files(&[(
        "src/lib.rs",
        r#"#[cfg_attr(feature = "serde", derive(Greeter))]
           struct Foo;"#,
    )]);
    let hits = find_derive_impls(&dir, &traits(&["Greeter"]), &FeatureSet::Permissive);
    assert_eq!(
        payloads(&hits),
        vec![("Greeter".to_string(), "Foo".to_string())]
    );
}

#[test]
fn cfg_attr_multi_derive_emits_one_finding_per_match() {
    let dir = files(&[(
        "src/lib.rs",
        r#"#[cfg_attr(feature = "serde", derive(Debug, Greeter, Clone))]
           struct Foo;"#,
    )]);
    let hits = find_derive_impls(&dir, &traits(&["Greeter"]), &FeatureSet::Permissive);
    assert_eq!(hits.len(), 1);
    let hits_multi =
        find_derive_impls(&dir, &traits(&["Debug", "Greeter", "Clone"]), &FeatureSet::Permissive);
    assert_eq!(hits_multi.len(), 3);
}

#[test]
fn cfg_attr_dropped_when_predicate_false_under_exact_featureset() {
    let dir = files(&[(
        "src/lib.rs",
        r#"#[cfg_attr(feature = "serde", derive(Greeter))]
           struct Foo;"#,
    )]);
    // Install a FeatureSet that doesn't include "serde" so the
    // predicate evaluates false; the cfg_attr derive should drop.
    let hits =
        find_derive_impls(&dir, &traits(&["Greeter"]), &FeatureSet::Exact(NameSet::new()));
    assert!(hits.is_empty(), "unexpected hits: {hits:?}");
}

#[test]
fn cfg_attr_kept_when_predicate_true_under_exact_featureset() {
    let dir = files(&[(
        "src/lib.rs",
        r#"#[cfg_attr(feature = "serde", derive(Greeter))]
           struct Foo;"#,
    )]);
    let active = traits(&["serde"]);
    let hits = find_derive_impls(&dir, &traits(&["Greeter"]), &FeatureSet::Exact(active));
    assert_eq!(hits.len(), 1);
}

#[test]
fn cfg_attr_with_not_combinator_evaluates_correctly() {
    let dir = files(&[(
        "src/lib.rs",
        r#"#[cfg_attr(not(feature = "legacy"), derive(Greeter))]
           struct Foo;"#,
    )]);
    // Empty feature set → `not(feature = "legacy")` is true → derive fires.
    let hits =
        find_derive_impls(&dir, &traits(&["Greeter"]), &FeatureSet::Exact(NameSet::new()));
    assert_eq!(hits.len(), 1);
    // With "legacy" active → predicate false → no finding.
    let active = traits(&["legacy"]);
    let hits = find_derive_impls(&dir, &traits(&["Greeter"]), &FeatureSet::Exact(active));
    assert!(hits.is_empty());
}

#[test]
fn cfg_attr_composes_with_plain_derives_on_same_item() {
    let dir = files(&[(
        "src/lib.rs",
        r#"#[derive(Debug)]
           #[cfg_attr(feature = "serde", derive(Greeter))]
           struct Foo;"#,
    )]);
    let hits = find_derive_impls(&dir, &traits(&["Debug", "Greeter"]), &FeatureSet::Permissive);
    assert_eq!(hits.len(), 2);
}

#[test]
fn malformed_cfg_attr_is_ignored_without_panicking() {
    let dir = files(&[(
        "src/lib.rs",
        r#"#[cfg_attr()]
           struct Bar;
           #[cfg_attr(feature = "serde", derive(Greeter))]
           struct Baz;"#,
    )]);
    let hits = find_derive_impls(&dir, &traits(&["Greeter"]), &FeatureSet::Permissive);
    assert_eq!(
        payloads(&hits),
        vec![("Greeter".to_string(), "Baz".to_string())]
    );
}

#[test]
fn handles_malformed_derive_gracefully() {
    // syn should still parse the file; the derive arg list may be weird
    // and we should just skip it without panicking.
    let dir = files(&[(
        "src/lib.rs",
        "#[derive()]\nstruct Foo;\n\
         #[derive(Greeter)]\nstruct Bar;\n",
    )]);
    let hits = find_derive_impls(&dir, &traits(&["Greeter"]), &FeatureSet::Permissive);
    assert_eq!(
        payloads(&hits),
        vec![("Greeter".to_string(), "Bar".to_string())]
    );
}

#[test]
fn permissive_takes_every_cfg_attr() {
    let src = files(&[(
        "src/lib.rs",
        "#[cfg_attr(not(feature = \"x\"), derive(Wire))] pub struct S;\n",
    )]);
    let hits = find_derive_impls(&src, &traits(&["Wire"]), &FeatureSet::Permissive);
    assert_eq!(payloads(&hits), vec![("Wire".to_string(), "S".to_string())]);
    let on = FeatureSet::Exact(traits(&["x"]));
    assert!(find_derive_impls(&src, &traits(&["Wire"]), &on).is_empty());
}
