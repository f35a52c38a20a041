use cargo_impact::cfg::FeatureSet;
use cargo_impact::finding::{FindingKind, Tier};
use cargo_impact::names::NameSet;
use cargo_impact::symbols::{SourceFile, SymbolKind, TopLevelSymbol};
use cargo_impact::traits::{changed_trait_names, find_trait_impls};

fn files(list: &[(&str, &str)]) -> Vec<SourceFile> {
    list.iter()
        .map(|(path, text)| SourceFile { path: path.to_string(), text: text.to_string() })
        .collect()
}

fn traits(list: &[&str]) -> NameSet {
    let list: Vec<String> = list.iter().map(|s| s.to_string()).collect();
    NameSet::from_names(&list)
}

#[test]
fn finds_impl_of_changed_trait() {
    let dir = files(&[(
        "src/lib.rs",
        "struct Foo;\n\
         pub trait Greeter { fn hi(&self); }\n\
         impl Greeter for Foo { fn hi(&self) {} }\n",
    )]);
    let hits = find_trait_impls(&dir, &traits(&["Greeter"]), &FeatureSet::Permissive);
    assert_eq!(hits.len(), 1);
    match &hits[0].kind {
        FindingKind::TraitImpl {
            trait_name,
            impl_for,
            ..
        } => {
            assert_eq!(trait_name, "Greeter");
            assert_eq!(impl_for, "Foo");
        }
        other => panic!("expected TraitImpl, got {other:?}"),
    }
    assert_eq!(hits[0].tier, Tier::Likely);
}

#[test]
fn ignores_inherent_impls() {
    let dir = files(&[(
        "src/lib.rs",
        "struct Foo;\n\
         impl Foo { fn hi(&self) {} }\n",
    )]);
    // `impl Foo` has no trait_ field; shouldn't match anything.
    let hits = find_trait_impls(&dir, &traits(&["Foo"]), &FeatureSet::Permissive);
    assert!(hits.is_empty());
}

#[test]
fn ignores_impls_of_unrelated_traits() {
    let dir = files(&[(
        "src/lib.rs",
        "struct Foo;\n\
         impl std::fmt::Debug for Foo {\n    \
             fn fmt(&self, f: &mut std::fmt::Formatter<'_>) -> std::fmt::Result { Ok(()) }\n\
         }\n",
    )]);
    let hits = find_trait_impls(&dir, &traits(&["Greeter"]), &FeatureSet::Permissive);
    assert!(hits.is_empty());
}

#[test]
fn matches_trait_via_last_path_segment() {
    // Users often impl crate::greetings::Greeter — we match on the last segment.
    let dir = files(&[(
        "src/lib.rs",
        "struct Foo;\n\
         impl crate::greetings::Greeter for Foo {}\n",
    )]);
    let hits = find_trait_impls(&dir, &traits(&["Greeter"]), &FeatureSet::Permissive);
    assert_eq!(hits.len(), 1);
}

#[test]
fn changed_trait_names_filters_to_traits_only() {
    let symbols = vec![
        TopLevelSymbol {
            name: "Foo".into(),
            kind: SymbolKind::Struct,
        },
        TopLevelSymbol {
            name: "Greeter".into(),
            kind: SymbolKind::Trait,
        },
        TopLevelSymbol {
            name: "helper".into(),
            kind: SymbolKind::Fn,
        },
    ];
    let names = changed_trait_names(&symbols);
    assert_eq!(names.len(), 1);
    assert!(names.contains("Greeter"));
}

#[test]
fn types_are_shown_with_single_blanks() {
    let dir = files(&[("src/lib.rs", "impl Greeter for   &'static   [u8] {}\n")]);
    let hits = find_trait_impls(&dir, &traits(&["Greeter"]), &FeatureSet::Permissive);
    match &hits[0].kind {
        FindingKind::TraitImpl { impl_for, .. } => assert_eq!(impl_for, "& 'static [u8]"),
        other => panic!("expected TraitImpl, got {other:?}"),
    }
}

#[test]
fn impls_inside_functions_are_found() {
    let dir = files(&[("src/lib.rs", "fn f() { struct L; impl Greeter for L {} }\n")]);
    let hits = find_trait_impls(&dir, &traits(&["Greeter"]), &FeatureSet::Permissive);
    assert_eq!(hits.len(), 1);
    let off = files(&[("src/lib.rs", "#[cfg(feature = \"x\")] impl Greeter for L {}\n")]);
    let none = FeatureSet::Exact(NameSet::new());
    assert!(find_trait_impls(&off, &traits(&["Greeter"]), &none).is_empty());
}

#[test]
fn impls_in_attributes_of_files_and_modules_count() {
    let dir = files(&[(
        "src/lib.rs",
        "#![x = { impl Greeter for A {} }]\n\
         #[x = { impl Greeter for B {} }]\n\
         mod m { impl Greeter for C {} }\n",
    )]);
    let hits = find_trait_impls(&dir, &traits(&["Greeter"]), &FeatureSet::Permissive);
    let types: Vec<&str> = hits
        .iter()
        .filter_map(|f| match &f.kind {
            FindingKind::TraitImpl { impl_for, .. } => Some(impl_for.as_str()),
            _ => None,
        })
        .collect();
    assert_eq!(types, vec!["A", "B", "C"]);
}
