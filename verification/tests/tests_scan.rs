use cargo_impact::cfg::FeatureSet;
use cargo_impact::finding::{FindingKind, Tier};
use cargo_impact::names::NameSet;
use cargo_impact::symbols::SourceFile;
use cargo_impact::tests_scan::{find_affected_tests, is_skippable};

fn files(list: &[(&str, &str)]) -> Vec<SourceFile> {
    list.iter()
        .map(|(path, text)| SourceFile { path: path.to_string(), text: text.to_string() })
        .collect()
}

/// The files that a walk from the root reaches.
fn walked(list: &[(&str, &str)]) -> Vec<SourceFile> {
    let kept: Vec<(&str, &str)> = list
        .iter()
        .filter(|(path, _)| {
            let parts: Vec<&str> = path.split('/').collect();
            !is_skippable(0, "root", true)
                && parts
                    .iter()
                    .enumerate()
                    .all(|(i, part)| !is_skippable(i + 1, part, i + 1 < parts.len()))
        })
        .cloned()
        .collect();
    files(&kept)
}

fn symbols(list: &[&str]) -> NameSet {
    let list: Vec<String> = list.iter().map(|s| s.to_string()).collect();
    NameSet::from_names(&list)
}

#[test]
fn matches_test_that_references_changed_symbol() {
    let dir = files(&[(
        "tests/smoke.rs",
        r#"
            #[test]
            fn smoke() {
                let _ = login();
            }
        "#,
    )]);
    let hits = find_affected_tests(&dir, &symbols(&["login"]), &FeatureSet::Permissive);
    assert_eq!(hits.len(), 1);
    assert_eq!(hits[0].tier, Tier::Likely);
    assert_eq!(hits[0].confidence, 85);
    match &hits[0].kind {
        FindingKind::TestReference {
            test,
            matched_symbols,
        } => {
            assert_eq!(test.symbol, "smoke");
            assert_eq!(matched_symbols, &vec!["login".to_string()]);
        }
        other => panic!("expected TestReference, got {other:?}"),
    }
    assert!(
        hits[0]
            .suggested_action
            .as_deref()
            .is_some_and(|s| s.contains("test(smoke)"))
    );
}

#[test]
fn ignores_non_test_functions() {
    let dir = files(&[("src/lib.rs", "fn helper() { let _ = login(); }")]);
    let hits = find_affected_tests(&dir, &symbols(&["login"]), &FeatureSet::Permissive);
    assert!(hits.is_empty());
}

#[test]
fn matches_tokio_test_and_rstest_attributes() {
    let dir = files(&[(
        "tests/async.rs",
        r#"
            #[tokio::test]
            async fn async_smoke() { login().await; }

            #[rstest]
            fn parametrized(#[case] _x: u32) { let _ = login; }
        "#,
    )]);
    let hits = find_affected_tests(&dir, &symbols(&["login"]), &FeatureSet::Permissive);
    let names: Vec<_> = hits
        .iter()
        .map(|h| match &h.kind {
            FindingKind::TestReference { test, .. } => test.symbol.clone(),
            _ => String::new(),
        })
        .collect();
    assert!(names.contains(&"async_smoke".to_string()));
    assert!(names.contains(&"parametrized".to_string()));
}

#[test]
fn does_not_match_substring_identifiers() {
    let dir = files(&[(
        "tests/false_positive.rs",
        "#[test] fn t() { let login_helper = 1; let _ = login_helper; }",
    )]);
    let hits = find_affected_tests(&dir, &symbols(&["login"]), &FeatureSet::Permissive);
    assert!(hits.is_empty(), "unexpected hits: {hits:?}");
}

#[test]
fn tests_scan_empty_changed_set_returns_empty() {
    let dir = files(&[("tests/a.rs", "#[test] fn t() { login(); }")]);
    let hits = find_affected_tests(&dir, &symbols(&[]), &FeatureSet::Permissive);
    assert!(hits.is_empty());
}

#[test]
fn skips_target_and_hidden_directories() {
    let dir = walked(&[
        (
            "target/debug/build.rs",
            "#[test] fn should_not_match() { login(); }",
        ),
        (
            ".git/hooks/pre-commit.rs",
            "#[test] fn should_not_match_either() { login(); }",
        ),
        ("tests/real.rs", "#[test] fn real() { let _ = login(); }"),
    ]);
    let hits = find_affected_tests(&dir, &symbols(&["login"]), &FeatureSet::Permissive);
    let names: Vec<_> = hits
        .iter()
        .map(|h| match &h.kind {
            FindingKind::TestReference { test, .. } => test.symbol.clone(),
            _ => String::new(),
        })
        .collect();
    assert_eq!(names, vec!["real".to_string()]);
}

#[test]
fn the_root_is_never_skipped() {
    assert!(!is_skippable(0, ".hidden", true));
    assert!(!is_skippable(0, "target", true));
    assert!(is_skippable(1, "target", true));
    assert!(is_skippable(3, ".git", true));
    assert!(!is_skippable(1, ".hidden.rs", false));
}

#[test]
fn tests_in_attributes_of_files_and_modules_count() {
    let dir = files(&[(
        "src/lib.rs",
        "#![x = { #[test] fn a() { login(); } }]\n\
         mod m { #![x = { #[test] fn b() { login(); } }] }\n",
    )]);
    let hits = find_affected_tests(&dir, &symbols(&["login"]), &FeatureSet::Permissive);
    let names: Vec<&str> = hits
        .iter()
        .filter_map(|f| match &f.kind {
            FindingKind::TestReference { test, .. } => Some(test.symbol.as_str()),
            _ => None,
        })
        .collect();
    assert_eq!(names, vec!["a", "b"]);
}
