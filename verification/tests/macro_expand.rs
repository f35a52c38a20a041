use cargo_impact::finding::{FindingKind, Tier};
use cargo_impact::macro_expand::{find_in_expanded, is_no_library_error, plan_expansion, run};
use cargo_impact::names::NameSet;
use cargo_impact::tools::ToolPlan;

fn changed(list: &[&str]) -> NameSet {
    let list: Vec<String> = list.iter().map(|s| s.to_string()).collect();
    NameSet::from_names(&list)
}

#[test]
fn empty_changed_set_returns_no_findings() {
    let src = "impl Serialize for S {}";
    let hits = find_in_expanded(src, &changed(&[]), &changed(&[]));
    assert!(hits.is_empty());
}

#[test]
fn matches_derived_impl_on_changed_trait() {
    let src = "struct S; impl Greeter for S { fn hi(&self) {} }";
    let hits = find_in_expanded(src, &changed(&["Greeter"]), &changed(&[]));
    assert_eq!(hits.len(), 1);
    let FindingKind::TraitImpl {
        trait_name,
        impl_for,
        ..
    } = &hits[0].kind
    else {
        panic!("wrong kind");
    };
    assert_eq!(trait_name, "Greeter");
    assert_eq!(impl_for, "S");
}

#[test]
fn evidence_calls_out_macro_expansion_source() {
    let src = "impl Greeter for S { fn hi(&self) {} }";
    let hits = find_in_expanded(src, &changed(&["Greeter"]), &changed(&[]));
    assert!(
        hits[0].evidence.contains("revealed by macro expansion"),
        "evidence should mark the finding as expansion-derived: {}",
        hits[0].evidence
    );
}

#[test]
fn ignores_impls_on_unchanged_traits() {
    let src = "impl Unrelated for S { }";
    let hits = find_in_expanded(src, &changed(&["Greeter"]), &changed(&[]));
    assert!(hits.is_empty());
}

#[test]
fn matches_impl_via_last_path_segment() {
    // Expanded output often carries fully-qualified paths;
    // match on the trailing segment only, same as traits.rs.
    let src = "impl ::serde::Serialize for S { }";
    let hits = find_in_expanded(src, &changed(&["Serialize"]), &changed(&[]));
    assert_eq!(hits.len(), 1);
}

#[test]
fn multiple_matches_in_one_stream_all_emitted() {
    let src = "
        impl A for X { }
        impl A for Y { }
        impl B for Z { }
    ";
    let hits = find_in_expanded(src, &changed(&["A", "B"]), &changed(&[]));
    assert_eq!(hits.len(), 3);
}

#[test]
fn unparseable_input_returns_empty_without_panicking() {
    let hits = find_in_expanded(
        "this is {{ not syn parseable",
        &changed(&["X"]),
        &changed(&["Y"]),
    );
    assert!(hits.is_empty());
}

#[test]
fn disabled_flag_short_circuits_before_calling_cargo() {
    // If the tool weren't installed this would still return Ok(empty)
    // because `enabled = false` short-circuits.
    let findings = run(false, &changed(&["X"]), &changed(&[]), true, &Some("impl X for S {}".to_string()));
    assert!(findings.is_empty());
}

#[test]
fn empty_inputs_short_circuit_before_spawning() {
    let findings = run(true, &changed(&[]), &changed(&[]), true, &Some("impl X for S {}".to_string()));
    assert!(findings.is_empty());
}

// --- Expanded test-reference findings ---

#[test]
fn detects_test_referencing_changed_symbol_in_expanded_body() {
    // Simulates a test that, after cargo expand, references `User`
    // — the kind of code `sqlx::query!("SELECT * FROM users")`
    // expands into. The raw source wouldn't have carried this
    // reference.
    let src = r#"
        #[test]
        fn query_test() {
            let _: User = User::default();
        }
    "#;
    let hits = find_in_expanded(src, &changed(&[]), &changed(&["User"]));
    assert_eq!(hits.len(), 1);
    let FindingKind::TestReference {
        test,
        matched_symbols,
    } = &hits[0].kind
    else {
        panic!("wrong kind: {:?}", hits[0].kind);
    };
    assert_eq!(test.symbol, "query_test");
    assert_eq!(test.file, "<expanded>");
    assert_eq!(matched_symbols, &vec!["User".to_string()]);
    assert_eq!(hits[0].tier, Tier::Likely);
    assert_eq!(hits[0].confidence, 75);
}

#[test]
fn expanded_test_ref_evidence_calls_out_expansion_source() {
    let src = "#[test] fn t() { User::new(); }";
    let hits = find_in_expanded(src, &changed(&[]), &changed(&["User"]));
    assert!(
        hits[0].evidence.contains("after macro expansion"),
        "evidence should mark the finding as expansion-derived: {}",
        hits[0].evidence
    );
}

#[test]
fn expanded_test_ref_emits_nextest_filter_suggestion() {
    let src = "#[test] fn login_case() { login(); }";
    let hits = find_in_expanded(src, &changed(&[]), &changed(&["login"]));
    assert!(
        hits[0]
            .suggested_action
            .as_deref()
            .is_some_and(|s| s.contains("test(login_case)")),
        "expected nextest filter suggestion, got {:?}",
        hits[0].suggested_action
    );
}

#[test]
fn non_test_fns_are_not_emitted_as_test_refs() {
    let src = "fn helper() { let _ = User::default(); }";
    let hits = find_in_expanded(src, &changed(&[]), &changed(&["User"]));
    assert!(hits.is_empty());
}

#[test]
fn expanded_test_ref_respects_word_boundaries() {
    // `user_profile` must not match the changed symbol `user`.
    let src = "#[test] fn t() { let user_profile = 1; let _ = user_profile; }";
    let hits = find_in_expanded(src, &changed(&[]), &changed(&["user"]));
    assert!(hits.is_empty(), "unexpected hits: {hits:?}");
}

// --- Binary-only crate fallback ---

#[test]
fn is_no_library_error_matches_known_phrasings() {
    // cargo-expand's message (current phrasing).
    assert!(is_no_library_error(
        "error: no library targets found in package `foo`"
    ));
    // cargo's own variant used in some versions.
    assert!(is_no_library_error(
        "error: no lib target found in package `foo`"
    ));
    // Another phrasing surfaced in older cargo/cargo-expand combos.
    assert!(is_no_library_error(
        "error: the package `foo` does not have a library"
    ));
}

#[test]
fn is_no_library_error_is_case_insensitive() {
    assert!(is_no_library_error(
        "ERROR: No Library Targets Found in package `foo`"
    ));
}

#[test]
fn is_no_library_error_rejects_unrelated_errors() {
    assert!(!is_no_library_error(
        "error[E0382]: borrow of moved value `x`"
    ));
    assert!(!is_no_library_error("error: could not compile `foo`"));
    assert!(!is_no_library_error(""));
}

#[test]
fn impl_and_test_findings_emitted_together_from_same_stream() {
    let src = r#"
        struct User;
        impl Greeter for User { fn hi(&self) {} }
        #[test]
        fn uses_user() {
            let _ = User;
        }
    "#;
    let hits = find_in_expanded(src, &changed(&["Greeter"]), &changed(&["User"]));
    assert_eq!(hits.len(), 2);
    let kinds: Vec<_> = hits
        .iter()
        .map(|h| match &h.kind {
            FindingKind::TraitImpl { .. } => "impl",
            FindingKind::TestReference { .. } => "test",
            _ => "other",
        })
        .collect();
    assert!(kinds.contains(&"impl"));
    assert!(kinds.contains(&"test"));
}

#[test]
fn expansion_runs_only_when_asked_for_and_of_use() {
    let none = changed(&[]);
    let some = changed(&["X"]);
    assert_eq!(plan_expansion(false, &some, &none, true), ToolPlan::Skip);
    assert_eq!(plan_expansion(true, &none, &none, true), ToolPlan::Skip);
    assert_eq!(plan_expansion(true, &none, &some, false), ToolPlan::Missing);
    assert_eq!(plan_expansion(true, &some, &none, true), ToolPlan::Invoke);
    let text = Some("impl X for S {}".to_string());
    assert_eq!(run(true, &some, &none, true, &text).len(), 1);
    assert!(run(true, &some, &none, false, &text).is_empty());
    assert!(run(true, &some, &none, true, &None).is_empty());
}

#[test]
fn types_without_a_name_keep_their_text() {
    let hits = find_in_expanded("impl Greeter for (A, B) {}", &changed(&["Greeter"]), &changed(&[]));
    let FindingKind::TraitImpl { impl_for, impl_site, .. } = &hits[0].kind else {
        panic!("wrong kind");
    };
    assert_eq!(impl_for, "(A , B)");
    assert_eq!(impl_site.symbol, "impl Greeter for (A , B)");
}

#[test]
fn attributes_of_expanded_files_and_modules_are_walked() {
    let src = "#![x = { impl Greeter for A {} }]\n#[x = { #[test] fn t() { login(); } }]\nmod m {}\n";
    let hits = find_in_expanded(src, &changed(&["Greeter"]), &changed(&["login"]));
    assert_eq!(hits.len(), 2);
    assert!(matches!(&hits[0].kind, FindingKind::TraitImpl { impl_for, .. } if impl_for == "A"));
    assert!(matches!(&hits[1].kind, FindingKind::TestReference { test, .. } if test.symbol == "t"));
}
