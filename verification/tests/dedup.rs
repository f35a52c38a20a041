use cargo_impact::dedup::{dedup_expanded_under_raw, dedup_syn_under_proven};
use cargo_impact::finding::{Finding, FindingKind, Location, Tier};

fn proven_ref(target_file: &str, source_symbol: &str) -> Finding {
    let file = target_file.to_string();
    Finding::new(
        "",
        Tier::Proven,
        98,
        FindingKind::ResolvedReference {
            source_symbol: source_symbol.into(),
            target: Location {
                file: file.clone(),
                symbol: format!("{}:1", file),
            },
        },
        "ra ref",
    )
}

fn test_ref(file: &str, test_symbol: &str, matched: &[&str]) -> Finding {
    Finding::new(
        "",
        Tier::Likely,
        85,
        FindingKind::TestReference {
            test: Location {
                file: file.to_string(),
                symbol: test_symbol.into(),
            },
            matched_symbols: matched.iter().map(|s| (*s).to_string()).collect(),
        },
        "syn test",
    )
}

fn trait_impl(file: &str, trait_name: &str, impl_for: &str) -> Finding {
    Finding::new(
        "",
        Tier::Likely,
        80,
        FindingKind::TraitImpl {
            trait_name: trait_name.into(),
            impl_for: impl_for.into(),
            impl_site: Location {
                file: file.to_string(),
                symbol: format!("impl {trait_name} for {impl_for}"),
            },
        },
        "syn impl",
    )
}

fn dyn_dispatch(file: &str, trait_name: &str) -> Finding {
    Finding::new(
        "",
        Tier::Likely,
        75,
        FindingKind::DynDispatch {
            trait_name: trait_name.into(),
            site: Location {
                file: file.to_string(),
                symbol: format!("dyn {trait_name}"),
            },
        },
        "syn dyn",
    )
}

#[test]
fn empty_set_leaves_findings_untouched() {
    let mut findings = vec![test_ref("tests/a.rs", "t1", &["login"])];
    dedup_syn_under_proven(&mut findings);
    assert_eq!(findings.len(), 1);
}

#[test]
fn proven_ref_shadows_test_reference_at_same_file_and_symbol() {
    let mut findings = vec![
        proven_ref("tests/auth.rs", "login"),
        test_ref("tests/auth.rs", "t_login", &["login"]),
    ];
    dedup_syn_under_proven(&mut findings);
    assert_eq!(findings.len(), 1);
    assert_eq!(findings[0].tier, Tier::Proven);
}

#[test]
fn proven_ref_at_different_file_does_not_shadow() {
    let mut findings = vec![
        proven_ref("src/other.rs", "login"),
        test_ref("tests/auth.rs", "t_login", &["login"]),
    ];
    dedup_syn_under_proven(&mut findings);
    assert_eq!(findings.len(), 2);
}

#[test]
fn proven_ref_for_different_symbol_does_not_shadow() {
    let mut findings = vec![
        proven_ref("tests/auth.rs", "logout"),
        test_ref("tests/auth.rs", "t_login", &["login"]),
    ];
    dedup_syn_under_proven(&mut findings);
    assert_eq!(findings.len(), 2);
}

#[test]
fn test_reference_shadowed_by_any_matched_symbol() {
    // Syn emits one finding matching multiple symbols; if RA proves
    // any one of them, the syn finding is redundant.
    let mut findings = vec![
        proven_ref("tests/auth.rs", "login"),
        test_ref("tests/auth.rs", "t_auth", &["logout", "login", "refresh"]),
    ];
    dedup_syn_under_proven(&mut findings);
    assert_eq!(findings.len(), 1);
    assert_eq!(findings[0].tier, Tier::Proven);
}

#[test]
fn trait_impl_shadowed_by_proven_ref_on_trait_name() {
    let mut findings = vec![
        proven_ref("src/widget.rs", "Greeter"),
        trait_impl("src/widget.rs", "Greeter", "Widget"),
    ];
    dedup_syn_under_proven(&mut findings);
    assert_eq!(findings.len(), 1);
    assert_eq!(findings[0].tier, Tier::Proven);
}

#[test]
fn dyn_dispatch_shadowed_by_proven_ref_on_trait_name() {
    let mut findings = vec![
        proven_ref("src/bus.rs", "Handler"),
        dyn_dispatch("src/bus.rs", "Handler"),
    ];
    dedup_syn_under_proven(&mut findings);
    assert_eq!(findings.len(), 1);
    assert_eq!(findings[0].tier, Tier::Proven);
}

#[test]
fn semver_finding_without_path_is_never_shadowed() {
    let semver = Finding::new(
        "",
        Tier::Likely,
        90,
        FindingKind::SemverCheck {
            level: "breaking".into(),
            details: "foo removed".into(),
        },
        "semver",
    );
    let mut findings = vec![proven_ref("src/lib.rs", "foo"), semver];
    dedup_syn_under_proven(&mut findings);
    assert_eq!(findings.len(), 2);
}

#[test]
fn multiple_proven_refs_deduplicate_multiple_syn_findings() {
    let mut findings = vec![
        proven_ref("tests/a.rs", "login"),
        proven_ref("tests/b.rs", "logout"),
        test_ref("tests/a.rs", "t1", &["login"]),
        test_ref("tests/b.rs", "t2", &["logout"]),
        test_ref("tests/c.rs", "t3", &["other"]),
    ];
    dedup_syn_under_proven(&mut findings);
    assert_eq!(findings.len(), 3);
    // Surviving: 2 proven + the c.rs syn finding (no RA coverage).
    assert_eq!(
        findings.iter().filter(|f| f.tier == Tier::Proven).count(),
        2
    );
    assert_eq!(
        findings.iter().filter(|f| f.tier == Tier::Likely).count(),
        1
    );
}

#[test]
fn a_path_is_the_same_in_every_spelling() {
    let mut findings = vec![
        proven_ref("./tests//auth.rs", "login"),
        test_ref("tests/auth.rs", "t_login", &["login"]),
    ];
    dedup_syn_under_proven(&mut findings);
    // A leading `.` is a component of its own.
    assert_eq!(findings.len(), 2);
    let mut findings = vec![
        proven_ref("tests//auth.rs", "login"),
        test_ref("tests/auth.rs", "t_login", &["login"]),
    ];
    dedup_syn_under_proven(&mut findings);
    assert_eq!(findings.len(), 1);
}

#[test]
fn expanded_tests_give_way_to_raw_ones() {
    let mut findings = vec![
        test_ref("tests/a.rs", "t1", &["login"]),
        test_ref("<expanded>", "t1", &["login"]),
        test_ref("<expanded>", "t2", &["login"]),
    ];
    dedup_expanded_under_raw(&mut findings);
    let names: Vec<String> = findings
        .iter()
        .map(|f| match &f.kind {
            FindingKind::TestReference { test, .. } => format!("{}:{}", test.file, test.symbol),
            _ => String::new(),
        })
        .collect();
    assert_eq!(names, vec!["tests/a.rs:t1", "<expanded>:t2"]);
    let before = findings.clone();
    dedup_expanded_under_raw(&mut findings);
    assert_eq!(findings, before);
}
