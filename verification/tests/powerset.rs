use cargo_impact::analysis::AnalysisReport;
use cargo_impact::args::FailOn;
use cargo_impact::finding::{Finding, FindingKind, Location, SeverityClass, Tier};
use cargo_impact::powerset::merge_powerset_reports;

#[test]
fn fail_on_high_triggers_on_high_only() {
    assert!(FailOn::High.triggers(SeverityClass::High));
    assert!(!FailOn::High.triggers(SeverityClass::Medium));
    assert!(!FailOn::High.triggers(SeverityClass::Low));
    assert!(!FailOn::High.triggers(SeverityClass::Unknown));
}

#[test]
fn fail_on_medium_triggers_on_medium_and_above() {
    assert!(FailOn::Medium.triggers(SeverityClass::High));
    assert!(FailOn::Medium.triggers(SeverityClass::Medium));
    assert!(!FailOn::Medium.triggers(SeverityClass::Low));
}

#[test]
fn fail_on_low_triggers_on_everything_but_unknown() {
    assert!(FailOn::Low.triggers(SeverityClass::High));
    assert!(FailOn::Low.triggers(SeverityClass::Medium));
    assert!(FailOn::Low.triggers(SeverityClass::Low));
    assert!(!FailOn::Low.triggers(SeverityClass::Unknown));
}

fn mk_finding(id: &str, evidence: &str) -> Finding {
    let mut f = Finding::new(
        "",
        Tier::Likely,
        85,
        FindingKind::TestReference {
            test: Location { file: "tests/a.rs".into(), symbol: format!("test_{id}") },
            matched_symbols: vec![id.to_string()],
        },
        evidence,
    );
    f.id = id.to_string();
    f
}

fn report(findings: Vec<Finding>) -> AnalysisReport {
    AnalysisReport { changed_files: Vec::new(), candidate_symbols: Vec::new(), findings }
}

#[test]
fn baseline_findings_pass_through_unchanged() {
    let baseline = report(vec![mk_finding("a", "base evidence")]);
    let nodef = report(vec![]);
    let all = report(vec![]);
    let merged = merge_powerset_reports(baseline, nodef, all);
    assert_eq!(merged.findings.len(), 1);
    assert_eq!(merged.findings[0].evidence, "base evidence");
}

#[test]
fn finding_only_in_nodef_is_annotated_and_appended() {
    let baseline = report(vec![mk_finding("a", "base")]);
    let nodef = report(vec![mk_finding("b", "from-nodef")]);
    let all = report(vec![]);
    let merged = merge_powerset_reports(baseline, nodef, all);
    assert_eq!(merged.findings.len(), 2);
    let b = merged.findings.iter().find(|f| f.id == "b").unwrap();
    assert!(
        b.evidence.contains("--no-default-features"),
        "expected no-default annotation in evidence: {}",
        b.evidence
    );
    assert!(b.evidence.starts_with("from-nodef"));
    assert_eq!(b.evidence, "from-nodef (only visible with --no-default-features)");
}

#[test]
fn finding_only_in_all_features_is_annotated_and_appended() {
    let baseline = report(vec![]);
    let nodef = report(vec![]);
    let all = report(vec![mk_finding("c", "from-all")]);
    let merged = merge_powerset_reports(baseline, nodef, all);
    assert_eq!(merged.findings.len(), 1);
    let c = &merged.findings[0];
    assert!(c.evidence.contains("--all-features"));
    assert!(c.evidence.starts_with("from-all"));
}

#[test]
fn finding_visible_in_baseline_and_nodef_keeps_baseline_evidence() {
    let shared = mk_finding("dup", "baseline-text");
    let also_shared = mk_finding("dup", "nodef-text");
    let baseline = report(vec![shared]);
    let nodef = report(vec![also_shared]);
    let merged = merge_powerset_reports(baseline, nodef, report(vec![]));
    assert_eq!(merged.findings.len(), 1);
    assert_eq!(merged.findings[0].evidence, "baseline-text");
}

#[test]
fn same_id_in_both_extras_only_annotates_once() {
    let baseline = report(vec![]);
    let nodef = report(vec![mk_finding("x", "ev")]);
    let all = report(vec![mk_finding("x", "ev")]);
    let merged = merge_powerset_reports(baseline, nodef, all);
    assert_eq!(merged.findings.len(), 1);
    assert!(merged.findings[0].evidence.contains("--no-default-features"));
    assert!(!merged.findings[0].evidence.contains("--all-features"));
}

#[test]
fn merged_results_stay_sorted_by_severity_then_tier() {
    let high = {
        let mut f = Finding::new(
            "",
            Tier::Likely,
            90,
            FindingKind::BuildScriptChanged { file: "build.rs".into() },
            "build.rs changed",
        );
        f.id = "high".into();
        f
    };
    let med = mk_finding("med", "medium finding");
    let low = {
        let mut f = Finding::new(
            "",
            Tier::Likely,
            40,
            FindingKind::DocDriftKeyword {
                symbol: "foo".into(),
                doc: Location { file: "README.md".into(), symbol: "foo".into() },
                line: 1,
            },
            "doc drift",
        );
        f.id = "low".into();
        f
    };
    let baseline = report(vec![low]);
    let nodef = report(vec![med]);
    let all = report(vec![high]);
    let merged = merge_powerset_reports(baseline, nodef, all);
    let severities: Vec<_> = merged.findings.iter().map(|f| f.severity).collect();
    assert_eq!(
        severities,
        vec![SeverityClass::High, SeverityClass::Medium, SeverityClass::Low]
    );
}
