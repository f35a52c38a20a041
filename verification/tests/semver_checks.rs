use cargo_impact::finding::{FindingKind, SeverityClass, Tier};
use cargo_impact::semver_checks::{
    combined, first_failing_lint, is_installed, parse_output, run, tool_bin,
};
use cargo_impact::tools::{candidate, plan, which, ToolOutput, ToolPlan};

#[test]
fn success_produces_no_findings() {
    let findings = parse_output(true, "whatever was on stdout");
    assert!(findings.is_empty());
}

#[test]
fn failure_yields_single_high_finding() {
    let findings = parse_output(false, "some scary looking cargo output");
    assert_eq!(findings.len(), 1);
    assert_eq!(findings[0].severity, SeverityClass::High);
    assert_eq!(findings[0].tier, Tier::Likely);
    assert_eq!(findings[0].confidence, 95);
    match &findings[0].kind {
        FindingKind::SemverCheck { level, details } => {
            assert_eq!(level, "breaking");
            assert!(details.contains("cargo output"));
        }
        other => panic!("expected SemverCheck, got {other:?}"),
    }
}

#[test]
fn first_failing_lint_extracted_as_evidence_when_present() {
    let output = "\
Building baseline … done
FAIL function_parameter_count_changed: `foo` now takes 3 params (was 2)
    at src/lib.rs:42
Other status noise
";
    let findings = parse_output(false, output);
    assert_eq!(findings.len(), 1);
    assert!(
        findings[0]
            .evidence
            .contains("function_parameter_count_changed"),
        "evidence should surface the first failing lint; got {:?}",
        findings[0].evidence
    );
}

#[test]
fn handles_alternative_failure_prefix_format() {
    let output = "--- failure enum_variant_added: ---\n body details";
    let findings = parse_output(false, output);
    assert_eq!(findings.len(), 1);
    assert!(findings[0].evidence.contains("enum_variant_added"));
}

#[test]
fn suggested_action_points_users_at_raw_tool() {
    let findings = parse_output(false, "FAIL anything");
    assert_eq!(findings.len(), 1);
    assert!(
        findings[0]
            .suggested_action
            .as_deref()
            .is_some_and(|s| s.contains("cargo semver-checks"))
    );
}

#[test]
fn run_returns_empty_when_disabled_regardless_of_tool_presence() {
    let findings = run(false, true, &Some(failed("FAIL x")));
    assert!(findings.is_empty());
}

#[test]
fn which_finds_a_ubiquitous_binary() {
    let dirs = vec!["/opt/bin".to_string(), "/usr/bin".to_string(), "/bin/".to_string()];
    assert_eq!(
        which("git", &dirs, &vec![false, true, true]),
        Some("/usr/bin/git".to_string())
    );
    assert_eq!(which("git", &dirs, &vec![false, false, true]), Some("/bin/git".to_string()));
    assert!(which("this-binary-does-not-exist-i-promise-xyz", &dirs, &vec![false; 3]).is_none());
}

fn failed(stderr: &str) -> ToolOutput {
    ToolOutput { success: false, stdout: "out".into(), stderr: stderr.into() }
}

#[test]
fn runs_need_the_flag_the_program_and_an_outcome() {
    let outcome = Some(failed("FAIL lint: x"));
    assert_eq!(run(true, true, &outcome).len(), 1);
    assert!(run(true, false, &outcome).is_empty());
    assert!(run(true, true, &None).is_empty());
    assert_eq!(run(true, true, &outcome)[0].evidence, "cargo-semver-checks: lint: x");
    assert_eq!(plan(false, true), ToolPlan::Skip);
    assert_eq!(plan(true, false), ToolPlan::Missing);
    assert_eq!(plan(true, true), ToolPlan::Invoke);
}

#[test]
fn both_streams_are_joined_by_a_line_feed() {
    assert_eq!(combined(&failed("err")), "out\nerr");
    assert_eq!(combined(&failed("")), "out");
    let quiet = ToolOutput { success: true, stdout: "".into(), stderr: "err".into() };
    assert_eq!(combined(&quiet), "err");
}

#[test]
fn the_first_lint_is_taken() {
    assert_eq!(first_failing_lint("ok\n  FAIL  a \nFAIL b"), Some("a".to_string()));
    assert_eq!(first_failing_lint("--- failure c: ---: ---"), Some("c".to_string()));
    assert_eq!(first_failing_lint("FAILED"), None);
    assert_eq!(
        parse_output(false, "x")[0].evidence,
        "cargo-semver-checks reports breaking public-API changes"
    );
}

#[test]
fn the_program_is_looked_for_on_the_search_path() {
    let dirs = vec!["/a".to_string(), "/b".to_string()];
    assert!(is_installed(&dirs, &vec![false, true]));
    assert!(!is_installed(&dirs, &vec![false, false]));
    assert!(!is_installed(&vec![], &vec![]));
    assert_eq!(candidate("/a", tool_bin()), "/a/cargo-semver-checks");
}
