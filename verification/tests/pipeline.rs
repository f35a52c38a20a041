use cargo_impact::analysis::{
    changed_symbols, context_file_list, AnalysisReport, ChangedFile, Pass, Revision, Workspace,
};
use cargo_impact::args::{FailOn, ImpactArgs};
use cargo_impact::cfg::FeatureSet;
use cargo_impact::cli::{run, run_with_defaults};
use cargo_impact::config::Defaults;
use cargo_impact::features::ManifestError;
use cargo_impact::finding::{Finding, FindingKind, Location, SeverityClass, Tier};
use cargo_impact::format::Format;
use cargo_impact::ignore::IgnoreSet;
use cargo_impact::powerset::{analyze, checks_of, pass_settings, wants_expansion};
use cargo_impact::progress::progress_events;
use cargo_impact::symbols::SourceFile;
use cargo_impact::tools::{ToolOutput, ToolPlan};
use serde_json::Value;

const MANIFEST: &str = "[package]\nname = \"fixture\"\nversion = \"0.1.0\"\nedition = \"2021\"\n\n[lib]\npath = \"src/lib.rs\"\n";

fn args() -> ImpactArgs {
    ImpactArgs {
        test: false,
        format: Format::Json,
        since: "HEAD".into(),
        manifest_dir: None,
        confidence_min: 0,
        fail_on: None,
        semver_checks: false,
        rust_analyzer: false,
        features: Vec::new(),
        all_features: false,
        no_default_features: false,
        budget: 0,
        context: false,
        feature_powerset: false,
        macro_expand: false,
    }
}

/// A workspace of one file, `src/lib.rs`, in both versions.
fn workspace(head: &str, wt: &str) -> Workspace {
    let changed = if head == wt {
        vec![]
    } else {
        vec![ChangedFile {
            path: "src/lib.rs".into(),
            worktree: Some(wt.into()),
            head: Revision::Text(head.into()),
        }]
    };
    Workspace {
        changed,
        sources: vec![SourceFile { path: "src/lib.rs".into(), text: wt.into() }],
        docs: vec![],
        ignore: IgnoreSet::empty(),
        semver_installed: false,
        semver_output: None,
        analyzer_installed: false,
        expand_installed: false,
        expanded: None,
    }
}

fn report(w: &Workspace, args: &ImpactArgs) -> AnalysisReport {
    analyze(w, args, Some(MANIFEST)).expect("manifest")
}

fn json(w: &Workspace, args: &ImpactArgs) -> (Value, i32) {
    let (stdout, code) = run(args, &report(w, args));
    (serde_json::from_str(&stdout).expect("parse JSON"), code)
}

#[test]
fn clean_workspace_reports_no_findings_and_exits_zero() {
    let body = "pub fn untouched() {}\n";
    let w = workspace(body, body);
    let (report, code) = json(&w, &args());
    assert_eq!(code, 0);
    assert_eq!(report["summary"]["total"], 0);
    assert!(report["findings"].as_array().unwrap().is_empty());
}

#[test]
fn trait_signature_change_emits_high_severity_findings() {
    let w = workspace(
        "pub trait Greeter { fn hi(&self) -> u32; }\n\
         pub struct Friend;\n\
         impl Greeter for Friend { fn hi(&self) -> u32 { 1 } }\n\
         \n\
         #[cfg(test)]\n\
         mod tests {\n\
         use super::*;\n\
         #[test] fn greets() { let _ = Friend.hi(); }\n\
         }\n",
        "pub trait Greeter { fn hi(&self) -> String; }\n\
         pub struct Friend;\n\
         impl Greeter for Friend { fn hi(&self) -> String { String::new() } }\n\
         \n\
         #[cfg(test)]\n\
         mod tests {\n\
         use super::*;\n\
         #[test] fn greets() { let _ = Friend.hi(); }\n\
         }\n",
    );
    let (report, code) = json(&w, &args());
    assert_eq!(code, 0);
    let findings = report["findings"].as_array().expect("findings array");
    assert!(
        !findings.is_empty(),
        "expected findings for a trait signature change; got none"
    );
    let kinds: Vec<&str> = findings.iter().filter_map(|f| f["kind"].as_str()).collect();
    assert!(
        kinds.contains(&"trait_definition_change"),
        "expected trait_definition_change finding; kinds = {kinds:?}"
    );
    assert!(
        kinds.contains(&"trait_impl"),
        "expected trait_impl finding; kinds = {kinds:?}"
    );
    assert!(report["summary"]["by_severity"]["high"].as_u64().unwrap() >= 1);
}

#[test]
fn fail_on_high_exits_nonzero_when_high_severity_finding_present() {
    let w = workspace(
        "pub trait Greeter { fn hi(&self); }\n\
         pub struct F;\n\
         impl Greeter for F { fn hi(&self) {} }\n",
        "pub trait Greeter { fn hi(&self, n: u32); }\n\
         pub struct F;\n\
         impl Greeter for F { fn hi(&self, n: u32) { let _ = n; } }\n",
    );
    let mut a = args();
    a.fail_on = Some(FailOn::High);
    let (_, code) = json(&w, &a);
    assert_eq!(code, 1, "--fail-on high should trip on trait sig change");
}

#[test]
fn derive_of_changed_trait_is_flagged() {
    let w = workspace(
        "pub trait Bundle {}\n\
         pub struct User;\n",
        "pub trait Bundle { fn count(&self) -> u32; }\n\
         #[derive(Bundle)]\n\
         pub struct User;\n",
    );
    let (report, _code) = json(&w, &args());
    let findings = report["findings"].as_array().unwrap();
    let kinds: Vec<&str> = findings.iter().filter_map(|f| f["kind"].as_str()).collect();
    assert!(
        kinds.contains(&"derived_trait_impl"),
        "expected derived_trait_impl finding; kinds = {kinds:?}"
    );
}

#[test]
fn test_flag_emits_nextest_filter_expression() {
    let w = workspace(
        "pub fn engine() -> u32 { 0 }\n\
         #[cfg(test)] mod tests {\n\
         use super::*;\n\
         #[test] fn uses_engine() { let _ = engine(); }\n\
         }\n",
        "pub fn engine() -> u32 { 1 }\n\
         #[cfg(test)] mod tests {\n\
         use super::*;\n\
         #[test] fn uses_engine() { let _ = engine(); }\n\
         }\n",
    );
    let mut a = args();
    a.test = true;
    let (stdout, code) = run(&a, &report(&w, &a));
    assert_eq!(code, 0);
    assert!(
        stdout.contains("test(uses_engine)"),
        "expected nextest filter to include the affected test; got {stdout:?}"
    );
    assert_eq!(stdout, "test(uses_engine)\n");
}

#[test]
fn json_output_schema_is_stable() {
    let w = workspace("pub fn a() {}\n", "pub fn a() { let _ = 1; }\n");
    let (report, _code) = json(&w, &args());
    for field in ["version", "changed_files", "candidate_symbols", "findings", "summary"] {
        assert!(
            !report[field].is_null(),
            "JSON envelope missing required field `{field}`"
        );
    }
    for field in ["total", "by_severity", "by_tier"] {
        assert!(!report["summary"][field].is_null(), "summary missing `{field}`");
    }
}

// --- The steps of a run ---

fn engine() -> Workspace {
    let mut w = workspace(
        "pub fn engine() -> u32 { 0 }\n",
        "pub fn engine() -> u32 { 1 }\n#[test] fn t() { engine(); }\n",
    );
    w.changed.push(ChangedFile {
        path: "sub/build.rs".into(),
        worktree: Some("fn main() {}".into()),
        head: Revision::Missing,
    });
    w.docs.push(SourceFile { path: "README.md".into(), text: "See [`engine`].\n".into() });
    w
}

#[test]
fn reports_list_files_symbols_and_ranked_findings() {
    let r = report(&engine(), &args());
    assert_eq!(r.changed_files, vec!["src/lib.rs", "sub/build.rs"]);
    assert_eq!(r.candidate_symbols, vec!["engine", "main", "t"]);
    let kinds: Vec<&str> = r.findings.iter().map(|f| f.kind.tag()).collect();
    assert_eq!(kinds, vec!["build_script_changed", "test_reference", "doc_drift_link"]);
    assert_eq!(
        r.findings[0].evidence,
        "build script `sub/build.rs` changed — build scripts can invalidate downstream compilation in non-obvious ways (env vars, rerun-if-*, generated code, linker flags)"
    );
    for f in &r.findings {
        assert_eq!(f.id, f.content_id());
        assert_ne!(f.tier, Tier::Proven);
    }
    assert_eq!(
        context_file_list(&r),
        vec!["README.md", "src/lib.rs", "sub/build.rs"]
    );
}

#[test]
fn ignored_and_doubtful_findings_are_left_out() {
    let mut w = engine();
    w.ignore = IgnoreSet::parse("sub\n");
    let kinds: Vec<String> =
        report(&w, &args()).findings.iter().map(|f| f.kind.tag().to_string()).collect();
    assert_eq!(kinds, vec!["test_reference", "doc_drift_link"]);
    let mut a = args();
    a.confidence_min = 86;
    let kinds: Vec<String> =
        report(&w, &a).findings.iter().map(|f| f.kind.tag().to_string()).collect();
    assert_eq!(kinds, vec!["doc_drift_link"]);
    a.confidence_min = 101;
    assert!(report(&w, &a).findings.is_empty());
    assert!(analyze(&w, &a, None).is_ok());
}

#[test]
fn helper_programs_add_their_findings() {
    let mut w = engine();
    let mut a = args();
    w.semver_installed = true;
    w.semver_output =
        Some(ToolOutput { success: false, stdout: "".into(), stderr: "FAIL lint".into() });
    w.expand_installed = true;
    w.expanded = Some("#[test] fn t() { engine(); } #[test] fn u() { engine(); }".into());
    assert_eq!(report(&w, &a).findings.len(), 3);
    a.semver_checks = true;
    a.macro_expand = true;
    let r = report(&w, &a);
    // The expanded `t` is covered by the raw one.
    assert_eq!(r.findings.len(), 5);
    assert!(r.findings.iter().any(|f| f.kind.tag() == "semver_check"));
    w.ignore = IgnoreSet::parse("*\n");
    let r = report(&w, &a);
    let kinds: Vec<&str> = r.findings.iter().map(|f| f.kind.tag()).collect();
    assert_eq!(kinds, vec!["semver_check"]);
}

#[test]
fn a_file_that_git_cannot_show_has_no_symbols() {
    let mut w = engine();
    w.changed[0].head = Revision::Failed;
    w.changed.truncate(1);
    assert!(changed_symbols(&w.changed, &FeatureSet::Permissive).is_empty());
    w.changed[0].head = Revision::Text("fn (".into());
    let names: Vec<String> = changed_symbols(&w.changed, &FeatureSet::Permissive)
        .into_iter()
        .map(|s| s.name)
        .collect();
    assert_eq!(names, vec!["engine", "t"]);
}

#[test]
fn a_broken_manifest_fails_the_run() {
    assert_eq!(analyze(&engine(), &args(), Some("[")).err(), Some(ManifestError::Unparseable));
}

#[test]
fn feature_sets_are_compared_on_request() {
    let manifest = "[features]\ndefault = []\nextra = []\n";
    let head = "pub fn engine() {}\n";
    let wt = "pub fn engine() { 1; }\n#[cfg(feature = \"extra\")] #[test] fn t() { engine(); }\n";
    let w = workspace(head, wt);
    let mut a = args();
    assert!(analyze(&w, &a, Some(manifest)).unwrap().findings.is_empty());
    a.feature_powerset = true;
    let r = analyze(&w, &a, Some(manifest)).unwrap();
    assert_eq!(r.findings.len(), 1);
    assert!(r.findings[0].evidence.ends_with(" (only visible with --all-features)"));
    assert_eq!(r.candidate_symbols, vec!["engine"]);
}

// --- What a run prints ---

fn one_low() -> AnalysisReport {
    let kind = FindingKind::DocDriftLink {
        symbol: "a".into(),
        doc: Location { file: "docs/a.md".into(), symbol: "a".into() },
        line: 1,
    };
    AnalysisReport {
        changed_files: vec!["src/lib.rs".into()],
        candidate_symbols: vec!["a".into()],
        findings: vec![Finding::new("f-1", Tier::Likely, 90, kind, "e")],
    }
}

#[test]
fn fail_levels_are_reached_at_their_severity() {
    let r = one_low();
    assert_eq!(r.findings[0].severity, SeverityClass::Low);
    let mut a = args();
    assert_eq!(run(&a, &r).1, 0);
    a.fail_on = Some(FailOn::Medium);
    assert_eq!(run(&a, &r).1, 0);
    a.fail_on = Some(FailOn::Low);
    assert_eq!(run(&a, &r).1, 1);
    a.test = true;
    assert_eq!(run(&a, &r), ("\n".to_string(), 0));
    a.context = true;
    assert_eq!(run(&a, &r), ("docs/a.md\nsrc/lib.rs\n".to_string(), 0));
}

#[test]
fn runs_without_changes_say_so() {
    let r = AnalysisReport { changed_files: vec![], candidate_symbols: vec![], findings: vec![] };
    let mut a = args();
    a.format = Format::Text;
    a.since = "main".into();
    assert_eq!(
        run(&a, &r),
        ("cargo-impact: no Rust files changed relative to main\n".to_string(), 0)
    );
    a.test = true;
    assert_eq!(run(&a, &r), ("\n".to_string(), 0));
    a.context = true;
    assert_eq!(run(&a, &r), (String::new(), 0));
    a.context = false;
    a.test = false;
    a.format = Format::Markdown;
    assert!(run(&a, &r).0.starts_with("# cargo-impact v0.4.0"));
}

#[test]
fn progress_is_told_in_order() {
    let files = vec!["a.rs".to_string(), "b.rs".to_string()];
    let events = progress_events(&files, true, false, true, false);
    let told: Vec<(&str, usize, usize, Option<&str>)> =
        events.iter().map(|e| (e.stage, e.current, e.total, e.detail)).collect();
    assert_eq!(
        told,
        vec![
            ("symbols", 0, 2, Some("a.rs")),
            ("symbols", 1, 2, Some("b.rs")),
            ("analyzers", 0, 6, Some("tests_scan")),
            ("analyzers", 1, 6, Some("traits")),
            ("analyzers", 2, 6, Some("derive")),
            ("analyzers", 3, 6, Some("dyn_dispatch")),
            ("analyzers", 4, 6, Some("doc_drift")),
            ("analyzers", 5, 6, Some("adapters")),
            ("semver_checks", 1, 1, None),
            ("macro_expand", 0, 1, None),
            ("done", 1, 1, None),
        ]
    );
    let none: Vec<String> = vec![];
    let quiet = progress_events(&none, true, true, true, true);
    let stages: Vec<&str> = quiet.iter().map(|e| e.stage).collect();
    assert_eq!(
        stages,
        vec!["done", "powerset_no_default", "done", "powerset_all_features", "done"]
    );
}

#[test]
fn two_runs_print_the_same() {
    let head = "pub trait T { fn a(&self); }\npub struct S;\nimpl T for S { fn a(&self) {} }\n";
    let wt = "pub trait T { fn a(&self) -> u8; }\npub struct S;\nimpl T for S { fn a(&self) -> u8 { 1 } }\n";
    for format in [Format::Text, Format::Markdown, Format::Json, Format::Sarif, Format::PrComment] {
        let mut a = args();
        a.format = format;
        a.feature_powerset = true;
        let first = run(&a, &analyze(&workspace(head, wt), &a, Some(MANIFEST)).unwrap());
        let second = run(&a, &analyze(&workspace(head, wt), &a, Some(MANIFEST)).unwrap());
        assert!(first.0.contains("impl"), "{}", first.0);
        assert_eq!(first, second);
    }
}

const TRAIT_HEAD: &str = "pub trait T { fn a(&self); }\npub struct S;\nimpl T for S { fn a(&self) {} }\n";
const TRAIT_WT: &str = "pub trait T { fn a(&self) -> u8; }\npub struct S;\nimpl T for S { fn a(&self) -> u8 { 1 } }\n";

#[test]
fn the_fail_level_of_the_defaults_decides_on_the_exit_code() {
    let w = workspace(TRAIT_HEAD, TRAIT_WT);
    let r = report(&w, &args());
    assert!(r.findings.iter().any(|f| f.severity == SeverityClass::High));
    let named = |name: &str| Defaults { fail_on: Some(name.into()), ..Defaults::default() };
    assert_eq!(run_with_defaults(&named("high"), args(), &r).1, 1);
    assert_eq!(run_with_defaults(&named("HIGH"), args(), &r).1, 1);
    assert_eq!(run_with_defaults(&named("grave"), args(), &r).1, 0);
    assert_eq!(run_with_defaults(&Defaults::default(), args(), &r).1, 0);
    let mut listed = args();
    listed.context = true;
    assert_eq!(run_with_defaults(&named("high"), listed, &r).1, 0);
}

#[test]
fn the_budget_of_the_defaults_binds_the_page() {
    let w = workspace(TRAIT_HEAD, TRAIT_WT);
    let r = report(&w, &args());
    let mut markdown = args();
    markdown.format = Format::Markdown;
    let defaults = Defaults { budget: Some(300), ..Defaults::default() };
    let (out, _) = run_with_defaults(&defaults, markdown, &r);
    assert!(out.contains("--budget=300"), "{out}");
}

#[test]
fn a_pass_in_steps_gives_the_report() {
    let w = workspace(TRAIT_HEAD, TRAIT_WT);
    let features = FeatureSet::Permissive;
    let mut pass = Pass::begin();
    for _ in 0..w.changed.len() + 6 {
        pass = pass.step(&w, &features);
    }
    assert_eq!((pass.files, pass.analyzers), (1, 6));
    let stepped = pass.finish(&w, checks_of(&args()), &features);
    assert_eq!(stepped, analyze(&w, &args(), None).unwrap());
    assert!(!stepped.findings.is_empty());
}

#[test]
fn expansion_is_wanted_when_some_pass_uses_it() {
    // Under the default features nothing changed.
    let head = "#[cfg(feature = \"x\")] pub fn f() { 1; }\n";
    let wt = "#[cfg(feature = \"x\")] pub fn f() { 2; }\n";
    let manifest = "[package]\nname = \"m\"\n[features]\nx = []\n";
    let mut w = workspace(head, wt);
    let mut a = args();
    assert_eq!(wants_expansion(&w, &a, Some(manifest)), Ok(ToolPlan::Skip));
    a.macro_expand = true;
    assert_eq!(pass_settings(&a).len(), 1);
    assert_eq!(wants_expansion(&w, &a, Some(manifest)), Ok(ToolPlan::Skip));
    a.feature_powerset = true;
    assert_eq!(pass_settings(&a).len(), 3);
    assert_eq!(wants_expansion(&w, &a, Some(manifest)), Ok(ToolPlan::Missing));
    w.expand_installed = true;
    assert_eq!(wants_expansion(&w, &a, Some(manifest)), Ok(ToolPlan::Invoke));
    assert_eq!(wants_expansion(&w, &a, Some("=")), Err(ManifestError::Unparseable));
}
