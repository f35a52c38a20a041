use cargo_impact::finding::{Finding, FindingKind, Location, SeverityClass, Tier};
use cargo_impact::format::{
    render, render_json, render_markdown, render_text, render_with_budget, Format,
};
use cargo_impact::pr_comment::{escape_pipe, render_pr_comment};
use cargo_impact::summary::ReportSummary;
use cargo_impact::sarif::{render_sarif, sarif_level, sarif_rule_name, sarif_rule_short};

fn sample_finding(id: &str) -> Finding {
    let kind = FindingKind::TestReference {
        test: Location {
            file: "tests/smoke.rs".into(),
            symbol: "smoke".into(),
        },
        matched_symbols: vec!["login".into()],
    };
    Finding::new(id, Tier::Likely, 85, kind, "direct ref")
}

#[test]
fn json_envelope_has_documented_fields() {
    let findings = vec![sample_finding("f-0001")];
    let out =
        render_json(&vec!["src/lib.rs".to_string()], &vec!["login".into()], &findings);
    let v: serde_json::Value = serde_json::from_str(&out).unwrap();
    assert!(v["version"].is_string());
    assert_eq!(v["changed_files"].as_array().unwrap().len(), 1);
    assert_eq!(v["findings"].as_array().unwrap().len(), 1);
    assert_eq!(v["summary"]["total"], 1);
    assert_eq!(v["findings"][0]["kind"], "test_reference");
}

#[test]
fn markdown_renders_severity_sections_and_checklist() {
    let findings = vec![sample_finding("f-0001")];
    let md = render_markdown(
        &vec!["src/lib.rs".to_string()],
        &vec!["login".into()],
        &findings,
        0,
    );
    assert!(md.contains("# cargo-impact"));
    assert!(md.contains("🟡 MEDIUM"));
    assert!(md.contains("## Verification checklist"));
    assert!(md.contains("- [ ]"));
    assert!(md.contains("f-0001"));
}

#[test]
fn markdown_budget_zero_matches_unlimited_behavior() {
    let findings = vec![
        sample_finding("a"),
        sample_finding("b"),
        sample_finding("c"),
    ];
    let changed = vec!["src/lib.rs".to_string()];
    let symbols = vec!["login".to_string()];
    let unlimited = render_markdown(&changed, &symbols, &findings, 0);
    let also_unlimited = render_markdown(&changed, &symbols, &findings, usize::MAX);
    assert_eq!(unlimited, also_unlimited);
    assert!(!unlimited.contains("Budget truncation"));
}

#[test]
fn markdown_budget_truncates_and_emits_footer_with_accurate_counts() {
    // 20 findings; a tight budget that fits the header+summary plus
    // at most a handful of bullets. The renderer must stop emitting,
    // then tell us *exactly* how many were dropped on each list so
    // the agent can decide whether to re-request with a larger cap
    // or switch to --format=json.
    let findings: Vec<Finding> = (0..20)
        .map(|i| sample_finding(&format!("f-{i:02}")))
        .collect();
    let md = render_markdown(
        &vec!["src/lib.rs".to_string()],
        &vec!["login".into()],
        &findings,
        1200,
    );

    // Header + summary always render — never drop them, even under a
    // hostile budget.
    assert!(md.contains("# cargo-impact"));
    assert!(md.contains("## Summary"));
    // Truncation footer names the limit and includes non-zero counts.
    assert!(md.contains("Budget truncation"));
    assert!(md.contains("--budget=1200"));
    // Output itself stayed under the budget (we never exceed).
    assert!(
        md.len() <= 1200 + 600, // footer itself is allowed to exceed slightly
        "rendered {} chars for budget 1200 — should stay close",
        md.len()
    );
}

#[test]
fn markdown_budget_preserves_highest_priority_findings() {
    // Mix High + Medium + Low. The sort order in lib.rs is severity
    // ascending (High first), so emitting top-down hits High before
    // Low. Tiny budget should keep at least one HIGH finding.
    let mk = |id: &str, sev: SeverityClass| {
        let mut f = sample_finding(id);
        f.severity = sev;
        f
    };
    let findings = vec![
        mk("high-1", SeverityClass::High),
        mk("high-2", SeverityClass::High),
        mk("med-1", SeverityClass::Medium),
        mk("med-2", SeverityClass::Medium),
        mk("low-1", SeverityClass::Low),
    ];
    let md = render_markdown(
        &vec!["src/lib.rs".to_string()],
        &vec!["login".into()],
        &findings,
        900,
    );
    assert!(
        md.contains("high-1"),
        "highest-priority finding must survive truncation"
    );
    // And the truncation message confirms omission happened.
    assert!(md.contains("Budget truncation"));
}

#[test]
fn markdown_budget_header_always_emitted_even_if_it_alone_exceeds() {
    // Pathological: budget smaller than the header. We still emit
    // the header + summary (the renderer's contract is "shape stays
    // intact"), then the truncation footer explains what happened.
    let findings = vec![sample_finding("f-0001")];
    let md = render_markdown(
        &vec!["src/lib.rs".to_string()],
        &vec!["login".into()],
        &findings,
        10,
    );
    assert!(md.contains("# cargo-impact"));
    assert!(md.contains("## Summary"));
    // Every finding and every checklist item should be omitted.
    assert!(md.contains("Budget truncation"));
}

#[test]
fn text_renders_all_severity_buckets_even_when_empty() {
    let text = render_text(
        &vec!["src/lib.rs".to_string()],
        &vec!["login".into()],
        &vec![sample_finding("f-0001")],
    );
    // Every severity bucket header must appear so the output is consistent
    // across runs, even when a bucket is empty.
    assert!(text.contains("HIGH (0)"));
    assert!(text.contains("MEDIUM (1)"));
    assert!(text.contains("LOW (0)"));
    assert!(text.contains("UNKNOWN (0)"));
}

#[test]
fn empty_findings_produce_valid_json() {
    let out = render_json(&vec![], &vec![], &vec![]);
    let v: serde_json::Value = serde_json::from_str(&out).unwrap();
    assert_eq!(v["summary"]["total"], 0);
    assert_eq!(v["findings"].as_array().unwrap().len(), 0);
}

// --- SARIF ---

#[test]
fn sarif_emits_stable_envelope_and_schema() {
    let findings = vec![sample_finding("f-0001")];
    let out = render_sarif(&findings);
    let v: serde_json::Value = serde_json::from_str(&out).unwrap();

    assert_eq!(v["version"], "2.1.0");
    assert_eq!(
        v["$schema"],
        "https://json.schemastore.org/sarif-2.1.0.json"
    );
    let driver = &v["runs"][0]["tool"]["driver"];
    assert_eq!(driver["name"], "cargo-impact");
    assert!(driver["rules"].as_array().unwrap().len() >= 12);

    let result = &v["runs"][0]["results"][0];
    assert_eq!(result["ruleId"], "test_reference");
    assert_eq!(result["message"]["text"], "direct ref");
    assert_eq!(
        result["partialFingerprints"]["primaryLocationLineHash"],
        "f-0001"
    );
}

#[test]
fn sarif_maps_severity_to_sarif_level() {
    assert_eq!(sarif_level(SeverityClass::High), "error");
    assert_eq!(sarif_level(SeverityClass::Medium), "warning");
    assert_eq!(sarif_level(SeverityClass::Low), "note");
    assert_eq!(sarif_level(SeverityClass::Unknown), "none");
}

#[test]
fn sarif_rule_names_use_camel_case() {
    assert_eq!(sarif_rule_name("test_reference"), "testReference");
    assert_eq!(
        sarif_rule_name("ffi_signature_change"),
        "ffiSignatureChange"
    );
    assert_eq!(sarif_rule_name("trait_impl"), "traitImpl");
}

#[test]
fn sarif_rules_cover_every_finding_kind() {
    // The SARIF rules list must enumerate all FindingKind tags so
    // scanners can hyperlink every result back to a rule.
    let rules_tags: std::collections::BTreeSet<String> = FindingKind::all_tags()
        .iter()
        .map(|s| (*s).to_string())
        .collect();
    assert_eq!(rules_tags.len(), 12);
    for tag in FindingKind::all_tags() {
        assert!(
            !sarif_rule_short(tag).is_empty(),
            "missing rule description for {tag}"
        );
    }
}

#[test]
fn sarif_includes_region_only_when_line_available() {
    // DocDriftLink carries a line number — region should be present.
    let drift = FindingKind::DocDriftLink {
        symbol: "Foo".into(),
        doc: Location {
            file: "docs/arch.md".into(),
            symbol: "Foo".into(),
        },
        line: 42,
    };
    let f = Finding::new("f-x", Tier::Likely, 90, drift, "intra-doc link");
    let out = render_sarif(&vec![f]);
    let v: serde_json::Value = serde_json::from_str(&out).unwrap();
    assert_eq!(
        v["runs"][0]["results"][0]["locations"][0]["physicalLocation"]["region"]["startLine"],
        42
    );

    // TestReference has no line — region should be absent.
    let test_ref = sample_finding("f-y");
    let out2 = render_sarif(&vec![test_ref]);
    let v2: serde_json::Value = serde_json::from_str(&out2).unwrap();
    assert!(
        v2["runs"][0]["results"][0]["locations"][0]["physicalLocation"]["region"].is_null(),
        "region should be absent when no line is known"
    );
}

#[test]
fn sarif_handles_empty_findings() {
    let out = render_sarif(&vec![]);
    let v: serde_json::Value = serde_json::from_str(&out).unwrap();
    assert_eq!(v["runs"][0]["results"].as_array().unwrap().len(), 0);
    // Rules list is still populated — schema-defined even when no results.
    assert!(
        v["runs"][0]["tool"]["driver"]["rules"]
            .as_array()
            .unwrap()
            .len()
            >= 12
    );
}

// --- PR comment ---

#[test]
fn pr_comment_shape_is_stable() {
    let findings = vec![sample_finding("f-0001")];
    let out = render_pr_comment(
        &vec!["src/lib.rs".to_string()],
        &vec!["login".into()],
        &findings,
        0,
    );
    // Header line with severity badges.
    assert!(out.starts_with("### 🎯 cargo-impact — "));
    // One <details> block per severity that has findings.
    assert!(
        out.contains("<details open><summary>🔴 HIGH")
            || out.contains("<details><summary>🟡 MEDIUM")
    );
    // Context block at the end.
    assert!(out.contains("📁 1 changed file · 1 candidate symbol"));
    // Tool attribution sub-footer.
    assert!(out.contains("cargo-impact v"));
}

#[test]
fn pr_comment_expands_high_by_default_collapses_others() {
    let mk = |id: &str, sev: SeverityClass| {
        let mut f = sample_finding(id);
        f.severity = sev;
        f
    };
    let findings = vec![
        mk("high-1", SeverityClass::High),
        mk("med-1", SeverityClass::Medium),
        mk("low-1", SeverityClass::Low),
    ];
    let out = render_pr_comment(
        &vec!["src/lib.rs".to_string()],
        &vec!["login".into()],
        &findings,
        0,
    );
    assert!(out.contains("<details open><summary>🔴 HIGH (1)"));
    assert!(out.contains("<details><summary>🟡 MEDIUM (1)"));
    assert!(out.contains("<details><summary>🔵 LOW (1)"));
}

#[test]
fn pr_comment_empty_findings_still_emits_header() {
    let out = render_pr_comment(&vec!["src/lib.rs".to_string()], &vec![], &vec![], 0);
    assert!(out.contains("0 findings"));
    assert!(out.contains("_No findings — nothing to verify._"));
}

#[test]
fn pr_comment_escapes_pipes_in_evidence() {
    let kind = FindingKind::TestReference {
        test: Location {
            file: "tests/t.rs".into(),
            symbol: "t".into(),
        },
        matched_symbols: vec!["f".into()],
    };
    let f = Finding::new(
        "f-pipe",
        Tier::Likely,
        80,
        kind,
        "evidence with | pipe char",
    );
    let out = render_pr_comment(&vec![], &vec![], &vec![f], 0);
    assert!(out.contains("with \\| pipe"));
}

#[test]
fn pr_comment_budget_truncates_with_notice() {
    let findings: Vec<Finding> = (0..30)
        .map(|i| sample_finding(&format!("f-{i:02}")))
        .collect();
    let out = render_pr_comment(
        &vec!["src/lib.rs".to_string()],
        &vec!["login".into()],
        &findings,
        1000,
    );
    assert!(out.contains("findings omitted"));
    assert!(out.contains("--budget=1000"));
}

// --- Exact pages ---

fn build_finding() -> Finding {
    let kind = FindingKind::BuildScriptChanged { file: "build.rs".into() };
    Finding::new("f-1", Tier::Likely, 90, kind, "why")
}

#[test]
fn text_report_is_exact() {
    let out = render(
        Format::Text,
        &vec!["build.rs".to_string()],
        &vec!["main".to_string()],
        &vec![build_finding()],
    );
    assert_eq!(
        out,
        "cargo-impact v0.4.0\n\nChanged files (1):\n  build.rs\n\nCandidate symbols (1):\n  main\n\n🔴 HIGH (1)\n  [f-1] `build.rs` changed (build.rs) · Likely 0.90\n\n🟡 MEDIUM (0)\n\n🔵 LOW (0)\n\n⚪ UNKNOWN (0)\n\n"
    );
}

#[test]
fn json_report_is_exact() {
    let out = render_json(&vec!["build.rs".to_string()], &vec![], &vec![build_finding()]);
    assert_eq!(
        out,
        r#"{
  "version": "0.4.0",
  "changed_files": [
    "build.rs"
  ],
  "candidate_symbols": [],
  "findings": [
    {
      "id": "f-1",
      "severity": "high",
      "tier": "likely",
      "confidence": 0.9,
      "kind": "build_script_changed",
      "file": "build.rs",
      "evidence": "why"
    }
  ],
  "summary": {
    "total": 1,
    "by_severity": {
      "high": 1
    },
    "by_tier": {
      "proven": 0,
      "likely": 1,
      "possible": 0,
      "unknown": 0
    }
  }
}"#
    );
}

#[test]
fn only_some_formats_heed_the_budget() {
    let findings: Vec<Finding> = (0..40).map(|i| sample_finding(&format!("f-{i:02}"))).collect();
    let files = vec!["src/lib.rs".to_string()];
    let symbols = vec!["login".to_string()];
    for format in [Format::Text, Format::Json, Format::Sarif] {
        assert_eq!(
            render_with_budget(format, &files, &symbols, &findings, 100),
            render(format, &files, &symbols, &findings)
        );
    }
    for format in [Format::Markdown, Format::PrComment] {
        assert!(
            render_with_budget(format, &files, &symbols, &findings, 100).len()
                < render(format, &files, &symbols, &findings).len()
        );
    }
}

#[test]
fn the_budget_counts_characters() {
    let findings = vec![sample_finding("f-1")];
    let files = vec!["src/lib.rs".to_string()];
    let symbols = vec!["login".to_string()];
    let page = render_markdown(&files, &symbols, &findings, 0);
    let chars = page.chars().count();
    assert!(chars < page.len());
    assert_eq!(render_markdown(&files, &symbols, &findings, chars), page);
    assert_ne!(render_markdown(&files, &symbols, &findings, chars - 1), page);
}

#[test]
fn cells_stay_on_one_line() {
    assert_eq!(escape_pipe("a|b\nc"), "a\\|b c");
    assert_eq!(escape_pipe("plain"), "plain");
}

/// A High finding with long evidence, then a Low one with short evidence.
fn long_then_short() -> Vec<Finding> {
    let ffi = FindingKind::FfiSignatureChange {
        symbol: "s".into(),
        file: "a.rs".into(),
        change: "added",
    };
    let link = FindingKind::DocDriftLink {
        symbol: "Gate".into(),
        doc: Location { file: "d.md".into(), symbol: "Gate".into() },
        line: 1,
    };
    vec![
        Finding::new("long", Tier::Likely, 95, ffi, "x".repeat(3000).as_str()),
        Finding::new("short", Tier::Likely, 90, link, "y"),
    ]
}

#[test]
fn nothing_is_written_behind_a_bullet_that_does_not_fit() {
    let findings = long_then_short();
    assert_eq!(findings[1].severity, SeverityClass::Low);
    let files = vec!["a.rs".to_string()];
    let md = render_markdown(&files, &vec![], &findings, 1500);
    assert!(!md.contains("[long]") && !md.contains("[short]"), "{md}");
    assert!(md.contains("2 findings and 0 checklist items omitted"), "{md}");
    // The checklist goes by its own lines.
    assert_eq!(md.matches("- [ ]").count(), 2);
    let all = render_markdown(&files, &vec![], &findings, 0);
    assert!(all.contains("[long]") && all.contains("[short]"));
}

#[test]
fn a_row_is_written_where_it_fits_behind_one_that_does_not() {
    let findings = long_then_short();
    let files = vec!["a.rs".to_string()];
    let out = render_pr_comment(&files, &vec![], &findings, 1500);
    assert!(out.contains("| `doc_drift_link` |"), "{out}");
    assert!(!out.contains("| `ffi_signature_change` |"), "{out}");
    assert!(out.contains("1 findings omitted to fit the `--budget=1500` cap."), "{out}");
    let all = render_pr_comment(&files, &vec![], &findings, 0);
    assert!(all.contains("| `ffi_signature_change` |") && !all.contains("omitted"), "{all}");
    // Nothing fits: the head and the counts are still there.
    let none = render_pr_comment(&files, &vec![], &findings, 1);
    assert!(none.starts_with("### 🎯 cargo-impact — 2 findings across 1 file\n"), "{none}");
    assert!(none.contains("2 findings omitted"), "{none}");
}

#[test]
fn the_summary_tallies_severities_by_name_and_tiers() {
    let findings = long_then_short();
    let s = ReportSummary::build(&findings);
    assert_eq!(s.total, 2);
    assert_eq!(s.by_severity, vec![("high".to_string(), 1), ("low".to_string(), 1)]);
    assert_eq!((s.by_tier.proven, s.by_tier.likely), (0, 2));
    let v: serde_json::Value =
        serde_json::from_str(&render_json(&vec![], &vec![], &findings)).unwrap();
    assert_eq!(v["summary"]["by_severity"]["high"], 1);
    assert_eq!(v["summary"]["by_tier"]["likely"], 2);
}
