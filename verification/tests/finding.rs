use cargo_impact::finding::{
    Finding, FindingKind, Location, SeverityClass, Tier, TierSummary, TraitChange,
};
use cargo_impact::format::render_json;

fn sample_kind() -> FindingKind {
    FindingKind::TestReference {
        test: Location {
            file: "tests/t.rs".into(),
            symbol: "smoke".into(),
        },
        matched_symbols: vec!["login".into()],
    }
}

#[test]
fn confidence_clamped_to_unit_interval() {
    let f = Finding::new("f-0001", Tier::Likely, 150, sample_kind(), "e");
    assert_eq!(f.confidence, 100);
    let f = Finding::new("f-0001", Tier::Likely, -50, sample_kind(), "e");
    assert_eq!(f.confidence, 0);
}

#[test]
fn default_severity_by_kind() {
    let f = Finding::new("x", Tier::Likely, 50, sample_kind(), "e");
    assert_eq!(f.severity, SeverityClass::Medium);
}

#[test]
fn tier_summary_tallies_correctly() {
    let mk = |tier: Tier, id: &str| Finding::new(id, tier, 50, sample_kind(), "e");
    let findings = vec![
        mk(Tier::Likely, "a"),
        mk(Tier::Likely, "b"),
        mk(Tier::Possible, "c"),
        mk(Tier::Unknown, "d"),
    ];
    let s = TierSummary::from_findings(&findings);
    assert_eq!(s.proven, 0);
    assert_eq!(s.likely, 2);
    assert_eq!(s.possible, 1);
    assert_eq!(s.unknown, 1);
}

#[test]
fn json_shape_uses_kind_tag() {
    let f = Finding::new("f-0001", Tier::Likely, 85, sample_kind(), "direct ref");
    let text = render_json(&vec![], &vec![], &vec![f]);
    let report: serde_json::Value = serde_json::from_str(&text).unwrap();
    let v = &report["findings"][0];
    assert_eq!(v["kind"], "test_reference");
    assert_eq!(v["tier"], "likely");
    assert_eq!(v["severity"], "medium");
    assert_eq!(v["confidence"], 0.85);
    assert!(v["test"].is_object());
}

#[test]
fn ids_depend_on_content_alone() {
    let a = Finding::new("", Tier::Likely, 85, sample_kind(), "e");
    let b = Finding::new("other", Tier::Possible, 10, sample_kind(), "e")
        .with_severity(SeverityClass::High)
        .with_suggested_action("act");
    assert_eq!(a.content_id(), b.content_id());
    let c = Finding::new("", Tier::Likely, 85, sample_kind(), "f");
    assert_ne!(a.content_id(), c.content_id());
    let kind = FindingKind::BuildScriptChanged { file: "build.rs".into() };
    let d = Finding::new("", Tier::Likely, 85, kind, "e");
    assert_ne!(a.content_id(), d.content_id());
    assert_eq!(a.content_id().len(), 18);
    assert!(a.content_id().starts_with("f-"));
    assert!(a.content_id()[2..].chars().all(|c| c.is_ascii_hexdigit()));
}

#[test]
fn every_tag_is_listed_once() {
    let tags = FindingKind::all_tags();
    assert_eq!(tags.len(), 12);
    for (i, t) in tags.iter().enumerate() {
        assert!(!tags[i + 1..].contains(t));
    }
    assert!(tags.contains(&sample_kind().tag()));
}

#[test]
fn only_semver_findings_have_no_path() {
    assert_eq!(sample_kind().primary_path(), Some("tests/t.rs"));
    let semver = FindingKind::SemverCheck { level: "breaking".into(), details: "".into() };
    assert_eq!(semver.primary_path(), None);
    assert_eq!(semver.default_severity(), SeverityClass::High);
}

#[test]
fn labels_icons_and_ranks() {
    assert_eq!(SeverityClass::High.as_label(), "HIGH");
    assert_eq!(SeverityClass::Unknown.as_label(), "UNKNOWN");
    assert_eq!(SeverityClass::Medium.icon(), "🟡");
    assert!(Tier::Proven.rank() > Tier::Likely.rank());
    assert!(Tier::Possible.rank() > Tier::Unknown.rank());
    assert_eq!(TraitChange::RequiredMethodSignatureChanged.severity(), SeverityClass::High);
    assert!(!TraitChange::RequiredMethodSignatureChanged.phrase().is_empty());
}
