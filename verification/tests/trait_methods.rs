use cargo_impact::cfg::FeatureSet;
use cargo_impact::finding::{FindingKind, SeverityClass, Tier, TraitChange};
use cargo_impact::trait_methods::{classify_changes_in_file, TraitChangeRecord};

fn versions<'a>(head: &'a str, wt: &'a str) -> (&'a str, &'a str) {
    (head, wt)
}

fn first_change(records: &[TraitChangeRecord]) -> TraitChange {
    assert!(!records.is_empty(), "expected at least one change");
    records[0].change
}

#[test]
fn detects_required_method_added() {
    let (head, wt) = versions(
        "pub trait Greeter { fn hi(&self); }\n",
        "pub trait Greeter { fn hi(&self); fn hello(&self); }\n",
    );
    let recs = classify_changes_in_file(Some(wt), Some(head), "src.rs", &FeatureSet::Permissive);
    assert_eq!(recs.len(), 1);
    assert_eq!(recs[0].change, TraitChange::RequiredMethodAdded);
    assert_eq!(recs[0].method.as_deref(), Some("hello"));
    assert_eq!(recs[0].change.severity(), SeverityClass::High);
}

#[test]
fn detects_default_method_added() {
    let (head, wt) = versions(
        "pub trait Greeter { fn hi(&self); }\n",
        "pub trait Greeter { fn hi(&self); fn hello(&self) {} }\n",
    );
    let recs = classify_changes_in_file(Some(wt), Some(head), "src.rs", &FeatureSet::Permissive);
    assert_eq!(first_change(&recs), TraitChange::DefaultMethodAdded);
    assert_eq!(recs[0].change.severity(), SeverityClass::Low);
}

#[test]
fn detects_method_removed() {
    let (head, wt) = versions(
        "pub trait Greeter { fn hi(&self); fn bye(&self); }\n",
        "pub trait Greeter { fn hi(&self); }\n",
    );
    let recs = classify_changes_in_file(Some(wt), Some(head), "src.rs", &FeatureSet::Permissive);
    assert_eq!(first_change(&recs), TraitChange::MethodRemoved);
    assert_eq!(recs[0].method.as_deref(), Some("bye"));
}

#[test]
fn detects_required_method_signature_change() {
    let (head, wt) = versions(
        "pub trait Greeter { fn hi(&self) -> i32; }\n",
        "pub trait Greeter { fn hi(&self) -> String; }\n",
    );
    let recs = classify_changes_in_file(Some(wt), Some(head), "src.rs", &FeatureSet::Permissive);
    assert_eq!(
        first_change(&recs),
        TraitChange::RequiredMethodSignatureChanged
    );
    assert_eq!(recs[0].change.confidence(), 95);
}

#[test]
fn detects_default_body_change() {
    let (head, wt) = versions(
        "pub trait Greeter { fn hi(&self) -> u32 { 1 } }\n",
        "pub trait Greeter { fn hi(&self) -> u32 { 2 } }\n",
    );
    let recs = classify_changes_in_file(Some(wt), Some(head), "src.rs", &FeatureSet::Permissive);
    assert_eq!(first_change(&recs), TraitChange::DefaultMethodBodyChanged);
    assert_eq!(recs[0].change.severity(), SeverityClass::Low);
}

#[test]
fn detects_supertrait_change() {
    let (head, wt) = versions(
        "pub trait Greeter { fn hi(&self); }\n",
        "pub trait Greeter: Send { fn hi(&self); }\n",
    );
    let recs = classify_changes_in_file(Some(wt), Some(head), "src.rs", &FeatureSet::Permissive);
    assert!(
        recs.iter()
            .any(|r| r.change == TraitChange::SupertraitOrBoundChanged)
    );
}

#[test]
fn no_changes_when_trait_body_identical() {
    let body = "pub trait Greeter { fn hi(&self); }\n";
    let (head, wt) = versions(body, body);
    let recs = classify_changes_in_file(Some(wt), Some(head), "src.rs", &FeatureSet::Permissive);
    assert!(recs.is_empty());
}

#[test]
fn ignores_added_traits_delegating_to_top_level_diff() {
    // Trait didn't exist in HEAD at all — diff::diff_file handles this
    // as "trait added", no per-method classification fires here.
    let (head, wt) = versions(
        "pub fn seed() {}\n",
        "pub fn seed() {}\npub trait New { fn m(&self); }\n",
    );
    let recs = classify_changes_in_file(Some(wt), Some(head), "src.rs", &FeatureSet::Permissive);
    assert!(recs.is_empty());
}

#[test]
fn emits_multiple_changes_in_single_trait() {
    let (head, wt) = versions(
        "pub trait T { fn a(&self); fn b(&self) {} }\n",
        "pub trait T { fn a(&self, x: i32); fn c(&self); }\n",
    );
    let recs = classify_changes_in_file(Some(wt), Some(head), "src.rs", &FeatureSet::Permissive);
    let changes: Vec<_> = recs.iter().map(|r| r.change).collect();
    assert!(changes.contains(&TraitChange::RequiredMethodSignatureChanged));
    assert!(changes.contains(&TraitChange::RequiredMethodAdded));
    assert!(changes.contains(&TraitChange::MethodRemoved));
}

#[test]
fn record_renders_into_finding_with_correct_fields() {
    let rec = TraitChangeRecord {
        trait_name: "Greeter".into(),
        file: "src/lib.rs".into(),
        method: Some("hello".into()),
        change: TraitChange::RequiredMethodAdded,
    };
    let f = rec.into_finding();
    assert_eq!(f.severity, SeverityClass::High);
    assert_eq!(f.tier, Tier::Likely);
    assert_eq!(f.confidence, 95);
    assert!(f.evidence.contains("Greeter"));
    assert!(f.evidence.contains("hello"));
    match f.kind {
        FindingKind::TraitDefinitionChange { change, method, .. } => {
            assert_eq!(change, TraitChange::RequiredMethodAdded);
            assert_eq!(method.as_deref(), Some("hello"));
        }
        other => panic!("expected TraitDefinitionChange, got {other:?}"),
    }
}

#[test]
fn a_file_that_is_new_or_gone_has_no_trait_changes() {
    let src = Some("pub trait T { fn a(&self); }\n");
    assert!(classify_changes_in_file(src, None, "a.rs", &FeatureSet::Permissive).is_empty());
    assert!(classify_changes_in_file(None, src, "a.rs", &FeatureSet::Permissive).is_empty());
    assert!(classify_changes_in_file(Some("fn ("), src, "a.rs", &FeatureSet::Permissive).is_empty());
}

#[test]
fn a_changed_where_clause_is_a_changed_bound() {
    let (head, wt) = versions(
        "trait T<A> where A: Clone { fn m(&self); }",
        "trait T<A> where A: Clone + Send { fn m(&self); }",
    );
    let recs = classify_changes_in_file(Some(wt), Some(head), "src.rs", &FeatureSet::Permissive);
    assert_eq!(recs.len(), 1);
    assert_eq!(recs[0].change, TraitChange::SupertraitOrBoundChanged);
    assert_eq!(recs[0].method, None);
}
