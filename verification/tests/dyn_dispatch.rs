use cargo_impact::cfg::FeatureSet;
use cargo_impact::dyn_dispatch::find_dyn_dispatch_sites;
use cargo_impact::finding::Tier;
use cargo_impact::names::NameSet;
use cargo_impact::symbols::SourceFile;

fn files(list: &[(&str, &str)]) -> Vec<SourceFile> {
    list.iter()
        .map(|(path, text)| SourceFile { path: path.to_string(), text: text.to_string() })
        .collect()
}

fn traits(list: &[&str]) -> NameSet {
    let list: Vec<String> = list.iter().map(|s| s.to_string()).collect();
    NameSet::from_names(&list)
}

#[test]
fn detects_box_dyn_trait() {
    let dir = files(&[(
        "src/lib.rs",
        "trait Handler {}\n\
         fn register(h: Box<dyn Handler>) { let _ = h; }\n",
    )]);
    let hits = find_dyn_dispatch_sites(&dir, &traits(&["Handler"]), &FeatureSet::Permissive);
    assert_eq!(hits.len(), 1);
    assert_eq!(hits[0].tier, Tier::Likely);
    assert_eq!(hits[0].confidence, 75);
}

#[test]
fn detects_reference_dyn_trait() {
    let dir = files(&[(
        "src/lib.rs",
        "trait Handler {}\n\
         fn dispatch(h: &dyn Handler) { let _ = h; }\n\
         fn dispatch_mut(h: &mut dyn Handler) { let _ = h; }\n",
    )]);
    let hits = find_dyn_dispatch_sites(&dir, &traits(&["Handler"]), &FeatureSet::Permissive);
    // Multiple uses in one file collapse to a single finding.
    assert_eq!(hits.len(), 1);
}

#[test]
fn ignores_dyn_of_unrelated_traits() {
    let dir = files(&[(
        "src/lib.rs",
        "fn run(f: Box<dyn std::error::Error>) { let _ = f; }\n",
    )]);
    let hits = find_dyn_dispatch_sites(&dir, &traits(&["Handler"]), &FeatureSet::Permissive);
    assert!(hits.is_empty());
}

#[test]
fn matches_qualified_trait_path_via_last_segment() {
    let dir = files(&[(
        "src/lib.rs",
        "fn run(f: &dyn crate::Handler) { let _ = f; }\n",
    )]);
    let hits = find_dyn_dispatch_sites(&dir, &traits(&["Handler"]), &FeatureSet::Permissive);
    assert_eq!(hits.len(), 1);
}

#[test]
fn one_finding_for_each_trait_in_order() {
    let dir = files(&[(
        "src/lib.rs",
        "fn a(x: &dyn Zed, y: &dyn Alpha, z: &dyn Zed) {}\n",
    )]);
    let hits = find_dyn_dispatch_sites(&dir, &traits(&["Zed", "Alpha"]), &FeatureSet::Permissive);
    let evidence: Vec<&str> = hits.iter().map(|h| &h.evidence[..11]).collect();
    assert_eq!(evidence, vec!["`dyn Alpha`", "`dyn Zed` u"]);
}

#[test]
fn dyn_types_in_attributes_of_files_and_modules_count() {
    let at_file = files(&[("a.rs", "#![x = { let h: Box<dyn Handler>; h }]\n")]);
    let at_module = files(&[("a.rs", "#[x = { let h: Box<dyn Handler>; h }]\nmod m;\n")]);
    for dir in [at_file, at_module] {
        let hits = find_dyn_dispatch_sites(&dir, &traits(&["Handler"]), &FeatureSet::Permissive);
        assert_eq!(hits.len(), 1);
    }
}
