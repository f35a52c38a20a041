use cargo_impact::cfg::FeatureSet;
use cargo_impact::ffi::find_ffi_changes;
use cargo_impact::finding::{FindingKind, SeverityClass, Tier};

fn versions<'a>(head: &'a str, wt: Option<&'a str>) -> (&'a str, Option<&'a str>) {
    (head, wt)
}

#[test]
fn detects_added_extern_c_fn() {
    let (head, wt) = versions(
        "pub fn regular() {}\n",
        Some(
            "pub fn regular() {}\n\
             extern \"C\" { fn foreign_call(x: i32) -> i32; }\n",
        ),
    );
    let hits = find_ffi_changes(wt, Some(head), "src.rs", &FeatureSet::Permissive);
    assert_eq!(hits.len(), 1);
    match &hits[0].kind {
        FindingKind::FfiSignatureChange { symbol, change, .. } => {
            assert_eq!(symbol, "foreign_call");
            assert_eq!(*change, "added");
        }
        other => panic!("unexpected {other:?}"),
    }
    assert_eq!(hits[0].severity, SeverityClass::High);
    assert_eq!(hits[0].tier, Tier::Likely);
    assert_eq!(hits[0].confidence, 95);
}

#[test]
fn detects_modified_extern_c_signature() {
    let (head, wt) = versions(
        "extern \"C\" { fn callback(x: i32) -> i32; }\n",
        Some("extern \"C\" { fn callback(x: i64) -> i32; }\n"),
    );
    let hits = find_ffi_changes(wt, Some(head), "src.rs", &FeatureSet::Permissive);
    assert_eq!(hits.len(), 1);
    match &hits[0].kind {
        FindingKind::FfiSignatureChange { symbol, change, .. } => {
            assert_eq!(symbol, "callback");
            assert_eq!(*change, "modified");
        }
        other => panic!("unexpected {other:?}"),
    }
}

#[test]
fn detects_removed_extern_c_symbol() {
    let (head, wt) = versions(
        "extern \"C\" { fn gone(); fn stays(); }\n",
        Some("extern \"C\" { fn stays(); }\n"),
    );
    let hits = find_ffi_changes(wt, Some(head), "src.rs", &FeatureSet::Permissive);
    let payloads: Vec<_> = hits
        .iter()
        .filter_map(|h| match &h.kind {
            FindingKind::FfiSignatureChange { symbol, change, .. } => {
                Some((symbol.clone(), *change))
            }
            _ => None,
        })
        .collect();
    assert_eq!(payloads, vec![("gone".to_string(), "removed")]);
}

#[test]
fn detects_no_mangle_fn_change() {
    let (head, wt) = versions(
        "#[no_mangle]\npub extern \"C\" fn exported(x: i32) -> i32 { x }\n",
        Some("#[no_mangle]\npub extern \"C\" fn exported(x: u32) -> i32 { x as i32 }\n"),
    );
    let hits = find_ffi_changes(wt, Some(head), "src.rs", &FeatureSet::Permissive);
    assert_eq!(hits.len(), 1);
    match &hits[0].kind {
        FindingKind::FfiSignatureChange { symbol, change, .. } => {
            assert_eq!(symbol, "exported");
            assert_eq!(*change, "modified");
        }
        other => panic!("unexpected {other:?}"),
    }
}

#[test]
fn ignores_unchanged_ffi_symbols() {
    let body = "extern \"C\" { fn stable(); }\n";
    let (head, wt) = versions(body, Some(body));
    let hits = find_ffi_changes(wt, Some(head), "src.rs", &FeatureSet::Permissive);
    assert!(hits.is_empty());
}

#[test]
fn a_new_file_adds_all_its_foreign_signatures() {
    let hits = find_ffi_changes(
        Some("pub extern \"C\" fn b() {}\n#[no_mangle] pub fn a() {}\nfn c() {}\n"),
        None,
        "src/ffi.rs",
        &FeatureSet::Permissive,
    );
    let evidence: Vec<&str> = hits.iter().map(|h| h.evidence.as_str()).collect();
    assert_eq!(
        evidence,
        vec![
            "FFI signature `a` added in src/ffi.rs — blast radius leaves Rust; downstream native consumers cannot be analyzed",
            "FFI signature `b` added in src/ffi.rs — blast radius leaves Rust; downstream native consumers cannot be analyzed",
        ]
    );
}

#[test]
fn every_foreign_signature_of_a_deleted_file_is_removed() {
    let head = "extern \"C\" { fn gone(); }\n#[no_mangle] pub fn a() {}\nfn plain() {}\n";
    let hits = find_ffi_changes(None, Some(head), "a.rs", &FeatureSet::Permissive);
    let got: Vec<(String, &str)> = hits
        .iter()
        .map(|f| match &f.kind {
            FindingKind::FfiSignatureChange { symbol, change, .. } => (symbol.clone(), *change),
            other => panic!("unexpected {other:?}"),
        })
        .collect();
    assert_eq!(got, vec![("a".to_string(), "removed"), ("gone".to_string(), "removed")]);
    assert!(hits.iter().all(|f| f.severity == SeverityClass::High));
    assert!(find_ffi_changes(None, None, "a.rs", &FeatureSet::Permissive).is_empty());
}

#[test]
fn a_file_that_does_not_parse_has_no_foreign_changes() {
    let head = "#[no_mangle] pub fn a() {}\n";
    assert!(find_ffi_changes(Some("fn ("), Some(head), "a.rs", &FeatureSet::Permissive).is_empty());
}
