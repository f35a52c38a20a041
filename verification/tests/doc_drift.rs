use cargo_impact::doc_drift::{extract_bracketed, extract_doc_lines, find_doc_drift};
use cargo_impact::finding::{FindingKind, SeverityClass, Tier};
use cargo_impact::names::NameSet;
use cargo_impact::paths::has_extension;
use cargo_impact::symbols::SourceFile;
use cargo_impact::tests_scan::is_skippable;

fn symbols(list: &[&str]) -> NameSet {
    let list: Vec<String> = list.iter().map(|s| s.to_string()).collect();
    NameSet::from_names(&list)
}

/// The documents and the Rust files that a walk from the root reaches.
fn tree(list: &[(&str, &str)]) -> (Vec<SourceFile>, Vec<SourceFile>) {
    let mut docs = Vec::new();
    let mut sources = Vec::new();
    for (path, text) in list {
        let parts: Vec<&str> = path.split('/').collect();
        let reached = parts
            .iter()
            .enumerate()
            .all(|(i, part)| !is_skippable(i + 1, part, i + 1 < parts.len()));
        let file = SourceFile { path: path.to_string(), text: text.to_string() };
        if reached && has_extension(path, "md") {
            docs.push(file);
        } else if reached && has_extension(path, "rs") {
            sources.push(file);
        }
    }
    (docs, sources)
}

#[test]
fn extracts_bracketed_intra_doc_link_with_backticks() {
    let got = extract_bracketed("See [`PaymentGateway`] for details.");
    assert_eq!(got, vec!["PaymentGateway".to_string()]);
}

#[test]
fn extracts_bracketed_plain_form() {
    let got = extract_bracketed("See [Greeter] for the trait.");
    assert_eq!(got, vec!["Greeter".to_string()]);
}

#[test]
fn ignores_markdown_url_link() {
    let got = extract_bracketed("[docs](https://example.com)");
    assert!(got.is_empty());
}

#[test]
fn flags_intra_doc_link_in_markdown_file() {
    let (docs, sources) = tree(&[("docs.md", "See [`Greeter`] for the greeting trait.\n")]);
    let hits = find_doc_drift(&docs, &sources, &symbols(&["Greeter"]));
    assert_eq!(hits.len(), 1);
    assert_eq!(hits[0].tier, Tier::Likely);
    assert_eq!(hits[0].confidence, 90);
    match &hits[0].kind {
        FindingKind::DocDriftLink { symbol, line, .. } => {
            assert_eq!(symbol, "Greeter");
            assert_eq!(*line, 1);
        }
        other => panic!("expected DocDriftLink, got {other:?}"),
    }
}

#[test]
fn flags_intra_doc_link_inside_rust_doc_comment() {
    let (docs, sources) = tree(&[("lib.rs", "/// Call [`Greeter::hi`] to greet.\npub fn go() {}\n")]);
    let hits = find_doc_drift(&docs, &sources, &symbols(&["Greeter"]));
    // Qualified paths resolve to their leading identifier, so
    // `[`Greeter::hi`]` matches the trait name at its usual (Likely) tier.
    assert_eq!(hits.len(), 1);
    assert_eq!(hits[0].kind.tag(), "doc_drift_link");
    match &hits[0].kind {
        FindingKind::DocDriftLink { symbol, line, .. } => {
            assert_eq!(symbol, "Greeter");
            assert_eq!(*line, 1);
        }
        other => panic!("expected DocDriftLink, got {other:?}"),
    }
}

#[test]
fn flags_keyword_mention_only_for_long_identifiers() {
    let (docs, sources) = tree(&[("doc.md", "The Greeter trait is important.\nAlso see Foo.\n")]);
    // "Greeter" (7 chars) → keyword hit. "Foo" (3 chars) → filtered out.
    let hits = find_doc_drift(&docs, &sources, &symbols(&["Greeter", "Foo"]));
    let tags: Vec<_> = hits.iter().map(|h| h.kind.tag()).collect();
    assert_eq!(tags, vec!["doc_drift_keyword"]);
    match &hits[0].kind {
        FindingKind::DocDriftKeyword { symbol, .. } => assert_eq!(symbol, "Greeter"),
        other => panic!("expected DocDriftKeyword, got {other:?}"),
    }
}

#[test]
fn link_finding_suppresses_duplicate_keyword_finding() {
    let (docs, sources) = tree(&[("doc.md", "See [`PaymentGateway`] — the PaymentGateway struct.\n")]);
    let hits = find_doc_drift(&docs, &sources, &symbols(&["PaymentGateway"]));
    let tags: Vec<_> = hits.iter().map(|h| h.kind.tag()).collect();
    // Exactly one DocDriftLink; the keyword scan must not also fire on the
    // same (symbol, file) pair.
    assert_eq!(tags, vec!["doc_drift_link"]);
}

#[test]
fn skips_target_directory() {
    let (docs, sources) = tree(&[("target/doc/generated.md", "See [`Greeter`] in the docs.\n")]);
    let hits = find_doc_drift(&docs, &sources, &symbols(&["Greeter"]));
    assert!(hits.is_empty());
}

#[test]
fn words_are_counted_in_characters() {
    let (docs, sources) = tree(&[("doc.md", "Die Größe zählt.\n")]);
    // Five characters, six bytes.
    assert!(find_doc_drift(&docs, &sources, &symbols(&["Größe"])).is_empty());
    let (docs, sources) = tree(&[("doc.md", "Die Größen zählen.\n")]);
    assert_eq!(find_doc_drift(&docs, &sources, &symbols(&["Größen"])).len(), 1);
}

#[test]
fn a_link_is_reported_once_for_a_file() {
    let (docs, sources) = tree(&[
        ("a.md", "[`Greeter`]\n\n[Greeter]\n"),
        ("b.md", "nothing\n[Greeter]\n"),
    ]);
    let hits = find_doc_drift(&docs, &sources, &symbols(&["Greeter"]));
    let places: Vec<(String, u32)> = hits
        .iter()
        .filter_map(|h| match &h.kind {
            FindingKind::DocDriftLink { doc, line, .. } => Some((doc.file.clone(), *line)),
            _ => None,
        })
        .collect();
    assert_eq!(places, vec![("a.md".to_string(), 1), ("b.md".to_string(), 2)]);
    assert_eq!(hits[0].evidence, "`Greeter` referenced via intra-doc link in a.md:1");
    assert_eq!(hits[0].severity, SeverityClass::Low);
}

#[test]
fn code_outside_doc_comments_is_not_read() {
    let (docs, sources) = tree(&[("src/lib.rs", "// [`Greeter`]\nlet x = \"[Greeter]\";\n")]);
    assert!(find_doc_drift(&docs, &sources, &symbols(&["Greeter"])).is_empty());
    let lines = extract_doc_lines("//! one\nfn f() {}\n    /// two\n");
    let numbers: Vec<u32> = lines.iter().map(|(n, _)| *n).collect();
    assert_eq!(numbers, vec![1, 3]);
}

#[test]
fn keyword_mentions_are_only_possible() {
    let (docs, sources) = tree(&[("doc.md", "The Greeter trait.\n")]);
    let hits = find_doc_drift(&docs, &sources, &symbols(&["Greeter"]));
    assert_eq!(hits[0].tier, Tier::Possible);
    assert_eq!(hits[0].confidence, 40);
    assert_eq!(
        hits[0].evidence,
        "`Greeter` mentioned in doc.md:1 (plain keyword, not an intra-doc link)"
    );
}

#[test]
fn a_link_suppresses_an_earlier_mention() {
    let (docs, sources) =
        tree(&[("doc.md", "PaymentGateway is great.\nSee [`PaymentGateway`].\nPaymentGateway!\n")]);
    let hits = find_doc_drift(&docs, &sources, &symbols(&["PaymentGateway"]));
    assert_eq!(hits.len(), 1);
    match &hits[0].kind {
        FindingKind::DocDriftLink { symbol, doc, line } => {
            assert_eq!(symbol, "PaymentGateway");
            assert_eq!(doc.file, "doc.md");
            assert_eq!(*line, 2);
        }
        other => panic!("unexpected {other:?}"),
    }
}
