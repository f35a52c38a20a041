use cargo_impact::names::NameSet;
use cargo_impact::nextest::AffectedTest;
use cargo_impact::report::print_text_report;

#[test]
fn plain_reports_are_exact() {
    let files = vec!["src/lib.rs".to_string()];
    let symbols = NameSet::from_names(&vec!["logout".to_string(), "login".to_string()]);
    let tests = vec![AffectedTest {
        name: "smoke".into(),
        file: "tests/t.rs".into(),
        matched_symbols: vec!["login".into(), "logout".into()],
    }];
    assert_eq!(
        print_text_report(&files, &symbols, &tests),
        "cargo-impact v0.4.0\n\nChanged files (1):\n  src/lib.rs\n\nCandidate symbols (2):\n  login\n  logout\n\nAffected tests (1):\n  smoke (tests/t.rs) — matches: login, logout\n\nRun `cargo impact --test` to get a cargo-nextest filter expression.\n"
    );
    assert!(print_text_report(&files, &symbols, &vec![]).ends_with(
        "Affected tests (0):\n\nNo tests matched. Run `cargo impact --test` to get an empty filter.\n"
    ));
}
