use cargo_impact::finding::{Finding, FindingKind, Location, Tier};
use cargo_impact::nextest::{filter_expression, nextest_filter, AffectedTest};

fn mk(name: &str) -> AffectedTest {
    AffectedTest { name: name.into(), file: "tests/t.rs".into(), matched_symbols: vec![] }
}

#[test]
fn empty_input_yields_empty_filter() {
    assert_eq!(filter_expression(&vec![]), "");
}

#[test]
fn single_test() {
    assert_eq!(filter_expression(&vec![mk("foo")]), "test(foo)");
}

#[test]
fn multiple_tests_joined_with_or() {
    let out = filter_expression(&vec![mk("a"), mk("b"), mk("c")]);
    assert_eq!(out, "test(a) + test(b) + test(c)");
}

#[test]
fn filter_of_findings_names_their_tests() {
    let kind = FindingKind::TestReference {
        test: Location { file: "tests/a.rs".into(), symbol: "smoke".into() },
        matched_symbols: vec!["login".into()],
    };
    let build = FindingKind::BuildScriptChanged { file: "build.rs".into() };
    let findings = vec![
        Finding::new("f-0000", Tier::Likely, 90, build, "b"),
        Finding::new("f-0001", Tier::Likely, 85, kind, "ref"),
    ];
    assert_eq!(nextest_filter(&findings), "test(smoke)");
}
