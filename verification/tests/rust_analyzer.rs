use cargo_impact::rust_analyzer::{is_installed, run, tool_bin};

#[test]
fn disabled_flag_returns_empty_without_touching_path() {
    let findings = run(false, true);
    assert!(findings.is_empty());
}

#[test]
fn enabled_without_tool_returns_empty_findings() {
    assert!(run(true, false).is_empty());
    assert!(run(true, true).is_empty());
}

#[test]
fn the_analyzer_is_looked_for_on_the_search_path() {
    assert_eq!(tool_bin(), "rust-analyzer");
    assert!(is_installed(&vec!["/a".into()], &vec![true]));
    assert!(!is_installed(&vec!["/a".into()], &vec![]));
}
