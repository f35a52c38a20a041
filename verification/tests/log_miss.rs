use cargo_impact::log_miss::{
    git_head, log_file, logged_notice, miss_line, miss_record, LogMissArgs,
};
use serde_json::Value;

fn args(id: &str, what: &str) -> LogMissArgs {
    LogMissArgs { finding_id: id.into(), what_broke: what.into(), manifest_dir: None }
}

#[test]
fn creates_cache_directory_and_writes_record() {
    assert_eq!(log_file("/ws"), "/ws/target/ai-tools-cache/impact/misses.jsonl");
    let content = miss_line(&args("f-abcd1234", "missed test api_smoke"), 7, None);
    assert!(content.contains("f-abcd1234"));
    assert!(content.contains("missed test api_smoke"));
    assert!(content.ends_with('\n'));
    assert_eq!(
        content,
        "{\"timestamp\":7,\"tool_version\":\"0.4.0\",\"finding_id\":\"f-abcd1234\",\"what_broke\":\"missed test api_smoke\",\"git_head\":\"unknown\"}\n"
    );
}

#[test]
fn appends_multiple_records() {
    let mut content = String::new();
    for (id, msg) in [("f-1", "first"), ("f-2", "second"), ("f-3", "third")] {
        content.push_str(&miss_line(&args(id, msg), 1, Some("abc")));
    }
    let lines: Vec<_> = content.lines().collect();
    assert_eq!(lines.len(), 3);
    assert!(lines[0].contains("first"));
    assert!(lines[1].contains("second"));
    assert!(lines[2].contains("third"));
    assert_eq!(
        logged_notice("p", &content),
        "cargo-impact: logged miss to p\n(3 records total — free dataset for future heuristic tuning)"
    );
}

#[test]
fn each_line_is_valid_standalone_json() {
    let content =
        miss_line(&args("f-check", "contains \"quotes\" and a\nnewline\r"), 1, Some("abc"));
    assert_eq!(content.lines().count(), 1);
    for line in content.lines().filter(|l| !l.is_empty()) {
        let v: Value = serde_json::from_str(line).expect("each jsonl row must parse as JSON");
        assert_eq!(v["what_broke"], "contains \"quotes\" and a\nnewline\r");
        assert_eq!(v["git_head"], "abc");
    }
}

#[test]
fn a_record_is_a_line_without_its_line_feed() {
    let a = args("none", "x");
    assert_eq!(miss_record(&a, 9, Some("r")) + "\n", miss_line(&a, 9, Some("r")));
}

#[test]
fn the_revision_is_trimmed_and_needs_success() {
    assert_eq!(git_head(true, " abc\n"), Some("abc".to_string()));
    assert_eq!(git_head(false, "abc"), None);
}
