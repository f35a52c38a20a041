use cargo_impact::analysis::AnalysisReport;
use cargo_impact::finding::{Finding, FindingKind, Location, Tier};
use cargo_impact::format::Format;
use cargo_impact::mcp::{
    analysis_reply, failure_reply, handle_line, handle_message, progress_notification, AnalyzeArgs,
    McpAction,
};
use cargo_impact::progress::ProgressEvent;
use serde_json::Value;

fn value(src: &str) -> Value {
    serde_json::from_str(src).expect("test input")
}

fn run_one(src: &str) -> Value {
    match handle_message(&value(src)) {
        McpAction::Reply(line) => serde_json::from_str(&line).expect("parse response"),
        other => panic!("expected a reply, got {other:?}"),
    }
}

#[test]
fn initialize_advertises_tools_capability() {
    let resp = run_one(r#"{"jsonrpc": "2.0", "id": 1, "method": "initialize", "params": {}}"#);
    assert_eq!(resp["jsonrpc"], "2.0");
    assert_eq!(resp["id"], 1);
    assert!(resp["result"]["capabilities"]["tools"].is_object());
    assert_eq!(resp["result"]["serverInfo"]["name"], "cargo-impact");
    assert_eq!(resp["result"]["protocolVersion"], "2024-11-05");
}

#[test]
fn tools_list_returns_three_tools() {
    let resp = run_one(r#"{"jsonrpc": "2.0", "id": 2, "method": "tools/list"}"#);
    let tools = resp["result"]["tools"].as_array().unwrap();
    assert_eq!(tools.len(), 3);
    let names: Vec<&str> = tools.iter().map(|t| t["name"].as_str().unwrap()).collect();
    assert!(names.contains(&"impact_analyze"));
    assert!(names.contains(&"impact_test_filter"));
    assert!(names.contains(&"impact_version"));
    let args = tools[0]["inputSchema"]["properties"].as_object().unwrap();
    assert_eq!(args.len(), 8);
    assert_eq!(args["confidence_min"]["maximum"], 1);
    assert_eq!(args["features"]["items"]["type"], "string");
    assert_eq!(tools[2]["inputSchema"]["properties"].as_object().unwrap().len(), 0);
}

#[test]
fn impact_version_tool_returns_crate_version() {
    let resp = run_one(
        r#"{"jsonrpc": "2.0", "id": 3, "method": "tools/call",
            "params": {"name": "impact_version", "arguments": {}}}"#,
    );
    let text = resp["result"]["content"][0]["text"].as_str().unwrap();
    assert_eq!(text, "0.4.0");
}

#[test]
fn unknown_method_returns_method_not_found_error() {
    let resp = run_one(r#"{"jsonrpc": "2.0", "id": 4, "method": "totally_fake"}"#);
    assert_eq!(resp["error"]["code"], -32601);
    assert_eq!(resp["error"]["message"], "method not found: totally_fake");
}

#[test]
fn unknown_tool_returns_internal_error() {
    let resp = run_one(
        r#"{"jsonrpc": "2.0", "id": 5, "method": "tools/call",
            "params": {"name": "bogus", "arguments": {}}}"#,
    );
    assert!(resp["error"]["message"].as_str().unwrap().contains("bogus"));
    assert_eq!(resp["error"]["code"], -32000);
}

#[test]
fn analyze_args_defaults_populate_impact_args_sensibly() {
    let args = AnalyzeArgs::default().into_impact_args();
    assert_eq!(args.since, "HEAD");
    assert!(!args.semver_checks);
    assert!(!args.rust_analyzer);
    assert!(matches!(args.format, Format::Json));
}

#[test]
fn notifications_without_id_produce_no_response() {
    let notification = value(r#"{"jsonrpc": "2.0", "method": "notifications/initialized"}"#);
    assert!(
        matches!(handle_message(&notification), McpAction::Silent),
        "notifications must not elicit a response"
    );
    assert!(matches!(handle_message(&value(r#"{"method": "anything"}"#)), McpAction::Silent));
}

#[test]
fn mcp_version_tool_responds_to_tools_call_over_stdio() {
    let req = r#"{"jsonrpc":"2.0","id":1,"method":"tools/call","params":{"name":"impact_version","arguments":{}}}"#;
    let McpAction::Reply(line) = handle_line(req) else {
        panic!("expected a reply");
    };
    let resp: Value = serde_json::from_str(&line).unwrap();
    assert_eq!(resp["jsonrpc"], "2.0");
    assert_eq!(resp["id"], 1);
    let text = resp["result"]["content"][0]["text"].as_str().unwrap();
    assert!(
        !text.is_empty() && text.chars().any(|c| c.is_ascii_digit()),
        "expected a version string, got {text:?}"
    );
}

#[test]
fn lines_that_are_no_json_get_a_parse_error() {
    let McpAction::Reply(line) = handle_line("{") else {
        panic!("expected a reply");
    };
    assert_eq!(
        line,
        r#"{"error":{"code":-32700,"message":"parse error"},"id":null,"jsonrpc":"2.0"}"#
    );
    assert!(matches!(handle_line("  \t"), McpAction::Silent));
}

#[test]
fn shutdown_answers_and_exit_ends() {
    let resp = run_one(r#"{"id": "a", "method": "shutdown"}"#);
    assert!(resp["result"].is_null());
    assert_eq!(resp["id"], "a");
    assert!(matches!(handle_message(&value(r#"{"method": "exit"}"#)), McpAction::Exit));
}

#[test]
fn a_tool_call_needs_a_name() {
    let resp = run_one(r#"{"id": 1, "method": "tools/call"}"#);
    assert_eq!(resp["error"]["message"], "missing tool name");
    let resp = run_one(r#"{"id": 1, "method": "tools/call", "params": {"name": 3}}"#);
    assert_eq!(resp["error"]["message"], "missing tool name");
    let resp = run_one(r#"{"id": 1, "method": 3}"#);
    assert_eq!(resp["error"]["message"], "method not found: ");
}

#[test]
fn analysis_requests_carry_their_arguments() {
    let m = value(
        r#"{"id": 9, "method": "tools/call",
            "params": {"name": "impact_test_filter", "arguments": {"since": "main"}}}"#,
    );
    match handle_message(&m) {
        McpAction::Analyze { id, arguments, filter } => {
            assert_eq!(id, 9);
            assert_eq!(arguments["since"], "main");
            assert!(filter);
        }
        other => panic!("expected an analysis, got {other:?}"),
    }
    let m = value(r#"{"id": 9, "method": "tools/call", "params": {"name": "impact_analyze"}}"#);
    match handle_message(&m) {
        McpAction::Analyze { arguments, filter, .. } => {
            assert_eq!(arguments, value("{}"));
            assert!(!filter);
        }
        other => panic!("expected an analysis, got {other:?}"),
    }
}

#[test]
fn analysis_replies_hold_the_report_or_the_filter() {
    let kind = FindingKind::TestReference {
        test: Location { file: "tests/a.rs".into(), symbol: "smoke".into() },
        matched_symbols: vec!["login".into()],
    };
    let report = AnalysisReport {
        changed_files: vec!["src/lib.rs".into()],
        candidate_symbols: vec!["login".into()],
        findings: vec![Finding::new("f-1", Tier::Likely, 85, kind, "ref")],
    };
    let reply: Value = serde_json::from_str(&analysis_reply(&value("7"), &report, true)).unwrap();
    assert_eq!(reply["id"], 7);
    assert_eq!(reply["result"]["content"][0]["text"], "test(smoke)");
    let reply: Value = serde_json::from_str(&analysis_reply(&value("7"), &report, false)).unwrap();
    let inner: Value =
        serde_json::from_str(reply["result"]["content"][0]["text"].as_str().unwrap()).unwrap();
    assert_eq!(inner["summary"]["total"], 1);
    let reply: Value = serde_json::from_str(&failure_reply(&value("7"), "no luck")).unwrap();
    assert_eq!(reply["error"]["message"], "no luck");
}

#[test]
fn progress_is_told_as_a_log_message() {
    let file = ProgressEvent { stage: "symbols", current: 1, total: 3, detail: Some("src/a.rs") };
    assert_eq!(
        progress_notification(&file),
        concat_lines(&[
            r#"{"jsonrpc":"2.0","method":"notifications/message","params":"#,
            r#"{"data":{"current":1,"detail":"src/a.rs","stage":"symbols","total":3},"#,
            r#""level":"info","logger":"cargo-impact"}}"#,
        ])
    );
    let done = ProgressEvent { stage: "done", current: 1, total: 1, detail: None };
    let told = value(&progress_notification(&done));
    assert!(told.get("id").is_none());
    assert_eq!(told["params"]["data"]["stage"], "done");
    assert!(told["params"]["data"].get("detail").is_none());
}

fn concat_lines(parts: &[&str]) -> String {
    parts.concat()
}

#[test]
fn analysis_arguments_match_the_flags() {
    let mut args = AnalyzeArgs::default();
    args.feature_powerset = Some(true);
    args.macro_expand = Some(true);
    let run = args.into_impact_args();
    assert!(run.feature_powerset && run.macro_expand);
    let plain = AnalyzeArgs::default().into_impact_args();
    assert!(!plain.feature_powerset && !plain.macro_expand);
}
