//! A Model Context Protocol server: JSON-RPC messages and what answers them.
use crate::analysis::{AnalysisReport, ReportView};
use crate::args::ImpactArgs;
use crate::finding::member;
use crate::format::{render, rendered, version, version_text, Format};
use crate::json::{
    compact_text, distinct_keys, json_copy, json_count, json_flag, json_get, json_integer,
    json_list, json_null, json_object, json_string, json_text, json_view, json_views, member_of,
    member_views, parse_json, parsed_json, print_compact, text_of, JsonView,
};
use crate::nextest::{expression, nextest_filter, referenced_tests};
use crate::progress::{EventView, ProgressEvent};
use crate::text::{decimal, same, texts, trim, trimmed};
use vstd::prelude::*;
use vstd::string::*;

verus! {

/// An object of two members.
pub open spec fn pair(k: Seq<char>, v: JsonView, l: Seq<char>, w: JsonView) -> JsonView {
    JsonView::Object(seq![(k, v), (l, w)])
}

/// An object of three members.
pub open spec fn triple(
    k: Seq<char>,
    v: JsonView,
    l: Seq<char>,
    w: JsonView,
    m: Seq<char>,
    x: JsonView,
) -> JsonView {
    JsonView::Object(seq![(k, v), (l, w), (m, x)])
}

fn object_of_one(k: &str, v: serde_json::Value) -> (r: serde_json::Value)
    ensures
        json_view(r) == JsonView::Object(seq![(k@, json_view(v))]),
{
    let mut m: Vec<(String, serde_json::Value)> = Vec::new();
    m.push(member(k, v));
    proof {
        assert(member_views(m@) =~= seq![(k@, json_view(v))]);
    }
    json_object(m)
}

fn object_of_two(k: &str, v: serde_json::Value, l: &str, w: serde_json::Value) -> (r:
    serde_json::Value)
    requires
        k@ != l@,
    ensures
        json_view(r) == pair(k@, json_view(v), l@, json_view(w)),
{
    let mut m: Vec<(String, serde_json::Value)> = Vec::new();
    m.push(member(k, v));
    m.push(member(l, w));
    proof {
        assert(member_views(m@) =~= seq![(k@, json_view(v)), (l@, json_view(w))]);
    }
    json_object(m)
}

fn object_of_three(
    k: &str,
    v: serde_json::Value,
    l: &str,
    w: serde_json::Value,
    n: &str,
    x: serde_json::Value,
) -> (r: serde_json::Value)
    requires
        k@ != l@,
        k@ != n@,
        l@ != n@,
    ensures
        json_view(r) == triple(k@, json_view(v), l@, json_view(w), n@, json_view(x)),
{
    let mut m: Vec<(String, serde_json::Value)> = Vec::new();
    m.push(member(k, v));
    m.push(member(l, w));
    m.push(member(n, x));
    proof {
        assert(member_views(m@) =~= seq![
            (k@, json_view(v)),
            (l@, json_view(w)),
            (n@, json_view(x)),
        ]);
    }
    json_object(m)
}

/// An object without members.
pub open spec fn empty_object() -> JsonView {
    JsonView::Object(Seq::empty())
}

fn object_of_none() -> (r: serde_json::Value)
    ensures
        json_view(r) == empty_object(),
{
    let m: Vec<(String, serde_json::Value)> = Vec::new();
    proof {
        assert(member_views(m@) =~= Seq::empty());
    }
    json_object(m)
}

// ---------------------------------------------------------------------------
// Answers
// ---------------------------------------------------------------------------

/// The answer to a request that succeeded.
pub open spec fn result_json(id: JsonView, result: JsonView) -> JsonView {
    triple("id"@, id, "jsonrpc"@, JsonView::Text("2.0"@), "result"@, result)
}

/// The answer to a request that failed with the error code `-code`.
pub open spec fn error_json(id: JsonView, code: nat, message: Seq<char>) -> JsonView {
    triple(
        "error"@,
        pair(
            "code"@,
            JsonView::Number("-"@ + decimal(code)),
            "message"@,
            JsonView::Text(message),
        ),
        "id"@,
        id,
        "jsonrpc"@,
        JsonView::Text("2.0"@),
    )
}

fn result_text(id: &serde_json::Value, result: serde_json::Value) -> (r: String)
    ensures
        r@ == compact_text(result_json(json_view(*id), json_view(result))),
{
    proof {
        reveal_strlit("id");
        assert("id"@.len() == 2);
        reveal_strlit("jsonrpc");
        assert("jsonrpc"@.len() == 7);
        reveal_strlit("result");
        assert("result"@.len() == 6);
    }
    print_compact(
        &object_of_three("id", json_copy(id), "jsonrpc", json_string("2.0"), "result", result),
    )
}

fn error_text(id: &serde_json::Value, code: i64, message: &str) -> (r: String)
    requires
        code < 0,
    ensures
        r@ == compact_text(error_json(json_view(*id), (-code) as nat, message@)),
{
    proof {
        reveal_strlit("code");
        assert("code"@.len() == 4);
        reveal_strlit("message");
        assert("message"@.len() == 7);
        assert("message"@[0] == 'm');
        reveal_strlit("error");
        assert("error"@.len() == 5);
        reveal_strlit("id");
        assert("id"@.len() == 2);
        reveal_strlit("jsonrpc");
        assert("jsonrpc"@.len() == 7);
        assert("jsonrpc"@[0] == 'j');
    }
    print_compact(
        &object_of_three(
            "error",
            object_of_two("code", json_integer(code), "message", json_string(message)),
            "id",
            json_copy(id),
            "jsonrpc",
            json_string("2.0"),
        ),
    )
}

/// A tool result that is one text.
pub open spec fn text_content(body: Seq<char>) -> JsonView {
    JsonView::Object(
        seq![
            (
                "content"@,
                JsonView::List(
                    seq![
                        pair("text"@, JsonView::Text(body), "type"@, JsonView::Text("text"@)),
                    ],
                ),
            ),
        ],
    )
}

fn content_of(body: &str) -> (r: serde_json::Value)
    ensures
        json_view(r) == text_content(body@),
{
    proof {
        reveal_strlit("text");
        assert("text"@[1] == 'e');
        reveal_strlit("type");
        assert("type"@[1] == 'y');
    }
    let one = object_of_two("text", json_string(body), "type", json_string("text"));
    let mut items: Vec<serde_json::Value> = Vec::new();
    items.push(one);
    proof {
        assert(json_views(items@) =~= seq![json_view(one)]);
    }
    object_of_one("content", json_list(items))
}

/// The version of the protocol.
pub open spec fn protocol_version() -> Seq<char> {
    "2024-11-05"@
}

/// The answer to a handshake.
pub open spec fn initialize_json() -> JsonView {
    triple(
        "capabilities"@,
        JsonView::Object(
            seq![
                (
                    "tools"@,
                    JsonView::Object(seq![("listChanged"@, JsonView::Flag(false))]),
                ),
            ],
        ),
        "protocolVersion"@,
        JsonView::Text(protocol_version()),
        "serverInfo"@,
        pair(
            "name"@,
            JsonView::Text("cargo-impact"@),
            "version"@,
            JsonView::Text(version_text()),
        ),
    )
}

fn initialize_result() -> (r: serde_json::Value)
    ensures
        json_view(r) == initialize_json(),
{
    proof {
        reveal_strlit("capabilities");
        assert("capabilities"@.len() == 12);
        reveal_strlit("protocolVersion");
        assert("protocolVersion"@.len() == 15);
        reveal_strlit("serverInfo");
        assert("serverInfo"@.len() == 10);
        reveal_strlit("name");
        assert("name"@.len() == 4);
        reveal_strlit("version");
        assert("version"@.len() == 7);
    }
    object_of_three(
        "capabilities",
        object_of_one("tools", object_of_one("listChanged", json_flag(false))),
        "protocolVersion",
        json_string("2024-11-05"),
        "serverInfo",
        object_of_two("name", json_string("cargo-impact"), "version", json_string(version())),
    )
}

/// The schema of an argument.
pub open spec fn property(kind: Seq<char>, description: Seq<char>) -> JsonView {
    pair("description"@, JsonView::Text(description), "type"@, JsonView::Text(kind))
}

/// The schema of an argument that is a list of texts.
pub open spec fn list_property(description: Seq<char>) -> JsonView {
    triple(
        "description"@,
        JsonView::Text(description),
        "items"@,
        JsonView::Object(seq![("type"@, JsonView::Text("string"@))]),
        "type"@,
        JsonView::Text("array"@),
    )
}

/// The schema of an argument that is a number from 0 to 1.
pub open spec fn share_property(description: Seq<char>) -> JsonView {
    JsonView::Object(
        seq![
            ("description"@, JsonView::Text(description)),
            ("maximum"@, JsonView::Count(1)),
            ("minimum"@, JsonView::Count(0)),
            ("type"@, JsonView::Text("number"@)),
        ],
    )
}

/// The arguments of the analysis tools.
pub open spec fn properties() -> Seq<(Seq<char>, JsonView)> {
    seq![
        ("all_features"@, property("boolean"@, "Activate every feature declared in the manifest."@)),
        (
            "confidence_min"@,
            share_property("Drop findings whose confidence is below this threshold."@),
        ),
        ("features"@, list_property("Active Cargo features for cfg evaluation."@)),
        (
            "manifest_dir"@,
            property("string"@, "Override the workspace root; defaults to cwd."@),
        ),
        (
            "no_default_features"@,
            property("boolean"@, "Skip the manifest's `default` feature list."@),
        ),
        (
            "rust_analyzer"@,
            property(
                "boolean"@,
                "Opt in to rust-analyzer-backed Proven-tier findings (stub in v0.3-alpha)."@,
            ),
        ),
        (
            "semver_checks"@,
            property("boolean"@, "Run cargo-semver-checks (requires tool on PATH)."@),
        ),
        ("since"@, property("string"@, "Git ref to diff against (default HEAD)."@)),
    ]
}

/// The schema of a tool with the given arguments.
pub open spec fn schema(args: Seq<(Seq<char>, JsonView)>) -> JsonView {
    pair("properties"@, JsonView::Object(args), "type"@, JsonView::Text("object"@))
}

/// A tool of the server.
pub open spec fn tool(name: Seq<char>, description: Seq<char>, input: JsonView) -> JsonView {
    triple(
        "description"@,
        JsonView::Text(description),
        "inputSchema"@,
        input,
        "name"@,
        JsonView::Text(name),
    )
}

/// The tools of the server.
pub open spec fn tools() -> Seq<JsonView> {
    seq![
        tool(
            "impact_analyze"@,
            "Run cargo-impact's blast-radius analysis on the current Rust workspace and return a JSON report of findings (changed files, candidate symbols, severity/tier-classified findings with evidence and suggested actions)."@,
            schema(properties()),
        ),
        tool(
            "impact_test_filter"@,
            "Produce a cargo-nextest filter expression (`test(a) + test(b)`) covering only the tests that reference changed symbols. Empty when nothing would be affected."@,
            schema(properties()),
        ),
        tool(
            "impact_version"@,
            "Return the cargo-impact crate version. Useful as a connection smoke-test."@,
            schema(Seq::empty()),
        ),
    ]
}

/// The answer to a request for the tools.
pub open spec fn tools_json() -> JsonView {
    JsonView::Object(seq![("tools"@, JsonView::List(tools()))])
}

fn make_property(kind: &str, description: &str) -> (r: serde_json::Value)
    ensures
        json_view(r) == property(kind@, description@),
{
    proof {
        reveal_strlit("description");
        assert("description"@.len() == 11);
        reveal_strlit("type");
        assert("type"@.len() == 4);
    }
    object_of_two("description", json_string(description), "type", json_string(kind))
}

fn make_list_property(description: &str) -> (r: serde_json::Value)
    ensures
        json_view(r) == list_property(description@),
{
    proof {
        reveal_strlit("description");
        assert("description"@.len() == 11);
        reveal_strlit("items");
        assert("items"@.len() == 5);
        reveal_strlit("type");
        assert("type"@.len() == 4);
    }
    object_of_three(
        "description",
        json_string(description),
        "items",
        object_of_one("type", json_string("string")),
        "type",
        json_string("array"),
    )
}

fn make_share_property(description: &str) -> (r: serde_json::Value)
    ensures
        json_view(r) == share_property(description@),
{
    let mut m: Vec<(String, serde_json::Value)> = Vec::new();
    m.push(member("description", json_string(description)));
    m.push(member("maximum", json_count(1)));
    m.push(member("minimum", json_count(0)));
    m.push(member("type", json_string("number")));
    proof {
        reveal_strlit("description");
        assert("description"@.len() == 11);
        reveal_strlit("maximum");
        assert("maximum"@.len() == 7);
        assert("maximum"@[1] == 'a');
        reveal_strlit("minimum");
        assert("minimum"@.len() == 7);
        assert("minimum"@[1] == 'i');
        reveal_strlit("type");
        assert("type"@.len() == 4);
        assert(member_views(m@) =~= share_property(description@)->Object_0);
    }
    json_object(m)
}

fn make_schema(args: Vec<(String, serde_json::Value)>) -> (r: serde_json::Value)
    requires
        distinct_keys(member_views(args@)),
    ensures
        json_view(r) == schema(member_views(args@)),
{
    proof {
        reveal_strlit("properties");
        assert("properties"@.len() == 10);
        reveal_strlit("type");
        assert("type"@.len() == 4);
    }
    object_of_two("properties", json_object(args), "type", json_string("object"))
}

fn input_schema_analyze() -> (r: serde_json::Value)
    ensures
        json_view(r) == schema(properties()),
{
    let mut m: Vec<(String, serde_json::Value)> = Vec::new();
    m.push(
        member(
            "all_features",
            make_property("boolean", "Activate every feature declared in the manifest."),
        ),
    );
    m.push(
        member(
            "confidence_min",
            make_share_property("Drop findings whose confidence is below this threshold."),
        ),
    );
    m.push(
        member("features", make_list_property("Active Cargo features for cfg evaluation.")),
    );
    m.push(
        member(
            "manifest_dir",
            make_property("string", "Override the workspace root; defaults to cwd."),
        ),
    );
    m.push(
        member(
            "no_default_features",
            make_property("boolean", "Skip the manifest's `default` feature list."),
        ),
    );
    m.push(
        member(
            "rust_analyzer",
            make_property(
                "boolean",
                "Opt in to rust-analyzer-backed Proven-tier findings (stub in v0.3-alpha).",
            ),
        ),
    );
    m.push(
        member(
            "semver_checks",
            make_property("boolean", "Run cargo-semver-checks (requires tool on PATH)."),
        ),
    );
    m.push(
        member("since", make_property("string", "Git ref to diff against (default HEAD).")),
    );
    proof {
        reveal_strlit("all_features");
        assert("all_features"@.len() == 12);
        assert("all_features"@[0] == 'a');
        reveal_strlit("confidence_min");
        assert("confidence_min"@.len() == 14);
        reveal_strlit("features");
        assert("features"@.len() == 8);
        reveal_strlit("manifest_dir");
        assert("manifest_dir"@.len() == 12);
        assert("manifest_dir"@[0] == 'm');
        reveal_strlit("no_default_features");
        assert("no_default_features"@.len() == 19);
        reveal_strlit("rust_analyzer");
        assert("rust_analyzer"@.len() == 13);
        assert("rust_analyzer"@[0] == 'r');
        reveal_strlit("semver_checks");
        assert("semver_checks"@.len() == 13);
        assert("semver_checks"@[0] == 's');
        reveal_strlit("since");
        assert("since"@.len() == 5);
        assert(member_views(m@) =~= properties());
    }
    make_schema(m)
}

fn make_tool(name: &str, description: &str, input: serde_json::Value) -> (r: serde_json::Value)
    ensures
        json_view(r) == tool(name@, description@, json_view(input)),
{
    proof {
        reveal_strlit("description");
        assert("description"@.len() == 11);
        assert("description"@[0] == 'd');
        reveal_strlit("inputSchema");
        assert("inputSchema"@.len() == 11);
        assert("inputSchema"@[0] == 'i');
        reveal_strlit("name");
        assert("name"@.len() == 4);
    }
    object_of_three(
        "description",
        json_string(description),
        "inputSchema",
        input,
        "name",
        json_string(name),
    )
}

fn tools_list_result() -> (r: serde_json::Value)
    ensures
        json_view(r) == tools_json(),
{
    let a = make_tool(
        "impact_analyze",
        "Run cargo-impact's blast-radius analysis on the current Rust workspace and return a JSON report of findings (changed files, candidate symbols, severity/tier-classified findings with evidence and suggested actions).",
        input_schema_analyze(),
    );
    let b = make_tool(
        "impact_test_filter",
        "Produce a cargo-nextest filter expression (`test(a) + test(b)`) covering only the tests that reference changed symbols. Empty when nothing would be affected.",
        input_schema_analyze(),
    );
    let none: Vec<(String, serde_json::Value)> = Vec::new();
    proof {
        assert(member_views(none@) =~= Seq::empty());
    }
    let c = make_tool(
        "impact_version",
        "Return the cargo-impact crate version. Useful as a connection smoke-test.",
        make_schema(none),
    );
    let mut items: Vec<serde_json::Value> = Vec::new();
    items.push(a);
    items.push(b);
    items.push(c);
    proof {
        assert(json_views(items@) =~= tools());
    }
    object_of_one("tools", json_list(items))
}

// ---------------------------------------------------------------------------
// Messages
// ---------------------------------------------------------------------------

/// What to do about a message.
#[derive(Debug)]
pub enum McpAction {
    /// Nothing.
    Silent,
    /// Send this line.
    Reply(String),
    /// End the server.
    Exit,
    /// Analyze with the given arguments, then answer the request with that id;
    /// with `filter`, the answer is the filter expression for the tests.
    Analyze { id: serde_json::Value, arguments: serde_json::Value, filter: bool },
}

/// An [`McpAction`] as plain data.
pub enum ActionView {
    Silent,
    Reply(Seq<char>),
    Exit,
    Analyze { id: JsonView, arguments: JsonView, filter: bool },
}

impl View for McpAction {
    type V = ActionView;

    open spec fn view(&self) -> ActionView {
        match self {
            McpAction::Silent => ActionView::Silent,
            McpAction::Reply(t) => ActionView::Reply(t@),
            McpAction::Exit => ActionView::Exit,
            McpAction::Analyze { id, arguments, filter } => ActionView::Analyze {
                id: json_view(*id),
                arguments: json_view(*arguments),
                filter: *filter,
            },
        }
    }
}

/// A value, or another where there is none.
pub open spec fn or_else(o: Option<JsonView>, other: JsonView) -> JsonView {
    match o {
        Some(v) => v,
        None => other,
    }
}

/// The id of a message; null where it has none.
pub open spec fn id_of(m: JsonView) -> JsonView {
    or_else(member_of(m, "id"@), JsonView::Null)
}

/// The method of a message; empty where it has none.
pub open spec fn method_of(m: JsonView) -> Seq<char> {
    match member_of(m, "method"@) {
        Some(v) => match text_of(v) {
            Some(t) => t,
            None => ""@,
        },
        None => ""@,
    }
}

/// What to do about a tool call.
pub open spec fn call_action(id: JsonView, params: JsonView) -> ActionView {
    let name: Option<Seq<char>> = match member_of(params, "name"@) {
        Some(v) => text_of(v),
        None => None,
    };
    let arguments = or_else(member_of(params, "arguments"@), empty_object());
    match name {
        None => ActionView::Reply(compact_text(error_json(id, 32000, "missing tool name"@))),
        Some(n) => if n == "impact_version"@ {
            ActionView::Reply(compact_text(result_json(id, text_content(version_text()))))
        } else if n == "impact_analyze"@ {
            ActionView::Analyze { id, arguments, filter: false }
        } else if n == "impact_test_filter"@ {
            ActionView::Analyze { id, arguments, filter: true }
        } else {
            ActionView::Reply(compact_text(error_json(id, 32000, "unknown tool: "@ + n)))
        },
    }
}

/// What to do about a message.
pub open spec fn message_action(m: JsonView) -> ActionView {
    let id = id_of(m);
    let method = method_of(m);
    if method == "initialize"@ {
        ActionView::Reply(compact_text(result_json(id, initialize_json())))
    } else if method == "initialized"@ || method == "notifications/initialized"@ {
        ActionView::Silent
    } else if method == "tools/list"@ {
        ActionView::Reply(compact_text(result_json(id, tools_json())))
    } else if method == "tools/call"@ {
        call_action(id, or_else(member_of(m, "params"@), empty_object()))
    } else if method == "shutdown"@ {
        ActionView::Reply(compact_text(result_json(id, JsonView::Null)))
    } else if method == "exit"@ {
        ActionView::Exit
    } else if member_of(m, "id"@) is None {
        ActionView::Silent
    } else {
        ActionView::Reply(compact_text(error_json(id, 32601, "method not found: "@ + method)))
    }
}

/// What to do about a line of input: nothing for a blank one, and an error
/// answer for one that is no JSON text.
pub open spec fn line_action(line: Seq<char>) -> ActionView {
    if trimmed(line).len() == 0 {
        ActionView::Silent
    } else {
        match parsed_json(line) {
            Some(m) => message_action(m),
            None => ActionView::Reply(
                compact_text(error_json(JsonView::Null, 32700, "parse error"@)),
            ),
        }
    }
}

fn copy_or(o: Option<&serde_json::Value>, other: serde_json::Value) -> (r: serde_json::Value)
    ensures
        json_view(r) == or_else(crate::json::opt_json(o), json_view(other)),
{
    match o {
        Some(v) => json_copy(v),
        None => other,
    }
}

fn call_tool(id: serde_json::Value, params: &serde_json::Value) -> (r: McpAction)
    ensures
        r@ == call_action(json_view(id), json_view(*params)),
{
    let name = match json_get(params, "name") {
        Some(v) => json_text(v),
        None => None,
    };
    let arguments = copy_or(json_get(params, "arguments"), object_of_none());
    match name {
        None => McpAction::Reply(error_text(&id, -32000, "missing tool name")),
        Some(n) => {
            if same(n, "impact_version") {
                McpAction::Reply(result_text(&id, content_of(version())))
            } else if same(n, "impact_analyze") {
                McpAction::Analyze { id, arguments, filter: false }
            } else if same(n, "impact_test_filter") {
                McpAction::Analyze { id, arguments, filter: true }
            } else {
                let mut message = "unknown tool: ".to_owned();
                message.append(n);
                McpAction::Reply(error_text(&id, -32000, message.as_str()))
            }
        },
    }
}

/// What to do about a message.
pub fn handle_message(msg: &serde_json::Value) -> (r: McpAction)
    ensures
        r@ == message_action(json_view(*msg)),
{
    let id = copy_or(json_get(msg, "id"), json_null());
    let method = match json_get(msg, "method") {
        Some(v) => match json_text(v) {
            Some(t) => t,
            None => "",
        },
        None => "",
    };
    if same(method, "initialize") {
        McpAction::Reply(result_text(&id, initialize_result()))
    } else if same(method, "initialized") || same(method, "notifications/initialized") {
        McpAction::Silent
    } else if same(method, "tools/list") {
        McpAction::Reply(result_text(&id, tools_list_result()))
    } else if same(method, "tools/call") {
        let params = copy_or(json_get(msg, "params"), object_of_none());
        call_tool(id, &params)
    } else if same(method, "shutdown") {
        McpAction::Reply(result_text(&id, json_null()))
    } else if same(method, "exit") {
        McpAction::Exit
    } else if json_get(msg, "id").is_none() {
        McpAction::Silent
    } else {
        let mut message = "method not found: ".to_owned();
        message.append(method);
        McpAction::Reply(error_text(&id, -32601, message.as_str()))
    }
}

/// What to do about a line of input.
pub fn handle_line(line: &str) -> (r: McpAction)
    ensures
        r@ == line_action(line@),
{
    if trim(line).as_str().is_empty() {
        return McpAction::Silent;
    }
    match parse_json(line) {
        Ok(msg) => handle_message(&msg),
        Err(_) => McpAction::Reply(error_text(&json_null(), -32700, "parse error")),
    }
}

/// The text that a tool gives for a report.
pub open spec fn tool_text(report: ReportView, filter: bool) -> Seq<char> {
    if filter {
        expression(referenced_tests(report.findings))
    } else {
        rendered(
            Format::Json,
            report.changed_files,
            report.candidate_symbols,
            report.findings,
            0,
        )
    }
}

/// The answer to an analysis request, once the report is there.
pub fn analysis_reply(id: &serde_json::Value, report: &AnalysisReport, filter: bool) -> (r: String)
    ensures
        r@ == compact_text(
            result_json(json_view(*id), text_content(tool_text(report@, filter))),
        ),
{
    let body = if filter {
        nextest_filter(&report.findings)
    } else {
        render(
            Format::Json,
            &report.changed_files,
            &report.candidate_symbols,
            &report.findings,
        )
    };
    result_text(id, content_of(body.as_str()))
}

/// What a step of a run tells a client. Its detail is left out where it has
/// none.
pub open spec fn progress_data(e: EventView) -> JsonView {
    let stage = ("stage"@, JsonView::Text(e.stage));
    let current = ("current"@, JsonView::Count(e.current));
    let total = ("total"@, JsonView::Count(e.total));
    JsonView::Object(
        match e.detail {
            Some(d) => seq![current, ("detail"@, JsonView::Text(d)), stage, total],
            None => seq![current, stage, total],
        },
    )
}

/// The notification that tells a client of a step of a run.
pub open spec fn progress_json(e: EventView) -> JsonView {
    triple(
        "jsonrpc"@,
        JsonView::Text("2.0"@),
        "method"@,
        JsonView::Text("notifications/message"@),
        "params"@,
        triple(
            "data"@,
            progress_data(e),
            "level"@,
            JsonView::Text("info"@),
            "logger"@,
            JsonView::Text("cargo-impact"@),
        ),
    )
}

fn data_of(e: &ProgressEvent<'_>) -> (r: serde_json::Value)
    ensures
        json_view(r) == progress_data(e@),
{
    proof {
        reveal_strlit("current");
        assert("current"@.len() == 7);
        reveal_strlit("detail");
        assert("detail"@.len() == 6);
        reveal_strlit("stage");
        assert("stage"@.len() == 5);
        assert("stage"@[0] == 's');
        reveal_strlit("total");
        assert("total"@.len() == 5);
        assert("total"@[0] == 't');
    }
    let current = json_count(e.current as u64);
    let stage = json_string(e.stage);
    let total = json_count(e.total as u64);
    let mut m: Vec<(String, serde_json::Value)> = Vec::new();
    m.push(member("current", current));
    match e.detail {
        Some(d) => {
            m.push(member("detail", json_string(d)));
        },
        None => {},
    }
    m.push(member("stage", stage));
    m.push(member("total", total));
    proof {
        assert(member_views(m@) =~= progress_data(e@)->Object_0);
    }
    json_object(m)
}

/// The notification that tells a client of a step of a run.
pub fn progress_notification(event: &ProgressEvent<'_>) -> (r: String)
    ensures
        r@ == compact_text(progress_json(event@)),
{
    proof {
        reveal_strlit("jsonrpc");
        assert("jsonrpc"@.len() == 7);
        reveal_strlit("method");
        assert("method"@.len() == 6);
        assert("method"@[0] == 'm');
        reveal_strlit("params");
        assert("params"@.len() == 6);
        assert("params"@[0] == 'p');
        reveal_strlit("data");
        assert("data"@.len() == 4);
        reveal_strlit("level");
        assert("level"@.len() == 5);
        reveal_strlit("logger");
        assert("logger"@.len() == 6);
    }
    print_compact(
        &object_of_three(
            "jsonrpc",
            json_string("2.0"),
            "method",
            json_string("notifications/message"),
            "params",
            object_of_three(
                "data",
                data_of(event),
                "level",
                json_string("info"),
                "logger",
                json_string("cargo-impact"),
            ),
        ),
    )
}

/// The answer to an analysis request that failed.
pub fn failure_reply(id: &serde_json::Value, message: &str) -> (r: String)
    ensures
        r@ == compact_text(error_json(json_view(*id), 32000, message@)),
{
    error_text(id, -32000, message)
}

// ---------------------------------------------------------------------------
// Arguments
// ---------------------------------------------------------------------------

/// The arguments of the analysis tools; every one can be left out.
#[derive(Debug, PartialEq, Eq)]
pub struct AnalyzeArgs {
    pub since: Option<String>,
    /// Hundredths of confidence.
    pub confidence_min: Option<i64>,
    pub features: Option<Vec<String>>,
    pub all_features: Option<bool>,
    pub no_default_features: Option<bool>,
    pub semver_checks: Option<bool>,
    pub rust_analyzer: Option<bool>,
    pub manifest_dir: Option<String>,
    pub feature_powerset: Option<bool>,
    pub macro_expand: Option<bool>,
}

impl Default for AnalyzeArgs {
    fn default() -> (r: AnalyzeArgs)
        ensures
            r.since is None,
            r.confidence_min is None,
            r.features is None,
            r.all_features is None,
            r.no_default_features is None,
            r.semver_checks is None,
            r.rust_analyzer is None,
            r.manifest_dir is None,
            r.feature_powerset is None,
            r.macro_expand is None,
    {
        AnalyzeArgs {
            since: None,
            confidence_min: None,
            features: None,
            all_features: None,
            no_default_features: None,
            semver_checks: None,
            rust_analyzer: None,
            manifest_dir: None,
            feature_powerset: None,
            macro_expand: None,
        }
    }
}

/// A flag; off where it is left out.
pub open spec fn flag_or_off(o: Option<bool>) -> bool {
    match o {
        Some(b) => b,
        None => false,
    }
}

fn or_off(o: Option<bool>) -> (r: bool)
    ensures
        r == flag_or_off(o),
{
    match o {
        Some(b) => b,
        None => false,
    }
}

impl AnalyzeArgs {
    /// The run that the arguments ask for. It compares with `HEAD` unless they
    /// say otherwise, and reports as JSON.
    pub fn into_impact_args(self) -> (r: ImpactArgs)
        ensures
            !r.test,
            r.format == Format::Json,
            r.since@ == (match self.since {
                Some(s) => s@,
                None => "HEAD"@,
            }),
            r.manifest_dir == self.manifest_dir,
            r.confidence_min == (match self.confidence_min {
                Some(n) => n,
                None => 0i64,
            }),
            r.fail_on is None,
            r.semver_checks == flag_or_off(self.semver_checks),
            r.rust_analyzer == flag_or_off(self.rust_analyzer),
            r.budget == 0,
            !r.context,
            texts(r.features@) == (match self.features {
                Some(v) => texts(v@),
                None => Seq::empty(),
            }),
            r.all_features == flag_or_off(self.all_features),
            r.no_default_features == flag_or_off(self.no_default_features),
            r.macro_expand == flag_or_off(self.macro_expand),
            r.feature_powerset == flag_or_off(self.feature_powerset),
    {
        let features: Vec<String> = match self.features {
            Some(v) => v,
            None => {
                let none: Vec<String> = Vec::new();
                proof {
                    assert(texts(none@) =~= Seq::empty());
                }
                none
            },
        };
        ImpactArgs {
            test: false,
            format: Format::Json,
            since: match self.since {
                Some(s) => s,
                None => "HEAD".to_owned(),
            },
            manifest_dir: self.manifest_dir,
            confidence_min: match self.confidence_min {
                Some(n) => n,
                None => 0,
            },
            fail_on: None,
            semver_checks: or_off(self.semver_checks),
            rust_analyzer: or_off(self.rust_analyzer),
            budget: 0,
            context: false,
            features,
            all_features: or_off(self.all_features),
            no_default_features: or_off(self.no_default_features),
            macro_expand: or_off(self.macro_expand),
            feature_powerset: or_off(self.feature_powerset),
        }
    }
}

// ---------------------------------------------------------------------------
// Laws
// ---------------------------------------------------------------------------

/// Whether a text is an answer to the request with the given id.
pub open spec fn answers(t: Seq<char>, id: JsonView) -> bool {
    ||| exists|result: JsonView| t == compact_text(#[trigger] result_json(id, result))
    ||| exists|code: nat, message: Seq<char>|
        t == compact_text(#[trigger] error_json(id, code, message))
}

/// An answer carries the id of its message, and an analysis is asked for with
/// the id that its answer will carry.
pub proof fn answers_carry_the_id(m: JsonView)
    ensures
        message_action(m) matches ActionView::Reply(t) ==> answers(t, id_of(m)),
        message_action(m) matches ActionView::Analyze { id, .. } ==> id == id_of(m),
{
    let id = id_of(m);
    let params = or_else(member_of(m, "params"@), empty_object());
    let a = result_json(id, initialize_json());
    let b = result_json(id, tools_json());
    let c = result_json(id, JsonView::Null);
    let d = error_json(id, 32601, "method not found: "@ + method_of(m));
    let e = error_json(id, 32000, "missing tool name"@);
    let f = result_json(id, text_content(version_text()));
    match member_of(params, "name"@) {
        Some(v) => match text_of(v) {
            Some(n) => {
                let g = error_json(id, 32000, "unknown tool: "@ + n);
            },
            None => {},
        },
        None => {},
    }
}

/// A message without an id whose method the server does not know, or that says
/// that the client is initialized, gets no answer.
pub proof fn notifications_get_no_answer(m: JsonView)
    requires
        member_of(m, "id"@) is None,
        method_of(m) != "initialize"@,
        method_of(m) != "tools/list"@,
        method_of(m) != "tools/call"@,
        method_of(m) != "shutdown"@,
        method_of(m) != "exit"@,
    ensures
        message_action(m) == ActionView::Silent,
{
}

/// The methods of the server and the names of its tools differ from each other.
proof fn lemma_words_differ()
    ensures
        "initialize"@.len() == 10,
        "initialized"@.len() == 11,
        "notifications/initialized"@.len() == 25,
        "tools/list"@.len() == 10,
        "tools/list"@[0] == 't',
        "initialize"@[0] == 'i',
        "tools/call"@.len() == 10,
        "tools/call"@[6] == 'c',
        "tools/list"@[6] == 'l',
        "tools/call"@[0] == 't',
        "shutdown"@.len() == 8,
        "exit"@.len() == 4,
        "impact_version"@.len() == 14,
        "impact_version"@[7] == 'v',
        "impact_analyze"@.len() == 14,
        "impact_analyze"@[7] == 'a',
        "impact_test_filter"@.len() == 18,
{
    reveal_strlit("initialize");
    reveal_strlit("initialized");
    reveal_strlit("notifications/initialized");
    reveal_strlit("tools/list");
    reveal_strlit("tools/call");
    reveal_strlit("shutdown");
    reveal_strlit("exit");
    reveal_strlit("impact_version");
    reveal_strlit("impact_analyze");
    reveal_strlit("impact_test_filter");
}

/// Each method is answered in its own way: the handshake and the list of tools
/// with what they ask for, a shutdown with null, and a method that the server
/// does not know with an error that names it.
pub proof fn methods_are_answered_by_name(m: JsonView)
    ensures
        ({
            let method = method_of(m);
            let id = id_of(m);
            &&& method == "initialize"@ ==> message_action(m) == ActionView::Reply(
                compact_text(result_json(id, initialize_json())),
            )
            &&& method == "initialized"@ || method == "notifications/initialized"@
                ==> message_action(m) is Silent
            &&& method == "tools/list"@ ==> message_action(m) == ActionView::Reply(
                compact_text(result_json(id, tools_json())),
            )
            &&& method == "shutdown"@ ==> message_action(m) == ActionView::Reply(
                compact_text(result_json(id, JsonView::Null)),
            )
            &&& method == "exit"@ <==> message_action(m) is Exit
            &&& message_action(m) is Analyze ==> method == "tools/call"@
            &&& method != "initialize"@ && method != "initialized"@ && method
                != "notifications/initialized"@ && method != "tools/list"@ && method
                != "tools/call"@ && method != "shutdown"@ && method != "exit"@ && member_of(
                m,
                "id"@,
            ) is Some ==> message_action(m) == ActionView::Reply(
                compact_text(error_json(id, 32601, "method not found: "@ + method)),
            )
        }),
{
    lemma_words_differ();
}

/// A tool call with a name is answered by its tool: the version at once, the two
/// analyses by a run over the arguments of the call, and any other name with an
/// error that names it. A call without a name is an error.
pub proof fn tools_are_called_by_name(
    m: JsonView,
    params: JsonView,
    name: Seq<char>,
)
    requires
        method_of(m) == "tools/call"@,
        member_of(m, "params"@) == Some(params),
    ensures
        ({
            let id = id_of(m);
            let called = member_of(params, "name"@) == Some(JsonView::Text(name));
            let arguments = match member_of(params, "arguments"@) {
                Some(a) => a,
                None => JsonView::Object(Seq::empty()),
            };
            &&& called && name == "impact_version"@ ==> message_action(m) == ActionView::Reply(
                compact_text(result_json(id, text_content(version_text()))),
            )
            &&& called && name == "impact_analyze"@ ==> message_action(m)
                == (ActionView::Analyze { id, arguments, filter: false })
            &&& called && name == "impact_test_filter"@ ==> message_action(m)
                == (ActionView::Analyze { id, arguments, filter: true })
            &&& called && name != "impact_version"@ && name != "impact_analyze"@ && name
                != "impact_test_filter"@ ==> message_action(m) == ActionView::Reply(
                compact_text(error_json(id, 32000, "unknown tool: "@ + name)),
            )
            &&& member_of(params, "name"@) is None ==> message_action(m) == ActionView::Reply(
                compact_text(error_json(id, 32000, "missing tool name"@)),
            )
        }),
{
    lemma_words_differ();
}

/// Blank lines are passed over, and a line that is no JSON text is answered by a
/// parse error without an id; any other line is a message.
pub proof fn lines_are_messages(line: Seq<char>)
    ensures
        trimmed(line).len() == 0 ==> line_action(line) is Silent,
        trimmed(line).len() > 0 && parsed_json(line) is None ==> line_action(line)
            == ActionView::Reply(compact_text(error_json(JsonView::Null, 32700, "parse error"@))),
        trimmed(line).len() > 0 ==> (parsed_json(line) matches Some(m) ==> line_action(line)
            == message_action(m)),
{
}

/// An answer holds the id and either a result or an error with its code and its
/// message.
pub proof fn answers_hold_result_or_error(
    id: JsonView,
    result: JsonView,
    code: nat,
    message: Seq<char>,
)
    ensures
        member_of(result_json(id, result), "id"@) == Some(id),
        member_of(result_json(id, result), "jsonrpc"@) == Some(JsonView::Text("2.0"@)),
        member_of(result_json(id, result), "result"@) == Some(result),
        member_of(result_json(id, result), "error"@) is None,
        member_of(error_json(id, code, message), "id"@) == Some(id),
        member_of(error_json(id, code, message), "jsonrpc"@) == Some(JsonView::Text("2.0"@)),
        member_of(error_json(id, code, message), "result"@) is None,
        member_of(error_json(id, code, message), "error"@) matches Some(e) && member_of(
            e,
            "code"@,
        ) == Some(JsonView::Number("-"@ + decimal(code))) && member_of(e, "message"@) == Some(
            JsonView::Text(message),
        ),
{
    reveal_strlit("id");
    assert("id"@.len() == 2);
    reveal_strlit("jsonrpc");
    assert("jsonrpc"@.len() == 7 && "jsonrpc"@[0] == 'j');
    reveal_strlit("result");
    assert("result"@.len() == 6);
    reveal_strlit("error");
    assert("error"@.len() == 5);
    reveal_strlit("code");
    assert("code"@.len() == 4);
    reveal_strlit("message");
    assert("message"@.len() == 7);
    let r = result_json(id, result)->Object_0;
    crate::textmap::lemma_lookup_is(r, "id"@, 0);
    crate::textmap::lemma_lookup_is(r, "jsonrpc"@, 1);
    crate::textmap::lemma_lookup_is(r, "result"@, 2);
    crate::textmap::values_are_those_of_entries(r, "error"@);
    let e = error_json(id, code, message)->Object_0;
    crate::textmap::lemma_lookup_is(e, "error"@, 0);
    crate::textmap::lemma_lookup_is(e, "id"@, 1);
    crate::textmap::lemma_lookup_is(e, "jsonrpc"@, 2);
    crate::textmap::values_are_those_of_entries(e, "result"@);
    let c = e[0].1->Object_0;
    crate::textmap::lemma_lookup_is(c, "code"@, 0);
    crate::textmap::lemma_lookup_is(c, "message"@, 1);
}

/// A flag is on just where it is set.
pub proof fn flags_are_off_unless_set(o: Option<bool>)
    ensures
        flag_or_off(o) <==> o == Some(true),
{
}

/// The test filter is the expression for the tests among the findings; any other
/// analysis is answered by the report as JSON.
pub proof fn tools_give_filter_or_report(report: ReportView)
    ensures
        tool_text(report, true) == expression(referenced_tests(report.findings)),
        tool_text(report, false) == crate::json::pretty_text(
            crate::format::report_json(
                report.changed_files,
                report.candidate_symbols,
                report.findings,
            ),
        ),
{
}

/// A progress notification tells the stage, how far it is and how far it goes,
/// and the detail where there is one.
pub proof fn notifications_tell_of_the_event(e: EventView)
    ensures
        ({
            let m = progress_data(e)->Object_0;
            &&& m.contains(("stage"@, JsonView::Text(e.stage)))
            &&& m.contains(("current"@, JsonView::Count(e.current)))
            &&& m.contains(("total"@, JsonView::Count(e.total)))
            &&& e.detail matches Some(d) ==> m.contains(("detail"@, JsonView::Text(d))) && m.len()
                == 4
            &&& e.detail is None ==> m.len() == 3
        }),
{
    let m = progress_data(e)->Object_0;
    assert(m[0] == ("current"@, JsonView::Count(e.current)));
    if let Some(d) = e.detail {
        assert(m[1] == ("detail"@, JsonView::Text(d)));
        assert(m[2] == ("stage"@, JsonView::Text(e.stage)));
        assert(m[3] == ("total"@, JsonView::Count(e.total)));
    } else {
        assert(m[1] == ("stage"@, JsonView::Text(e.stage)));
        assert(m[2] == ("total"@, JsonView::Count(e.total)));
    }
}

/// The method and the id of a message are its members of these names.
pub proof fn messages_name_method_and_id(m: JsonView, t: Seq<char>, id: JsonView)
    ensures
        member_of(m, "method"@) == Some(JsonView::Text(t)) ==> method_of(m) == t,
        t.len() > 0 && method_of(m) == t ==> member_of(m, "method"@) == Some(JsonView::Text(t)),
        member_of(m, "id"@) == Some(id) ==> id_of(m) == id,
        member_of(m, "id"@) is None ==> id_of(m) is Null,
{
    reveal_strlit("");
}

/// The server lists its three tools by the names that they are called by, each
/// with a description and a schema.
pub proof fn tools_are_listed_by_name(i: int)
    requires
        0 <= i < 3,
    ensures
        tools().len() == 3,
        member_of(tools()[0], "name"@) == Some(JsonView::Text("impact_analyze"@)),
        member_of(tools()[1], "name"@) == Some(JsonView::Text("impact_test_filter"@)),
        member_of(tools()[2], "name"@) == Some(JsonView::Text("impact_version"@)),
        member_of(tools()[i], "description"@) is Some,
        member_of(tools()[0], "inputSchema"@) == Some(schema(properties())),
        member_of(tools()[1], "inputSchema"@) == Some(schema(properties())),
        member_of(tools()[2], "inputSchema"@) == Some(schema(Seq::empty())),
{
    lemma_tool_members(0);
    lemma_tool_members(1);
    lemma_tool_members(2);
}

proof fn lemma_tool_members(i: int)
    requires
        0 <= i < 3,
    ensures
        ({
            let m = tools()[i]->Object_0;
            &&& member_of(tools()[i], "description"@) == Some(m[0].1)
            &&& member_of(tools()[i], "inputSchema"@) == Some(m[1].1)
            &&& member_of(tools()[i], "name"@) == Some(m[2].1)
        }),
{
    reveal_strlit("description");
    assert("description"@.len() == 11 && "description"@[0] == 'd');
    reveal_strlit("inputSchema");
    assert("inputSchema"@.len() == 11 && "inputSchema"@[0] == 'i');
    reveal_strlit("name");
    assert("name"@.len() == 4);
    let m = tools()[i]->Object_0;
    assert(m[0].0 == "description"@);
    assert(m[1].0 == "inputSchema"@);
    assert(m[2].0 == "name"@);
    crate::textmap::lemma_lookup_is(m, "description"@, 0);
    crate::textmap::lemma_lookup_is(m, "inputSchema"@, 1);
    crate::textmap::lemma_lookup_is(m, "name"@, 2);
}

} // verus!
