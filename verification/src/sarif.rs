//! SARIF output, which code-scanning interfaces show inline on a diff.
//!
//! The rules list names every finding kind, so a scanner can link each result
//! to a description. The content id of a finding is its fingerprint, so the same
//! finding in two runs is tracked as one. Paths use forward slashes. Object
//! members stand in the order of their names.
use crate::finding::{
    finding_views, kind_path, kind_tag, member, tag_list, Finding, FindingKind, FindingView,
    SeverityClass,
};
use crate::format::{version, version_text};
use crate::json::{
    json_count, json_hundredths, json_list, json_null, json_object, json_string, json_view,
    json_views, member_views, pretty_text, print_pretty, JsonView,
};
use crate::summary::{finding_line, kind_line};
use crate::text::{chars_of, flat, only, pieces, replace_char, replaced, same, split_on, texts};
use vstd::prelude::*;
use vstd::string::*;

verus! {

/// SARIF level of a severity.
pub open spec fn level_spec(severity: SeverityClass) -> Seq<char> {
    match severity {
        SeverityClass::High => "error"@,
        SeverityClass::Medium => "warning"@,
        SeverityClass::Low => "note"@,
        SeverityClass::Unknown => "none"@,
    }
}

/// SARIF level of a severity.
pub fn sarif_level(severity: SeverityClass) -> (r: &'static str)
    ensures
        r@ == level_spec(severity),
{
    match severity {
        SeverityClass::High => "error",
        SeverityClass::Medium => "warning",
        SeverityClass::Low => "note",
        SeverityClass::Unknown => "none",
    }
}

/// Description of a rule.
pub open spec fn rule_short(tag: Seq<char>) -> Seq<char> {
    if tag == "test_reference"@ {
        "Test function references a changed symbol"@
    } else if tag == "trait_impl"@ {
        "impl of a changed trait"@
    } else if tag == "derived_trait_impl"@ {
        "#[derive(…)] of a changed trait"@
    } else if tag == "dyn_dispatch"@ {
        "dyn Trait use of a changed trait"@
    } else if tag == "doc_drift_link"@ {
        "Intra-doc link to a changed symbol"@
    } else if tag == "doc_drift_keyword"@ {
        "Bare mention of a changed symbol in prose"@
    } else if tag == "ffi_signature_change"@ {
        "FFI signature added/removed/modified"@
    } else if tag == "build_script_changed"@ {
        "build.rs modified"@
    } else if tag == "semver_check"@ {
        "cargo-semver-checks reports public API change"@
    } else if tag == "trait_definition_change"@ {
        "Method added/removed/changed on a trait"@
    } else if tag == "resolved_reference"@ {
        "rust-analyzer-resolved reference to a changed symbol"@
    } else if tag == "runtime_surface"@ {
        "Framework runtime surface (axum route, clap command) affected"@
    } else {
        "cargo-impact finding"@
    }
}

/// Description of a rule.
pub fn sarif_rule_short(tag: &str) -> (r: &'static str)
    ensures
        r@ == rule_short(tag@),
{
    if same(tag, "test_reference") {
        "Test function references a changed symbol"
    } else if same(tag, "trait_impl") {
        "impl of a changed trait"
    } else if same(tag, "derived_trait_impl") {
        "#[derive(…)] of a changed trait"
    } else if same(tag, "dyn_dispatch") {
        "dyn Trait use of a changed trait"
    } else if same(tag, "doc_drift_link") {
        "Intra-doc link to a changed symbol"
    } else if same(tag, "doc_drift_keyword") {
        "Bare mention of a changed symbol in prose"
    } else if same(tag, "ffi_signature_change") {
        "FFI signature added/removed/modified"
    } else if same(tag, "build_script_changed") {
        "build.rs modified"
    } else if same(tag, "semver_check") {
        "cargo-semver-checks reports public API change"
    } else if same(tag, "trait_definition_change") {
        "Method added/removed/changed on a trait"
    } else if same(tag, "resolved_reference") {
        "rust-analyzer-resolved reference to a changed symbol"
    } else if same(tag, "runtime_surface") {
        "Framework runtime surface (axum route, clap command) affected"
    } else {
        "cargo-impact finding"
    }
}

/// `c` in upper case where it is an ASCII letter.
pub open spec fn ascii_upper(c: char) -> char {
    if 'a' <= c && c <= 'z' {
        ((c as u32) - 32) as char
    } else {
        c
    }
}

/// `char::to_ascii_uppercase` maps the letters `a` to `z` to `A` to `Z` and
/// leaves every other character as it is.
pub assume_specification[ char::to_ascii_uppercase ](c: &char) -> (r: char)
    ensures
        r == ascii_upper(*c),
;

/// A word with its first character in upper case.
pub open spec fn capitalised(word: Seq<char>) -> Seq<char> {
    if word.len() == 0 {
        word
    } else {
        word.update(0, ascii_upper(word[0]))
    }
}

/// The words of a tag, all but the first capitalised.
pub open spec fn camel_words(tag: Seq<char>) -> Seq<Seq<char>> {
    let words = pieces(tag, only('_'));
    Seq::new(words.len(), |i: int| if i == 0 { words[i] } else { capitalised(words[i]) })
}

/// Camel-case name of a tag.
pub open spec fn rule_name(tag: Seq<char>) -> Seq<char> {
    flat(camel_words(tag))
}

/// Camel-case name of a tag, as SARIF rules are named.
pub fn sarif_rule_name(tag: &str) -> (r: String)
    ensures
        r@ == rule_name(tag@),
{
    let words = split_on(tag, '_');
    let ghost w = pieces(tag@, only('_'));
    let ghost parts = camel_words(tag@);
    let mut out = String::new();
    let mut i: usize = 0;
    while i < words.len()
        invariant
            i <= words@.len(),
            texts(words@) == w,
            w == pieces(tag@, only('_')),
            parts == camel_words(tag@),
            out@ == flat(parts.take(i as int)),
        decreases words@.len() - i,
    {
        proof {
            crate::text::lemma_flat_step(parts, i as int);
            assert(w[i as int] == words@[i as int]@);
        }
        let mut v = chars_of(words[i].as_str());
        if i > 0 && v.len() > 0 {
            let c = v[0].to_ascii_uppercase();
            v.set(0, c);
        }
        let part = crate::text::string_of(&v);
        proof {
            assert(part@ =~= parts[i as int]);
        }
        out.append(part.as_str());
        i = i + 1;
    }
    proof {
        crate::text::lemma_flat_all(parts);
    }
    out
}

/// The JSON object of a rule.
pub open spec fn rule_json(tag: Seq<char>) -> JsonView {
    JsonView::Object(
        seq![
            ("helpUri"@, JsonView::Text("https://github.com/asmuelle/cargo-impact#README"@)),
            ("id"@, JsonView::Text(tag)),
            ("name"@, JsonView::Text(rule_name(tag))),
            (
                "shortDescription"@,
                JsonView::Object(seq![("text"@, JsonView::Text(rule_short(tag)))]),
            ),
        ],
    )
}

/// An object with one member.
pub open spec fn single(key: Seq<char>, value: JsonView) -> JsonView {
    JsonView::Object(seq![(key, value)])
}

/// An object with one member.
fn json_single(key: &str, value: serde_json::Value) -> (r: serde_json::Value)
    ensures
        json_view(r) == single(key@, json_view(value)),
{
    let ghost held = json_view(value);
    let mut m: Vec<(String, serde_json::Value)> = Vec::new();
    m.push(member(key, value));
    proof {
        assert(member_views(m@) =~= seq![(key@, held)]);
    }
    json_object(m)
}

fn sarif_rule(tag: &str) -> (r: serde_json::Value)
    ensures
        json_view(r) == rule_json(tag@),
{
    let mut m: Vec<(String, serde_json::Value)> = Vec::new();
    m.push(
        member("helpUri", json_string("https://github.com/asmuelle/cargo-impact#README")),
    );
    m.push(member("id", json_string(tag)));
    m.push(member("name", json_string(sarif_rule_name(tag).as_str())));
    m.push(member("shortDescription", json_single("text", json_string(sarif_rule_short(tag)))));
    proof {
        reveal_strlit("helpUri");
        assert("helpUri"@.len() == 7);
        reveal_strlit("id");
        assert("id"@.len() == 2);
        reveal_strlit("name");
        assert("name"@.len() == 4);
        reveal_strlit("shortDescription");
        assert("shortDescription"@.len() == 16);
        assert(member_views(m@) =~= rule_json(tag@)->Object_0);
    }
    json_object(m)
}

/// The place a finding points at: its file, and its line where it has one.
pub open spec fn locations_json(f: FindingView) -> JsonView {
    match kind_path(f.kind) {
        Some(p) => {
            let artifact = (
                "artifactLocation"@,
                single("uri"@, JsonView::Text(replaced(p, '\\', '/'))),
            );
            let physical = match kind_line(f.kind) {
                Some(n) => seq![artifact, ("region"@, single("startLine"@, JsonView::Count(n)))],
                None => seq![artifact],
            };
            JsonView::List(seq![single("physicalLocation"@, JsonView::Object(physical))])
        },
        None => JsonView::List(Seq::empty()),
    }
}

fn sarif_locations(f: &Finding) -> (r: serde_json::Value)
    ensures
        json_view(r) == locations_json(f@),
{
    let mut list: Vec<serde_json::Value> = Vec::new();
    match f.primary_path() {
        Some(p) => {
            let uri = replace_char(p, '\\', '/');
            let mut m: Vec<(String, serde_json::Value)> = Vec::new();
            m.push(member("artifactLocation", json_single("uri", json_string(uri.as_str()))));
            match finding_line(f) {
                Some(n) => {
                    m.push(member("region", json_single("startLine", json_count(n as u64))));
                },
                None => {},
            }
            proof {
                reveal_strlit("artifactLocation");
                assert("artifactLocation"@.len() == 16);
                reveal_strlit("region");
                assert("region"@.len() == 6);
                let artifact = (
                    "artifactLocation"@,
                    single("uri"@, JsonView::Text(replaced(p@, '\\', '/'))),
                );
                let physical = match kind_line(f@.kind) {
                    Some(n) => seq![artifact, ("region"@, single("startLine"@, JsonView::Count(n)))],
                    None => seq![artifact],
                };
                assert(member_views(m@) =~= physical);
            }
            list.push(json_single("physicalLocation", json_object(m)));
        },
        None => {},
    }
    proof {
        assert(json_views(list@) =~= locations_json(f@)->List_0);
    }
    json_list(list)
}

/// The properties of a result: what SARIF levels do not carry.
pub open spec fn properties_json(f: FindingView) -> JsonView {
    JsonView::Object(
        seq![
            ("confidence"@, JsonView::Hundredths(f.confidence)),
            ("severity"@, JsonView::Text(f.severity.slug_spec())),
            (
                "suggestedAction"@,
                match f.suggested_action {
                    Some(a) => JsonView::Text(a),
                    None => JsonView::Null,
                },
            ),
            ("tier"@, JsonView::Text(f.tier.slug_spec())),
        ],
    )
}

fn sarif_properties(f: &Finding) -> (r: serde_json::Value)
    ensures
        json_view(r) == properties_json(f@),
{
    let mut m: Vec<(String, serde_json::Value)> = Vec::new();
    m.push(member("confidence", json_hundredths(f.confidence)));
    m.push(member("severity", json_string(f.severity.slug())));
    m.push(
        member(
            "suggestedAction",
            match &f.suggested_action {
                Some(a) => json_string(a.as_str()),
                None => json_null(),
            },
        ),
    );
    m.push(member("tier", json_string(f.tier.slug())));
    proof {
        reveal_strlit("confidence");
        assert("confidence"@.len() == 10);
        reveal_strlit("severity");
        assert("severity"@.len() == 8);
        reveal_strlit("suggestedAction");
        assert("suggestedAction"@.len() == 15);
        reveal_strlit("tier");
        assert("tier"@.len() == 4);
        assert(member_views(m@) =~= properties_json(f@)->Object_0);
    }
    json_object(m)
}

/// The JSON object of a result.
pub open spec fn result_json(f: FindingView) -> JsonView {
    JsonView::Object(
        seq![
            ("level"@, JsonView::Text(level_spec(f.severity))),
            ("locations"@, locations_json(f)),
            ("message"@, single("text"@, JsonView::Text(f.evidence))),
            (
                "partialFingerprints"@,
                single("primaryLocationLineHash"@, JsonView::Text(f.id)),
            ),
            ("properties"@, properties_json(f)),
            ("ruleId"@, JsonView::Text(kind_tag(f.kind))),
        ],
    )
}

fn sarif_result(f: &Finding) -> (r: serde_json::Value)
    ensures
        json_view(r) == result_json(f@),
{
    let mut m: Vec<(String, serde_json::Value)> = Vec::new();
    m.push(member("level", json_string(sarif_level(f.severity))));
    m.push(member("locations", sarif_locations(f)));
    m.push(member("message", json_single("text", json_string(f.evidence.as_str()))));
    m.push(
        member(
            "partialFingerprints",
            json_single("primaryLocationLineHash", json_string(f.id.as_str())),
        ),
    );
    m.push(member("properties", sarif_properties(f)));
    m.push(member("ruleId", json_string(f.kind.tag())));
    proof {
        reveal_strlit("level");
        assert("level"@.len() == 5);
        reveal_strlit("locations");
        assert("locations"@.len() == 9);
        reveal_strlit("message");
        assert("message"@.len() == 7);
        reveal_strlit("partialFingerprints");
        assert("partialFingerprints"@.len() == 19);
        reveal_strlit("properties");
        assert("properties"@.len() == 10);
        reveal_strlit("ruleId");
        assert("ruleId"@.len() == 6);
        assert(member_views(m@) =~= result_json(f@)->Object_0);
    }
    json_object(m)
}

/// The description of the tool.
pub open spec fn driver_json() -> JsonView {
    JsonView::Object(
        seq![
            ("informationUri"@, JsonView::Text("https://github.com/asmuelle/cargo-impact"@)),
            ("name"@, JsonView::Text("cargo-impact"@)),
            ("rules"@, JsonView::List(tag_list().map_values(|t: Seq<char>| rule_json(t)))),
            ("version"@, JsonView::Text(version_text())),
        ],
    )
}

fn sarif_driver() -> (r: serde_json::Value)
    ensures
        json_view(r) == driver_json(),
{
    let tags = FindingKind::all_tags();
    let ghost t = tag_list();
    let mut rules: Vec<serde_json::Value> = Vec::new();
    let mut i: usize = 0;
    proof {
        assert(tags@.map_values(|t: &'static str| t@).len() == tags@.len());
    }
    while i < tags.len()
        invariant
            i <= tags@.len(),
            t == tags@.map_values(|t: &'static str| t@),
            rules@.len() == i,
            forall|j: int| 0 <= j < i ==> json_view(#[trigger] rules@[j]) == rule_json(t[j]),
        decreases tags@.len() - i,
    {
        proof {
            assert(t[i as int] == tags@[i as int]@);
        }
        rules.push(sarif_rule(tags[i]));
        i = i + 1;
    }
    let ghost held = json_views(rules@);
    let mut m: Vec<(String, serde_json::Value)> = Vec::new();
    m.push(
        member("informationUri", json_string("https://github.com/asmuelle/cargo-impact")),
    );
    m.push(member("name", json_string("cargo-impact")));
    m.push(member("rules", json_list(rules)));
    m.push(member("version", json_string(version())));
    proof {
        assert(held =~= t.map_values(|t: Seq<char>| rule_json(t)));
        reveal_strlit("informationUri");
        assert("informationUri"@.len() == 14);
        reveal_strlit("name");
        assert("name"@.len() == 4);
        reveal_strlit("rules");
        assert("rules"@.len() == 5);
        reveal_strlit("version");
        assert("version"@.len() == 7);
        assert(member_views(m@) =~= driver_json()->Object_0);
    }
    json_object(m)
}

/// The SARIF document.
pub open spec fn sarif_json(s: Seq<FindingView>) -> JsonView {
    JsonView::Object(
        seq![
            ("$schema"@, JsonView::Text("https://json.schemastore.org/sarif-2.1.0.json"@)),
            (
                "runs"@,
                JsonView::List(
                    seq![
                        JsonView::Object(
                            seq![
                                (
                                    "results"@,
                                    JsonView::List(s.map_values(|f: FindingView| result_json(f))),
                                ),
                                ("tool"@, single("driver"@, driver_json())),
                            ],
                        ),
                    ],
                ),
            ),
            ("version"@, JsonView::Text("2.1.0"@)),
        ],
    )
}

/// The SARIF document, indented.
pub fn render_sarif(findings: &Vec<Finding>) -> (r: String)
    ensures
        r@ == pretty_text(sarif_json(finding_views(findings@))),
{
    let ghost s = finding_views(findings@);
    let mut results: Vec<serde_json::Value> = Vec::new();
    let mut i: usize = 0;
    while i < findings.len()
        invariant
            i <= findings@.len(),
            s == finding_views(findings@),
            results@.len() == i,
            forall|j: int| 0 <= j < i ==> json_view(#[trigger] results@[j]) == result_json(s[j]),
        decreases findings@.len() - i,
    {
        results.push(sarif_result(&findings[i]));
        i = i + 1;
    }
    proof {
        assert(json_views(results@) =~= s.map_values(|f: FindingView| result_json(f)));
    }
    let mut run: Vec<(String, serde_json::Value)> = Vec::new();
    run.push(member("results", json_list(results)));
    run.push(member("tool", json_single("driver", sarif_driver())));
    let ghost run_view = JsonView::Object(
        seq![
            ("results"@, JsonView::List(s.map_values(|f: FindingView| result_json(f)))),
            ("tool"@, single("driver"@, driver_json())),
        ],
    );
    proof {
        reveal_strlit("results");
        assert("results"@.len() == 7);
        reveal_strlit("tool");
        assert("tool"@.len() == 4);
        assert(member_views(run@) =~= run_view->Object_0);
    }
    let mut runs: Vec<serde_json::Value> = Vec::new();
    runs.push(json_object(run));
    proof {
        assert(json_views(runs@) =~= seq![run_view]);
    }
    let mut doc: Vec<(String, serde_json::Value)> = Vec::new();
    doc.push(member("$schema", json_string("https://json.schemastore.org/sarif-2.1.0.json")));
    doc.push(member("runs", json_list(runs)));
    doc.push(member("version", json_string("2.1.0")));
    proof {
        reveal_strlit("$schema");
        assert("$schema"@.len() == 7);
        assert("$schema"@[0] == '$');
        reveal_strlit("runs");
        assert("runs"@.len() == 4);
        reveal_strlit("version");
        assert("version"@.len() == 7);
        assert("version"@[0] == 'v');
        assert(member_views(doc@) =~= sarif_json(s)->Object_0);
    }
    print_pretty(&json_object(doc))
}

/// Every finding's rule is in the rules list.
pub proof fn every_result_has_a_rule(f: FindingView)
    ensures
        tag_list().map_values(|t: Seq<char>| rule_json(t)).contains(rule_json(kind_tag(f.kind))),
{
    crate::finding::tag_is_listed(f.kind);
    let i = tag_list().index_of(kind_tag(f.kind));
    assert(tag_list().map_values(|t: Seq<char>| rule_json(t))[i] == rule_json(kind_tag(f.kind)));
}

/// Each severity has a level of its own.
pub proof fn levels_tell_severities_apart(a: SeverityClass)
    ensures
        level_spec(a) == "error"@ <==> a is High,
        level_spec(a) == "warning"@ <==> a is Medium,
        level_spec(a) == "note"@ <==> a is Low,
        level_spec(a) == "none"@ <==> a is Unknown,
{
    reveal_strlit("error");
    reveal_strlit("warning");
    reveal_strlit("note");
    reveal_strlit("none");
    assert("error"@.len() == 5);
    assert("warning"@.len() == 7);
    assert("note"@.len() == 4 && "note"@[2] == 't');
    assert("none"@.len() == 4 && "none"@[2] == 'n');
}

/// The name of a rule is its tag without underscores, with each word behind one
/// capitalised.
pub proof fn rule_names_are_camel_case(tag: Seq<char>, word: Seq<char>)
    requires
        forall|i: int| 0 <= i < word.len() ==> #[trigger] word[i] != '_',
    ensures
        rule_name(word) == word,
        rule_name(tag + seq!['_'] + word) == rule_name(tag) + capitalised(word),
        word.len() > 0 && 'a' <= word[0] && word[0] <= 'z' ==> capitalised(word)[0] as int
            == word[0] as int - 32,
        capitalised(word).len() == word.len(),
        forall|i: int| 0 < i < word.len() ==> #[trigger] capitalised(word)[i] == word[i],
{
    let p = only('_');
    assert forall|j: int| 0 <= j < word.len() implies !p(#[trigger] word[j]) by {}
    crate::text::lemma_first_at_is(word, p, 0, word.len() as int);
    assert(word.subrange(0, word.len() as int) =~= word);
    assert(pieces(word, p) =~= seq![word]);
    let one = camel_words(word);
    assert(one =~= seq![word]);
    assert(one.drop_last() =~= Seq::empty());
    assert(flat(one.drop_last()) =~= Seq::empty());
    assert(flat(one) =~= word);
    crate::text::lemma_pieces_join(tag, '_', word, p, 0);
    crate::text::lemma_pieces_nonempty(tag, p, 0);
    let all = camel_words(tag + seq!['_'] + word);
    let front = camel_words(tag);
    assert(all.drop_last() =~= front);
    assert(all.last() == capitalised(word));
    assert(rule_name(tag + seq!['_'] + word) =~= rule_name(tag) + capitalised(word));
}

/// A result tells the rule, the level, the evidence, the id and the place of its
/// finding, and what levels do not carry.
pub proof fn results_tell_their_finding(f: FindingView)
    ensures
        ({
            let m = result_json(f)->Object_0;
            &&& m.contains(("ruleId"@, JsonView::Text(kind_tag(f.kind))))
            &&& m.contains(("level"@, JsonView::Text(level_spec(f.severity))))
            &&& m.contains(("message"@, single("text"@, JsonView::Text(f.evidence))))
            &&& m.contains(
                ("partialFingerprints"@, single("primaryLocationLineHash"@, JsonView::Text(f.id))),
            )
            &&& m.contains(("locations"@, locations_json(f)))
            &&& m.contains(("properties"@, properties_json(f)))
        }),
        ({
            let m = properties_json(f)->Object_0;
            &&& m.contains(("confidence"@, JsonView::Hundredths(f.confidence)))
            &&& m.contains(("severity"@, JsonView::Text(f.severity.slug_spec())))
            &&& m.contains(("tier"@, JsonView::Text(f.tier.slug_spec())))
            &&& f.suggested_action matches Some(a) ==> m.contains(
                ("suggestedAction"@, JsonView::Text(a)),
            )
            &&& f.suggested_action is None ==> m.contains(("suggestedAction"@, JsonView::Null))
        }),
{
    let m = result_json(f)->Object_0;
    assert(m[0] == ("level"@, JsonView::Text(level_spec(f.severity))));
    assert(m[1] == ("locations"@, locations_json(f)));
    assert(m[2] == ("message"@, single("text"@, JsonView::Text(f.evidence))));
    assert(m[3] == (
        "partialFingerprints"@,
        single("primaryLocationLineHash"@, JsonView::Text(f.id)),
    ));
    assert(m[4] == ("properties"@, properties_json(f)));
    assert(m[5] == ("ruleId"@, JsonView::Text(kind_tag(f.kind))));
    let p = properties_json(f)->Object_0;
    assert(p[0] == ("confidence"@, JsonView::Hundredths(f.confidence)));
    assert(p[1] == ("severity"@, JsonView::Text(f.severity.slug_spec())));
    assert(p[3] == ("tier"@, JsonView::Text(f.tier.slug_spec())));
    if let Some(a) = f.suggested_action {
        assert(p[2] == ("suggestedAction"@, JsonView::Text(a)));
    } else {
        assert(p[2] == ("suggestedAction"@, JsonView::Null));
    }
}

/// A finding with a file has one location: its file with forward slashes, and
/// its line where it has one. A finding without a file has none.
pub proof fn locations_name_file_and_line(f: FindingView)
    ensures
        locations_json(f) is List,
        kind_path(f.kind) is None ==> locations_json(f)->List_0.len() == 0,
        kind_path(f.kind) matches Some(p) ==> {
            let place = ("artifactLocation"@, single("uri"@, JsonView::Text(replaced(p, '\\', '/'))));
            &&& locations_json(f)->List_0.len() == 1
            &&& kind_line(f.kind) is None ==> locations_json(f)->List_0[0] == single(
                "physicalLocation"@,
                JsonView::Object(seq![place]),
            )
            &&& kind_line(f.kind) matches Some(n) ==> locations_json(f)->List_0[0] == single(
                "physicalLocation"@,
                JsonView::Object(
                    seq![place, ("region"@, single("startLine"@, JsonView::Count(n)))],
                ),
            )
        },
{
}

/// The document has one run with a result for each finding, in order.
pub proof fn documents_hold_every_result(s: Seq<FindingView>)
    ensures
        ({
            let runs = sarif_json(s)->Object_0[1];
            let run = runs.1->List_0[0]->Object_0;
            &&& sarif_json(s) is Object
            &&& sarif_json(s)->Object_0.len() == 3
            &&& runs.0 == "runs"@
            &&& runs.1 is List
            &&& runs.1->List_0.len() == 1
            &&& runs.1->List_0[0] is Object
            &&& run.len() == 2
            &&& run[0].0 == "results"@
            &&& run[0].1 is List
            &&& run[0].1->List_0.len() == s.len()
            &&& forall|i: int|
                0 <= i < s.len() ==> #[trigger] run[0].1->List_0[i] == result_json(s[i])
            &&& run[1] == ("tool"@, single("driver"@, driver_json()))
        }),
{
}

/// Only small ASCII letters are capitalised.
pub proof fn other_characters_stay(word: Seq<char>)
    requires
        word.len() > 0,
        word[0] < 'a' || word[0] > 'z',
    ensures
        capitalised(word) == word,
{
    assert(capitalised(word) =~= word);
}

} // verus!
