use cargo_impact::finding::{Finding, FindingKind, SeverityClass, Tier};
use cargo_impact::json::hundredths;
use cargo_impact::names::NameSet;
use cargo_impact::paths::{
    file_name, has_extension, is_same_path, join_path, ordered_paths, path_less,
    worktree_to_root_relative,
};
use cargo_impact::ranking::rank_findings;
use cargo_impact::scan::tokens_contain_ident;
use cargo_impact::sarif::sarif_rule_name;
use cargo_impact::text::{
    before, chars_in, decimal_text, has_text, hex_text, join, less, lines, replace_char, split_on,
    split_whitespace, split_words, strip_prefix, trim, trim_char, trim_end_matches, trim_start,
};
use cargo_impact::textmap::TextMap;
use std::path::Path;

#[test]
fn texts_are_cut_as_in_the_standard_library() {
    for s in ["", "a", " a b ", "a\nb\r\nc", "a\n", "\r\n", "x\r", "\u{2003}é\tß", ",,a,"] {
        assert_eq!(lines(s), s.lines().collect::<Vec<_>>());
        assert_eq!(trim(s), s.trim());
        assert_eq!(trim_start(s), s.trim_start());
        assert_eq!(split_on(s, ','), s.split(',').collect::<Vec<_>>());
        assert_eq!(split_whitespace(s), s.split_whitespace().collect::<Vec<_>>());
        assert_eq!(trim_char(s, 'a'), s.trim_matches('a'));
        assert_eq!(trim_end_matches(s, "\n"), s.trim_end_matches("\n"));
        assert_eq!(strip_prefix(s, "a").as_deref(), s.strip_prefix("a"));
        assert_eq!(replace_char(s, 'a', 'z'), s.replace('a', "z"));
        assert_eq!(has_text(s, "\n"), s.contains("\n"));
        assert_eq!(chars_in(s), s.chars().count() as u128);
        assert_eq!(before(s, "b"), s.split("b").next().unwrap());
    }
    assert_eq!(
        split_words("let a_b = c::d1;"),
        "let a_b = c::d1;"
            .split(|c: char| !(c.is_alphanumeric() || c == '_'))
            .collect::<Vec<_>>()
    );
}

#[test]
fn texts_are_ordered_as_in_the_standard_library() {
    let all = ["", "a", "ab", "b", "é", "z", "\u{10000}", "\u{ffff}", "A"];
    for a in all {
        for b in all {
            assert_eq!(less(a, b), a < b);
        }
    }
}

#[test]
fn numbers_print_in_decimal_and_hexadecimal() {
    for n in [0u64, 7, 10, 409, u64::MAX] {
        assert_eq!(decimal_text(n), n.to_string());
        assert_eq!(hex_text(n, 16), format!("{n:016x}"));
    }
    assert_eq!(hundredths(0), "0.00");
    assert_eq!(hundredths(85), "0.85");
    assert_eq!(hundredths(100), "1.00");
    assert_eq!(hundredths(1234), "12.34");
    assert_eq!(join(&vec!["a".to_string(), "b".to_string()], " + "), "a + b");
    assert_eq!(join(&vec![], ","), "");
}

#[test]
fn words_are_matched_whole() {
    assert!(tokens_contain_ident("foo . login ( )", "login"));
    assert!(!tokens_contain_ident("login_helper", "login"));
    assert!(!tokens_contain_ident("relogin", "login"));
    assert!(tokens_contain_ident("login", "login"));
}

#[test]
fn paths_are_read_as_in_the_standard_library() {
    let all = [
        "", "a", "./a", "a/", "a//b", "a/b", "a/./b", "../a", "/a", "/", "a.rs", "a/.rs", "a/b.c.rs",
        "a/..", "a.b/c", ".", "..", "a/b.",
    ];
    for a in all {
        let p = Path::new(a);
        assert_eq!(
            file_name(a).as_deref(),
            p.file_name().map(|n| n.to_str().unwrap()),
            "{a}"
        );
        let ext = p.extension().map(|e| e.to_str().unwrap());
        assert_eq!(has_extension(a, "rs"), ext == Some("rs"), "{a}");
        for b in all {
            let q = Path::new(b);
            assert_eq!(is_same_path(a, b), p == q, "{a} {b}");
            assert_eq!(path_less(a, b), p < q, "{a} {b}");
            assert_eq!(
                worktree_to_root_relative(a, b),
                if b.is_empty() {
                    Some(a.to_string())
                } else {
                    p.strip_prefix(q).ok().map(|r| r.to_str().unwrap().to_string())
                }
                .map(|r| if b.is_empty() { r } else { spelled(&r) }),
                "{a} {b}"
            );
            assert_eq!(join_path(a, b), p.join(q).to_str().unwrap(), "{a} {b}");
        }
    }
    let list: Vec<String> = ["b", "a//c", "a/c", "a", "b/"].iter().map(|s| s.to_string()).collect();
    assert_eq!(ordered_paths(&list), vec!["a", "a//c", "b"]);
}

/// A relative path with single separators.
fn spelled(path: &str) -> String {
    let parts: Vec<&str> =
        Path::new(path).components().map(|c| c.as_os_str().to_str().unwrap()).collect();
    parts.join("/")
}

#[test]
fn names_are_kept_in_order_and_once() {
    let mut set = NameSet::from_names(&vec!["b".to_string(), "a".to_string(), "b".to_string()]);
    set.insert("aa");
    assert_eq!(set.list(), &vec!["a", "aa", "b"]);
    assert!(set.contains("aa"));
    assert!(!set.contains("c"));
    assert_eq!(set.len(), 3);
    assert_eq!(set.clone(), set);
}

#[test]
fn maps_are_listed_in_order_of_their_keys() {
    let mut map: TextMap<String> = TextMap::new();
    map.insert("b", "1".to_string());
    map.insert("a", "2".to_string());
    map.insert("b", "3".to_string());
    assert_eq!(
        map.entries,
        vec![("a".to_string(), "2".to_string()), ("b".to_string(), "3".to_string())]
    );
    assert!(map.get("c").is_none());
}

#[test]
fn rule_names_join_words() {
    assert_eq!(sarif_rule_name("a"), "a");
    assert_eq!(sarif_rule_name("a__b"), "aB");
}

#[test]
fn findings_are_ranked_by_severity_tier_tag_evidence_and_id() {
    fn mk(id: &str, sev: SeverityClass, tier: Tier, evidence: &str) -> Finding {
        let kind = FindingKind::BuildScriptChanged { file: "b".into() };
        Finding::new(id, tier, 50, kind, evidence).with_severity(sev)
    }
    let out = rank_findings(vec![
        mk("6", SeverityClass::Unknown, Tier::Proven, "a"),
        mk("5", SeverityClass::Medium, Tier::Unknown, "a"),
        mk("4", SeverityClass::High, Tier::Likely, "b"),
        mk("3", SeverityClass::High, Tier::Likely, "a"),
        mk("2", SeverityClass::High, Tier::Likely, "a"),
        mk("1", SeverityClass::High, Tier::Proven, "z"),
    ]);
    let ids: Vec<&str> = out.iter().map(|f| f.id.as_str()).collect();
    assert_eq!(ids, vec!["1", "2", "3", "4", "5", "6"]);
}
