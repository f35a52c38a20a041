use cargo_impact::ignore::{glob_matches, IgnoreSet};

#[test]
fn empty_matcher_never_matches() {
    let m = IgnoreSet::empty();
    assert!(!m.is_ignored("src/lib.rs"));
    assert!(!m.is_ignored("anything/at/all"));
    assert!(m.is_empty());
}

#[test]
fn literal_pattern_matches_substring() {
    let m = IgnoreSet::parse("vendor\n");
    assert!(m.is_ignored("vendor/foo.rs"));
    assert!(m.is_ignored("src/vendor/bar.rs"));
    assert!(!m.is_ignored("src/lib.rs"));
}

#[test]
fn glob_matches_single_component() {
    let m = IgnoreSet::parse("*.generated.rs\n");
    assert!(m.is_ignored("src/api.generated.rs"));
    assert!(m.is_ignored("target/api.generated.rs"));
    assert!(!m.is_ignored("src/api.rs"));
}

#[test]
fn comments_and_blank_lines_ignored() {
    let src = "\
# this is a comment
\n\
   # leading whitespace comment
\n\
vendor\n\
\n\
# another comment\n\
";
    let m = IgnoreSet::parse(src);
    assert_eq!(m.len(), 1);
}

#[test]
fn missing_file_yields_empty_matcher() {
    let m = IgnoreSet::load(None);
    assert!(m.is_empty());
}

#[test]
fn load_reads_file_at_root() {
    let m = IgnoreSet::load(Some("vendor\ntarget\n*.generated.rs\n"));
    assert_eq!(m.len(), 3);
    assert!(m.is_ignored("vendor/lib.rs"));
    assert!(m.is_ignored("target/debug/build.rs"));
    assert!(m.is_ignored("api.generated.rs"));
}

#[test]
fn windows_style_paths_are_normalized() {
    let m = IgnoreSet::parse("vendor\n");
    assert!(m.is_ignored("src\\vendor\\mod.rs"));
}

#[test]
fn glob_matches_helper_covers_wildcard_semantics() {
    assert!(glob_matches("*", "anything"));
    assert!(glob_matches("*.rs", "lib.rs"));
    assert!(glob_matches("a*b", "axxxb"));
    assert!(glob_matches("a*b", "ab"));
    assert!(!glob_matches("a*b", "ac"));
    assert!(glob_matches("prefix*", "prefix_and_more"));
    assert!(!glob_matches("exact", "exactly"));
}

#[test]
fn a_star_matches_every_run_and_the_rest_is_literal() {
    assert!(glob_matches("a*b*c", "a--b--c"));
    assert!(!glob_matches("a*b*c", "a--c--b"));
    assert!(glob_matches("**", ""));
    assert!(!glob_matches("a?c", "abc"));
    assert!(glob_matches("a?c", "a?c"));
    assert!(glob_matches("", ""));
    assert!(!glob_matches("", "a"));
}

#[test]
fn two_files_ignore_what_either_does() {
    let (a, b) = ("vendor\r\n# note", "*.gen.rs\n\n");
    let both = IgnoreSet::parse(&format!("{a}\n{b}"));
    let (x, y) = (IgnoreSet::parse(a), IgnoreSet::parse(b));
    assert_eq!(both.len(), 2);
    for path in ["vendor/a.rs", "src/x.gen.rs", "src/lib.rs"] {
        assert_eq!(both.is_ignored(path), x.is_ignored(path) || y.is_ignored(path), "{path}");
    }
}

#[test]
fn outer_white_space_changes_no_pattern() {
    assert_eq!(IgnoreSet::parse("a\n \u{a0}vendor\u{3000}\t\nb"), IgnoreSet::parse("a\nvendor\nb"));
    assert_eq!(IgnoreSet::parse("a\n\n # c\nb"), IgnoreSet::parse("a\nb"));
    assert!(IgnoreSet::parse("  \n# x\n").is_empty());
    assert!(!IgnoreSet::parse("  \n# x\ny").is_empty());
}
