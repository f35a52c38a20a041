//! Tests whose bodies name a changed symbol.
//!
//! The match is by whole word, without name resolution, so a finding is at most
//! `Likely`.
use crate::cfg::{parse_and_filter, visible_source, FeatureSet, FeaturesView};
use crate::finding::{
    finding_views, new_finding, Finding, FindingKind, FindingView, KindView, Location,
    LocationView, Tier,
};
use crate::names::NameSet;
use crate::scan::{
    all_fns, every_file_is_scanned, fn_refs, is_marked, is_word, lemma_contains_add,
    lemma_scanned_step, marked, marks_are_last_segments, mentioned, mentioned_names,
    mentioned_names_are_exact, scanned, stands_alone_at, tree_fns,
};
use crate::symbols::{file_views, FileView, SourceFile};
use crate::syntax::{FnSite, FnSiteView, SourceTree, TreeView};
use crate::text::{join, joined, same, starts_with, texts};
use vstd::prelude::*;
use vstd::string::*;

verus! {

/// Attribute names that make a function a test.
pub open spec fn test_marks() -> Seq<Seq<char>> {
    seq!["test"@, "rstest"@, "bench"@]
}

/// Whether a function is a test.
pub open spec fn is_test(f: FnSiteView) -> bool {
    marked(f.markers, test_marks())
}

/// Whether a function is a test: one of its attributes ends in `test`,
/// `rstest` or `bench`.
pub fn is_test_fn(f: &FnSite) -> (r: bool)
    ensures
        r == is_test(f@),
{
    let mut marks: Vec<&'static str> = Vec::new();
    marks.push("test");
    marks.push("rstest");
    marks.push("bench");
    proof {
        assert(marks@.map_values(|m: &'static str| m@) =~= test_marks());
    }
    is_marked(&f.markers, &marks)
}

/// The command that runs one test.
pub open spec fn run_command(test: Seq<char>) -> Seq<char> {
    "cargo nextest run -E 'test("@ + test + ")'"@
}

/// The finding for a test.
pub open spec fn test_finding(
    file: Seq<char>,
    test: Seq<char>,
    matched: Seq<Seq<char>>,
    confidence: int,
    evidence: Seq<char>,
) -> FindingView {
    FindingView {
        suggested_action: Some(run_command(test)),
        ..new_finding(
            ""@,
            Tier::Likely,
            confidence,
            KindView::TestReference {
                test: LocationView { file, symbol: test },
                matched_symbols: matched,
            },
            evidence,
        )
    }
}

/// The finding for a test.
pub(crate) fn make_test_finding(
    file: &str,
    test: &str,
    matched: Vec<String>,
    confidence: i64,
    evidence: &str,
) -> (r: Finding)
    ensures
        r@ == test_finding(file@, test@, texts(matched@), confidence as int, evidence@),
{
    let mut action = "cargo nextest run -E 'test(".to_owned();
    action.append(test);
    action.append(")'");
    let kind = FindingKind::TestReference {
        test: Location { file: file.to_owned(), symbol: test.to_owned() },
        matched_symbols: matched,
    };
    Finding::new("", Tier::Likely, confidence, kind, evidence).with_suggested_action(
        action.as_str(),
    )
}

/// Evidence that a test names symbols.
pub open spec fn test_evidence(matched: Seq<Seq<char>>) -> Seq<char> {
    "test body references "@ + joined(matched, ", "@)
        + " (syntactic match, no name resolution)"@
}

/// The findings for the first `n` functions of a file.
pub open spec fn tests_in(
    file: Seq<char>,
    sites: Seq<FnSiteView>,
    changed: Seq<Seq<char>>,
    n: nat,
) -> Seq<FindingView>
    decreases n,
{
    if n == 0 {
        Seq::empty()
    } else {
        let rest = tests_in(file, sites, changed, (n - 1) as nat);
        let f = sites[n - 1];
        let matched = mentioned_names(changed, f.body);
        if is_test(f) && matched.len() > 0 {
            rest.push(test_finding(file, f.name, matched, 85, test_evidence(matched)))
        } else {
            rest
        }
    }
}

/// The findings for the tests of a file.
pub open spec fn file_tests(changed: Seq<Seq<char>>) -> spec_fn(Seq<char>, TreeView) -> Seq<
    FindingView,
> {
    |file: Seq<char>, tree: TreeView|
        {
            let sites = tree_fns(tree);
            tests_in(file, sites, changed, sites.len())
        }
}

/// The findings for the tests of the workspace.
pub open spec fn affected_tests(
    files: Seq<FileView>,
    changed: Seq<Seq<char>>,
    f: FeaturesView,
) -> Seq<FindingView> {
    if changed.len() == 0 {
        Seq::empty()
    } else {
        scanned(files, f, file_tests(changed))
    }
}

pub fn scan_tests(file: &str, tree: &SourceTree, changed: &NameSet) -> (r: Vec<Finding>)
    ensures
        finding_views(r@) == file_tests(changed@)(file@, tree@),
{
    let sites = all_fns(tree);
    let ghost s = fn_refs(sites@);
    let mut out: Vec<Finding> = Vec::new();
    let mut i: usize = 0;
    proof {
        assert(finding_views(out@) =~= Seq::empty());
        assert(s.len() == sites@.len());
    }
    while i < sites.len()
        invariant
            i <= sites@.len(),
            s == fn_refs(sites@),
            finding_views(out@) == tests_in(file@, s, changed@, i as nat),
        decreases sites@.len() - i,
    {
        let site = sites[i];
        proof {
            assert(s[i as int] == site@);
        }
        if is_test_fn(site) {
            let matched = mentioned(changed, site.body.as_str());
            proof {
                assert(texts(matched@).len() == matched@.len());
            }
            if matched.len() > 0 {
                let mut evidence = "test body references ".to_owned();
                evidence.append(join(&matched, ", ").as_str());
                evidence.append(" (syntactic match, no name resolution)");
                let f = make_test_finding(
                    file,
                    site.name.as_str(),
                    matched,
                    85,
                    evidence.as_str(),
                );
                proof {
                    assert(finding_views(out@.push(f)) =~= finding_views(out@).push(f@));
                }
                out.push(f);
            }
        }
        i = i + 1;
    }
    out
}

/// The tests of the workspace whose bodies name a changed symbol.
pub fn find_affected_tests(files: &Vec<SourceFile>, changed: &NameSet, features: &FeatureSet) -> (r:
    Vec<Finding>)
    ensures
        finding_views(r@) == affected_tests(file_views(files@), changed@, features@),
{
    let mut out: Vec<Finding> = Vec::new();
    let ghost fs = file_views(files@);
    let ghost per = file_tests(changed@);
    proof {
        assert(finding_views(out@) =~= Seq::empty());
    }
    if changed.is_empty() {
        return out;
    }
    let mut i: usize = 0;
    while i < files.len()
        invariant
            i <= files@.len(),
            fs == file_views(files@),
            per == file_tests(changed@),
            finding_views(out@) == scanned(fs.take(i as int), features@, per),
        decreases files@.len() - i,
    {
        proof {
            lemma_scanned_step(fs, features@, per, i as int);
            assert(fs[i as int] == files@[i as int]@);
        }
        let ghost before = out@;
        match parse_and_filter(files[i].text.as_str(), features) {
            Some(tree) => {
                let mut more = scan_tests(files[i].path.as_str(), &tree, changed);
                let ghost added = more@;
                out.append(&mut more);
                proof {
                    assert(finding_views(out@) =~= finding_views(before) + finding_views(added));
                }
            },
            None => {
                proof {
                    assert(finding_views(out@) =~= finding_views(before) + Seq::empty());
                }
            },
        }
        i = i + 1;
    }
    proof {
        assert(fs.take(files@.len() as int) =~= fs);
    }
    out
}

/// Whether a directory walk leaves an entry out.
pub open spec fn skipped(depth: nat, name: Seq<char>, is_dir: bool) -> bool {
    depth > 0 && ((crate::text::begins(name, "."@) && is_dir) || name == "target"@)
}

/// Whether a directory walk leaves an entry out: hidden directories and
/// `target`, but never the root itself.
pub fn is_skippable(depth: usize, name: &str, is_dir: bool) -> (r: bool)
    ensures
        r == skipped(depth as nat, name@, is_dir),
{
    if depth == 0 {
        return false;
    }
    (starts_with(name, ".") && is_dir) || same(name, "target")
}

// ---------------------------------------------------------------------------
// Laws
// ---------------------------------------------------------------------------

/// The finding that a function owes: what one function alone brings.
spec fn owed(file: Seq<char>, g: FnSiteView, changed: Seq<Seq<char>>) -> Seq<FindingView> {
    let matched = mentioned_names(changed, g.body);
    if is_test(g) && matched.len() > 0 {
        seq![test_finding(file, g.name, matched, 85, test_evidence(matched))]
    } else {
        Seq::empty()
    }
}

proof fn lemma_tests_in(
    file: Seq<char>,
    sites: Seq<FnSiteView>,
    changed: Seq<Seq<char>>,
    n: nat,
    x: FindingView,
)
    requires
        n <= sites.len(),
    ensures
        tests_in(file, sites, changed, n).contains(x) <==> exists|k: int|
            0 <= k < n && #[trigger] owed(file, sites[k], changed).contains(x),
    decreases n,
{
    if n > 0 {
        let m = (n - 1) as nat;
        lemma_tests_in(file, sites, changed, m, x);
        let rest = tests_in(file, sites, changed, m);
        let o = owed(file, sites[n - 1], changed);
        assert(tests_in(file, sites, changed, n) =~= rest + o);
        lemma_contains_add(rest, o, x);
    }
}

/// Whether a function is marked as a test: the last segment of one of its
/// attributes is `test`, `rstest` or `bench`.
pub open spec fn has_test_mark(g: FnSiteView) -> bool {
    g.markers.contains(Some("test"@)) || g.markers.contains(Some("rstest"@)) || g.markers.contains(
        Some("bench"@),
    )
}

pub proof fn lemma_is_test(g: FnSiteView)
    ensures
        is_test(g) <==> has_test_mark(g),
{
    marks_are_last_segments(g.markers, test_marks());
    let m = test_marks();
    assert(m[0] == "test"@ && m[1] == "rstest"@ && m[2] == "bench"@);
    assert(m.contains("test"@) && m.contains("rstest"@) && m.contains("bench"@));
}

/// Whether a finding says that the test `g` of a file names changed symbols: all
/// that stand in its body as whole words, and no others.
pub open spec fn tells_of_test(
    x: FindingView,
    file: Seq<char>,
    g: FnSiteView,
    changed: Seq<Seq<char>>,
) -> bool {
    match x.kind {
        KindView::TestReference { test, matched_symbols } => {
            &&& test == LocationView { file, symbol: g.name }
            &&& matched_symbols.len() > 0
            &&& forall|n: Seq<char>| #[trigger]
                matched_symbols.contains(n) <==> changed.contains(n) && is_word(n) && exists|a: int|
                    #[trigger] stands_alone_at(g.body, n, a)
        },
        _ => false,
    }
}

proof fn lemma_owed(file: Seq<char>, g: FnSiteView, changed: Seq<Seq<char>>, x: FindingView)
    ensures
        owed(file, g, changed).contains(x) ==> has_test_mark(g) && tells_of_test(
            x,
            file,
            g,
            changed,
        ) && x.tier == Tier::Likely && x.confidence == 85,
        has_test_mark(g) && (exists|n: Seq<char>, a: int|
            #![trigger stands_alone_at(g.body, n, a)]
            changed.contains(n) && is_word(n) && stands_alone_at(g.body, n, a)) ==> owed(
            file,
            g,
            changed,
        ).len() == 1,
{
    let matched = mentioned_names(changed, g.body);
    lemma_is_test(g);
    assert forall|n: Seq<char>| #[trigger]
        matched.contains(n) <==> changed.contains(n) && is_word(n) && exists|a: int| #[trigger]
            stands_alone_at(g.body, n, a) by {
        mentioned_names_are_exact(changed, g.body, n);
    }
    if owed(file, g, changed).contains(x) {
        let k = owed(file, g, changed).index_of(x);
        assert(x == test_finding(file, g.name, matched, 85, test_evidence(matched)));
    }
    if exists|n: Seq<char>, a: int|
        #![trigger stands_alone_at(g.body, n, a)]
        changed.contains(n) && is_word(n) && stands_alone_at(g.body, n, a) {
        let (n, a) = choose|n: Seq<char>, a: int|
            #![trigger stands_alone_at(g.body, n, a)]
            changed.contains(n) && is_word(n) && stands_alone_at(g.body, n, a);
        assert(stands_alone_at(g.body, n, a));
        assert(matched.contains(n));
        assert(matched.len() > 0);
    }
}

/// A test of a file that parses, in whose body some changed name stands as a
/// whole word, is reported, with exactly the changed names that stand there.
pub proof fn tests_that_name_changed_symbols_are_reported(
    files: Seq<FileView>,
    changed: Seq<Seq<char>>,
    f: FeaturesView,
    i: int,
    g: FnSiteView,
    name: Seq<char>,
    at: int,
)
    requires
        0 <= i < files.len(),
        visible_source(files[i].text, f) is Some,
        tree_fns(visible_source(files[i].text, f)->0).contains(g),
        g.markers.contains(Some("test"@)) || g.markers.contains(Some("rstest"@))
            || g.markers.contains(Some("bench"@)),
        changed.contains(name),
        is_word(name),
        stands_alone_at(g.body, name, at),
    ensures
        exists|x: FindingView| #[trigger]
            affected_tests(files, changed, f).contains(x) && tells_of_test(
                x,
                files[i].path,
                g,
                changed,
            ),
{
    let tree = visible_source(files[i].text, f)->0;
    let sites = tree_fns(tree);
    let k = sites.index_of(g);
    let file = files[i].path;
    let o = owed(file, g, changed);
    lemma_owed(file, g, changed, o[0]);
    assert(o.contains(o[0]));
    lemma_owed(file, g, changed, o[0]);
    lemma_tests_in(file, sites, changed, sites.len(), o[0]);
    assert(owed(file, sites[k], changed).contains(o[0]));
    assert(file_tests(changed)(file, tree).contains(o[0]));
    every_file_is_scanned(files, f, file_tests(changed), o[0]);
    assert(affected_tests(files, changed, f).contains(o[0]));
}

/// What is reported is a test of a file that parses, in whose body some changed
/// name stands as a whole word, with exactly the changed names that stand there.
pub proof fn reported_tests_name_changed_symbols(
    files: Seq<FileView>,
    changed: Seq<Seq<char>>,
    f: FeaturesView,
    x: FindingView,
)
    requires
        affected_tests(files, changed, f).contains(x),
    ensures
        x.tier == Tier::Likely,
        x.confidence == 85,
        exists|i: int, g: FnSiteView|
            0 <= i < files.len() && visible_source(files[i].text, f) is Some && tree_fns(
                visible_source(files[i].text, f)->0,
            ).contains(g) && has_test_mark(g) && #[trigger] tells_of_test(
                x,
                files[i].path,
                g,
                changed,
            ),
{
    every_file_is_scanned(files, f, file_tests(changed), x);
    let i = choose|i: int|
        0 <= i < files.len() && visible_source((#[trigger] files[i]).text, f) is Some
            && file_tests(changed)(files[i].path, visible_source(files[i].text, f)->0).contains(x);
    let sites = tree_fns(visible_source(files[i].text, f)->0);
    lemma_tests_in(files[i].path, sites, changed, sites.len(), x);
    let k = choose|k: int|
        0 <= k < sites.len() && #[trigger] owed(files[i].path, sites[k], changed).contains(x);
    lemma_owed(files[i].path, sites[k], changed, x);
    assert(sites.contains(sites[k]));
    assert(tells_of_test(x, files[i].path, sites[k], changed));
}

/// The findings for tests stand in the order of the functions, and a function
/// brings at most one.
pub proof fn tests_are_reported_in_order(
    file: Seq<char>,
    a: Seq<FnSiteView>,
    b: Seq<FnSiteView>,
    g: FnSiteView,
    changed: Seq<Seq<char>>,
)
    ensures
        tests_in(file, a + b, changed, (a + b).len()) == tests_in(file, a, changed, a.len())
            + tests_in(file, b, changed, b.len()),
        tests_in(file, seq![g], changed, 1).len() <= 1,
{
    lemma_tests_prefix(file, a, b, changed, a.len());
    lemma_tests_behind(file, a, b, changed, b.len());
    reveal_with_fuel(tests_in, 2);
}

proof fn lemma_tests_prefix(
    file: Seq<char>,
    a: Seq<FnSiteView>,
    b: Seq<FnSiteView>,
    changed: Seq<Seq<char>>,
    n: nat,
)
    requires
        n <= a.len(),
    ensures
        tests_in(file, a + b, changed, n) == tests_in(file, a, changed, n),
    decreases n,
{
    if n > 0 {
        lemma_tests_prefix(file, a, b, changed, (n - 1) as nat);
        assert((a + b)[n - 1] == a[n - 1]);
    }
}

proof fn lemma_tests_behind(
    file: Seq<char>,
    a: Seq<FnSiteView>,
    b: Seq<FnSiteView>,
    changed: Seq<Seq<char>>,
    n: nat,
)
    requires
        n <= b.len(),
    ensures
        tests_in(file, a + b, changed, a.len() + n) == tests_in(file, a, changed, a.len())
            + tests_in(file, b, changed, n),
    decreases n,
{
    if n > 0 {
        lemma_tests_behind(file, a, b, changed, (n - 1) as nat);
        assert((a + b)[a.len() + n - 1] == b[n - 1]);
        let x = tests_in(file, a, changed, a.len());
        let rest = tests_in(file, b, changed, (n - 1) as nat);
        let o = owed(file, b[n - 1], changed);
        assert(tests_in(file, b, changed, n) =~= rest + o);
        assert(tests_in(file, a + b, changed, a.len() + n) =~= x + rest + o);
    } else {
        lemma_tests_prefix(file, a, b, changed, a.len());
        assert(tests_in(file, a, changed, a.len()) + tests_in(file, b, changed, 0) =~= tests_in(
            file,
            a,
            changed,
            a.len(),
        ));
    }
}

/// A finding for a test keeps what it is made of, is of medium severity, and
/// suggests to run just that test; its evidence names every matched symbol.
pub proof fn test_findings_say_what_to_run(
    file: Seq<char>,
    test: Seq<char>,
    matched: Seq<Seq<char>>,
    confidence: int,
    evidence: Seq<char>,
    i: int,
)
    requires
        0 <= confidence <= 100,
    ensures
        ({
            let f = test_finding(file, test, matched, confidence, evidence);
            &&& f.kind == KindView::TestReference {
                test: LocationView { file, symbol: test },
                matched_symbols: matched,
            }
            &&& f.tier is Likely
            &&& f.severity is Medium
            &&& f.confidence == confidence
            &&& f.evidence == evidence
            &&& f.suggested_action == Some("cargo nextest run -E 'test("@ + test + ")'"@)
        }),
        0 <= i < matched.len() ==> crate::text::holds(test_evidence(matched), matched[i]),
{
    broadcast use crate::text::group_holds;

    if 0 <= i < matched.len() {
        crate::text::lemma_holds_joined(matched, ", "@, i, matched[i]);
    }
}

/// A walk never leaves its root out. Of what lies below, it leaves out just what
/// is called `target` and the directories whose names begin with a dot.
pub proof fn walks_skip_hidden_directories_and_target(depth: nat, name: Seq<char>, is_dir: bool)
    ensures
        depth == 0 ==> !skipped(depth, name, is_dir),
        depth > 0 && name == "target"@ ==> skipped(depth, name, is_dir),
        depth > 0 && name != "target"@ ==> (skipped(depth, name, is_dir) <==> is_dir && name.len()
            > 0 && name[0] == '.'),
{
    reveal_strlit(".");
    assert("."@ =~= seq!['.']);
    if name.len() > 0 && name[0] == '.' {
        assert(name.subrange(0, 1) =~= "."@);
    }
    if crate::text::begins(name, "."@) {
        assert(name.subrange(0, 1)[0] == '.');
    }
}

} // verus!
