//! Impl blocks and test references that only macro expansion shows.
//!
//! `cargo expand` merges a crate into one text without stable locations, so
//! the findings stand in the file `<expanded>`.
use crate::finding::{finding_views, Finding, FindingView, KindView};
use crate::names::NameSet;
use crate::scan::{
    all_fns, all_impls, fn_refs, impl_refs, is_word, lemma_contains_add, mentioned, mentioned_names,
    mentioned_names_are_exact, stands_alone_at, tree_fns, tree_impls,
};
use crate::syntax::{parse_source, FnSiteView, ImplSite, ImplSiteView, SourceTree, TreeView};
use crate::syntax_tree::parsed_source;
use crate::tests_scan::{
    has_test_mark, is_test, is_test_fn, make_test_finding, tells_of_test, test_finding,
};
use crate::text::{has_text, join, joined, lowered, occurs, texts, to_lower};
use crate::tools::{installed, plan, tool_plan, which, ToolPlan};
use crate::traits::{impl_finding, make_impl_finding};
use vstd::prelude::*;
use vstd::string::*;

verus! {

/// The program that is looked for.
pub fn tool_bin() -> (r: &'static str)
    ensures
        r@ == "cargo-expand"@,
{
    "cargo-expand"
}

/// Whether some directory of the search path holds the program, given for each
/// directory whether the candidate there is a file.
pub fn is_installed(dirs: &Vec<String>, present: &Vec<bool>) -> (r: bool)
    ensures
        r == installed(dirs@, present@),
{
    match which(tool_bin(), dirs, present) {
        Some(_) => true,
        None => false,
    }
}

/// Whether a lower-case error text says that the crate has no library.
pub open spec fn says_no_library(text: Seq<char>) -> bool {
    occurs(text, "no library targets"@) || occurs(text, "no lib target"@) || occurs(
        text,
        "does not have a library"@,
    )
}

/// Whether a lower-case error text says that the crate has no library.
pub fn names_no_library(lowered: &str) -> (r: bool)
    ensures
        r == says_no_library(lowered@),
{
    has_text(lowered, "no library targets") || has_text(lowered, "no lib target") || has_text(
        lowered,
        "does not have a library",
    )
}

/// Whether an error text of `cargo expand --lib` says, in any case, that the
/// crate has no library, so that expansion goes on without `--lib`.
pub fn is_no_library_error(stderr: &str) -> (r: bool)
    ensures
        r == says_no_library(lowered(stderr@)),
{
    let haystack = to_lower(stderr);
    names_no_library(haystack.as_str())
}

/// The type of an impl block: the last segment of a path, or its text.
pub open spec fn expanded_type(i: ImplSiteView) -> Seq<char> {
    match i.self_name {
        Some(n) => n,
        None => i.self_text,
    }
}

/// Evidence for an impl block in expanded source.
pub open spec fn expanded_impl_evidence(trait_name: Seq<char>, impl_for: Seq<char>) -> Seq<char> {
    "`impl "@ + trait_name + " for "@ + impl_for
        + "` — revealed by macro expansion (syn-only analysis doesn't see impls synthesized by derive/attribute macros like serde, tokio, clap, thiserror)"@
}

/// The findings for the first `n` impl blocks of expanded source.
pub open spec fn expanded_impls(
    sites: Seq<ImplSiteView>,
    traits: Seq<Seq<char>>,
    n: nat,
) -> Seq<FindingView>
    decreases n,
{
    if n == 0 {
        Seq::empty()
    } else {
        let rest = expanded_impls(sites, traits, (n - 1) as nat);
        let i = sites[n - 1];
        if i.trait_name is Some && traits.contains(i.trait_name->0) {
            let t = i.trait_name->0;
            let ty = expanded_type(i);
            rest.push(impl_finding("<expanded>"@, t, ty, 75, expanded_impl_evidence(t, ty)))
        } else {
            rest
        }
    }
}

/// Evidence that a test names symbols after expansion.
pub open spec fn expanded_test_evidence(matched: Seq<Seq<char>>) -> Seq<char> {
    "test body references "@ + joined(matched, ", "@)
        + " after macro expansion (syn-only source walk missed it — likely a fn-like macro like `sqlx::query!` or `include_str!` that expands to code naming the changed symbol)"@
}

/// The findings for the first `n` functions of expanded source.
pub open spec fn expanded_tests(
    sites: Seq<FnSiteView>,
    symbols: Seq<Seq<char>>,
    n: nat,
) -> Seq<FindingView>
    decreases n,
{
    if n == 0 {
        Seq::empty()
    } else {
        let rest = expanded_tests(sites, symbols, (n - 1) as nat);
        let f = sites[n - 1];
        let matched = mentioned_names(symbols, f.body);
        if is_test(f) && matched.len() > 0 {
            rest.push(
                test_finding(
                    "<expanded>"@,
                    f.name,
                    matched,
                    75,
                    expanded_test_evidence(matched),
                ),
            )
        } else {
            rest
        }
    }
}

/// The findings in an expanded file: impl blocks of changed traits, then tests
/// that name changed symbols.
pub open spec fn expanded_tree(
    tree: TreeView,
    traits: Seq<Seq<char>>,
    symbols: Seq<Seq<char>>,
) -> Seq<FindingView> {
    let impls = tree_impls(tree);
    let fns = tree_fns(tree);
    expanded_impls(impls, traits, impls.len()) + expanded_tests(fns, symbols, fns.len())
}

/// The findings in expanded source; none where it does not parse.
pub open spec fn expanded_findings(
    expanded: Seq<char>,
    traits: Seq<Seq<char>>,
    symbols: Seq<Seq<char>>,
) -> Seq<FindingView> {
    match parsed_source(expanded) {
        Some(tree) => expanded_tree(tree, traits, symbols),
        None => Seq::empty(),
    }
}

fn type_to_string(i: &ImplSite) -> (r: String)
    ensures
        r@ == expanded_type(i@),
{
    match &i.self_name {
        Some(n) => n.clone(),
        None => i.self_text.clone(),
    }
}

pub fn scan_expanded_impls(tree: &SourceTree, traits: &NameSet) -> (r: Vec<Finding>)
    ensures
        finding_views(r@) == ({
            let s = tree_impls(tree@);
            expanded_impls(s, traits@, s.len())
        }),
{
    let sites = all_impls(tree);
    let ghost s = impl_refs(sites@);
    let mut out: Vec<Finding> = Vec::new();
    let mut i: usize = 0;
    proof {
        assert(finding_views(out@) =~= Seq::empty());
        assert(s.len() == sites@.len());
    }
    while i < sites.len()
        invariant
            i <= sites@.len(),
            s == impl_refs(sites@),
            finding_views(out@) == expanded_impls(s, traits@, i as nat),
        decreases sites@.len() - i,
    {
        let site = sites[i];
        proof {
            assert(s[i as int] == site@);
        }
        match &site.trait_name {
            Some(t) => {
                if traits.contains(t.as_str()) {
                    let impl_for = type_to_string(site);
                    let mut evidence = "`impl ".to_owned();
                    evidence.append(t.as_str());
                    evidence.append(" for ");
                    evidence.append(impl_for.as_str());
                    evidence.append(
                        "` — revealed by macro expansion (syn-only analysis doesn't see impls synthesized by derive/attribute macros like serde, tokio, clap, thiserror)",
                    );
                    let f = make_impl_finding(
                        "<expanded>",
                        t.as_str(),
                        impl_for.as_str(),
                        75,
                        evidence.as_str(),
                    );
                    proof {
                        assert(finding_views(out@.push(f)) =~= finding_views(out@).push(f@));
                    }
                    out.push(f);
                }
            },
            None => {},
        }
        i = i + 1;
    }
    out
}

pub fn scan_expanded_tests(tree: &SourceTree, symbols: &NameSet) -> (r: Vec<Finding>)
    ensures
        finding_views(r@) == ({
            let s = tree_fns(tree@);
            expanded_tests(s, symbols@, s.len())
        }),
{
    let sites = all_fns(tree);
    let ghost s = fn_refs(sites@);
    let mut out: Vec<Finding> = Vec::new();
    let mut i: usize = 0;
    proof {
        assert(finding_views(out@) =~= Seq::empty());
        assert(s.len() == sites@.len());
    }
    while i < sites.len()
        invariant
            i <= sites@.len(),
            s == fn_refs(sites@),
            finding_views(out@) == expanded_tests(s, symbols@, i as nat),
        decreases sites@.len() - i,
    {
        let site = sites[i];
        proof {
            assert(s[i as int] == site@);
        }
        if is_test_fn(site) {
            let matched = mentioned(symbols, site.body.as_str());
            proof {
                assert(texts(matched@).len() == matched@.len());
            }
            if matched.len() > 0 {
                let mut evidence = "test body references ".to_owned();
                evidence.append(join(&matched, ", ").as_str());
                evidence.append(
                    " after macro expansion (syn-only source walk missed it — likely a fn-like macro like `sqlx::query!` or `include_str!` that expands to code naming the changed symbol)",
                );
                let f = make_test_finding(
                    "<expanded>",
                    site.name.as_str(),
                    matched,
                    75,
                    evidence.as_str(),
                );
                proof {
                    assert(finding_views(out@.push(f)) =~= finding_views(out@).push(f@));
                }
                out.push(f);
            }
        }
        i = i + 1;
    }
    out
}

/// The findings in expanded source that has been parsed.
pub fn find_in_tree(
    tree: &SourceTree,
    changed_traits: &NameSet,
    changed_symbols: &NameSet,
) -> (r: Vec<Finding>)
    ensures
        finding_views(r@) == expanded_tree(tree@, changed_traits@, changed_symbols@),
{
    let mut out = scan_expanded_impls(tree, changed_traits);
    let mut more = scan_expanded_tests(tree, changed_symbols);
    let ghost first = out@;
    let ghost second = more@;
    out.append(&mut more);
    proof {
        assert(finding_views(out@) =~= finding_views(first) + finding_views(second));
    }
    out
}

/// The findings in expanded source.
pub fn find_in_expanded(expanded: &str, changed_traits: &NameSet, changed_symbols: &NameSet) -> (r:
    Vec<Finding>)
    ensures
        finding_views(r@) == expanded_findings(expanded@, changed_traits@, changed_symbols@),
{
    match parse_source(expanded) {
        None => {
            let none: Vec<Finding> = Vec::new();
            proof {
                assert(finding_views(none@) =~= Seq::empty());
            }
            none
        },
        Some(tree) => find_in_tree(&tree, changed_traits, changed_symbols),
    }
}

/// What to do about expansion: it is skipped when it was not asked for or when
/// no trait and no symbol changed.
pub open spec fn expansion_plan(
    enabled: bool,
    traits: Seq<Seq<char>>,
    symbols: Seq<Seq<char>>,
    installed: bool,
) -> ToolPlan {
    tool_plan(enabled && (traits.len() > 0 || symbols.len() > 0), installed)
}

/// What to do about expansion.
pub fn plan_expansion(
    enabled: bool,
    changed_traits: &NameSet,
    changed_symbols: &NameSet,
    installed: bool,
) -> (r: ToolPlan)
    ensures
        r == expansion_plan(enabled, changed_traits@, changed_symbols@, installed),
{
    plan(enabled && (!changed_traits.is_empty() || !changed_symbols.is_empty()), installed)
}

/// The findings of an optional expansion: none unless it was asked for, could
/// run and gave a text.
pub open spec fn expansion_run(
    enabled: bool,
    traits: Seq<Seq<char>>,
    symbols: Seq<Seq<char>>,
    installed: bool,
    expanded: Option<Seq<char>>,
) -> Seq<FindingView> {
    match expanded {
        Some(t) if expansion_plan(enabled, traits, symbols, installed) == ToolPlan::Invoke =>
            expanded_findings(t, traits, symbols),
        _ => Seq::empty(),
    }
}

/// The findings of an optional expansion; `expanded` is `None` when the
/// program failed.
pub fn run(
    enabled: bool,
    changed_traits: &NameSet,
    changed_symbols: &NameSet,
    installed: bool,
    expanded: &Option<String>,
) -> (r: Vec<Finding>)
    ensures
        finding_views(r@) == expansion_run(
            enabled,
            changed_traits@,
            changed_symbols@,
            installed,
            crate::finding::opt_text(*expanded),
        ),
{
    let none: Vec<Finding> = Vec::new();
    proof {
        assert(finding_views(none@) =~= Seq::empty());
    }
    match plan_expansion(enabled, changed_traits, changed_symbols, installed) {
        ToolPlan::Invoke => match expanded {
            Some(t) => find_in_expanded(t.as_str(), changed_traits, changed_symbols),
            None => none,
        },
        _ => none,
    }
}

// ---------------------------------------------------------------------------
// Laws
// ---------------------------------------------------------------------------

proof fn lemma_expanded_impls_are(
    sites: Seq<ImplSiteView>,
    traits: Seq<Seq<char>>,
    n: nat,
    x: FindingView,
)
    requires
        n <= sites.len(),
    ensures
        expanded_impls(sites, traits, n).contains(x) <==> exists|k: int|
            0 <= k < n && (#[trigger] sites[k]).trait_name is Some && traits.contains(
                sites[k].trait_name->0,
            ) && x == impl_finding(
                "<expanded>"@,
                sites[k].trait_name->0,
                expanded_type(sites[k]),
                75,
                expanded_impl_evidence(sites[k].trait_name->0, expanded_type(sites[k])),
            ),
    decreases n,
{
    if n > 0 {
        let m = (n - 1) as nat;
        lemma_expanded_impls_are(sites, traits, m, x);
        let rest = expanded_impls(sites, traits, m);
        let i = sites[n - 1];
        if i.trait_name is Some && traits.contains(i.trait_name->0) {
            let t = i.trait_name->0;
            let ty = expanded_type(i);
            let y = impl_finding("<expanded>"@, t, ty, 75, expanded_impl_evidence(t, ty));
            assert(rest.push(y) =~= rest + seq![y]);
            lemma_contains_add(rest, seq![y], x);
            assert(seq![y][0] == y);
            assert(seq![y].contains(x) <==> x == y);
        }
    }
}

proof fn lemma_expanded_tests_are(
    sites: Seq<FnSiteView>,
    symbols: Seq<Seq<char>>,
    n: nat,
    x: FindingView,
)
    requires
        n <= sites.len(),
    ensures
        expanded_tests(sites, symbols, n).contains(x) <==> exists|k: int|
            0 <= k < n && is_test(#[trigger] sites[k]) && mentioned_names(
                symbols,
                sites[k].body,
            ).len() > 0 && x == test_finding(
                "<expanded>"@,
                sites[k].name,
                mentioned_names(symbols, sites[k].body),
                75,
                expanded_test_evidence(mentioned_names(symbols, sites[k].body)),
            ),
    decreases n,
{
    if n > 0 {
        let m = (n - 1) as nat;
        lemma_expanded_tests_are(sites, symbols, m, x);
        let rest = expanded_tests(sites, symbols, m);
        let f = sites[n - 1];
        let matched = mentioned_names(symbols, f.body);
        if is_test(f) && matched.len() > 0 {
            let y = test_finding(
                "<expanded>"@,
                f.name,
                matched,
                75,
                expanded_test_evidence(matched),
            );
            assert(rest.push(y) =~= rest + seq![y]);
            lemma_contains_add(rest, seq![y], x);
            assert(seq![y][0] == y);
            assert(seq![y].contains(x) <==> x == y);
        }
    }
}

/// Whether a finding tells of an impl block of expanded source: of its trait and
/// of its type, by the last segment of a path or else by its text.
pub open spec fn tells_of_expanded_impl(x: FindingView, g: ImplSiteView) -> bool {
    match x.kind {
        KindView::TraitImpl { trait_name, impl_for, impl_site } => {
            &&& Some(trait_name) == g.trait_name
            &&& g.self_name is Some ==> impl_for == g.self_name->0
            &&& g.self_name is None ==> impl_for == g.self_text
            &&& impl_site.file == "<expanded>"@
        },
        _ => false,
    }
}

/// Of expanded source that parses, every impl block of a changed trait and every
/// test in whose body a changed name stands as a whole word is reported.
pub proof fn expanded_sites_are_reported(
    expanded: Seq<char>,
    traits: Seq<Seq<char>>,
    symbols: Seq<Seq<char>>,
    i: ImplSiteView,
    g: FnSiteView,
    name: Seq<char>,
    at: int,
)
    requires
        parsed_source(expanded) is Some,
    ensures
        tree_impls(parsed_source(expanded)->0).contains(i) && i.trait_name is Some
            && traits.contains(i.trait_name->0) ==> exists|x: FindingView| #[trigger]
            expanded_findings(expanded, traits, symbols).contains(x) && tells_of_expanded_impl(
                x,
                i,
            ),
        tree_fns(parsed_source(expanded)->0).contains(g) && has_test_mark(g) && symbols.contains(
            name,
        ) && is_word(name) && stands_alone_at(g.body, name, at) ==> exists|x: FindingView| #[trigger]
            expanded_findings(expanded, traits, symbols).contains(x) && tells_of_test(
                x,
                "<expanded>"@,
                g,
                symbols,
            ),
{
    let tree = parsed_source(expanded)->0;
    let impls = tree_impls(tree);
    let fns = tree_fns(tree);
    let a = expanded_impls(impls, traits, impls.len());
    let b = expanded_tests(fns, symbols, fns.len());
    if impls.contains(i) && i.trait_name is Some && traits.contains(i.trait_name->0) {
        let t = i.trait_name->0;
        let x = impl_finding(
            "<expanded>"@,
            t,
            expanded_type(i),
            75,
            expanded_impl_evidence(t, expanded_type(i)),
        );
        let k = impls.index_of(i);
        assert(impls[k].trait_name is Some);
        lemma_expanded_impls_are(impls, traits, impls.len(), x);
        lemma_contains_add(a, b, x);
        assert(expanded_findings(expanded, traits, symbols).contains(x));
        assert(tells_of_expanded_impl(x, i));
    }
    if fns.contains(g) && has_test_mark(g) && symbols.contains(name) && is_word(name)
        && stands_alone_at(g.body, name, at) {
        let matched = mentioned_names(symbols, g.body);
        let x = test_finding(
            "<expanded>"@,
            g.name,
            matched,
            75,
            expanded_test_evidence(matched),
        );
        let k = fns.index_of(g);
        crate::tests_scan::lemma_is_test(g);
        assert forall|n: Seq<char>| #[trigger]
            matched.contains(n) <==> symbols.contains(n) && is_word(n) && exists|a: int| #[trigger]
                stands_alone_at(g.body, n, a) by {
            mentioned_names_are_exact(symbols, g.body, n);
        }
        assert(matched.contains(name));
        assert(is_test(fns[k]));
        lemma_expanded_tests_are(fns, symbols, fns.len(), x);
        lemma_contains_add(a, b, x);
        assert(expanded_findings(expanded, traits, symbols).contains(x));
        assert(tells_of_test(x, "<expanded>"@, g, symbols));
    }
}

/// What is reported of expanded source is such an impl block or such a test.
pub proof fn reported_sites_are_expanded(
    expanded: Seq<char>,
    traits: Seq<Seq<char>>,
    symbols: Seq<Seq<char>>,
    x: FindingView,
)
    requires
        expanded_findings(expanded, traits, symbols).contains(x),
    ensures
        parsed_source(expanded) is Some,
        x.tier == crate::finding::Tier::Likely,
        x.confidence == 75,
        (exists|i: ImplSiteView| #[trigger]
            tree_impls(parsed_source(expanded)->0).contains(i) && i.trait_name is Some
                && traits.contains(i.trait_name->0) && tells_of_expanded_impl(x, i)) || (exists|
            g: FnSiteView,
        | #[trigger]
            tree_fns(parsed_source(expanded)->0).contains(g) && has_test_mark(g) && tells_of_test(
                x,
                "<expanded>"@,
                g,
                symbols,
            )),
{
    let tree = parsed_source(expanded)->0;
    let impls = tree_impls(tree);
    let fns = tree_fns(tree);
    lemma_contains_add(
        expanded_impls(impls, traits, impls.len()),
        expanded_tests(fns, symbols, fns.len()),
        x,
    );
    lemma_expanded_impls_are(impls, traits, impls.len(), x);
    lemma_expanded_tests_are(fns, symbols, fns.len(), x);
    if expanded_impls(impls, traits, impls.len()).contains(x) {
        let k = choose|k: int|
            0 <= k < impls.len() && (#[trigger] impls[k]).trait_name is Some && traits.contains(
                impls[k].trait_name->0,
            ) && x == impl_finding(
                "<expanded>"@,
                impls[k].trait_name->0,
                expanded_type(impls[k]),
                75,
                expanded_impl_evidence(impls[k].trait_name->0, expanded_type(impls[k])),
            );
        assert(impls.contains(impls[k]));
        assert(tells_of_expanded_impl(x, impls[k]));
    } else {
        let k = choose|k: int|
            0 <= k < fns.len() && is_test(#[trigger] fns[k]) && mentioned_names(
                symbols,
                fns[k].body,
            ).len() > 0 && x == test_finding(
                "<expanded>"@,
                fns[k].name,
                mentioned_names(symbols, fns[k].body),
                75,
                expanded_test_evidence(mentioned_names(symbols, fns[k].body)),
            );
        let g = fns[k];
        let matched = mentioned_names(symbols, g.body);
        crate::tests_scan::lemma_is_test(g);
        assert(fns.contains(g));
        assert forall|n: Seq<char>| #[trigger]
            matched.contains(n) <==> symbols.contains(n) && is_word(n) && exists|a: int| #[trigger]
                stands_alone_at(g.body, n, a) by {
            mentioned_names_are_exact(symbols, g.body, n);
        }
        assert(tells_of_test(x, "<expanded>"@, g, symbols));
    }
}

/// Expansion runs where it was asked for, the program is there, and a trait or a
/// symbol changed; only then does its output bring findings.
pub proof fn expansion_runs_where_it_is_wanted(
    enabled: bool,
    traits: Seq<Seq<char>>,
    symbols: Seq<Seq<char>>,
    installed: bool,
    text: Seq<char>,
)
    ensures
        expansion_plan(enabled, traits, symbols, installed) == ToolPlan::Invoke <==> enabled
            && installed && (traits.len() > 0 || symbols.len() > 0),
        expansion_run(enabled, traits, symbols, installed, None).len() == 0,
        enabled && installed && (traits.len() > 0 || symbols.len() > 0) ==> expansion_run(
            enabled,
            traits,
            symbols,
            installed,
            Some(text),
        ) == expanded_findings(text, traits, symbols),
        !(enabled && installed && (traits.len() > 0 || symbols.len() > 0)) ==> expansion_run(
            enabled,
            traits,
            symbols,
            installed,
            Some(text),
        ).len() == 0,
{
}

/// Expanded impl blocks and tests are reported in their order, each once, the
/// impl blocks first.
pub proof fn expanded_sites_are_reported_in_order(
    tree: TreeView,
    traits: Seq<Seq<char>>,
    symbols: Seq<Seq<char>>,
    i: int,
)
    ensures
        ({
            let impls = tree_impls(tree);
            let fns = tree_fns(tree);
            &&& expanded_tree(tree, traits, symbols) == expanded_impls(impls, traits, impls.len())
                + expanded_tests(fns, symbols, fns.len())
            &&& 0 <= i < impls.len() ==> {
                let before = expanded_impls(impls, traits, i as nat);
                let behind = expanded_impls(impls, traits, (i + 1) as nat);
                &&& behind.len() <= before.len() + 1
                &&& behind.take(before.len() as int) == before
                &&& behind.len() == before.len() + 1 <==> impls[i].trait_name is Some
                    && traits.contains(impls[i].trait_name->0)
            }
            &&& 0 <= i < fns.len() ==> {
                let before = expanded_tests(fns, symbols, i as nat);
                let behind = expanded_tests(fns, symbols, (i + 1) as nat);
                &&& behind.len() <= before.len() + 1
                &&& behind.take(before.len() as int) == before
                &&& behind.len() == before.len() + 1 <==> has_test_mark(fns[i])
                    && mentioned_names(symbols, fns[i].body).len() > 0
            }
        }),
{
    let impls = tree_impls(tree);
    let fns = tree_fns(tree);
    if 0 <= i < impls.len() {
        let before = expanded_impls(impls, traits, i as nat);
        let behind = expanded_impls(impls, traits, (i + 1) as nat);
        assert(behind.take(before.len() as int) =~= before);
    }
    if 0 <= i < fns.len() {
        let before = expanded_tests(fns, symbols, i as nat);
        let behind = expanded_tests(fns, symbols, (i + 1) as nat);
        crate::tests_scan::lemma_is_test(fns[i]);
        assert(behind.take(before.len() as int) =~= before);
    }
}

/// The evidence for expanded sites names the trait and the type, or every matched
/// symbol.
pub proof fn expanded_evidence_names_the_site(
    t: Seq<char>,
    ty: Seq<char>,
    matched: Seq<Seq<char>>,
    i: int,
)
    ensures
        crate::text::holds(expanded_impl_evidence(t, ty), t),
        crate::text::holds(expanded_impl_evidence(t, ty), ty),
        0 <= i < matched.len() ==> crate::text::holds(expanded_test_evidence(matched), matched[i]),
{
    broadcast use crate::text::group_holds;

    if 0 <= i < matched.len() {
        crate::text::lemma_holds_joined(matched, ", "@, i, matched[i]);
    }
}

/// An error text says that there is no library just where one of three phrases
/// stands in it.
pub proof fn missing_libraries_are_told_by_phrase(text: Seq<char>)
    ensures
        says_no_library(text) <==> crate::text::holds(text, "no library targets"@)
            || crate::text::holds(text, "no lib target"@) || crate::text::holds(
            text,
            "does not have a library"@,
        ),
{
    crate::text::lemma_occurs_holds(text, "no library targets"@);
    crate::text::lemma_occurs_holds(text, "no lib target"@);
    crate::text::lemma_occurs_holds(text, "does not have a library"@);
}

} // verus!
