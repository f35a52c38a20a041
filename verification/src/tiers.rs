//! Which findings can claim proof.
use crate::adapters::{call_surfaces, calls_in, commands_in, file_surfaces, runtime_surfaces};
use crate::analysis::{
    analysis, file_build, file_ffi, file_traits, gathered, gets_through, identified, raw_findings,
    reported, reports_are_exact, ChangedView, Checks, WorkspaceView,
};
use crate::cfg::{visible_items, visible_source, FeaturesView};
use crate::derive::{derive_impls, derives_in, file_derives};
use crate::doc_drift::{
    after_lines, after_links, after_words, all_comments, all_markdown, doc_drift, targets_from,
    DriftView,
};
use crate::dyn_dispatch::{dyn_dispatch_sites, file_dyn};
use crate::ffi::{by_evidence, ffi_changes, gone_signatures, new_signatures, SignatureMap};
use crate::finding::{FindingView, Tier};
use crate::macro_expand::{expanded_findings, expanded_impls, expanded_tests, expansion_run};
use crate::order::sorted;
use crate::scan::{scanned, tree_calls, tree_fns, tree_impls};
use crate::semver_checks::semver_run;
use crate::symbols::{walked, FileView};
use crate::syntax::{CallSiteView, FnSiteView, ImplSiteView, ItemView, TreeView};
use crate::syntax_tree::parsed_source;
use crate::tests_scan::{affected_tests, file_tests, tests_in};
use crate::text::{pieces, word_break};
use crate::traits::{file_impls, impls_in, trait_impls};
use vstd::prelude::*;

verus! {

/// No finding claims proof.
pub open spec fn unproven(s: Seq<FindingView>) -> bool {
    forall|i: int| 0 <= i < s.len() ==> (#[trigger] s[i]).tier != Tier::Proven
}

proof fn lemma_both(a: Seq<FindingView>, b: Seq<FindingView>)
    requires
        unproven(a),
        unproven(b),
    ensures
        unproven(a + b),
{
    let s = a + b;
    assert forall|i: int| 0 <= i < s.len() implies (#[trigger] s[i]).tier != Tier::Proven by {
        if i < a.len() {
            assert(s[i] == a[i]);
        } else {
            assert(s[i] == b[i - a.len()]);
        }
    }
}

proof fn lemma_one_more(a: Seq<FindingView>, x: FindingView)
    requires
        unproven(a),
        x.tier != Tier::Proven,
    ensures
        unproven(a.push(x)),
{
    let s = a.push(x);
    assert forall|i: int| 0 <= i < s.len() implies (#[trigger] s[i]).tier != Tier::Proven by {
        if i < a.len() {
            assert(s[i] == a[i]);
        }
    }
}

proof fn lemma_scanned(
    files: Seq<FileView>,
    f: FeaturesView,
    per: spec_fn(Seq<char>, TreeView) -> Seq<FindingView>,
)
    requires
        forall|file: Seq<char>, tree: TreeView| unproven(#[trigger] per(file, tree)),
    ensures
        unproven(scanned(files, f, per)),
    decreases files.len(),
{
    if files.len() > 0 {
        lemma_scanned(files.drop_last(), f, per);
        let last = files.last();
        let more: Seq<FindingView> = match visible_source(last.text, f) {
            Some(tree) => per(last.path, tree),
            None => Seq::empty(),
        };
        assert(unproven(more));
        lemma_both(scanned(files.drop_last(), f, per), more);
    }
}

proof fn lemma_tests(file: Seq<char>, sites: Seq<FnSiteView>, changed: Seq<Seq<char>>, n: nat)
    ensures
        unproven(tests_in(file, sites, changed, n)),
    decreases n,
{
    if n > 0 {
        lemma_tests(file, sites, changed, (n - 1) as nat);
        let rest = tests_in(file, sites, changed, (n - 1) as nat);
        let r = tests_in(file, sites, changed, n);
        if r != rest {
            lemma_one_more(rest, r.last());
        }
    }
}

proof fn lemma_impls(file: Seq<char>, sites: Seq<ImplSiteView>, changed: Seq<Seq<char>>, n: nat)
    ensures
        unproven(impls_in(file, sites, changed, n)),
    decreases n,
{
    if n > 0 {
        lemma_impls(file, sites, changed, (n - 1) as nat);
        let rest = impls_in(file, sites, changed, (n - 1) as nat);
        let r = impls_in(file, sites, changed, n);
        if r != rest {
            lemma_one_more(rest, r.last());
        }
    }
}

proof fn lemma_derives(
    file: Seq<char>,
    w: Seq<(Seq<char>, ItemView)>,
    changed: Seq<Seq<char>>,
    f: FeaturesView,
)
    ensures
        unproven(derives_in(file, w, changed, f)),
    decreases w.len(),
{
    if w.len() > 0 {
        lemma_derives(file, w.drop_last(), changed, f);
        let more = crate::derive::item_derives(file, w.last().1, changed, f);
        assert(unproven(more));
        lemma_both(derives_in(file, w.drop_last(), changed, f), more);
    }
}

proof fn lemma_calls(file: Seq<char>, sites: Seq<CallSiteView>, changed: Seq<Seq<char>>, n: nat)
    ensures
        unproven(calls_in(file, sites, changed, n)),
    decreases n,
{
    if n > 0 {
        lemma_calls(file, sites, changed, (n - 1) as nat);
        let more = call_surfaces(file, sites[n - 1], changed);
        assert(unproven(more));
        lemma_both(calls_in(file, sites, changed, (n - 1) as nat), more);
    }
}

proof fn lemma_commands(file: Seq<char>, w: Seq<(Seq<char>, ItemView)>, changed: Seq<Seq<char>>)
    ensures
        unproven(commands_in(file, w, changed)),
    decreases w.len(),
{
    if w.len() > 0 {
        lemma_commands(file, w.drop_last(), changed);
        let more = crate::adapters::item_commands(file, w.last().1, changed);
        assert(unproven(more));
        lemma_both(commands_in(file, w.drop_last(), changed), more);
    }
}

proof fn lemma_links(
    st: DriftView,
    targets: Seq<Seq<char>>,
    file: Seq<char>,
    line: nat,
    changed: Seq<Seq<char>>,
    n: nat,
)
    requires
        unproven(st.out),
    ensures
        unproven(after_links(st, targets, file, line, changed, n).out),
    decreases n,
{
    if n > 0 {
        lemma_links(st, targets, file, line, changed, (n - 1) as nat);
        let rest = after_links(st, targets, file, line, changed, (n - 1) as nat);
        lemma_one_more(rest.out, crate::doc_drift::link_finding(file, targets[n - 1], line));
    }
}

proof fn lemma_words(
    st: DriftView,
    tokens: Seq<Seq<char>>,
    file: Seq<char>,
    line: nat,
    changed: Seq<Seq<char>>,
    n: nat,
)
    requires
        unproven(st.out),
    ensures
        unproven(after_words(st, tokens, file, line, changed, n).out),
    decreases n,
{
    if n > 0 {
        lemma_words(st, tokens, file, line, changed, (n - 1) as nat);
        let rest = after_words(st, tokens, file, line, changed, (n - 1) as nat);
        lemma_one_more(rest.out, crate::doc_drift::keyword_finding(file, tokens[n - 1], line));
    }
}

proof fn lemma_lines(
    numbered: Seq<(nat, Seq<char>)>,
    file: Seq<char>,
    changed: Seq<Seq<char>>,
    n: nat,
)
    ensures
        unproven(after_lines(numbered, file, changed, n).out),
    decreases n,
{
    if n > 0 {
        lemma_lines(numbered, file, changed, (n - 1) as nat);
        let st = after_lines(numbered, file, changed, (n - 1) as nat);
        let (line, text) = numbered[n - 1];
        let targets = targets_from(text, 0);
        let tokens = pieces(text, word_break());
        lemma_links(st, targets, file, line, changed, targets.len());
        let middle = after_links(st, targets, file, line, changed, targets.len());
        lemma_words(middle, tokens, file, line, changed, tokens.len());
    }
}

proof fn lemma_kept(st: DriftView)
    requires
        unproven(st.out),
    ensures
        unproven(crate::doc_drift::drift_findings(st)),
{
    let p = crate::doc_drift::unlinked(st.links);
    let r = st.out.filter(p);
    assert forall|i: int| 0 <= i < r.len() implies (#[trigger] r[i]).tier != Tier::Proven by {
        assert(r.contains(r[i]));
        crate::order::lemma_filter_member(st.out, p, r[i]);
        let j = choose|j: int| 0 <= j < st.out.len() && st.out[j] == r[i];
        assert(st.out[j].tier != Tier::Proven);
    }
}

proof fn lemma_markdown(files: Seq<FileView>, changed: Seq<Seq<char>>, n: nat)
    ensures
        unproven(all_markdown(files, changed, n)),
    decreases n,
{
    if n > 0 {
        lemma_markdown(files, changed, (n - 1) as nat);
        let l = crate::doc_drift::numbered_lines(files[n - 1].text);
        lemma_lines(l, files[n - 1].path, changed, l.len());
        lemma_kept(after_lines(l, files[n - 1].path, changed, l.len()));
        lemma_both(
            all_markdown(files, changed, (n - 1) as nat),
            crate::doc_drift::markdown_drift(files[n - 1], changed),
        );
    }
}

proof fn lemma_comments(files: Seq<FileView>, changed: Seq<Seq<char>>, n: nat)
    ensures
        unproven(all_comments(files, changed, n)),
    decreases n,
{
    if n > 0 {
        lemma_comments(files, changed, (n - 1) as nat);
        let l = crate::text::lines_of(files[n - 1].text);
        let d = crate::doc_drift::doc_lines(l, l.len());
        lemma_lines(d, files[n - 1].path, changed, d.len());
        lemma_kept(after_lines(d, files[n - 1].path, changed, d.len()));
        lemma_both(
            all_comments(files, changed, (n - 1) as nat),
            crate::doc_drift::comment_drift(files[n - 1], changed),
        );
    }
}

proof fn lemma_new_signatures(file: Seq<char>, old: SignatureMap, new: SignatureMap, n: nat)
    ensures
        unproven(new_signatures(file, old, new, n)),
    decreases n,
{
    if n > 0 {
        lemma_new_signatures(file, old, new, (n - 1) as nat);
        let rest = new_signatures(file, old, new, (n - 1) as nat);
        let r = new_signatures(file, old, new, n);
        if r != rest {
            lemma_one_more(rest, r.last());
        }
    }
}

proof fn lemma_gone_signatures(file: Seq<char>, old: SignatureMap, new: SignatureMap, n: nat)
    ensures
        unproven(gone_signatures(file, old, new, n)),
    decreases n,
{
    if n > 0 {
        lemma_gone_signatures(file, old, new, (n - 1) as nat);
        let rest = gone_signatures(file, old, new, (n - 1) as nat);
        let r = gone_signatures(file, old, new, n);
        if r != rest {
            lemma_one_more(rest, r.last());
        }
    }
}

proof fn lemma_inserted(
    s: Seq<FindingView>,
    x: FindingView,
    lt: spec_fn(FindingView, FindingView) -> bool,
)
    requires
        unproven(s),
        x.tier != Tier::Proven,
    ensures
        unproven(crate::order::inserted(s, x, lt)),
    decreases s.len(),
{
    if s.len() == 0 {
        assert(crate::order::inserted(s, x, lt) =~= seq![x]);
    } else if lt(x, s.last()) {
        assert(s[s.len() - 1].tier != Tier::Proven);
        assert(unproven(s.drop_last())) by {
            let d = s.drop_last();
            assert forall|i: int| 0 <= i < d.len() implies (#[trigger] d[i]).tier
                != Tier::Proven by {
                assert(d[i] == s[i]);
            }
        }
        lemma_inserted(s.drop_last(), x, lt);
        lemma_one_more(crate::order::inserted(s.drop_last(), x, lt), s.last());
    } else {
        lemma_one_more(s, x);
    }
}

proof fn lemma_sorted(s: Seq<FindingView>, lt: spec_fn(FindingView, FindingView) -> bool)
    requires
        unproven(s),
    ensures
        unproven(sorted(s, lt)),
    decreases s.len(),
{
    if s.len() > 0 {
        let d = s.drop_last();
        assert(unproven(d)) by {
            assert forall|i: int| 0 <= i < d.len() implies (#[trigger] d[i]).tier
                != Tier::Proven by {
                assert(d[i] == s[i]);
            }
        }
        lemma_sorted(d, lt);
        assert(s[s.len() - 1].tier != Tier::Proven);
        lemma_inserted(sorted(d, lt), s.last(), lt);
    }
}

proof fn lemma_ffi(wt: Option<Seq<char>>, head: Option<Seq<char>>, file: Seq<char>, f: FeaturesView)
    ensures
        unproven(ffi_changes(wt, head, file, f)),
{
    let old = match head {
        Some(h) => crate::ffi::text_signatures(h, f),
        None => Seq::empty(),
    };
    match wt {
        Some(w) => {
            if let Some(items) = visible_items(w, f) {
                lemma_signatures(file, old, crate::ffi::signature_map(items));
            }
        },
        None => {
            lemma_signatures(file, old, Seq::empty());
        },
    }
}

proof fn lemma_signatures(file: Seq<char>, old: SignatureMap, new: SignatureMap)
    ensures
        unproven(crate::ffi::signature_changes(file, old, new)),
{
    lemma_new_signatures(file, old, new, new.len());
    lemma_gone_signatures(file, old, new, old.len());
    let a = new_signatures(file, old, new, new.len());
    let b = gone_signatures(file, old, new, old.len());
    lemma_both(a, b);
    lemma_sorted(a + b, by_evidence());
}

proof fn lemma_gathered(c: Seq<ChangedView>, g: spec_fn(ChangedView) -> Seq<FindingView>)
    requires
        forall|x: ChangedView| unproven(#[trigger] g(x)),
    ensures
        unproven(gathered(c, g)),
    decreases c.len(),
{
    if c.len() > 0 {
        lemma_gathered(c.drop_last(), g);
        lemma_both(gathered(c.drop_last(), g), g(c.last()));
    }
}

proof fn lemma_expanded_impls(sites: Seq<ImplSiteView>, traits: Seq<Seq<char>>, n: nat)
    ensures
        unproven(expanded_impls(sites, traits, n)),
    decreases n,
{
    if n > 0 {
        lemma_expanded_impls(sites, traits, (n - 1) as nat);
        let rest = expanded_impls(sites, traits, (n - 1) as nat);
        let r = expanded_impls(sites, traits, n);
        if r != rest {
            lemma_one_more(rest, r.last());
        }
    }
}

proof fn lemma_expanded_tests(sites: Seq<FnSiteView>, symbols: Seq<Seq<char>>, n: nat)
    ensures
        unproven(expanded_tests(sites, symbols, n)),
    decreases n,
{
    if n > 0 {
        lemma_expanded_tests(sites, symbols, (n - 1) as nat);
        let rest = expanded_tests(sites, symbols, (n - 1) as nat);
        let r = expanded_tests(sites, symbols, n);
        if r != rest {
            lemma_one_more(rest, r.last());
        }
    }
}

proof fn lemma_expanded(expanded: Seq<char>, traits: Seq<Seq<char>>, symbols: Seq<Seq<char>>)
    ensures
        unproven(expanded_findings(expanded, traits, symbols)),
{
    if let Some(tree) = parsed_source(expanded) {
        let impls = tree_impls(tree);
        let fns = tree_fns(tree);
        lemma_expanded_impls(impls, traits, impls.len());
        lemma_expanded_tests(fns, symbols, fns.len());
        lemma_both(
            expanded_impls(impls, traits, impls.len()),
            expanded_tests(fns, symbols, fns.len()),
        );
    }
}

proof fn lemma_workspace_scans(
    files: Seq<FileView>,
    names: Seq<Seq<char>>,
    traits: Seq<Seq<char>>,
    f: FeaturesView,
)
    ensures
        unproven(affected_tests(files, names, f)),
        unproven(trait_impls(files, traits, f)),
        unproven(derive_impls(files, traits, f)),
        unproven(dyn_dispatch_sites(files, traits, f)),
        unproven(runtime_surfaces(files, names, f)),
{
    assert forall|file: Seq<char>, tree: TreeView| unproven(
        #[trigger] file_tests(names)(file, tree),
    ) by {
        let s = tree_fns(tree);
        lemma_tests(file, s, names, s.len());
    }
    lemma_scanned(files, f, file_tests(names));
    assert forall|file: Seq<char>, tree: TreeView| unproven(
        #[trigger] file_impls(traits)(file, tree),
    ) by {
        let s = tree_impls(tree);
        lemma_impls(file, s, traits, s.len());
    }
    lemma_scanned(files, f, file_impls(traits));
    assert forall|file: Seq<char>, tree: TreeView| unproven(
        #[trigger] file_derives(traits, f)(file, tree),
    ) by {
        lemma_derives(file, walked(tree.items, ""@), traits, f);
    }
    lemma_scanned(files, f, file_derives(traits, f));
    assert forall|file: Seq<char>, tree: TreeView| unproven(
        #[trigger] file_dyn(traits)(file, tree),
    ) by {
    }
    lemma_scanned(files, f, file_dyn(traits));
    assert forall|file: Seq<char>, tree: TreeView| unproven(
        #[trigger] file_surfaces(names)(file, tree),
    ) by {
        let w = walked(tree.items, ""@);
        let sites = tree_calls(tree);
        lemma_calls(file, sites, names, sites.len());
        lemma_commands(file, w, names);
        lemma_both(calls_in(file, sites, names, sites.len()), commands_in(file, w, names));
    }
    lemma_scanned(files, f, file_surfaces(names));
}

/// Syntactic analysis never claims proof: no finding of a run without resolved
/// references is `Proven`.
pub proof fn syntax_proves_nothing(w: WorkspaceView, checks: Checks, f: FeaturesView)
    ensures
        unproven(raw_findings(w, checks, f)),
{
    let symbols = crate::analysis::symbols_of(w.changed, f);
    let names = crate::analysis::symbol_names(symbols);
    let traits = crate::traits::trait_names(symbols);
    lemma_workspace_scans(w.sources, names, traits, f);
    lemma_markdown(w.docs, names, w.docs.len());
    lemma_comments(w.sources, names, w.sources.len());
    lemma_both(
        all_markdown(w.docs, names, w.docs.len()),
        all_comments(w.sources, names, w.sources.len()),
    );
    assert(unproven(doc_drift(w.docs, w.sources, names)));
    assert forall|c: ChangedView| unproven(#[trigger] file_ffi(f)(c)) by {
        lemma_ffi(c.worktree, crate::analysis::head_text(c.head), c.path, f);
    }
    lemma_gathered(w.changed, file_ffi(f));
    assert forall|c: ChangedView| unproven(#[trigger] file_traits(f)(c)) by {
    }
    lemma_gathered(w.changed, file_traits(f));
    assert forall|c: ChangedView| unproven(#[trigger] file_build()(c)) by {
    }
    lemma_gathered(w.changed, file_build());
    let semver = semver_run(checks.semver, w.semver_installed, w.semver_output);
    assert(unproven(semver));
    let expansion = expansion_run(checks.expand, traits, names, w.expand_installed, w.expanded);
    if let Some(t) = w.expanded {
        lemma_expanded(t, traits, names);
    }
    assert(unproven(expansion));
    let a = affected_tests(w.sources, names, f);
    let b = trait_impls(w.sources, traits, f);
    let c = derive_impls(w.sources, traits, f);
    let d = dyn_dispatch_sites(w.sources, traits, f);
    let e = doc_drift(w.docs, w.sources, names);
    let g = runtime_surfaces(w.sources, names, f);
    let h = gathered(w.changed, file_ffi(f));
    let i = gathered(w.changed, file_traits(f));
    let j = gathered(w.changed, file_build());
    lemma_both(a, b);
    lemma_both(a + b, c);
    lemma_both(a + b + c, d);
    lemma_both(a + b + c + d, e);
    lemma_both(a + b + c + d + e, g);
    lemma_both(a + b + c + d + e + g, h);
    lemma_both(a + b + c + d + e + g + h, i);
    lemma_both(a + b + c + d + e + g + h + i, j);
    lemma_both(a + b + c + d + e + g + h + i + j, semver);
    lemma_both(a + b + c + d + e + g + h + i + j + semver, expansion);
}

/// The report of an analysis without resolved references holds no `Proven`
/// finding.
pub proof fn reports_prove_nothing(w: WorkspaceView, checks: Checks, f: FeaturesView)
    ensures
        unproven(analysis(w, checks, f).findings),
{
    if w.changed.len() > 0 {
        let raw = raw_findings(w, checks, f);
        let min = checks.confidence_min as int;
        syntax_proves_nothing(w, checks, f);
        reports_are_exact(raw, w.ignore, min);
        let r = reported(raw, w.ignore, min);
        assert forall|i: int| 0 <= i < r.len() implies (#[trigger] r[i]).tier != Tier::Proven by {
            assert(r.contains(r[i]));
            let g = choose|g: FindingView| #[trigger]
                gets_through(raw, w.ignore, min, g) && r[i] == identified(g);
            let k = raw.index_of(g);
            assert(raw[k].tier != Tier::Proven);
        }
    }
}

} // verus!
