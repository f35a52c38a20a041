//! Impl blocks of changed traits.
use crate::cfg::{parse_and_filter, visible_source, FeatureSet, FeaturesView};
use crate::finding::{
    finding_views, new_finding, Finding, FindingKind, FindingView, KindView, Location,
    LocationView, Tier,
};
use crate::names::{name_set, NameSet};
use crate::scan::{
    all_impls, every_file_is_scanned, impl_refs, lemma_contains_add, lemma_scanned_step, scanned,
    tree_impls,
};
use crate::symbols::{
    file_views, symbol_views, FileView, SourceFile, SymbolKind, SymbolView, TopLevelSymbol,
};
use crate::syntax::{ImplSite, ImplSiteView, SourceTree, TreeView};
use crate::text::{join, joined, split_whitespace, texts, words};
use vstd::prelude::*;
use vstd::string::*;

verus! {

/// The type of an impl block: the last segment of a path, or the words of its
/// text.
pub open spec fn self_display(i: ImplSiteView) -> Seq<char> {
    match i.self_name {
        Some(n) => n,
        None => joined(words(i.self_text), " "@),
    }
}

fn type_to_string(i: &ImplSite) -> (r: String)
    ensures
        r@ == self_display(i@),
{
    match &i.self_name {
        Some(n) => n.clone(),
        None => join(&split_whitespace(i.self_text.as_str()), " "),
    }
}

/// The finding for an impl block.
pub open spec fn impl_finding(
    file: Seq<char>,
    trait_name: Seq<char>,
    impl_for: Seq<char>,
    confidence: int,
    evidence: Seq<char>,
) -> FindingView {
    new_finding(
        ""@,
        Tier::Likely,
        confidence,
        KindView::TraitImpl {
            trait_name,
            impl_for,
            impl_site: LocationView {
                file,
                symbol: "impl "@ + trait_name + " for "@ + impl_for,
            },
        },
        evidence,
    )
}

/// The finding for an impl block.
pub(crate) fn make_impl_finding(
    file: &str,
    trait_name: &str,
    impl_for: &str,
    confidence: i64,
    evidence: &str,
) -> (r: Finding)
    ensures
        r@ == impl_finding(file@, trait_name@, impl_for@, confidence as int, evidence@),
{
    let mut symbol = "impl ".to_owned();
    symbol.append(trait_name);
    symbol.append(" for ");
    symbol.append(impl_for);
    let kind = FindingKind::TraitImpl {
        trait_name: trait_name.to_owned(),
        impl_for: impl_for.to_owned(),
        impl_site: Location { file: file.to_owned(), symbol },
    };
    Finding::new("", Tier::Likely, confidence, kind, evidence)
}

/// Evidence for an impl block of a changed trait.
pub open spec fn impl_evidence(trait_name: Seq<char>, impl_for: Seq<char>) -> Seq<char> {
    "`impl "@ + trait_name + " for "@ + impl_for
        + "` — trait definition lives in a changed file (syn-only analysis cannot distinguish required vs default method changes; flagged blanket as Likely)"@
}

/// The findings for the first `n` impl blocks of a file.
pub open spec fn impls_in(
    file: Seq<char>,
    sites: Seq<ImplSiteView>,
    changed: Seq<Seq<char>>,
    n: nat,
) -> Seq<FindingView>
    decreases n,
{
    if n == 0 {
        Seq::empty()
    } else {
        let rest = impls_in(file, sites, changed, (n - 1) as nat);
        let i = sites[n - 1];
        if i.trait_name is Some && changed.contains(i.trait_name->0) {
            let t = i.trait_name->0;
            rest.push(impl_finding(file, t, self_display(i), 80, impl_evidence(t, self_display(i))))
        } else {
            rest
        }
    }
}

/// The findings for the impl blocks of a file.
pub open spec fn file_impls(changed: Seq<Seq<char>>) -> spec_fn(Seq<char>, TreeView) -> Seq<
    FindingView,
> {
    |file: Seq<char>, tree: TreeView|
        {
            let sites = tree_impls(tree);
            impls_in(file, sites, changed, sites.len())
        }
}

/// The findings for the impl blocks of the workspace.
pub open spec fn trait_impls(
    files: Seq<FileView>,
    changed: Seq<Seq<char>>,
    f: FeaturesView,
) -> Seq<FindingView> {
    if changed.len() == 0 {
        Seq::empty()
    } else {
        scanned(files, f, file_impls(changed))
    }
}

pub fn scan_impls(file: &str, tree: &SourceTree, changed: &NameSet) -> (r: Vec<Finding>)
    ensures
        finding_views(r@) == file_impls(changed@)(file@, tree@),
{
    let sites = all_impls(tree);
    let ghost s = impl_refs(sites@);
    let mut out: Vec<Finding> = Vec::new();
    let mut i: usize = 0;
    proof {
        assert(finding_views(out@) =~= Seq::empty());
        assert(s.len() == sites@.len());
    }
    while i < sites.len()
        invariant
            i <= sites@.len(),
            s == impl_refs(sites@),
            finding_views(out@) == impls_in(file@, s, changed@, i as nat),
        decreases sites@.len() - i,
    {
        let site = sites[i];
        proof {
            assert(s[i as int] == site@);
        }
        match &site.trait_name {
            Some(t) => {
                if changed.contains(t.as_str()) {
                    let impl_for = type_to_string(site);
                    let mut evidence = "`impl ".to_owned();
                    evidence.append(t.as_str());
                    evidence.append(" for ");
                    evidence.append(impl_for.as_str());
                    evidence.append(
                        "` — trait definition lives in a changed file (syn-only analysis cannot distinguish required vs default method changes; flagged blanket as Likely)",
                    );
                    let f = make_impl_finding(
                        file,
                        t.as_str(),
                        impl_for.as_str(),
                        80,
                        evidence.as_str(),
                    );
                    proof {
                        assert(finding_views(out@.push(f)) =~= finding_views(out@).push(f@));
                    }
                    out.push(f);
                }
            },
            None => {},
        }
        i = i + 1;
    }
    out
}

/// The impl blocks of the workspace whose trait changed.
pub fn find_trait_impls(files: &Vec<SourceFile>, changed: &NameSet, features: &FeatureSet) -> (r:
    Vec<Finding>)
    ensures
        finding_views(r@) == trait_impls(file_views(files@), changed@, features@),
{
    let mut out: Vec<Finding> = Vec::new();
    let ghost fs = file_views(files@);
    let ghost per = file_impls(changed@);
    proof {
        assert(finding_views(out@) =~= Seq::empty());
    }
    if changed.is_empty() {
        return out;
    }
    let mut i: usize = 0;
    while i < files.len()
        invariant
            i <= files@.len(),
            fs == file_views(files@),
            per == file_impls(changed@),
            finding_views(out@) == scanned(fs.take(i as int), features@, per),
        decreases files@.len() - i,
    {
        proof {
            lemma_scanned_step(fs, features@, per, i as int);
            assert(fs[i as int] == files@[i as int]@);
        }
        let ghost before = out@;
        match parse_and_filter(files[i].text.as_str(), features) {
            Some(tree) => {
                let mut more = scan_impls(files[i].path.as_str(), &tree, changed);
                let ghost added = more@;
                out.append(&mut more);
                proof {
                    assert(finding_views(out@) =~= finding_views(before) + finding_views(added));
                }
            },
            None => {
                proof {
                    assert(finding_views(out@) =~= finding_views(before) + Seq::empty());
                }
            },
        }
        i = i + 1;
    }
    proof {
        assert(fs.take(files@.len() as int) =~= fs);
    }
    out
}

/// The names of the traits among symbols.
pub open spec fn trait_names(s: Seq<SymbolView>) -> Seq<Seq<char>> {
    name_set(
        s.filter(|v: SymbolView| v.kind == SymbolKind::Trait).map_values(|v: SymbolView| v.name),
    )
}

/// The names of the traits among changed symbols.
pub fn changed_trait_names(symbols: &Vec<TopLevelSymbol>) -> (r: NameSet)
    ensures
        r@ == trait_names(symbol_views(symbols@)),
{
    let ghost all = symbol_views(symbols@);
    let ghost p = |v: SymbolView| v.kind == SymbolKind::Trait;
    let ghost g = |v: SymbolView| v.name;
    let mut names: Vec<String> = Vec::new();
    let mut i: usize = 0;
    proof {
        assert(all.take(0).filter(p) =~= Seq::empty()) by {
            reveal(Seq::filter);
        }
        assert(texts(names@) =~= all.take(0).filter(p).map_values(g));
    }
    while i < symbols.len()
        invariant
            i <= symbols@.len(),
            all == symbol_views(symbols@),
            p == (|v: SymbolView| v.kind == SymbolKind::Trait),
            g == (|v: SymbolView| v.name),
            texts(names@) == all.take(i as int).filter(p).map_values(g),
        decreases symbols@.len() - i,
    {
        proof {
            crate::text::lemma_filter_step(all, p, i as int);
            assert(all[i as int] == symbols@[i as int]@);
        }
        if symbols[i].kind == SymbolKind::Trait {
            proof {
                let before = all.take(i as int).filter(p);
                let name = symbols@[i as int].name;
                assert(texts(names@.push(name)) =~= texts(names@).push(name@));
                assert(before.push(all[i as int]).map_values(g) =~= before.map_values(g).push(
                    name@,
                ));
            }
            names.push(symbols[i].name.clone());
        }
        i = i + 1;
    }
    proof {
        assert(all.take(symbols@.len() as int) =~= all);
    }
    NameSet::from_names(&names)
}

// ---------------------------------------------------------------------------
// Laws
// ---------------------------------------------------------------------------

/// What one impl block alone brings.
spec fn owed(file: Seq<char>, g: ImplSiteView, changed: Seq<Seq<char>>) -> Seq<FindingView> {
    if g.trait_name is Some && changed.contains(g.trait_name->0) {
        let t = g.trait_name->0;
        seq![impl_finding(file, t, self_display(g), 80, impl_evidence(t, self_display(g)))]
    } else {
        Seq::empty()
    }
}

proof fn lemma_impls_in(
    file: Seq<char>,
    sites: Seq<ImplSiteView>,
    changed: Seq<Seq<char>>,
    n: nat,
    x: FindingView,
)
    requires
        n <= sites.len(),
    ensures
        impls_in(file, sites, changed, n).contains(x) <==> exists|k: int|
            0 <= k < n && #[trigger] owed(file, sites[k], changed).contains(x),
    decreases n,
{
    if n > 0 {
        let m = (n - 1) as nat;
        lemma_impls_in(file, sites, changed, m, x);
        let rest = impls_in(file, sites, changed, m);
        let o = owed(file, sites[n - 1], changed);
        assert(impls_in(file, sites, changed, n) =~= rest + o);
        lemma_contains_add(rest, o, x);
    }
}

/// Whether a finding tells of the impl block `g` of a file: of its trait and of
/// its type, by the last segment of a path, or else by its words.
pub open spec fn tells_of_impl(x: FindingView, file: Seq<char>, g: ImplSiteView) -> bool {
    match x.kind {
        KindView::TraitImpl { trait_name, impl_for, impl_site } => {
            &&& Some(trait_name) == g.trait_name
            &&& g.self_name is Some ==> impl_for == g.self_name->0
            &&& g.self_name is None ==> impl_for == joined(words(g.self_text), " "@)
            &&& impl_site == LocationView {
                file,
                symbol: "impl "@ + trait_name + " for "@ + impl_for,
            }
        },
        _ => false,
    }
}

/// An impl block of a file that parses is reported where its trait changed.
pub proof fn impls_of_changed_traits_are_reported(
    files: Seq<FileView>,
    changed: Seq<Seq<char>>,
    f: FeaturesView,
    i: int,
    g: ImplSiteView,
)
    requires
        0 <= i < files.len(),
        visible_source(files[i].text, f) is Some,
        tree_impls(visible_source(files[i].text, f)->0).contains(g),
        g.trait_name is Some,
        changed.contains(g.trait_name->0),
    ensures
        exists|x: FindingView| #[trigger]
            trait_impls(files, changed, f).contains(x) && tells_of_impl(x, files[i].path, g),
{
    let tree = visible_source(files[i].text, f)->0;
    let sites = tree_impls(tree);
    let file = files[i].path;
    let k = sites.index_of(g);
    let o = owed(file, g, changed);
    assert(o.contains(o[0]));
    lemma_impls_in(file, sites, changed, sites.len(), o[0]);
    assert(owed(file, sites[k], changed).contains(o[0]));
    assert(file_impls(changed)(file, tree).contains(o[0]));
    every_file_is_scanned(files, f, file_impls(changed), o[0]);
    assert(trait_impls(files, changed, f).contains(o[0]));
    assert(tells_of_impl(o[0], file, g));
}

/// What is reported is an impl block of a changed trait in a file that parses.
pub proof fn reported_impls_are_of_changed_traits(
    files: Seq<FileView>,
    changed: Seq<Seq<char>>,
    f: FeaturesView,
    x: FindingView,
)
    requires
        trait_impls(files, changed, f).contains(x),
    ensures
        x.tier == Tier::Likely,
        x.confidence == 80,
        exists|i: int, g: ImplSiteView|
            0 <= i < files.len() && visible_source(files[i].text, f) is Some && tree_impls(
                visible_source(files[i].text, f)->0,
            ).contains(g) && g.trait_name is Some && changed.contains(g.trait_name->0)
                && #[trigger] tells_of_impl(x, files[i].path, g),
{
    every_file_is_scanned(files, f, file_impls(changed), x);
    let i = choose|i: int|
        0 <= i < files.len() && visible_source((#[trigger] files[i]).text, f) is Some
            && file_impls(changed)(files[i].path, visible_source(files[i].text, f)->0).contains(x);
    let sites = tree_impls(visible_source(files[i].text, f)->0);
    lemma_impls_in(files[i].path, sites, changed, sites.len(), x);
    let k = choose|k: int|
        0 <= k < sites.len() && #[trigger] owed(files[i].path, sites[k], changed).contains(x);
    let o = owed(files[i].path, sites[k], changed);
    let z = o.index_of(x);
    assert(o[0] == x);
    assert(sites.contains(sites[k]));
    assert(tells_of_impl(x, files[i].path, sites[k]));
}

/// The findings for impl blocks stand in their order, and a block brings at most
/// one.
pub proof fn impls_are_reported_in_order(
    file: Seq<char>,
    a: Seq<ImplSiteView>,
    b: Seq<ImplSiteView>,
    g: ImplSiteView,
    changed: Seq<Seq<char>>,
)
    ensures
        impls_in(file, a + b, changed, (a + b).len()) == impls_in(file, a, changed, a.len())
            + impls_in(file, b, changed, b.len()),
        impls_in(file, seq![g], changed, 1).len() <= 1,
{
    lemma_impls_behind(file, a, b, changed, b.len());
    reveal_with_fuel(impls_in, 2);
}

proof fn lemma_impls_prefix(
    file: Seq<char>,
    a: Seq<ImplSiteView>,
    b: Seq<ImplSiteView>,
    changed: Seq<Seq<char>>,
    n: nat,
)
    requires
        n <= a.len(),
    ensures
        impls_in(file, a + b, changed, n) == impls_in(file, a, changed, n),
    decreases n,
{
    if n > 0 {
        lemma_impls_prefix(file, a, b, changed, (n - 1) as nat);
        assert((a + b)[n - 1] == a[n - 1]);
    }
}

proof fn lemma_impls_behind(
    file: Seq<char>,
    a: Seq<ImplSiteView>,
    b: Seq<ImplSiteView>,
    changed: Seq<Seq<char>>,
    n: nat,
)
    requires
        n <= b.len(),
    ensures
        impls_in(file, a + b, changed, a.len() + n) == impls_in(file, a, changed, a.len())
            + impls_in(file, b, changed, n),
    decreases n,
{
    let x = impls_in(file, a, changed, a.len());
    if n > 0 {
        lemma_impls_behind(file, a, b, changed, (n - 1) as nat);
        assert((a + b)[a.len() + n - 1] == b[n - 1]);
        let rest = impls_in(file, b, changed, (n - 1) as nat);
        let o = owed(file, b[n - 1], changed);
        assert(impls_in(file, b, changed, n) =~= rest + o);
        assert(impls_in(file, a + b, changed, a.len() + n) =~= x + rest + o);
    } else {
        lemma_impls_prefix(file, a, b, changed, a.len());
        assert(x + impls_in(file, b, changed, 0) =~= x);
    }
}

/// The changed traits are the names of the changed symbols that are traits, each
/// once and in order.
pub proof fn changed_traits_are_the_traits_among_symbols(s: Seq<SymbolView>, name: Seq<char>)
    ensures
        trait_names(s).contains(name) <==> s.contains(
            SymbolView { name, kind: SymbolKind::Trait },
        ),
        crate::names::increasing(trait_names(s)),
{
    let p = |v: SymbolView| v.kind == SymbolKind::Trait;
    let g = |v: SymbolView| v.name;
    let kept = s.filter(p);
    let names = kept.map_values(g);
    crate::names::lemma_name_set(names);
    let want = SymbolView { name, kind: SymbolKind::Trait };
    crate::order::lemma_filter_member(s, p, want);
    if trait_names(s).contains(name) {
        let k = names.index_of(name);
        crate::order::lemma_filter_member(s, p, kept[k]);
        assert(kept.contains(kept[k]));
        assert(kept[k] == want);
    }
    if s.contains(want) {
        let k = kept.index_of(want);
        assert(names[k] == name);
    }
}

/// A finding for an impl block keeps what it is made of and is of high severity;
/// its evidence names the trait and the type.
pub proof fn impl_findings_name_trait_and_type(
    file: Seq<char>,
    t: Seq<char>,
    ty: Seq<char>,
    confidence: int,
    evidence: Seq<char>,
)
    requires
        0 <= confidence <= 100,
    ensures
        ({
            let f = impl_finding(file, t, ty, confidence, evidence);
            &&& f.tier is Likely
            &&& f.severity is High
            &&& f.confidence == confidence
            &&& f.evidence == evidence
            &&& f.suggested_action is None
        }),
        crate::text::holds(impl_evidence(t, ty), "impl "@ + t + " for "@ + ty),
{
    broadcast use crate::text::group_holds;

    reveal_strlit("`");
    reveal_strlit("impl ");
    reveal_strlit("`impl ");
    assert("`impl "@ =~= "`"@ + "impl "@);
    let rest = "` — trait definition lives in a changed file (syn-only analysis cannot distinguish required vs default method changes; flagged blanket as Likely)"@;
    let part = "impl "@ + t + " for "@ + ty;
    assert(impl_evidence(t, ty) =~= "`"@ + part + rest);
}

} // verus!
