//! Runtime surfaces that changed symbols reach: axum routes and clap commands.
//!
//! A `.route(...)` or `.nest(...)` call counts when its arguments name a changed
//! symbol. A struct or enum with a clap derive counts when it, a variant of it,
//! or a field names one.
use crate::cfg::{parse_and_filter, visible_source, FeatureSet, FeaturesView};
use crate::finding::{
    finding_views, new_finding, opt_text, Finding, FindingKind, FindingView, KindView, Location,
    LocationView, Tier,
};
use crate::names::NameSet;
use crate::order::lemma_filter_member;
use crate::scan::{
    all_calls, any_mentioned, call_refs, every_file_is_scanned, is_word, lemma_contains_add,
    lemma_scanned_step, mentioned, mentioned_names, mentioned_names_are_exact, mentions_any, scanned,
    stands_alone_at, tree_calls,
};
use crate::symbols::{file_views, walk, walk_views, walked, FileView, SourceFile};
use crate::syntax::{
    attr_nodes, item_node, opt_texts, pair_views, AttrNode, AttrView, BodyView, CallSite,
    CallSiteView, ItemBody, ItemKind, ItemView, LeafNode, LeafView, SourceItem, SourceTree,
    TreeView,
};
use crate::text::{join, joined, same, texts};
use vstd::prelude::*;
use vstd::string::*;

verus! {

/// The finding for a surface.
pub open spec fn surface_finding(
    framework: Seq<char>,
    identifier: Seq<char>,
    file: Seq<char>,
    evidence: Seq<char>,
) -> FindingView {
    new_finding(
        ""@,
        Tier::Likely,
        75,
        KindView::RuntimeSurface {
            framework,
            identifier,
            site: LocationView { file, symbol: identifier },
        },
        evidence,
    )
}

fn build_surface(framework: &str, identifier: &str, file: &str, evidence: &str) -> (r: Finding)
    ensures
        r@ == surface_finding(framework@, identifier@, file@, evidence@),
{
    let kind = FindingKind::RuntimeSurface {
        framework: framework.to_owned(),
        identifier: identifier.to_owned(),
        site: Location { file: file.to_owned(), symbol: identifier.to_owned() },
    };
    Finding::new("", Tier::Likely, 75, kind, evidence)
}

// ---------------------------------------------------------------------------
// axum
// ---------------------------------------------------------------------------

/// A call that adds to a router.
pub open spec fn is_router_call(c: CallSiteView) -> bool {
    (c.method == "route"@ || c.method == "nest"@) && c.has_args
}

/// Name of a route: the method, and the path where it is a literal.
pub open spec fn route_name(c: CallSiteView) -> Seq<char> {
    match c.first_text {
        Some(p) => c.method + " `"@ + p + "`"@,
        None => c.method,
    }
}

/// The findings for a call.
pub open spec fn call_surfaces(file: Seq<char>, c: CallSiteView, changed: Seq<Seq<char>>) -> Seq<
    FindingView,
> {
    let named = mentioned_names(changed, c.args);
    if is_router_call(c) && named.len() > 0 {
        seq![
            surface_finding(
                "axum"@,
                route_name(c),
                file,
                "axum `"@ + route_name(c) + "` at "@ + file + " references changed symbols: "@
                    + joined(named, ", "@),
            ),
        ]
    } else {
        Seq::empty()
    }
}

pub fn inspect_router_chain(file: &str, c: &CallSite, changed: &NameSet) -> (r: Option<Finding>)
    ensures
        match r {
            Some(f) => call_surfaces(file@, c@, changed@) == seq![f@],
            None => call_surfaces(file@, c@, changed@).len() == 0,
        },
{
    if !((same(c.method.as_str(), "route") || same(c.method.as_str(), "nest")) && c.has_args) {
        return None;
    }
    let named = mentioned(changed, c.args.as_str());
    proof {
        assert(texts(named@).len() == named@.len());
    }
    if named.len() == 0 {
        return None;
    }
    let identifier = match &c.first_text {
        Some(p) => {
            let mut s = c.method.clone();
            s.append(" `");
            s.append(p.as_str());
            s.append("`");
            s
        },
        None => c.method.clone(),
    };
    let mut evidence = "axum `".to_owned();
    evidence.append(identifier.as_str());
    evidence.append("` at ");
    evidence.append(file);
    evidence.append(" references changed symbols: ");
    evidence.append(join(&named, ", ").as_str());
    Some(build_surface("axum", identifier.as_str(), file, evidence.as_str()))
}

/// The findings for the first `n` calls.
pub open spec fn calls_in(
    file: Seq<char>,
    sites: Seq<CallSiteView>,
    changed: Seq<Seq<char>>,
    n: nat,
) -> Seq<FindingView>
    decreases n,
{
    if n == 0 {
        Seq::empty()
    } else {
        calls_in(file, sites, changed, (n - 1) as nat) + call_surfaces(file, sites[n - 1], changed)
    }
}

// ---------------------------------------------------------------------------
// clap
// ---------------------------------------------------------------------------

/// The traits that an attribute derives.
pub open spec fn derived(a: AttrView) -> Seq<Seq<char>> {
    if a.ident == Some("derive"@) {
        match a.paths {
            Some(p) => p.filter(|o: Option<Seq<char>>| o is Some).map_values(
                |o: Option<Seq<char>>| o->0,
            ),
            None => Seq::empty(),
        }
    } else {
        Seq::empty()
    }
}

/// The traits that the first `n` attributes derive.
pub open spec fn all_derived(attrs: Seq<AttrView>, n: nat) -> Seq<Seq<char>>
    decreases n,
{
    if n == 0 {
        Seq::empty()
    } else {
        all_derived(attrs, (n - 1) as nat) + derived(attrs[n - 1])
    }
}

fn attr_derived(a: &AttrNode) -> (r: Vec<String>)
    ensures
        texts(r@) == derived(a@),
{
    let mut out: Vec<String> = Vec::new();
    proof {
        assert(texts(out@) =~= Seq::empty());
    }
    let is_derive = match &a.ident {
        Some(s) => same(s.as_str(), "derive"),
        None => false,
    };
    if is_derive {
        match &a.paths {
            Some(paths) => {
                let ghost all = opt_texts(paths@);
                let ghost p = |o: Option<Seq<char>>| o is Some;
                let ghost g = |o: Option<Seq<char>>| o->0;
                let mut i: usize = 0;
                proof {
                    assert(all.take(0).filter(p) =~= Seq::empty()) by {
                        reveal(Seq::filter);
                    }
                    assert(texts(out@) =~= all.take(0).filter(p).map_values(g));
                }
                while i < paths.len()
                    invariant
                        i <= paths@.len(),
                        all == opt_texts(paths@),
                        p == (|o: Option<Seq<char>>| o is Some),
                        g == (|o: Option<Seq<char>>| o->0),
                        texts(out@) == all.take(i as int).filter(p).map_values(g),
                    decreases paths@.len() - i,
                {
                    proof {
                        crate::text::lemma_filter_step(all, p, i as int);
                        assert(all[i as int] == opt_text(paths@[i as int]));
                    }
                    match &paths[i] {
                        Some(s) => {
                            proof {
                                let before = all.take(i as int).filter(p);
                                assert(texts(out@.push(*s)) =~= texts(out@).push(s@));
                                assert(before.push(all[i as int]).map_values(g)
                                    =~= before.map_values(g).push(s@));
                            }
                            out.push(s.clone());
                        },
                        None => {},
                    }
                    i = i + 1;
                }
                proof {
                    assert(all.take(paths@.len() as int) =~= all);
                }
            },
            None => {},
        }
    }
    out
}

/// The traits that attributes derive, in order.
pub fn derive_names(attrs: &Vec<AttrNode>) -> (r: Vec<String>)
    ensures
        texts(r@) == all_derived(attr_nodes(attrs@), attrs@.len()),
{
    let ghost s = attr_nodes(attrs@);
    let mut out: Vec<String> = Vec::new();
    let mut i: usize = 0;
    proof {
        assert(texts(out@) =~= Seq::empty());
    }
    while i < attrs.len()
        invariant
            i <= attrs@.len(),
            s == attr_nodes(attrs@),
            texts(out@) == all_derived(s, i as nat),
        decreases attrs@.len() - i,
    {
        let ghost before = out@;
        let mut more = attr_derived(&attrs[i]);
        let ghost added = more@;
        out.append(&mut more);
        proof {
            assert(s[i as int] == attrs@[i as int]@);
            assert(texts(out@) =~= texts(before) + texts(added));
        }
        i = i + 1;
    }
    out
}

/// A derive that defines a command.
pub open spec fn is_command(d: Seq<char>) -> bool {
    d == "Parser"@ || d == "Subcommand"@ || d == "Args"@
}

/// The first derive that defines a command.
pub open spec fn command_kind(derives: Seq<Seq<char>>, from: int) -> Option<Seq<char>>
    decreases derives.len() - from,
{
    if from < 0 || from >= derives.len() {
        None
    } else if is_command(derives[from]) {
        Some(derives[from])
    } else {
        command_kind(derives, from + 1)
    }
}

/// The first derive that defines a command: `Parser`, `Subcommand` or `Args`.
pub fn clap_surface_kind(derives: &Vec<String>) -> (r: Option<String>)
    ensures
        opt_text(r) == command_kind(texts(derives@), 0),
{
    let ghost d = texts(derives@);
    let mut i: usize = 0;
    while i < derives.len()
        invariant
            i <= derives@.len(),
            d == texts(derives@),
            command_kind(d, 0) == command_kind(d, i as int),
        decreases derives@.len() - i,
    {
        proof {
            assert(d[i as int] == derives@[i as int]@);
        }
        let s = derives[i].as_str();
        if same(s, "Parser") || same(s, "Subcommand") || same(s, "Args") {
            return Some(derives[i].clone());
        }
        i = i + 1;
    }
    None
}

/// Whether a variant or its fields name a changed symbol.
pub open spec fn variants_touch(variants: Seq<(Seq<char>, Seq<char>)>, changed: Seq<Seq<char>>) -> bool {
    exists|i: int|
        0 <= i < variants.len() && (changed.contains((#[trigger] variants[i]).0) || mentions_any(
            changed,
            variants[i].1,
        ))
}

/// Whether an item names a changed symbol: by its own name, by a field, or, in
/// an enum, by a variant.
pub open spec fn item_touches(
    kind: ItemKind,
    name: Seq<char>,
    leaf: LeafView,
    changed: Seq<Seq<char>>,
) -> bool {
    changed.contains(name) || (if kind == ItemKind::Struct {
        match leaf.fields {
            Some(t) => mentions_any(changed, t),
            None => false,
        }
    } else {
        variants_touch(leaf.variants, changed)
    })
}

/// The finding for a command.
pub open spec fn command_finding(file: Seq<char>, name: Seq<char>, kind: Seq<char>) -> FindingView {
    surface_finding(
        "clap"@,
        kind + " `"@ + name + "`"@,
        file,
        "clap `#[derive("@ + kind + ")]` on `"@ + name + "` at "@ + file
            + " — CLI surface touches a changed symbol"@,
    )
}

/// The findings for one item.
pub open spec fn item_commands(file: Seq<char>, item: ItemView, changed: Seq<Seq<char>>) -> Seq<
    FindingView,
> {
    if item.kind == ItemKind::Struct || item.kind == ItemKind::Enum {
        match (item.body, item.name, command_kind(all_derived(item.attrs, item.attrs.len()), 0)) {
            (BodyView::Leaf(l), Some(n), Some(k)) => if item_touches(item.kind, n, l, changed) {
                seq![command_finding(file, n, k)]
            } else {
                Seq::empty()
            },
            _ => Seq::empty(),
        }
    } else {
        Seq::empty()
    }
}

/// The findings for walked items.
pub open spec fn commands_in(
    file: Seq<char>,
    w: Seq<(Seq<char>, ItemView)>,
    changed: Seq<Seq<char>>,
) -> Seq<FindingView>
    decreases w.len(),
{
    if w.len() == 0 {
        Seq::empty()
    } else {
        commands_in(file, w.drop_last(), changed) + item_commands(file, w.last().1, changed)
    }
}

fn touches_variants(variants: &Vec<(String, String)>, changed: &NameSet) -> (r: bool)
    ensures
        r == variants_touch(pair_views(variants@), changed@),
{
    let ghost v = pair_views(variants@);
    let mut i: usize = 0;
    while i < variants.len()
        invariant
            i <= variants@.len(),
            v == pair_views(variants@),
            forall|j: int|
                0 <= j < i ==> !(changed@.contains((#[trigger] v[j]).0) || mentions_any(
                    changed@,
                    v[j].1,
                )),
        decreases variants@.len() - i,
    {
        proof {
            assert(v[i as int] == (variants@[i as int].0@, variants@[i as int].1@));
        }
        if changed.contains(variants[i].0.as_str()) || any_mentioned(
            changed,
            variants[i].1.as_str(),
        ) {
            return true;
        }
        i = i + 1;
    }
    false
}

fn touches(kind: ItemKind, name: &str, leaf: &LeafNode, changed: &NameSet) -> (r: bool)
    ensures
        r == item_touches(kind, name@, leaf@, changed@),
{
    if changed.contains(name) {
        return true;
    }
    if kind == ItemKind::Struct {
        match &leaf.fields {
            Some(t) => any_mentioned(changed, t.as_str()),
            None => false,
        }
    } else {
        touches_variants(&leaf.variants, changed)
    }
}

pub fn command_of(file: &str, item: &SourceItem, changed: &NameSet) -> (r: Option<Finding>)
    ensures
        match r {
            Some(f) => item_commands(file@, item@, changed@) == seq![f@],
            None => item_commands(file@, item@, changed@).len() == 0,
        },
{
    if !(item.kind == ItemKind::Struct || item.kind == ItemKind::Enum) {
        return None;
    }
    let derives = derive_names(&item.attrs);
    let kind = match clap_surface_kind(&derives) {
        Some(k) => k,
        None => {
            return None;
        },
    };
    let name = match &item.name {
        Some(n) => n,
        None => {
            return None;
        },
    };
    match &item.body {
        ItemBody::Leaf(l) => {
            if !touches(item.kind, name.as_str(), l, changed) {
                return None;
            }
        },
        _ => {
            return None;
        },
    }
    let mut identifier = kind.clone();
    identifier.append(" `");
    identifier.append(name.as_str());
    identifier.append("`");
    let mut evidence = "clap `#[derive(".to_owned();
    evidence.append(kind.as_str());
    evidence.append(")]` on `");
    evidence.append(name.as_str());
    evidence.append("` at ");
    evidence.append(file);
    evidence.append(" — CLI surface touches a changed symbol");
    Some(build_surface("clap", identifier.as_str(), file, evidence.as_str()))
}

// ---------------------------------------------------------------------------
// Both
// ---------------------------------------------------------------------------

/// The findings for the surfaces of a file: routes, then commands.
pub open spec fn file_surfaces(changed: Seq<Seq<char>>) -> spec_fn(Seq<char>, TreeView) -> Seq<
    FindingView,
> {
    |file: Seq<char>, tree: TreeView|
        {
            let w = walked(tree.items, ""@);
            let sites = tree_calls(tree);
            calls_in(file, sites, changed, sites.len()) + commands_in(file, w, changed)
        }
}

/// The findings for the surfaces of the workspace.
pub open spec fn runtime_surfaces(
    files: Seq<FileView>,
    changed: Seq<Seq<char>>,
    f: FeaturesView,
) -> Seq<FindingView> {
    if changed.len() == 0 {
        Seq::empty()
    } else {
        scanned(files, f, file_surfaces(changed))
    }
}

pub fn scan_surfaces(file: &str, tree: &SourceTree, changed: &NameSet) -> (r: Vec<Finding>)
    ensures
        finding_views(r@) == file_surfaces(changed@)(file@, tree@),
{
    let sites = all_calls(tree);
    let ghost s = call_refs(sites@);
    let mut out: Vec<Finding> = Vec::new();
    let mut i: usize = 0;
    proof {
        assert(finding_views(out@) =~= Seq::empty());
        assert(s.len() == sites@.len());
    }
    while i < sites.len()
        invariant
            i <= sites@.len(),
            s == call_refs(sites@),
            finding_views(out@) == calls_in(file@, s, changed@, i as nat),
        decreases sites@.len() - i,
    {
        proof {
            assert(s[i as int] == sites@[i as int]@);
        }
        match inspect_router_chain(file, sites[i], changed) {
            Some(f) => {
                proof {
                    assert(finding_views(out@.push(f)) =~= finding_views(out@) + seq![f@]);
                }
                out.push(f);
            },
            None => {
                proof {
                    assert(finding_views(out@) =~= finding_views(out@) + call_surfaces(
                        file@,
                        s[i as int],
                        changed@,
                    ));
                }
            },
        }
        i = i + 1;
    }
    let ghost first = calls_in(file@, s, changed@, s.len());
    let all = walk(&tree.items, "");
    let ghost w = walk_views(all@);
    let mut k: usize = 0;
    proof {
        assert(first + commands_in(file@, w.take(0), changed@) =~= first);
    }
    while k < all.len()
        invariant
            k <= all@.len(),
            w == walk_views(all@),
            finding_views(out@) == first + commands_in(file@, w.take(k as int), changed@),
        decreases all@.len() - k,
    {
        let ghost rest = commands_in(file@, w.take(k as int), changed@);
        proof {
            assert(w.take(k + 1).drop_last() =~= w.take(k as int));
            assert(w.take(k + 1).last() == w[k as int]);
            assert(w[k as int].1 == item_node(*all@[k as int].1));
        }
        match command_of(file, all[k].1, changed) {
            Some(f) => {
                proof {
                    assert(finding_views(out@.push(f)) =~= finding_views(out@) + seq![f@]);
                    assert(first + rest + seq![f@] =~= first + (rest + seq![f@]));
                }
                out.push(f);
            },
            None => {
                proof {
                    assert(rest + item_commands(file@, w[k as int].1, changed@) =~= rest);
                }
            },
        }
        k = k + 1;
    }
    proof {
        assert(w.take(all@.len() as int) =~= w);
    }
    out
}

/// The runtime surfaces of the workspace that changed symbols reach.
pub fn find_runtime_surfaces(files: &Vec<SourceFile>, changed: &NameSet, features: &FeatureSet) -> (r:
    Vec<Finding>)
    ensures
        finding_views(r@) == runtime_surfaces(file_views(files@), changed@, features@),
{
    let mut out: Vec<Finding> = Vec::new();
    let ghost fs = file_views(files@);
    let ghost per = file_surfaces(changed@);
    proof {
        assert(finding_views(out@) =~= Seq::empty());
    }
    if changed.is_empty() {
        return out;
    }
    let mut i: usize = 0;
    while i < files.len()
        invariant
            i <= files@.len(),
            fs == file_views(files@),
            per == file_surfaces(changed@),
            finding_views(out@) == scanned(fs.take(i as int), features@, per),
        decreases files@.len() - i,
    {
        proof {
            lemma_scanned_step(fs, features@, per, i as int);
            assert(fs[i as int] == files@[i as int]@);
        }
        let ghost before = out@;
        match parse_and_filter(files[i].text.as_str(), features) {
            Some(tree) => {
                let mut more = scan_surfaces(files[i].path.as_str(), &tree, changed);
                let ghost added = more@;
                out.append(&mut more);
                proof {
                    assert(finding_views(out@) =~= finding_views(before) + finding_views(added));
                }
            },
            None => {
                proof {
                    assert(finding_views(out@) =~= finding_views(before) + Seq::empty());
                }
            },
        }
        i = i + 1;
    }
    proof {
        assert(fs.take(files@.len() as int) =~= fs);
    }
    out
}

// ---------------------------------------------------------------------------
// Laws
// ---------------------------------------------------------------------------

proof fn lemma_calls_in(
    file: Seq<char>,
    sites: Seq<CallSiteView>,
    changed: Seq<Seq<char>>,
    n: nat,
    x: FindingView,
)
    requires
        n <= sites.len(),
    ensures
        calls_in(file, sites, changed, n).contains(x) <==> exists|k: int|
            0 <= k < n && #[trigger] call_surfaces(file, sites[k], changed).contains(x),
    decreases n,
{
    if n > 0 {
        let m = (n - 1) as nat;
        lemma_calls_in(file, sites, changed, m, x);
        lemma_contains_add(
            calls_in(file, sites, changed, m),
            call_surfaces(file, sites[n - 1], changed),
            x,
        );
    }
}

/// Whether some changed name stands in a text as a whole word.
pub open spec fn names_one(text: Seq<char>, changed: Seq<Seq<char>>) -> bool {
    exists|n: Seq<char>, a: int|
        #![trigger stands_alone_at(text, n, a)]
        changed.contains(n) && is_word(n) && stands_alone_at(text, n, a)
}

proof fn lemma_names_one(text: Seq<char>, changed: Seq<Seq<char>>)
    ensures
        names_one(text, changed) <==> mentioned_names(changed, text).len() > 0,
        names_one(text, changed) <==> mentions_any(changed, text),
{
    let found = mentioned_names(changed, text);
    mentioned_names_are_exact(changed, text, Seq::empty());
    if names_one(text, changed) {
        let (n, a) = choose|n: Seq<char>, a: int|
            #![trigger stands_alone_at(text, n, a)]
            changed.contains(n) && is_word(n) && stands_alone_at(text, n, a);
        mentioned_names_are_exact(changed, text, n);
        assert(stands_alone_at(text, n, a));
        assert(found.contains(n));
    }
    if found.len() > 0 {
        let n = found[0];
        assert(found.contains(n));
        mentioned_names_are_exact(changed, text, n);
        let a = choose|a: int| #[trigger] stands_alone_at(text, n, a);
        assert(stands_alone_at(text, n, a));
    }
}

/// Whether a finding tells of a surface of a file.
pub open spec fn tells_of_surface(
    x: FindingView,
    framework: Seq<char>,
    identifier: Seq<char>,
    file: Seq<char>,
) -> bool {
    &&& x.kind == KindView::RuntimeSurface {
        framework,
        identifier,
        site: LocationView { file, symbol: identifier },
    }
    &&& x.tier == Tier::Likely
    &&& x.confidence == 75
}

/// A method call is reported exactly where it is `route` or `nest`, has
/// arguments, and some changed name stands in these as a whole word. The finding
/// names the method, and the path where the first argument is a literal.
pub proof fn router_calls_that_name_changed_symbols_are_reported(
    file: Seq<char>,
    c: CallSiteView,
    changed: Seq<Seq<char>>,
)
    ensures
        (c.method == "route"@ || c.method == "nest"@) && c.has_args && names_one(c.args, changed)
            ==> call_surfaces(file, c, changed).len() == 1 && tells_of_surface(
            call_surfaces(file, c, changed)[0],
            "axum"@,
            if c.first_text is Some {
                c.method + " `"@ + c.first_text->0 + "`"@
            } else {
                c.method
            },
            file,
        ),
        !((c.method == "route"@ || c.method == "nest"@) && c.has_args && names_one(c.args, changed))
            ==> call_surfaces(file, c, changed).len() == 0,
{
    lemma_names_one(c.args, changed);
}

/// A trait is derived by attributes exactly where one of them is `derive` with a
/// path that ends in it.
pub proof fn derived_names_are_exact(attrs: Seq<AttrView>, n: nat, t: Seq<char>)
    requires
        n <= attrs.len(),
    ensures
        all_derived(attrs, n).contains(t) <==> exists|k: int|
            0 <= k < n && (#[trigger] attrs[k]).ident == Some("derive"@) && attrs[k].paths is Some
                && attrs[k].paths->0.contains(Some(t)),
    decreases n,
{
    if n > 0 {
        let m = (n - 1) as nat;
        derived_names_are_exact(attrs, m, t);
        let a = attrs[n - 1];
        lemma_contains_add(all_derived(attrs, m), derived(a), t);
        assert(derived(a).contains(t) <==> a.ident == Some("derive"@) && a.paths is Some
            && a.paths->0.contains(Some(t))) by {
            if a.ident == Some("derive"@) && a.paths is Some {
                let p = |o: Option<Seq<char>>| o is Some;
                let g = |o: Option<Seq<char>>| o->0;
                let kept = a.paths->0.filter(p);
                lemma_filter_member(a.paths->0, p, Some(t));
                if derived(a).contains(t) {
                    let k = kept.map_values(g).index_of(t);
                    lemma_filter_member(a.paths->0, p, kept[k]);
                    assert(kept.contains(kept[k]));
                    assert(kept[k] == Some(t));
                }
                if a.paths->0.contains(Some(t)) {
                    let k = kept.index_of(Some(t));
                    assert(kept.map_values(g)[k] == t);
                }
            }
        }
    }
}

/// The kind of a command is the first of its derives that is `Parser`,
/// `Subcommand` or `Args`.
pub proof fn command_kinds_are_the_first(derives: Seq<Seq<char>>, from: int)
    requires
        0 <= from <= derives.len(),
    ensures
        match command_kind(derives, from) {
            Some(k) => (k == "Parser"@ || k == "Subcommand"@ || k == "Args"@) && exists|i: int|
                from <= i < derives.len() && #[trigger] derives[i] == k && forall|j: int|
                    from <= j < i ==> (#[trigger] derives[j]) != "Parser"@ && derives[j]
                        != "Subcommand"@ && derives[j] != "Args"@,
            None => forall|j: int|
                from <= j < derives.len() ==> (#[trigger] derives[j]) != "Parser"@ && derives[j]
                    != "Subcommand"@ && derives[j] != "Args"@,
        },
    decreases derives.len() - from,
{
    if from < derives.len() && !is_command(derives[from]) {
        command_kinds_are_the_first(derives, from + 1);
        if command_kind(derives, from) is Some {
            let k = command_kind(derives, from)->0;
            let i = choose|i: int|
                from + 1 <= i < derives.len() && #[trigger] derives[i] == k && forall|j: int|
                    from + 1 <= j < i ==> (#[trigger] derives[j]) != "Parser"@ && derives[j]
                        != "Subcommand"@ && derives[j] != "Args"@;
            assert(derives[i] == k);
        }
    } else if from < derives.len() {
        assert(derives[from] == command_kind(derives, from)->0);
    }
}

/// Whether a type touches a changed symbol: by its own name, by a word of its
/// fields, or, as an enum, by the name of a variant or a word of its fields.
pub open spec fn type_touches(
    item: ItemView,
    leaf: LeafView,
    name: Seq<char>,
    changed: Seq<Seq<char>>,
) -> bool {
    ||| changed.contains(name)
    ||| item.kind == ItemKind::Struct && leaf.fields is Some && names_one(leaf.fields->0, changed)
    ||| item.kind == ItemKind::Enum && exists|i: int|
        0 <= i < leaf.variants.len() && (changed.contains((#[trigger] leaf.variants[i]).0)
            || names_one(leaf.variants[i].1, changed))
}

/// A struct or an enum that derives a command is reported exactly where it
/// touches a changed symbol; no other item is.
pub proof fn commands_that_touch_changed_symbols_are_reported(
    file: Seq<char>,
    item: ItemView,
    leaf: LeafView,
    name: Seq<char>,
    changed: Seq<Seq<char>>,
)
    requires
        item.body == BodyView::Leaf(leaf),
        item.name == Some(name),
    ensures
        ({
            let kind = command_kind(all_derived(item.attrs, item.attrs.len()), 0);
            let owed = (item.kind == ItemKind::Struct || item.kind == ItemKind::Enum) && kind
                is Some && type_touches(item, leaf, name, changed);
            &&& owed ==> item_commands(file, item, changed).len() == 1 && tells_of_surface(
                item_commands(file, item, changed)[0],
                "clap"@,
                kind->0 + " `"@ + name + "`"@,
                file,
            )
            &&& !owed ==> item_commands(file, item, changed).len() == 0
        }),
{
    if leaf.fields is Some {
        lemma_names_one(leaf.fields->0, changed);
    }
    assert forall|i: int| 0 <= i < leaf.variants.len() implies (names_one(
        (#[trigger] leaf.variants[i]).1,
        changed,
    ) <==> mentions_any(changed, leaf.variants[i].1)) by {
        lemma_names_one(leaf.variants[i].1, changed);
    }
    if item.kind == ItemKind::Enum {
        if variants_touch(leaf.variants, changed) {
            let i = choose|i: int|
                0 <= i < leaf.variants.len() && (changed.contains((#[trigger] leaf.variants[i]).0)
                    || mentions_any(changed, leaf.variants[i].1));
            assert(changed.contains(leaf.variants[i].0) || names_one(leaf.variants[i].1, changed));
        }
        if type_touches(item, leaf, name, changed) && !changed.contains(name) {
            let i = choose|i: int|
                0 <= i < leaf.variants.len() && (changed.contains((#[trigger] leaf.variants[i]).0)
                    || names_one(leaf.variants[i].1, changed));
            assert(changed.contains(leaf.variants[i].0) || mentions_any(
                changed,
                leaf.variants[i].1,
            ));
        }
        assert(variants_touch(leaf.variants, changed) || changed.contains(name) <==> type_touches(
            item,
            leaf,
            name,
            changed,
        ));
    }
}

proof fn lemma_commands_in(
    file: Seq<char>,
    w: Seq<(Seq<char>, ItemView)>,
    changed: Seq<Seq<char>>,
    x: FindingView,
)
    ensures
        commands_in(file, w, changed).contains(x) <==> exists|k: int|
            0 <= k < w.len() && item_commands(file, (#[trigger] w[k]).1, changed).contains(x),
    decreases w.len(),
{
    if w.len() > 0 {
        let d = w.drop_last();
        lemma_commands_in(file, d, changed, x);
        lemma_contains_add(
            commands_in(file, d, changed),
            item_commands(file, w.last().1, changed),
            x,
        );
        assert(w[w.len() - 1] == w.last());
        if commands_in(file, d, changed).contains(x) {
            let k = choose|k: int|
                0 <= k < d.len() && item_commands(file, (#[trigger] d[k]).1, changed).contains(x);
            assert(w[k] == d[k]);
        }
        if exists|k: int|
            0 <= k < w.len() && item_commands(file, (#[trigger] w[k]).1, changed).contains(x) {
            let k = choose|k: int|
                0 <= k < w.len() && item_commands(file, (#[trigger] w[k]).1, changed).contains(x);
            if k < d.len() {
                assert(d[k] == w[k]);
            }
        }
    }
}

/// The surfaces of a file are those of each of its method calls and of each of
/// its items, at any depth, and nothing else.
pub proof fn every_call_and_item_is_looked_at(
    file: Seq<char>,
    tree: TreeView,
    changed: Seq<Seq<char>>,
    x: FindingView,
)
    ensures
        file_surfaces(changed)(file, tree).contains(x) <==> (exists|c: CallSiteView|
            tree_calls(tree).contains(c) && #[trigger] call_surfaces(file, c, changed).contains(x))
            || (exists|k: int|
            0 <= k < walked(tree.items, ""@).len() && item_commands(
                file,
                (#[trigger] walked(tree.items, ""@)[k]).1,
                changed,
            ).contains(x)),
{
    let sites = tree_calls(tree);
    let w = walked(tree.items, ""@);
    lemma_calls_in(file, sites, changed, sites.len(), x);
    lemma_commands_in(file, w, changed, x);
    lemma_contains_add(
        calls_in(file, sites, changed, sites.len()),
        commands_in(file, w, changed),
        x,
    );
    if calls_in(file, sites, changed, sites.len()).contains(x) {
        let k = choose|k: int|
            0 <= k < sites.len() && #[trigger] call_surfaces(file, sites[k], changed).contains(x);
        assert(sites.contains(sites[k]));
    }
    if exists|c: CallSiteView|
        sites.contains(c) && #[trigger] call_surfaces(file, c, changed).contains(x) {
        let c = choose|c: CallSiteView|
            sites.contains(c) && #[trigger] call_surfaces(file, c, changed).contains(x);
        let k = sites.index_of(c);
        assert(call_surfaces(file, sites[k], changed).contains(x));
    }
}

/// The surfaces of the workspace are those of each file that parses. Without a
/// changed symbol there are none.
pub proof fn every_file_is_looked_at(
    files: Seq<FileView>,
    changed: Seq<Seq<char>>,
    f: FeaturesView,
    x: FindingView,
)
    ensures
        runtime_surfaces(files, changed, f).contains(x) <==> changed.len() > 0 && exists|i: int|
            0 <= i < files.len() && visible_source((#[trigger] files[i]).text, f) is Some
                && file_surfaces(changed)(
                files[i].path,
                visible_source(files[i].text, f)->0,
            ).contains(x),
{
    every_file_is_scanned(files, f, file_surfaces(changed), x);
}

/// A runtime surface is of high severity. The evidence for a call names it, its
/// file and every changed symbol in its arguments; that for a command names the
/// type, its derive and its file.
pub proof fn surface_evidence_names_what_is_touched(
    file: Seq<char>,
    c: CallSiteView,
    changed: Seq<Seq<char>>,
    x: FindingView,
    n: Seq<char>,
    kind: Seq<char>,
)
    ensures
        call_surfaces(file, c, changed).contains(x) ==> {
            &&& x.severity is High
            &&& x.suggested_action is None
            &&& crate::text::holds(x.evidence, c.method)
            &&& c.first_text matches Some(p) ==> crate::text::holds(x.evidence, p)
            &&& crate::text::holds(x.evidence, file)
            &&& mentioned_names(changed, c.args).contains(n) ==> crate::text::holds(x.evidence, n)
        },
        command_finding(file, n, kind).severity is High,
        crate::text::holds(command_finding(file, n, kind).evidence, n),
        crate::text::holds(command_finding(file, n, kind).evidence, kind),
        crate::text::holds(command_finding(file, n, kind).evidence, file),
{
    broadcast use crate::text::group_holds;

    if call_surfaces(file, c, changed).contains(x) {
        let all = call_surfaces(file, c, changed);
        let k = all.index_of(x);
        let named = mentioned_names(changed, c.args);
        assert(x == all[0]);
        if named.contains(n) {
            let i = named.index_of(n);
            crate::text::lemma_holds_joined(named, ", "@, i, n);
        }
        assert(crate::text::holds(route_name(c), c.method));
    }
}

/// Calls and items are looked at one by one, in order, and the calls of a file
/// before its items.
pub proof fn surfaces_are_reported_in_order(
    file: Seq<char>,
    tree: TreeView,
    a: Seq<CallSiteView>,
    b: Seq<CallSiteView>,
    c: CallSiteView,
    v: Seq<(Seq<char>, ItemView)>,
    w: Seq<(Seq<char>, ItemView)>,
    item: (Seq<char>, ItemView),
    changed: Seq<Seq<char>>,
)
    ensures
        calls_in(file, a + b, changed, (a + b).len()) == calls_in(file, a, changed, a.len())
            + calls_in(file, b, changed, b.len()),
        calls_in(file, seq![c], changed, 1) == call_surfaces(file, c, changed),
        commands_in(file, v + w, changed) == commands_in(file, v, changed) + commands_in(
            file,
            w,
            changed,
        ),
        commands_in(file, seq![item], changed) == item_commands(file, item.1, changed),
        file_surfaces(changed)(file, tree) == calls_in(
            file,
            tree_calls(tree),
            changed,
            tree_calls(tree).len(),
        ) + commands_in(file, walked(tree.items, ""@), changed),
        call_surfaces(file, c, changed).len() <= 1,
        item_commands(file, item.1, changed).len() <= 1,
{
    lemma_calls_behind(file, a, b, changed, b.len());
    reveal_with_fuel(calls_in, 2);
    assert(calls_in(file, seq![c], changed, 1) =~= call_surfaces(file, c, changed));
    lemma_commands_join(file, v, w, changed);
    assert(seq![item].drop_last() =~= Seq::empty());
    assert(commands_in(file, seq![item].drop_last(), changed) =~= Seq::empty());
    assert(commands_in(file, seq![item], changed) =~= item_commands(file, item.1, changed));
}

proof fn lemma_calls_prefix(
    file: Seq<char>,
    a: Seq<CallSiteView>,
    b: Seq<CallSiteView>,
    changed: Seq<Seq<char>>,
    n: nat,
)
    requires
        n <= a.len(),
    ensures
        calls_in(file, a + b, changed, n) == calls_in(file, a, changed, n),
    decreases n,
{
    if n > 0 {
        lemma_calls_prefix(file, a, b, changed, (n - 1) as nat);
        assert((a + b)[n - 1] == a[n - 1]);
    }
}

proof fn lemma_calls_behind(
    file: Seq<char>,
    a: Seq<CallSiteView>,
    b: Seq<CallSiteView>,
    changed: Seq<Seq<char>>,
    n: nat,
)
    requires
        n <= b.len(),
    ensures
        calls_in(file, a + b, changed, a.len() + n) == calls_in(file, a, changed, a.len())
            + calls_in(file, b, changed, n),
    decreases n,
{
    let x = calls_in(file, a, changed, a.len());
    if n > 0 {
        lemma_calls_behind(file, a, b, changed, (n - 1) as nat);
        assert((a + b)[a.len() + n - 1] == b[n - 1]);
        assert(calls_in(file, a + b, changed, a.len() + n) =~= x + calls_in(file, b, changed, n));
    } else {
        lemma_calls_prefix(file, a, b, changed, a.len());
        assert(x + calls_in(file, b, changed, 0) =~= x);
    }
}

proof fn lemma_commands_join(
    file: Seq<char>,
    v: Seq<(Seq<char>, ItemView)>,
    w: Seq<(Seq<char>, ItemView)>,
    changed: Seq<Seq<char>>,
)
    ensures
        commands_in(file, v + w, changed) == commands_in(file, v, changed) + commands_in(
            file,
            w,
            changed,
        ),
    decreases w.len(),
{
    let x = commands_in(file, v, changed);
    if w.len() > 0 {
        assert((v + w).drop_last() =~= v + w.drop_last());
        lemma_commands_join(file, v, w.drop_last(), changed);
        assert(commands_in(file, v + w, changed) =~= x + commands_in(file, w, changed));
    } else {
        assert(v + w =~= v);
        assert(x + commands_in(file, w, changed) =~= x);
    }
}

} // verus!
