//! Derives of changed traits.
//!
//! `#[derive(Trait)]` is matched on the last path segment, at every depth of
//! modules, on structs, enums and unions. A derive inside `cfg_attr` counts
//! when its predicate holds under the active features, and always under the
//! permissive set.
use crate::cfg::{condition_met, meets_condition, parse_and_filter, visible_source, FeatureSet, FeaturesView};
use crate::finding::{
    finding_views, new_finding, opt_text, Finding, FindingKind, FindingView, KindView, Location,
    LocationView, Tier,
};
use crate::names::NameSet;
use crate::order::lemma_filter_member;
use crate::scan::{every_file_is_scanned, lemma_contains_add, lemma_scanned_step, scanned};
use crate::symbols::{file_views, walk, walk_views, walked, FileView, SourceFile};
use crate::syntax::{
    attr_nodes, item_node, lemma_meta_nodes, meta_node, meta_nodes, opt_texts, AttrNode, AttrView,
    ItemKind, ItemView, MetaKind, MetaNode, MetaView, SourceItem, SourceTree, TreeView,
};
use crate::text::{same, texts};
use vstd::prelude::*;
use vstd::string::*;

verus! {

/// The changed traits among derived paths.
pub open spec fn derived_in(paths: Seq<Option<Seq<char>>>, changed: Seq<Seq<char>>) -> Seq<Seq<char>> {
    paths.filter(|o: Option<Seq<char>>| o is Some && changed.contains(o->0)).map_values(
        |o: Option<Seq<char>>| o->0,
    )
}

fn changed_paths(paths: &Vec<Option<String>>, changed: &NameSet) -> (r: Vec<String>)
    ensures
        texts(r@) == derived_in(opt_texts(paths@), changed@),
{
    let ghost all = opt_texts(paths@);
    let ghost p = |o: Option<Seq<char>>| o is Some && changed@.contains(o->0);
    let ghost g = |o: Option<Seq<char>>| o->0;
    let mut out: Vec<String> = Vec::new();
    let mut i: usize = 0;
    proof {
        assert(all.take(0).filter(p) =~= Seq::empty()) by {
            reveal(Seq::filter);
        }
        assert(texts(out@) =~= all.take(0).filter(p).map_values(g));
    }
    while i < paths.len()
        invariant
            i <= paths@.len(),
            all == opt_texts(paths@),
            p == (|o: Option<Seq<char>>| o is Some && changed@.contains(o->0)),
            g == (|o: Option<Seq<char>>| o->0),
            texts(out@) == all.take(i as int).filter(p).map_values(g),
        decreases paths@.len() - i,
    {
        proof {
            crate::text::lemma_filter_step(all, p, i as int);
            assert(all[i as int] == opt_text(paths@[i as int]));
        }
        match &paths[i] {
            Some(s) => {
                if changed.contains(s.as_str()) {
                    proof {
                        let before = all.take(i as int).filter(p);
                        assert(texts(out@.push(*s)) =~= texts(out@).push(s@));
                        assert(before.push(all[i as int]).map_values(g) =~= before.map_values(
                            g,
                        ).push(s@));
                    }
                    out.push(s.clone());
                }
            },
            None => {},
        }
        i = i + 1;
    }
    proof {
        assert(all.take(paths@.len() as int) =~= all);
    }
    out
}

/// The changed traits that an attribute argument derives.
pub open spec fn meta_derives(m: MetaView, changed: Seq<Seq<char>>) -> Seq<Seq<char>> {
    if m.kind == MetaKind::List && m.ident == Some("derive"@) {
        match m.paths {
            Some(p) => derived_in(p, changed),
            None => Seq::empty(),
        }
    } else {
        Seq::empty()
    }
}

/// The changed traits that the arguments `from..n` derive.
pub open spec fn metas_derive(s: Seq<MetaView>, changed: Seq<Seq<char>>, n: nat) -> Seq<Seq<char>>
    decreases n,
{
    if n <= 1 {
        Seq::empty()
    } else {
        metas_derive(s, changed, (n - 1) as nat) + meta_derives(s[n - 1], changed)
    }
}

/// The changed traits that an attribute derives: by `derive`, or by `cfg_attr`
/// where its condition, the first argument, is met.
pub open spec fn attr_derives(a: AttrView, changed: Seq<Seq<char>>, f: FeaturesView) -> Seq<Seq<char>> {
    if a.ident == Some("derive"@) {
        match a.paths {
            Some(p) => derived_in(p, changed),
            None => Seq::empty(),
        }
    } else if a.ident == Some("cfg_attr"@) {
        match a.many {
            Some(s) => if s.len() > 0 && condition_met(s[0], f) {
                metas_derive(s, changed, s.len())
            } else {
                Seq::empty()
            },
            None => Seq::empty(),
        }
    } else {
        Seq::empty()
    }
}

/// The changed traits that the first `n` attributes derive.
pub open spec fn attrs_derive(
    attrs: Seq<AttrView>,
    changed: Seq<Seq<char>>,
    f: FeaturesView,
    n: nat,
) -> Seq<Seq<char>>
    decreases n,
{
    if n == 0 {
        Seq::empty()
    } else {
        attrs_derive(attrs, changed, f, (n - 1) as nat) + attr_derives(attrs[n - 1], changed, f)
    }
}

fn word_is(o: &Option<String>, word: &str) -> (r: bool)
    ensures
        r == (opt_text(*o) == Some(word@)),
{
    match o {
        Some(s) => same(s.as_str(), word),
        None => false,
    }
}

fn no_names() -> (r: Vec<String>)
    ensures
        texts(r@) == Seq::<Seq<char>>::empty(),
{
    let v: Vec<String> = Vec::new();
    proof {
        assert(texts(v@) =~= Seq::empty());
    }
    v
}

fn collect_from_meta(m: &MetaNode, changed: &NameSet) -> (r: Vec<String>)
    ensures
        texts(r@) == meta_derives(m@, changed@),
{
    if m.kind == MetaKind::List && word_is(&m.ident, "derive") {
        match &m.paths {
            Some(p) => changed_paths(p, changed),
            None => no_names(),
        }
    } else {
        no_names()
    }
}

fn collect_from_cfg_attr(metas: &Vec<MetaNode>, changed: &NameSet, features: &FeatureSet) -> (r: Vec<
    String,
>)
    ensures
        texts(r@) == (if metas@.len() > 0 && condition_met(meta_nodes(metas@)[0], features@) {
            metas_derive(meta_nodes(metas@), changed@, metas@.len())
        } else {
            Seq::empty()
        }),
{
    let mut out = no_names();
    proof {
        lemma_meta_nodes(metas@);
    }
    if metas.len() == 0 || !meets_condition(&metas[0], features) {
        return out;
    }
    let ghost s = meta_nodes(metas@);
    let mut i: usize = 1;
    while i < metas.len()
        invariant
            1 <= i <= metas@.len(),
            s == meta_nodes(metas@),
            forall|j: int| 0 <= j < metas@.len() ==> #[trigger] s[j] == meta_node(metas@[j]),
            texts(out@) == metas_derive(s, changed@, i as nat),
        decreases metas@.len() - i,
    {
        let ghost before = out@;
        let mut more = collect_from_meta(&metas[i], changed);
        let ghost added = more@;
        out.append(&mut more);
        proof {
            assert(s[i as int] == meta_node(metas@[i as int]));
            assert(texts(out@) =~= texts(before) + texts(added));
        }
        i = i + 1;
    }
    out
}

pub fn collect_from_attr(a: &AttrNode, changed: &NameSet, features: &FeatureSet) -> (r: Vec<String>)
    ensures
        texts(r@) == attr_derives(a@, changed@, features@),
{
    proof {
        reveal_strlit("derive");
        reveal_strlit("cfg_attr");
        assert("derive"@.len() == 6);
        assert("cfg_attr"@.len() == 8);
    }
    if word_is(&a.ident, "derive") {
        match &a.paths {
            Some(p) => changed_paths(p, changed),
            None => no_names(),
        }
    } else if word_is(&a.ident, "cfg_attr") {
        match &a.many {
            Some(v) => {
                proof {
                    lemma_meta_nodes(v@);
                }
                collect_from_cfg_attr(v, changed, features)
            },
            None => no_names(),
        }
    } else {
        no_names()
    }
}

/// The changed traits that attributes derive, in order.
pub fn collect_derives(attrs: &Vec<AttrNode>, changed: &NameSet, features: &FeatureSet) -> (r: Vec<
    String,
>)
    ensures
        texts(r@) == attrs_derive(
            attr_nodes(attrs@),
            changed@,
            features@,
            attrs@.len(),
        ),
{
    let ghost s = attr_nodes(attrs@);
    let mut out = no_names();
    let mut i: usize = 0;
    while i < attrs.len()
        invariant
            i <= attrs@.len(),
            s == attr_nodes(attrs@),
            texts(out@) == attrs_derive(s, changed@, features@, i as nat),
        decreases attrs@.len() - i,
    {
        let ghost before = out@;
        let mut more = collect_from_attr(&attrs[i], changed, features);
        let ghost added = more@;
        out.append(&mut more);
        proof {
            assert(s[i as int] == attrs@[i as int]@);
            assert(texts(out@) =~= texts(before) + texts(added));
        }
        i = i + 1;
    }
    out
}

/// The finding for a derive.
pub open spec fn derive_finding(file: Seq<char>, trait_name: Seq<char>, impl_for: Seq<char>) -> FindingView {
    new_finding(
        ""@,
        Tier::Likely,
        80,
        KindView::DerivedTraitImpl {
            trait_name,
            impl_for,
            derive_site: LocationView {
                file,
                symbol: "#[derive("@ + trait_name + ")] on "@ + impl_for,
            },
        },
        "`#[derive("@ + trait_name + ")]` on `"@ + impl_for + "` in "@ + file
            + " — derive expands to `impl "@ + trait_name + " for "@ + impl_for
            + "` at compile time (heuristic match on last path segment; we cannot see the generated method bodies without macro expansion)"@,
    )
}

fn make_derive_finding(file: &str, trait_name: &str, impl_for: &str) -> (r: Finding)
    ensures
        r@ == derive_finding(file@, trait_name@, impl_for@),
{
    let mut symbol = "#[derive(".to_owned();
    symbol.append(trait_name);
    symbol.append(")] on ");
    symbol.append(impl_for);
    let mut evidence = "`#[derive(".to_owned();
    evidence.append(trait_name);
    evidence.append(")]` on `");
    evidence.append(impl_for);
    evidence.append("` in ");
    evidence.append(file);
    evidence.append(" — derive expands to `impl ");
    evidence.append(trait_name);
    evidence.append(" for ");
    evidence.append(impl_for);
    evidence.append(
        "` at compile time (heuristic match on last path segment; we cannot see the generated method bodies without macro expansion)",
    );
    let kind = FindingKind::DerivedTraitImpl {
        trait_name: trait_name.to_owned(),
        impl_for: impl_for.to_owned(),
        derive_site: Location { file: file.to_owned(), symbol },
    };
    Finding::new("", Tier::Likely, 80, kind, evidence.as_str())
}

/// An item that can carry a derive.
pub open spec fn derivable(k: ItemKind) -> bool {
    k == ItemKind::Struct || k == ItemKind::Enum || k == ItemKind::Union
}

/// The findings for one item.
pub open spec fn item_derives(
    file: Seq<char>,
    item: ItemView,
    changed: Seq<Seq<char>>,
    f: FeaturesView,
) -> Seq<FindingView> {
    match item.name {
        Some(n) => if derivable(item.kind) {
            attrs_derive(item.attrs, changed, f, item.attrs.len()).map_values(
                |t: Seq<char>| derive_finding(file, t, n),
            )
        } else {
            Seq::empty()
        },
        None => Seq::empty(),
    }
}

/// The findings for walked items.
pub open spec fn derives_in(
    file: Seq<char>,
    w: Seq<(Seq<char>, ItemView)>,
    changed: Seq<Seq<char>>,
    f: FeaturesView,
) -> Seq<FindingView>
    decreases w.len(),
{
    if w.len() == 0 {
        Seq::empty()
    } else {
        derives_in(file, w.drop_last(), changed, f) + item_derives(file, w.last().1, changed, f)
    }
}

/// The findings for the derives of a file.
pub open spec fn file_derives(changed: Seq<Seq<char>>, f: FeaturesView) -> spec_fn(
    Seq<char>,
    TreeView,
) -> Seq<FindingView> {
    |file: Seq<char>, tree: TreeView| derives_in(file, walked(tree.items, ""@), changed, f)
}

/// The findings for the derives of the workspace.
pub open spec fn derive_impls(
    files: Seq<FileView>,
    changed: Seq<Seq<char>>,
    f: FeaturesView,
) -> Seq<FindingView> {
    if changed.len() == 0 {
        Seq::empty()
    } else {
        scanned(files, f, file_derives(changed, f))
    }
}

pub fn scan_item(file: &str, item: &SourceItem, changed: &NameSet, features: &FeatureSet) -> (r: Vec<
    Finding,
>)
    ensures
        finding_views(r@) == item_derives(file@, item@, changed@, features@),
{
    let mut out: Vec<Finding> = Vec::new();
    proof {
        assert(finding_views(out@) =~= Seq::empty());
    }
    match &item.name {
        Some(n) => {
            if item.kind == ItemKind::Struct || item.kind == ItemKind::Enum || item.kind
                == ItemKind::Union {
                let hits = collect_derives(&item.attrs, changed, features);
                let ghost h = texts(hits@);
                let mut i: usize = 0;
                proof {
                    assert(h.len() == hits@.len());
                }
                while i < hits.len()
                    invariant
                        i <= hits@.len(),
                        h == texts(hits@),
                        out@.len() == i,
                        forall|j: int|
                            0 <= j < i ==> (#[trigger] out@[j])@ == derive_finding(
                                file@,
                                h[j],
                                n@,
                            ),
                    decreases hits@.len() - i,
                {
                    proof {
                        assert(h[i as int] == hits@[i as int]@);
                    }
                    out.push(make_derive_finding(file, hits[i].as_str(), n.as_str()));
                    i = i + 1;
                }
                proof {
                    assert(finding_views(out@) =~= item_derives(
                        file@,
                        item@,
                        changed@,
                        features@,
                    ));
                }
            }
        },
        None => {},
    }
    out
}

pub fn scan_derives(file: &str, tree: &SourceTree, changed: &NameSet, features: &FeatureSet) -> (r:
    Vec<Finding>)
    ensures
        finding_views(r@) == file_derives(changed@, features@)(file@, tree@),
{
    let all = walk(&tree.items, "");
    let ghost w = walk_views(all@);
    let mut out: Vec<Finding> = Vec::new();
    let mut i: usize = 0;
    proof {
        assert(finding_views(out@) =~= Seq::empty());
    }
    while i < all.len()
        invariant
            i <= all@.len(),
            w == walk_views(all@),
            finding_views(out@) == derives_in(file@, w.take(i as int), changed@, features@),
        decreases all@.len() - i,
    {
        let ghost before = out@;
        proof {
            assert(w.take(i + 1).drop_last() =~= w.take(i as int));
            assert(w.take(i + 1).last() == w[i as int]);
            assert(w[i as int].1 == item_node(*all@[i as int].1));
        }
        let mut more = scan_item(file, all[i].1, changed, features);
        let ghost added = more@;
        out.append(&mut more);
        proof {
            assert(finding_views(out@) =~= finding_views(before) + finding_views(added));
        }
        i = i + 1;
    }
    proof {
        assert(w.take(all@.len() as int) =~= w);
    }
    out
}

/// The derives of changed traits in the workspace.
pub fn find_derive_impls(files: &Vec<SourceFile>, changed: &NameSet, features: &FeatureSet) -> (r:
    Vec<Finding>)
    ensures
        finding_views(r@) == derive_impls(file_views(files@), changed@, features@),
{
    let mut out: Vec<Finding> = Vec::new();
    let ghost fs = file_views(files@);
    let ghost per = file_derives(changed@, features@);
    proof {
        assert(finding_views(out@) =~= Seq::empty());
    }
    if changed.is_empty() {
        return out;
    }
    let mut i: usize = 0;
    while i < files.len()
        invariant
            i <= files@.len(),
            fs == file_views(files@),
            per == file_derives(changed@, features@),
            finding_views(out@) == scanned(fs.take(i as int), features@, per),
        decreases files@.len() - i,
    {
        proof {
            lemma_scanned_step(fs, features@, per, i as int);
            assert(fs[i as int] == files@[i as int]@);
        }
        let ghost before = out@;
        match parse_and_filter(files[i].text.as_str(), features) {
            Some(tree) => {
                let mut more = scan_derives(files[i].path.as_str(), &tree, changed, features);
                let ghost added = more@;
                out.append(&mut more);
                proof {
                    assert(finding_views(out@) =~= finding_views(before) + finding_views(added));
                }
            },
            None => {
                proof {
                    assert(finding_views(out@) =~= finding_views(before) + Seq::empty());
                }
            },
        }
        i = i + 1;
    }
    proof {
        assert(fs.take(files@.len() as int) =~= fs);
    }
    out
}

// ---------------------------------------------------------------------------
// Laws
// ---------------------------------------------------------------------------

proof fn lemma_derived_in(paths: Seq<Option<Seq<char>>>, changed: Seq<Seq<char>>, t: Seq<char>)
    ensures
        derived_in(paths, changed).contains(t) <==> changed.contains(t) && paths.contains(Some(t)),
{
    let p = |o: Option<Seq<char>>| o is Some && changed.contains(o->0);
    let g = |o: Option<Seq<char>>| o->0;
    let kept = paths.filter(p);
    lemma_filter_member(paths, p, Some(t));
    if derived_in(paths, changed).contains(t) {
        let k = kept.map_values(g).index_of(t);
        lemma_filter_member(paths, p, kept[k]);
        assert(kept.contains(kept[k]));
        assert(kept[k] == Some(t));
    }
    if changed.contains(t) && paths.contains(Some(t)) {
        let k = kept.index_of(Some(t));
        assert(kept.map_values(g)[k] == t);
    }
}

/// Whether an attribute argument is `derive(..)` with a path that ends in `t`.
pub open spec fn argument_derives(m: MetaView, t: Seq<char>) -> bool {
    m.kind == MetaKind::List && m.ident == Some("derive"@) && m.paths is Some
        && m.paths->0.contains(Some(t))
}

proof fn lemma_metas_derive(s: Seq<MetaView>, changed: Seq<Seq<char>>, n: nat, t: Seq<char>)
    requires
        n <= s.len(),
    ensures
        metas_derive(s, changed, n).contains(t) <==> changed.contains(t) && exists|j: int|
            1 <= j < n && #[trigger] argument_derives(s[j], t),
    decreases n,
{
    if n > 1 {
        let m = (n - 1) as nat;
        lemma_metas_derive(s, changed, m, t);
        lemma_contains_add(metas_derive(s, changed, m), meta_derives(s[n - 1], changed), t);
        if s[n - 1].paths is Some {
            lemma_derived_in(s[n - 1].paths->0, changed, t);
        }
        assert(meta_derives(s[n - 1], changed).contains(t) <==> changed.contains(t)
            && argument_derives(s[n - 1], t));
    }
}

/// Whether an attribute derives `t` under a feature set: it is `derive(..)` with
/// a path that ends in `t`, or `cfg_attr(..)` whose first argument, the
/// condition, is met and of whose other arguments one is such a `derive(..)`.
pub open spec fn attribute_derives(a: AttrView, t: Seq<char>, f: FeaturesView) -> bool {
    ||| a.ident == Some("derive"@) && a.paths is Some && a.paths->0.contains(Some(t))
    ||| a.ident == Some("cfg_attr"@) && a.many is Some && a.many->0.len() > 0 && (f is Permissive
        || crate::cfg::predicate_holds(a.many->0[0], f)) && exists|j: int|
        1 <= j < a.many->0.len() && #[trigger] argument_derives(a.many->0[j], t)
}

proof fn lemma_attr_derives(
    a: AttrView,
    changed: Seq<Seq<char>>,
    f: FeaturesView,
    t: Seq<char>,
)
    ensures
        attr_derives(a, changed, f).contains(t) <==> changed.contains(t) && attribute_derives(
            a,
            t,
            f,
        ),
{
    reveal_strlit("derive");
    reveal_strlit("cfg_attr");
    assert("derive"@.len() == 6);
    assert("cfg_attr"@.len() == 8);
    if a.paths is Some {
        lemma_derived_in(a.paths->0, changed, t);
    }
    if a.many is Some {
        lemma_metas_derive(a.many->0, changed, a.many->0.len(), t);
    }
}

proof fn lemma_attrs_derive(
    attrs: Seq<AttrView>,
    changed: Seq<Seq<char>>,
    f: FeaturesView,
    n: nat,
    t: Seq<char>,
)
    requires
        n <= attrs.len(),
    ensures
        attrs_derive(attrs, changed, f, n).contains(t) <==> changed.contains(t) && exists|k: int|
            0 <= k < n && #[trigger] attribute_derives(attrs[k], t, f),
    decreases n,
{
    if n > 0 {
        let m = (n - 1) as nat;
        lemma_attrs_derive(attrs, changed, f, m, t);
        lemma_attr_derives(attrs[n - 1], changed, f, t);
        lemma_contains_add(
            attrs_derive(attrs, changed, f, m),
            attr_derives(attrs[n - 1], changed, f),
            t,
        );
    }
}

/// Whether a type derives `t`: it is a struct, an enum or a union with a name,
/// and one of its attributes does.
pub open spec fn type_derives(item: ItemView, t: Seq<char>, f: FeaturesView) -> bool {
    &&& item.kind == ItemKind::Struct || item.kind == ItemKind::Enum || item.kind == ItemKind::Union
    &&& item.name is Some
    &&& exists|k: int| 0 <= k < item.attrs.len() && #[trigger] attribute_derives(item.attrs[k], t, f)
}

proof fn lemma_item_derives(
    file: Seq<char>,
    item: ItemView,
    changed: Seq<Seq<char>>,
    f: FeaturesView,
    x: FindingView,
)
    ensures
        item_derives(file, item, changed, f).contains(x) <==> exists|t: Seq<char>|
            changed.contains(t) && type_derives(item, t, f) && x == #[trigger] derive_finding(
                file,
                t,
                item.name->0,
            ),
{
    let r = item_derives(file, item, changed, f);
    if item.name is Some && derivable(item.kind) {
        let n = item.name->0;
        let all = attrs_derive(item.attrs, changed, f, item.attrs.len());
        let g = |t: Seq<char>| derive_finding(file, t, n);
        if r.contains(x) {
            let k = r.index_of(x);
            let t = all[k];
            assert(all.contains(t));
            lemma_attrs_derive(item.attrs, changed, f, item.attrs.len(), t);
            assert(x == derive_finding(file, t, item.name->0));
        }
        if exists|t: Seq<char>|
            changed.contains(t) && type_derives(item, t, f) && x == #[trigger] derive_finding(
                file,
                t,
                item.name->0,
            ) {
            let t = choose|t: Seq<char>|
                changed.contains(t) && type_derives(item, t, f) && x == #[trigger] derive_finding(
                    file,
                    t,
                    item.name->0,
                );
            lemma_attrs_derive(item.attrs, changed, f, item.attrs.len(), t);
            let k = all.index_of(t);
            assert(all.map_values(g)[k] == x);
        }
    }
}

proof fn lemma_derives_in(
    file: Seq<char>,
    w: Seq<(Seq<char>, ItemView)>,
    changed: Seq<Seq<char>>,
    f: FeaturesView,
    x: FindingView,
)
    ensures
        derives_in(file, w, changed, f).contains(x) <==> exists|k: int|
            0 <= k < w.len() && item_derives(file, (#[trigger] w[k]).1, changed, f).contains(x),
    decreases w.len(),
{
    if w.len() > 0 {
        let d = w.drop_last();
        lemma_derives_in(file, d, changed, f, x);
        lemma_contains_add(
            derives_in(file, d, changed, f),
            item_derives(file, w.last().1, changed, f),
            x,
        );
        assert(w[w.len() - 1] == w.last());
        if derives_in(file, d, changed, f).contains(x) {
            let k = choose|k: int|
                0 <= k < d.len() && item_derives(file, (#[trigger] d[k]).1, changed, f).contains(x);
            assert(w[k] == d[k]);
        }
        if exists|k: int|
            0 <= k < w.len() && item_derives(file, (#[trigger] w[k]).1, changed, f).contains(x) {
            let k = choose|k: int|
                0 <= k < w.len() && item_derives(file, (#[trigger] w[k]).1, changed, f).contains(x);
            if k < d.len() {
                assert(d[k] == w[k]);
            }
        }
    }
}

/// A type of a file that parses is reported for a changed trait exactly where
/// one of its attributes derives the trait under the features, at any depth of
/// modules.
pub proof fn derives_of_changed_traits_are_reported(
    files: Seq<FileView>,
    changed: Seq<Seq<char>>,
    f: FeaturesView,
    x: FindingView,
)
    ensures
        derive_impls(files, changed, f).contains(x) <==> exists|i: int, k: int, t: Seq<char>|
            #![trigger files[i], walked(visible_source(files[i].text, f)->0.items, ""@)[k], changed.contains(t)]
            0 <= i < files.len() && visible_source(files[i].text, f) is Some && 0 <= k < walked(
                visible_source(files[i].text, f)->0.items,
                ""@,
            ).len() && changed.contains(t) && type_derives(
                walked(visible_source(files[i].text, f)->0.items, ""@)[k].1,
                t,
                f,
            ) && x == derive_finding(
                files[i].path,
                t,
                walked(visible_source(files[i].text, f)->0.items, ""@)[k].1.name->0,
            ),
{
    let per = file_derives(changed, f);
    every_file_is_scanned(files, f, per, x);
    if derive_impls(files, changed, f).contains(x) {
        let i = choose|i: int|
            0 <= i < files.len() && visible_source((#[trigger] files[i]).text, f) is Some && per(
                files[i].path,
                visible_source(files[i].text, f)->0,
            ).contains(x);
        let w = walked(visible_source(files[i].text, f)->0.items, ""@);
        lemma_derives_in(files[i].path, w, changed, f, x);
        let k = choose|k: int|
            0 <= k < w.len() && item_derives(
                files[i].path,
                (#[trigger] w[k]).1,
                changed,
                f,
            ).contains(x);
        lemma_item_derives(files[i].path, w[k].1, changed, f, x);
        let t = choose|t: Seq<char>|
            changed.contains(t) && type_derives(w[k].1, t, f) && x == #[trigger] derive_finding(
                files[i].path,
                t,
                w[k].1.name->0,
            );
        assert(changed.contains(t));
    }
    if exists|i: int, k: int, t: Seq<char>|
        #![trigger files[i], walked(visible_source(files[i].text, f)->0.items, ""@)[k], changed.contains(t)]
        0 <= i < files.len() && visible_source(files[i].text, f) is Some && 0 <= k < walked(
            visible_source(files[i].text, f)->0.items,
            ""@,
        ).len() && changed.contains(t) && type_derives(
            walked(visible_source(files[i].text, f)->0.items, ""@)[k].1,
            t,
            f,
        ) && x == derive_finding(
            files[i].path,
            t,
            walked(visible_source(files[i].text, f)->0.items, ""@)[k].1.name->0,
        ) {
        let (i, k, t) = choose|i: int, k: int, t: Seq<char>|
            #![trigger files[i], walked(visible_source(files[i].text, f)->0.items, ""@)[k], changed.contains(t)]
            0 <= i < files.len() && visible_source(files[i].text, f) is Some && 0 <= k < walked(
                visible_source(files[i].text, f)->0.items,
                ""@,
            ).len() && changed.contains(t) && type_derives(
                walked(visible_source(files[i].text, f)->0.items, ""@)[k].1,
                t,
                f,
            ) && x == derive_finding(
                files[i].path,
                t,
                walked(visible_source(files[i].text, f)->0.items, ""@)[k].1.name->0,
            );
        let w = walked(visible_source(files[i].text, f)->0.items, ""@);
        lemma_item_derives(files[i].path, w[k].1, changed, f, x);
        assert(x == derive_finding(files[i].path, t, w[k].1.name->0));
        lemma_derives_in(files[i].path, w, changed, f, x);
        assert(item_derives(files[i].path, w[k].1, changed, f).contains(x));
        assert(per(files[i].path, visible_source(files[i].text, f)->0).contains(x));
        assert(changed.len() > 0);
    }
}

/// The finding tells of the trait, of the type and of the file, and is a likely
/// one.
pub proof fn derive_findings_tell_of_trait_and_type(file: Seq<char>, t: Seq<char>, n: Seq<char>)
    ensures
        derive_finding(file, t, n).kind == (KindView::DerivedTraitImpl {
            trait_name: t,
            impl_for: n,
            derive_site: LocationView { file, symbol: "#[derive("@ + t + ")] on "@ + n },
        }),
        derive_finding(file, t, n).tier == Tier::Likely,
        derive_finding(file, t, n).confidence == 80,
{
}

/// The findings for derives stand in the order of the types, and those of a type
/// in the order of its attributes and of their paths.
pub proof fn derives_are_reported_in_order(
    file: Seq<char>,
    a: Seq<(Seq<char>, ItemView)>,
    b: Seq<(Seq<char>, ItemView)>,
    p: Seq<Option<Seq<char>>>,
    q: Seq<Option<Seq<char>>>,
    changed: Seq<Seq<char>>,
    f: FeaturesView,
)
    ensures
        derives_in(file, a + b, changed, f) == derives_in(file, a, changed, f) + derives_in(
            file,
            b,
            changed,
            f,
        ),
        derived_in(p + q, changed) == derived_in(p, changed) + derived_in(q, changed),
    decreases b.len(),
{
    let k = |o: Option<Seq<char>>| o is Some && changed.contains(o->0);
    let g = |o: Option<Seq<char>>| o->0;
    Seq::filter_distributes_over_add(p, q, k);
    assert((p.filter(k) + q.filter(k)).map_values(g) =~= p.filter(k).map_values(g) + q.filter(
        k,
    ).map_values(g));
    if b.len() == 0 {
        assert(a + b =~= a);
        assert(derives_in(file, a, changed, f) + derives_in(file, b, changed, f) =~= derives_in(
            file,
            a,
            changed,
            f,
        ));
    } else {
        let d = b.drop_last();
        derives_are_reported_in_order(file, a, d, p, q, changed, f);
        assert((a + b).drop_last() =~= a + d);
        assert((a + b).last() == b.last());
        let o = item_derives(file, b.last().1, changed, f);
        assert(derives_in(file, a, changed, f) + derives_in(file, d, changed, f) + o
            =~= derives_in(file, a, changed, f) + (derives_in(file, d, changed, f) + o));
    }
}

/// A finding for a derive is of high severity, and its evidence names the trait,
/// the type and the file.
pub proof fn derive_evidence_names_trait_type_and_file(file: Seq<char>, t: Seq<char>, n: Seq<char>)
    ensures
        derive_finding(file, t, n).severity is High,
        derive_finding(file, t, n).suggested_action is None,
        crate::text::holds(derive_finding(file, t, n).evidence, t),
        crate::text::holds(derive_finding(file, t, n).evidence, n),
        crate::text::holds(derive_finding(file, t, n).evidence, file),
{
    broadcast use crate::text::group_holds;

}

} // verus!
