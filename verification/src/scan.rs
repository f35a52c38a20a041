//! What the workspace scanners share: mentions of names in text, and the sites
//! of a file in the order of a walk.
use crate::cfg::{visible_source, FeaturesView};
use crate::finding::FindingView;
use crate::names::NameSet;
use crate::symbols::FileView;
use crate::syntax::{
    attr_nodes, call_site_views, fn_site_views, impl_site_views, item_node, item_nodes,
    lemma_item_nodes, opt_texts, AttrNode, AttrView, BodyView, CallSite, CallSiteView, FnSite,
    FnSiteView, ImplSite, ImplSiteView, ItemBody, ItemView, Sites, SitesView, SourceItem,
    SourceTree, TreeView,
};
use crate::text::{
    is_one_of, is_run, letter_or_digit, pieces, pieces_are_the_runs_between_separators, same,
    split_words, texts, word_break,
};
use vstd::prelude::*;

verus! {

/// Whether `name` stands in `text` as a whole word.
pub open spec fn mentions(text: Seq<char>, name: Seq<char>) -> bool {
    pieces(text, word_break()).contains(name)
}

/// Whether `name` stands in `text` as a whole word, so that `user` does not
/// match `user_profile`.
pub fn tokens_contain_ident(text: &str, name: &str) -> (r: bool)
    ensures
        r == mentions(text@, name@),
{
    let words = split_words(text);
    is_one_of(&words, name)
}

/// The names that stand in `text` as whole words, in order.
pub open spec fn mentioned_names(names: Seq<Seq<char>>, text: Seq<char>) -> Seq<Seq<char>> {
    names.filter(|n: Seq<char>| mentions(text, n))
}

/// The names that stand in `text` as whole words, in order.
pub fn mentioned(names: &NameSet, text: &str) -> (r: Vec<String>)
    ensures
        texts(r@) == mentioned_names(names@, text@),
{
    let words = split_words(text);
    let list = names.list();
    let ghost all = names@;
    let ghost p = |n: Seq<char>| mentions(text@, n);
    let mut out: Vec<String> = Vec::new();
    let mut i: usize = 0;
    proof {
        assert(all.take(0).filter(p) =~= Seq::empty()) by {
            reveal(Seq::filter);
        }
        assert(texts(out@) =~= Seq::empty());
    }
    while i < list.len()
        invariant
            i <= list@.len(),
            all == texts(list@),
            texts(words@) == pieces(text@, word_break()),
            p == (|n: Seq<char>| mentions(text@, n)),
            texts(out@) == all.take(i as int).filter(p),
        decreases list@.len() - i,
    {
        proof {
            crate::text::lemma_filter_step(all, p, i as int);
            assert(all[i as int] == list@[i as int]@);
        }
        if is_one_of(&words, list[i].as_str()) {
            proof {
                assert(texts(out@.push(list@[i as int])) =~= texts(out@).push(list@[i as int]@));
            }
            out.push(list[i].clone());
        }
        i = i + 1;
    }
    proof {
        assert(all.take(list@.len() as int) =~= all);
    }
    out
}

/// Whether some name stands in `text` as a whole word.
pub open spec fn mentions_any(names: Seq<Seq<char>>, text: Seq<char>) -> bool {
    exists|i: int| 0 <= i < names.len() && mentions(text, #[trigger] names[i])
}

/// Whether some name stands in `text` as a whole word.
pub fn any_mentioned(names: &NameSet, text: &str) -> (r: bool)
    ensures
        r == mentions_any(names@, text@),
{
    let words = split_words(text);
    let list = names.list();
    let ghost all = names@;
    let mut i: usize = 0;
    while i < list.len()
        invariant
            i <= list@.len(),
            all == texts(list@),
            all == names@,
            texts(words@) == pieces(text@, word_break()),
            forall|j: int| 0 <= j < i ==> !mentions(text@, #[trigger] all[j]),
        decreases list@.len() - i,
    {
        proof {
            assert(all[i as int] == list@[i as int]@);
        }
        if is_one_of(&words, list[i].as_str()) {
            proof {
                assert(mentions(text@, all[i as int]));
            }
            return true;
        }
        i = i + 1;
    }
    false
}

/// Whether a last path segment is one of the given words.
pub open spec fn marked(markers: Seq<Option<Seq<char>>>, marks: Seq<Seq<char>>) -> bool {
    exists|i: int|
        0 <= i < markers.len() && (#[trigger] markers[i]) is Some && marks.contains(markers[i]->0)
}

/// Whether a last path segment is one of the given words.
pub fn is_marked(markers: &Vec<Option<String>>, marks: &Vec<&'static str>) -> (r: bool)
    ensures
        r == marked(opt_texts(markers@), marks@.map_values(|m: &'static str| m@)),
{
    let ghost ms = marks@.map_values(|m: &'static str| m@);
    let ghost views = opt_texts(markers@);
    let mut i: usize = 0;
    while i < markers.len()
        invariant
            i <= markers@.len(),
            views == opt_texts(markers@),
            ms == marks@.map_values(|m: &'static str| m@),
            forall|j: int|
                0 <= j < i ==> !((#[trigger] views[j]) is Some && ms.contains(views[j]->0)),
        decreases markers@.len() - i,
    {
        proof {
            assert(views[i as int] == crate::finding::opt_text(markers@[i as int]));
        }
        match &markers[i] {
            Some(s) => {
                let mut k: usize = 0;
                while k < marks.len()
                    invariant
                        k <= marks@.len(),
                        i < markers@.len(),
                        views == opt_texts(markers@),
                        views[i as int] == Some(s@),
                        ms == marks@.map_values(|m: &'static str| m@),
                        forall|j: int| 0 <= j < k ==> #[trigger] ms[j] != s@,
                    decreases marks@.len() - k,
                {
                    proof {
                        assert(ms[k as int] == marks@[k as int]@);
                    }
                    if same(s.as_str(), marks[k]) {
                        proof {
                            assert(ms.contains(s@));
                            assert(views[i as int] is Some);
                        }
                        return true;
                    }
                    k = k + 1;
                }
                proof {
                    assert(!ms.contains(s@));
                }
            },
            None => {},
        }
        i = i + 1;
    }
    false
}

/// The sites in attributes, attribute by attribute.
pub open spec fn attr_sites(attrs: Seq<AttrView>) -> Seq<SitesView> {
    attrs.map_values(|a: AttrView| a.sites)
}

/// The sites of items, in the order of a walk.
pub open spec fn item_sites(s: Seq<ItemView>) -> Seq<SitesView>
    decreases s,
{
    if s.len() == 0 {
        Seq::empty()
    } else {
        item_sites(s.drop_last()) + sites_inside(s.last())
    }
}

/// The sites of an item: of a module those in its attributes, then those of its
/// items.
pub open spec fn sites_inside(item: ItemView) -> Seq<SitesView>
    decreases item,
{
    match item.body {
        BodyView::Leaf(l) => seq![l.sites],
        BodyView::Module(Some(inner)) => attr_sites(item.attrs) + item_sites(inner),
        BodyView::Module(None) => attr_sites(item.attrs),
    }
}

/// The sites of a file: those in its own attributes, then those of its items.
pub open spec fn tree_sites(t: TreeView) -> Seq<SitesView> {
    attr_sites(t.attrs) + item_sites(t.items)
}

/// The functions among sites.
pub open spec fn fns_of(s: Seq<SitesView>) -> Seq<FnSiteView>
    decreases s.len(),
{
    if s.len() == 0 {
        Seq::empty()
    } else {
        fns_of(s.drop_last()) + s.last().fns
    }
}

/// The impl blocks among sites.
pub open spec fn impls_of(s: Seq<SitesView>) -> Seq<ImplSiteView>
    decreases s.len(),
{
    if s.len() == 0 {
        Seq::empty()
    } else {
        impls_of(s.drop_last()) + s.last().impls
    }
}

/// The traits that `dyn` types among sites name.
pub open spec fn dyn_traits_of(s: Seq<SitesView>) -> Seq<Option<Seq<char>>>
    decreases s.len(),
{
    if s.len() == 0 {
        Seq::empty()
    } else {
        dyn_traits_of(s.drop_last()) + s.last().dyn_traits
    }
}

/// The method calls among sites.
pub open spec fn calls_of(s: Seq<SitesView>) -> Seq<CallSiteView>
    decreases s.len(),
{
    if s.len() == 0 {
        Seq::empty()
    } else {
        calls_of(s.drop_last()) + s.last().calls
    }
}

/// The functions of a file, at any depth, in the order of a walk.
pub open spec fn tree_fns(t: TreeView) -> Seq<FnSiteView> {
    fns_of(tree_sites(t))
}

/// The impl blocks of a file, at any depth, in the order of a walk.
pub open spec fn tree_impls(t: TreeView) -> Seq<ImplSiteView> {
    impls_of(tree_sites(t))
}

/// The traits that `dyn` types of a file name, at any depth.
pub open spec fn tree_dyn_traits(t: TreeView) -> Seq<Option<Seq<char>>> {
    dyn_traits_of(tree_sites(t))
}

/// The method calls of a file, at any depth, in the order of a walk.
pub open spec fn tree_calls(t: TreeView) -> Seq<CallSiteView> {
    calls_of(tree_sites(t))
}

/// References to functions as plain data.
pub open spec fn fn_refs(s: Seq<&FnSite>) -> Seq<FnSiteView> {
    s.map_values(|f: &FnSite| f@)
}

/// References to impl blocks as plain data.
pub open spec fn impl_refs(s: Seq<&ImplSite>) -> Seq<ImplSiteView> {
    s.map_values(|f: &ImplSite| f@)
}

/// References to method calls as plain data.
pub open spec fn call_refs(s: Seq<&CallSite>) -> Seq<CallSiteView> {
    s.map_values(|f: &CallSite| f@)
}

/// References to optional texts as plain data.
pub open spec fn opt_refs(s: Seq<&Option<String>>) -> Seq<Option<Seq<char>>> {
    s.map_values(|f: &Option<String>| crate::finding::opt_text(*f))
}

/// References to sites as plain data.
pub open spec fn site_refs(s: Seq<&Sites>) -> Seq<SitesView> {
    s.map_values(|f: &Sites| f@)
}

/// Adds the sites in attributes.
fn add_attr_sites<'a>(attrs: &'a Vec<AttrNode>, out: &mut Vec<&'a Sites>)
    ensures
        site_refs(final(out)@) == site_refs(old(out)@) + attr_sites(attr_nodes(attrs@)),
{
    let ghost before = out@;
    let ghost v = attr_sites(attr_nodes(attrs@));
    let mut i: usize = 0;
    proof {
        assert(site_refs(before) + v.take(0) =~= site_refs(before));
    }
    while i < attrs.len()
        invariant
            i <= attrs@.len(),
            v == attr_sites(attr_nodes(attrs@)),
            site_refs(out@) == site_refs(before) + v.take(i as int),
        decreases attrs@.len() - i,
    {
        let sites: &'a Sites = &attrs[i].sites;
        proof {
            assert(v[i as int] == sites@);
            assert(site_refs(out@.push(sites)) =~= site_refs(out@).push(sites@));
            assert(site_refs(before) + v.take(i + 1) =~= (site_refs(before) + v.take(
                i as int,
            )).push(v[i as int]));
        }
        out.push(sites);
        i = i + 1;
    }
    proof {
        assert(v.take(attrs@.len() as int) =~= v);
    }
}

/// Adds the sites of items, in the order of a walk.
fn add_item_sites<'a>(items: &'a Vec<SourceItem>, out: &mut Vec<&'a Sites>)
    ensures
        site_refs(final(out)@) == site_refs(old(out)@) + item_sites(item_nodes(items@)),
    decreases items,
{
    let ghost before = out@;
    let ghost views = item_nodes(items@);
    let mut i: usize = 0;
    proof {
        lemma_item_nodes(items@);
        assert(site_refs(before) + item_sites(views.take(0)) =~= site_refs(before));
    }
    while i < items.len()
        invariant
            i <= items@.len(),
            views == item_nodes(items@),
            views.len() == items@.len(),
            forall|j: int| 0 <= j < items@.len() ==> #[trigger] views[j] == item_node(items@[j]),
            site_refs(out@) == site_refs(before) + item_sites(views.take(i as int)),
        decreases items@.len() - i,
    {
        let ghost half = out@;
        let ghost view = views[i as int];
        proof {
            assert(view == item_node(items@[i as int]));
            assert(views.take(i + 1).drop_last() =~= views.take(i as int));
            assert(views.take(i + 1).last() == view);
        }
        match &items[i].body {
            ItemBody::Leaf(l) => {
                proof {
                    assert(site_refs(out@.push(&l.sites)) =~= site_refs(half) + seq![l.sites@]);
                }
                out.push(&l.sites);
            },
            ItemBody::Module(content) => {
                add_attr_sites(&items[i].attrs, out);
                match content {
                    Some(inner) => {
                        proof {
                            assert(decreases_to!(*items => items@));
                            assert(decreases_to!(items@ => items@[i as int]));
                            assert(decreases_to!(items@[i as int] => items@[i as int].body));
                            let b = items@[i as int].body;
                            assert(decreases_to!(b => b->Module_0));
                            assert(decreases_to!(b->Module_0 => b->Module_0->0));
                        }
                        add_item_sites(inner, out);
                        proof {
                            let a = attr_sites(view.attrs);
                            let n = item_sites(item_nodes(inner@));
                            assert(site_refs(half) + a + n =~= site_refs(half) + (a + n));
                        }
                    },
                    None => {},
                }
            },
        }
        proof {
            assert(site_refs(out@) == site_refs(half) + sites_inside(view));
            let first = item_sites(views.take(i as int));
            assert(site_refs(before) + first + sites_inside(view) =~= site_refs(before) + (first
                + sites_inside(view)));
        }
        i = i + 1;
    }
    proof {
        assert(views.take(items@.len() as int) =~= views);
    }
}

/// The sites of a file, in the order of a walk.
fn all_sites<'a>(tree: &'a SourceTree) -> (r: Vec<&'a Sites>)
    ensures
        site_refs(r@) == tree_sites(tree@),
{
    let mut out: Vec<&'a Sites> = Vec::new();
    proof {
        assert(site_refs(out@) + attr_sites(tree@.attrs) =~= attr_sites(tree@.attrs));
    }
    add_attr_sites(&tree.attrs, &mut out);
    add_item_sites(&tree.items, &mut out);
    out
}

/// The functions of a file, at any depth, in the order of a walk.
pub fn all_fns<'a>(tree: &'a SourceTree) -> (r: Vec<&'a FnSite>)
    ensures
        fn_refs(r@) == tree_fns(tree@),
{
    let all = all_sites(tree);
    let ghost w = site_refs(all@);
    let mut out: Vec<&'a FnSite> = Vec::new();
    let mut i: usize = 0;
    proof {
        assert(fn_refs(out@) =~= fns_of(w.take(0)));
    }
    while i < all.len()
        invariant
            i <= all@.len(),
            w == site_refs(all@),
            fn_refs(out@) == fns_of(w.take(i as int)),
        decreases all@.len() - i,
    {
        let ghost before = out@;
        let s: &'a Sites = all[i];
        let ghost v = fn_site_views(s.fns@);
        proof {
            assert(w.take(i + 1).drop_last() =~= w.take(i as int));
            assert(w.take(i + 1).last() == w[i as int]);
            assert(w[i as int] == s@);
            assert(fn_refs(before) + v.take(0) =~= fn_refs(before));
        }
        let mut k: usize = 0;
        while k < s.fns.len()
            invariant
                k <= s.fns@.len(),
                v == fn_site_views(s.fns@),
                fn_refs(out@) == fn_refs(before) + v.take(k as int),
            decreases s.fns@.len() - k,
        {
            proof {
                assert(fn_refs(out@.push(&s.fns@[k as int])) =~= fn_refs(out@).push(v[k as int]));
                assert(fn_refs(before) + v.take(k + 1) =~= (fn_refs(before) + v.take(k as int)).push(
                    v[k as int],
                ));
            }
            out.push(&s.fns[k]);
            k = k + 1;
        }
        proof {
            assert(v.take(s.fns@.len() as int) =~= v);
        }
        i = i + 1;
    }
    proof {
        assert(w.take(all@.len() as int) =~= w);
    }
    out
}

/// The impl blocks of a file, at any depth, in the order of a walk.
pub fn all_impls<'a>(tree: &'a SourceTree) -> (r: Vec<&'a ImplSite>)
    ensures
        impl_refs(r@) == tree_impls(tree@),
{
    let all = all_sites(tree);
    let ghost w = site_refs(all@);
    let mut out: Vec<&'a ImplSite> = Vec::new();
    let mut i: usize = 0;
    proof {
        assert(impl_refs(out@) =~= impls_of(w.take(0)));
    }
    while i < all.len()
        invariant
            i <= all@.len(),
            w == site_refs(all@),
            impl_refs(out@) == impls_of(w.take(i as int)),
        decreases all@.len() - i,
    {
        let ghost before = out@;
        let s: &'a Sites = all[i];
        let ghost v = impl_site_views(s.impls@);
        proof {
            assert(w.take(i + 1).drop_last() =~= w.take(i as int));
            assert(w.take(i + 1).last() == w[i as int]);
            assert(w[i as int] == s@);
            assert(impl_refs(before) + v.take(0) =~= impl_refs(before));
        }
        let mut k: usize = 0;
        while k < s.impls.len()
            invariant
                k <= s.impls@.len(),
                v == impl_site_views(s.impls@),
                impl_refs(out@) == impl_refs(before) + v.take(k as int),
            decreases s.impls@.len() - k,
        {
            proof {
                assert(impl_refs(out@.push(&s.impls@[k as int])) =~= impl_refs(out@).push(v[k as int]));
                assert(impl_refs(before) + v.take(k + 1) =~= (impl_refs(before) + v.take(k as int)).push(
                    v[k as int],
                ));
            }
            out.push(&s.impls[k]);
            k = k + 1;
        }
        proof {
            assert(v.take(s.impls@.len() as int) =~= v);
        }
        i = i + 1;
    }
    proof {
        assert(w.take(all@.len() as int) =~= w);
    }
    out
}

/// The method calls of a file, at any depth, in the order of a walk.
pub fn all_calls<'a>(tree: &'a SourceTree) -> (r: Vec<&'a CallSite>)
    ensures
        call_refs(r@) == tree_calls(tree@),
{
    let all = all_sites(tree);
    let ghost w = site_refs(all@);
    let mut out: Vec<&'a CallSite> = Vec::new();
    let mut i: usize = 0;
    proof {
        assert(call_refs(out@) =~= calls_of(w.take(0)));
    }
    while i < all.len()
        invariant
            i <= all@.len(),
            w == site_refs(all@),
            call_refs(out@) == calls_of(w.take(i as int)),
        decreases all@.len() - i,
    {
        let ghost before = out@;
        let s: &'a Sites = all[i];
        let ghost v = call_site_views(s.calls@);
        proof {
            assert(w.take(i + 1).drop_last() =~= w.take(i as int));
            assert(w.take(i + 1).last() == w[i as int]);
            assert(w[i as int] == s@);
            assert(call_refs(before) + v.take(0) =~= call_refs(before));
        }
        let mut k: usize = 0;
        while k < s.calls.len()
            invariant
                k <= s.calls@.len(),
                v == call_site_views(s.calls@),
                call_refs(out@) == call_refs(before) + v.take(k as int),
            decreases s.calls@.len() - k,
        {
            proof {
                assert(call_refs(out@.push(&s.calls@[k as int])) =~= call_refs(out@).push(v[k as int]));
                assert(call_refs(before) + v.take(k + 1) =~= (call_refs(before) + v.take(k as int)).push(
                    v[k as int],
                ));
            }
            out.push(&s.calls[k]);
            k = k + 1;
        }
        proof {
            assert(v.take(s.calls@.len() as int) =~= v);
        }
        i = i + 1;
    }
    proof {
        assert(w.take(all@.len() as int) =~= w);
    }
    out
}

/// The traits that `dyn` types of a file name, at any depth.
pub fn all_dyn_traits<'a>(tree: &'a SourceTree) -> (r: Vec<&'a Option<String>>)
    ensures
        opt_refs(r@) == tree_dyn_traits(tree@),
{
    let all = all_sites(tree);
    let ghost w = site_refs(all@);
    let mut out: Vec<&'a Option<String>> = Vec::new();
    let mut i: usize = 0;
    proof {
        assert(opt_refs(out@) =~= dyn_traits_of(w.take(0)));
    }
    while i < all.len()
        invariant
            i <= all@.len(),
            w == site_refs(all@),
            opt_refs(out@) == dyn_traits_of(w.take(i as int)),
        decreases all@.len() - i,
    {
        let ghost before = out@;
        let s: &'a Sites = all[i];
        let ghost v = opt_texts(s.dyn_traits@);
        proof {
            assert(w.take(i + 1).drop_last() =~= w.take(i as int));
            assert(w.take(i + 1).last() == w[i as int]);
            assert(w[i as int] == s@);
            assert(opt_refs(before) + v.take(0) =~= opt_refs(before));
        }
        let mut k: usize = 0;
        while k < s.dyn_traits.len()
            invariant
                k <= s.dyn_traits@.len(),
                v == opt_texts(s.dyn_traits@),
                opt_refs(out@) == opt_refs(before) + v.take(k as int),
            decreases s.dyn_traits@.len() - k,
        {
            proof {
                assert(opt_refs(out@.push(&s.dyn_traits@[k as int])) =~= opt_refs(out@).push(v[k as int]));
                assert(opt_refs(before) + v.take(k + 1) =~= (opt_refs(before) + v.take(k as int)).push(
                    v[k as int],
                ));
            }
            out.push(&s.dyn_traits[k]);
            k = k + 1;
        }
        proof {
            assert(v.take(s.dyn_traits@.len() as int) =~= v);
        }
        i = i + 1;
    }
    proof {
        assert(w.take(all@.len() as int) =~= w);
    }
    out
}

/// What a scanner finds in files, one behind the other: `per` gives the
/// findings of a file that parses, from its path and what it holds.
pub open spec fn scanned(
    files: Seq<FileView>,
    f: FeaturesView,
    per: spec_fn(Seq<char>, TreeView) -> Seq<FindingView>,
) -> Seq<FindingView>
    decreases files.len(),
{
    if files.len() == 0 {
        Seq::empty()
    } else {
        scanned(files.drop_last(), f, per) + (match visible_source(files.last().text, f) {
            Some(tree) => per(files.last().path, tree),
            None => Seq::empty(),
        })
    }
}

/// One more file.
pub proof fn lemma_scanned_step(
    files: Seq<FileView>,
    f: FeaturesView,
    per: spec_fn(Seq<char>, TreeView) -> Seq<FindingView>,
    i: int,
)
    requires
        0 <= i < files.len(),
    ensures
        scanned(files.take(i + 1), f, per) == scanned(files.take(i), f, per) + (match visible_source(
            files[i].text,
            f,
        ) {
            Some(tree) => per(files[i].path, tree),
            None => Seq::empty(),
        }),
{
    assert(files.take(i + 1).drop_last() =~= files.take(i));
    assert(files.take(i + 1).last() == files[i]);
}

/// Whether `name` stands in `text` at `a`, with no letter, digit or underscore
/// directly before or behind it.
pub open spec fn stands_alone_at(text: Seq<char>, name: Seq<char>, a: int) -> bool {
    &&& 0 <= a
    &&& a + name.len() <= text.len()
    &&& text.subrange(a, a + name.len()) == name
    &&& (a == 0 || !(letter_or_digit(text[a - 1]) || text[a - 1] == '_'))
    &&& (a + name.len() == text.len() || !(letter_or_digit(text[a + name.len()]) || text[a
        + name.len()] == '_'))
}

/// Whether every character of a name can stand in an identifier.
pub open spec fn is_word(name: Seq<char>) -> bool {
    forall|i: int| 0 <= i < name.len() ==> letter_or_digit(#[trigger] name[i]) || name[i] == '_'
}

/// A text mentions a name exactly where the name stands in it alone, not as a
/// part of a longer word. What is no word is never mentioned.
pub proof fn mentions_are_whole_words(text: Seq<char>, name: Seq<char>)
    ensures
        mentions(text, name) <==> is_word(name) && exists|a: int| #[trigger]
            stands_alone_at(text, name, a),
{
    let p = word_break();
    pieces_are_the_runs_between_separators(text, p, name);
    if mentions(text, name) {
        let (a, b) = choose|a: int, b: int| #[trigger]
            is_run(text, p, a, b) && name == text.subrange(a, b);
        assert(stands_alone_at(text, name, a));
        assert forall|i: int| 0 <= i < name.len() implies letter_or_digit(#[trigger] name[i])
            || name[i] == '_' by {
            assert(!p(text[a + i]));
        }
    }
    if is_word(name) && exists|a: int| #[trigger] stands_alone_at(text, name, a) {
        let a = choose|a: int| #[trigger] stands_alone_at(text, name, a);
        let b = a + name.len();
        assert(is_run(text, p, a, b)) by {
            assert forall|j: int| a <= j < b implies !p(#[trigger] text[j]) by {
                assert(text.subrange(a, b)[j - a] == text[j]);
                assert(name[j - a] == text[j]);
            }
        }
    }
}

/// The names found in a text are exactly those of the list that stand in it as
/// whole words.
pub proof fn mentioned_names_are_exact(names: Seq<Seq<char>>, text: Seq<char>, name: Seq<char>)
    ensures
        mentioned_names(names, text).contains(name) <==> names.contains(name) && is_word(name)
            && exists|a: int| #[trigger] stands_alone_at(text, name, a),
        mentions_any(names, text) <==> mentioned_names(names, text).len() > 0,
{
    let p = |n: Seq<char>| mentions(text, n);
    mentions_are_whole_words(text, name);
    crate::order::lemma_filter_member(names, p, name);
    if mentions_any(names, text) {
        let i = choose|i: int| 0 <= i < names.len() && mentions(text, #[trigger] names[i]);
        crate::order::lemma_filter_member(names, p, names[i]);
        assert(names.contains(names[i]));
    }
    if mentioned_names(names, text).len() > 0 {
        let x = mentioned_names(names, text)[0];
        assert(mentioned_names(names, text).contains(x));
        crate::order::lemma_filter_member(names, p, x);
        let i = names.index_of(x);
        assert(mentions(text, names[i]));
    }
}

/// A function has a mark exactly where the last segment of one of its attributes
/// is one of the words.
pub proof fn marks_are_last_segments(markers: Seq<Option<Seq<char>>>, marks: Seq<Seq<char>>)
    ensures
        marked(markers, marks) <==> exists|w: Seq<char>| #[trigger]
            marks.contains(w) && markers.contains(Some(w)),
{
    if marked(markers, marks) {
        let i = choose|i: int|
            0 <= i < markers.len() && (#[trigger] markers[i]) is Some && marks.contains(
                markers[i]->0,
            );
        assert(markers.contains(Some(markers[i]->0)));
    }
    if exists|w: Seq<char>| #[trigger] marks.contains(w) && markers.contains(Some(w)) {
        let w = choose|w: Seq<char>| #[trigger] marks.contains(w) && markers.contains(Some(w));
        let i = markers.index_of(Some(w));
        assert(markers[i] is Some && marks.contains(markers[i]->0));
    }
}

proof fn lemma_attr_sites(attrs: Seq<AttrView>, x: SitesView)
    ensures
        attr_sites(attrs).contains(x) <==> exists|i: int|
            0 <= i < attrs.len() && (#[trigger] attrs[i]).sites == x,
{
    let v = attr_sites(attrs);
    if v.contains(x) {
        let i = v.index_of(x);
        assert(attrs[i].sites == x);
    }
    if exists|i: int| 0 <= i < attrs.len() && (#[trigger] attrs[i]).sites == x {
        let i = choose|i: int| 0 <= i < attrs.len() && (#[trigger] attrs[i]).sites == x;
        assert(v[i] == x);
    }
}

pub proof fn lemma_contains_add<T>(a: Seq<T>, b: Seq<T>, x: T)
    ensures
        (a + b).contains(x) <==> a.contains(x) || b.contains(x),
{
    if a.contains(x) {
        let i = a.index_of(x);
        assert((a + b)[i] == x);
    }
    if b.contains(x) {
        let i = b.index_of(x);
        assert((a + b)[a.len() + i] == x);
    }
    if (a + b).contains(x) {
        let i = (a + b).index_of(x);
        if i < a.len() {
            assert(a[i] == x);
        } else {
            assert(b[i - a.len()] == x);
        }
    }
}

/// A walk over items meets each item that is no module, the value of each
/// attribute of a module, and all that a walk over the items of a module meets,
/// and nothing else.
pub proof fn walks_enter_every_item(s: Seq<ItemView>, x: SitesView)
    ensures
        item_sites(s).contains(x) <==> exists|i: int|
            0 <= i < s.len() && match (#[trigger] s[i]).body {
                BodyView::Leaf(l) => l.sites == x,
                BodyView::Module(content) => (exists|k: int|
                    0 <= k < s[i].attrs.len() && (#[trigger] s[i].attrs[k]).sites == x) || (
                content is Some && item_sites(content->0).contains(x)),
            },
{
    lemma_item_sites(s, x);
    if item_sites(s).contains(x) {
        let i = choose|i: int| 0 <= i < s.len() && #[trigger] meets(s[i], x);
        assert(meets(s[i], x));
    }
    if exists|i: int|
        0 <= i < s.len() && match (#[trigger] s[i]).body {
            BodyView::Leaf(l) => l.sites == x,
            BodyView::Module(content) => (exists|k: int|
                0 <= k < s[i].attrs.len() && (#[trigger] s[i].attrs[k]).sites == x) || (content
                is Some && item_sites(content->0).contains(x)),
        } {
        let i = choose|i: int|
            0 <= i < s.len() && match (#[trigger] s[i]).body {
                BodyView::Leaf(l) => l.sites == x,
                BodyView::Module(content) => (exists|k: int|
                    0 <= k < s[i].attrs.len() && (#[trigger] s[i].attrs[k]).sites == x) || (
                content is Some && item_sites(content->0).contains(x)),
            };
        assert(meets(s[i], x));
    }
}

spec fn meets(item: ItemView, x: SitesView) -> bool {
    match item.body {
        BodyView::Leaf(l) => l.sites == x,
        BodyView::Module(content) => (exists|k: int|
            0 <= k < item.attrs.len() && (#[trigger] item.attrs[k]).sites == x) || (content is Some
            && item_sites(content->0).contains(x)),
    }
}

proof fn lemma_item_sites(s: Seq<ItemView>, x: SitesView)
    ensures
        item_sites(s).contains(x) <==> exists|i: int| 0 <= i < s.len() && #[trigger] meets(s[i], x),
    decreases s.len(),
{
    if s.len() > 0 {
        let d = s.drop_last();
        let item = s.last();
        assert(s[s.len() - 1] == item);
        lemma_item_sites(d, x);
        lemma_contains_add(item_sites(d), sites_inside(item), x);
        match item.body {
            BodyView::Leaf(l) => {
                assert(sites_inside(item)[0] == l.sites);
            },
            BodyView::Module(content) => {
                lemma_attr_sites(item.attrs, x);
                match content {
                    Some(inner) => {
                        lemma_contains_add(attr_sites(item.attrs), item_sites(inner), x);
                    },
                    None => {},
                }
            },
        }
        assert(sites_inside(item).contains(x) <==> meets(item, x));
        if item_sites(d).contains(x) {
            let i = choose|i: int| 0 <= i < d.len() && #[trigger] meets(d[i], x);
            assert(meets(s[i], x));
        }
        if meets(item, x) {
            assert(meets(s[s.len() - 1], x));
        }
        if exists|i: int| 0 <= i < s.len() && #[trigger] meets(s[i], x) {
            let i = choose|i: int| 0 <= i < s.len() && #[trigger] meets(s[i], x);
            if i < d.len() {
                assert(meets(d[i], x));
            }
        }
    }
}

/// A walk over a file meets the values of its own attributes and all that a walk
/// over its items meets, and nothing else.
pub proof fn walks_enter_attributes_and_items(t: TreeView, x: SitesView)
    ensures
        tree_sites(t).contains(x) <==> (exists|k: int|
            0 <= k < t.attrs.len() && (#[trigger] t.attrs[k]).sites == x) || item_sites(
            t.items,
        ).contains(x),
{
    lemma_attr_sites(t.attrs, x);
    lemma_contains_add(attr_sites(t.attrs), item_sites(t.items), x);
}

proof fn lemma_fns_of(s: Seq<SitesView>, f: FnSiteView)
    ensures
        fns_of(s).contains(f) <==> exists|x: SitesView| #[trigger]
            s.contains(x) && x.fns.contains(f),
    decreases s.len(),
{
    if s.len() > 0 {
        let d = s.drop_last();
        lemma_fns_of(d, f);
        lemma_contains_add(fns_of(d), s.last().fns, f);
        lemma_last_or_before(s);
        if fns_of(d).contains(f) {
            let x = choose|x: SitesView| #[trigger] d.contains(x) && x.fns.contains(f);
            assert(s.contains(x));
        }
        if s.last().fns.contains(f) {
            assert(s.contains(s.last()));
        }
        if exists|x: SitesView| #[trigger] s.contains(x) && x.fns.contains(f) {
            let x = choose|x: SitesView| #[trigger] s.contains(x) && x.fns.contains(f);
            if x != s.last() {
                assert(d.contains(x));
            }
        }
    }
}

proof fn lemma_impls_of(s: Seq<SitesView>, f: ImplSiteView)
    ensures
        impls_of(s).contains(f) <==> exists|x: SitesView| #[trigger]
            s.contains(x) && x.impls.contains(f),
    decreases s.len(),
{
    if s.len() > 0 {
        let d = s.drop_last();
        lemma_impls_of(d, f);
        lemma_contains_add(impls_of(d), s.last().impls, f);
        lemma_last_or_before(s);
        if impls_of(d).contains(f) {
            let x = choose|x: SitesView| #[trigger] d.contains(x) && x.impls.contains(f);
            assert(s.contains(x));
        }
        if s.last().impls.contains(f) {
            assert(s.contains(s.last()));
        }
        if exists|x: SitesView| #[trigger] s.contains(x) && x.impls.contains(f) {
            let x = choose|x: SitesView| #[trigger] s.contains(x) && x.impls.contains(f);
            if x != s.last() {
                assert(d.contains(x));
            }
        }
    }
}

proof fn lemma_calls_of(s: Seq<SitesView>, f: CallSiteView)
    ensures
        calls_of(s).contains(f) <==> exists|x: SitesView| #[trigger]
            s.contains(x) && x.calls.contains(f),
    decreases s.len(),
{
    if s.len() > 0 {
        let d = s.drop_last();
        lemma_calls_of(d, f);
        lemma_contains_add(calls_of(d), s.last().calls, f);
        lemma_last_or_before(s);
        if calls_of(d).contains(f) {
            let x = choose|x: SitesView| #[trigger] d.contains(x) && x.calls.contains(f);
            assert(s.contains(x));
        }
        if s.last().calls.contains(f) {
            assert(s.contains(s.last()));
        }
        if exists|x: SitesView| #[trigger] s.contains(x) && x.calls.contains(f) {
            let x = choose|x: SitesView| #[trigger] s.contains(x) && x.calls.contains(f);
            if x != s.last() {
                assert(d.contains(x));
            }
        }
    }
}

proof fn lemma_dyn_traits_of(s: Seq<SitesView>, f: Option<Seq<char>>)
    ensures
        dyn_traits_of(s).contains(f) <==> exists|x: SitesView| #[trigger]
            s.contains(x) && x.dyn_traits.contains(f),
    decreases s.len(),
{
    if s.len() > 0 {
        let d = s.drop_last();
        lemma_dyn_traits_of(d, f);
        lemma_contains_add(dyn_traits_of(d), s.last().dyn_traits, f);
        lemma_last_or_before(s);
        if dyn_traits_of(d).contains(f) {
            let x = choose|x: SitesView| #[trigger] d.contains(x) && x.dyn_traits.contains(f);
            assert(s.contains(x));
        }
        if s.last().dyn_traits.contains(f) {
            assert(s.contains(s.last()));
        }
        if exists|x: SitesView| #[trigger] s.contains(x) && x.dyn_traits.contains(f) {
            let x = choose|x: SitesView| #[trigger] s.contains(x) && x.dyn_traits.contains(f);
            if x != s.last() {
                assert(d.contains(x));
            }
        }
    }
}

pub proof fn lemma_last_or_before<T>(s: Seq<T>)
    requires
        s.len() > 0,
    ensures
        forall|x: T| #[trigger] s.contains(x) <==> s.drop_last().contains(x) || x == s.last(),
{
    let d = s.drop_last();
    assert forall|x: T| #[trigger] s.contains(x) <==> d.contains(x) || x == s.last() by {
        assert(s =~= d + seq![s.last()]);
        lemma_contains_add(d, seq![s.last()], x);
        assert(seq![s.last()].contains(x) <==> x == s.last()) by {
            assert(seq![s.last()][0] == s.last());
        }
    }
}

/// The functions, impl blocks, `dyn` types and method calls of a file are those
/// in the parts that a walk meets.
pub proof fn every_site_of_a_file_is_met(
    t: TreeView,
    f: FnSiteView,
    i: ImplSiteView,
    d: Option<Seq<char>>,
    c: CallSiteView,
)
    ensures
        tree_fns(t).contains(f) <==> exists|x: SitesView| #[trigger]
            tree_sites(t).contains(x) && x.fns.contains(f),
        tree_impls(t).contains(i) <==> exists|x: SitesView| #[trigger]
            tree_sites(t).contains(x) && x.impls.contains(i),
        tree_dyn_traits(t).contains(d) <==> exists|x: SitesView| #[trigger]
            tree_sites(t).contains(x) && x.dyn_traits.contains(d),
        tree_calls(t).contains(c) <==> exists|x: SitesView| #[trigger]
            tree_sites(t).contains(x) && x.calls.contains(c),
{
    let s = tree_sites(t);
    lemma_fns_of(s, f);
    lemma_impls_of(s, i);
    lemma_dyn_traits_of(s, d);
    lemma_calls_of(s, c);
}

/// Each file that parses brings its own findings, and no other text brings any.
pub proof fn every_file_is_scanned(
    files: Seq<FileView>,
    f: FeaturesView,
    per: spec_fn(Seq<char>, TreeView) -> Seq<FindingView>,
    x: FindingView,
)
    ensures
        scanned(files, f, per).contains(x) <==> exists|i: int|
            0 <= i < files.len() && visible_source((#[trigger] files[i]).text, f) is Some && per(
                files[i].path,
                visible_source(files[i].text, f)->0,
            ).contains(x),
    decreases files.len(),
{
    if files.len() > 0 {
        let d = files.drop_last();
        let n = files.len() - 1;
        every_file_is_scanned(d, f, per, x);
        let more: Seq<FindingView> = match visible_source(files.last().text, f) {
            Some(tree) => per(files.last().path, tree),
            None => Seq::empty(),
        };
        lemma_contains_add(scanned(d, f, per), more, x);
        if scanned(d, f, per).contains(x) {
            let i = choose|i: int|
                0 <= i < d.len() && visible_source((#[trigger] d[i]).text, f) is Some && per(
                    d[i].path,
                    visible_source(d[i].text, f)->0,
                ).contains(x);
            assert(files[i] == d[i]);
        }
        if more.contains(x) {
            assert(files[n] == files.last());
        }
        if exists|i: int|
            0 <= i < files.len() && visible_source((#[trigger] files[i]).text, f) is Some && per(
                files[i].path,
                visible_source(files[i].text, f)->0,
            ).contains(x) {
            let i = choose|i: int|
                0 <= i < files.len() && visible_source((#[trigger] files[i]).text, f) is Some
                    && per(files[i].path, visible_source(files[i].text, f)->0).contains(x);
            if i < n {
                assert(d[i] == files[i]);
            }
        }
    }
}

/// Names are found in the order in which they are listed, each as often as it is
/// listed.
pub proof fn names_are_found_in_order(
    a: Seq<Seq<char>>,
    b: Seq<Seq<char>>,
    name: Seq<char>,
    text: Seq<char>,
)
    ensures
        mentioned_names(a + b, text) == mentioned_names(a, text) + mentioned_names(b, text),
        mentioned_names(seq![name], text).len() <= 1,
{
    let p = |n: Seq<char>| mentions(text, n);
    Seq::filter_distributes_over_add(a, b, p);
    reveal(Seq::filter);
    assert(seq![name].drop_last() =~= Seq::empty());
    assert(seq![name].drop_last().filter(p) =~= Seq::empty());
}

/// The functions among sites are taken site by site, in order.
pub proof fn functions_are_taken_in_order(a: Seq<SitesView>, b: Seq<SitesView>, x: SitesView)
    ensures
        fns_of(a + b) == fns_of(a) + fns_of(b),
        fns_of(seq![x]) == x.fns,
        fns_of(Seq::empty()).len() == 0,
    decreases b.len(),
{
    assert(seq![x].drop_last() =~= Seq::empty());
    assert(fns_of(Seq::<SitesView>::empty()) =~= Seq::empty());
    assert(fns_of(seq![x]) =~= x.fns);
    if b.len() > 0 {
        assert((a + b).drop_last() =~= a + b.drop_last());
        functions_are_taken_in_order(a, b.drop_last(), x);
        assert(fns_of(a + b) =~= fns_of(a) + fns_of(b));
    } else {
        assert(a + b =~= a);
        assert(fns_of(a) + fns_of(b) =~= fns_of(a));
    }
}

/// The impl blocks among sites are taken site by site, in order.
pub proof fn impls_are_taken_in_order(a: Seq<SitesView>, b: Seq<SitesView>, x: SitesView)
    ensures
        impls_of(a + b) == impls_of(a) + impls_of(b),
        impls_of(seq![x]) == x.impls,
        impls_of(Seq::empty()).len() == 0,
    decreases b.len(),
{
    assert(seq![x].drop_last() =~= Seq::empty());
    assert(impls_of(Seq::<SitesView>::empty()) =~= Seq::empty());
    assert(impls_of(seq![x]) =~= x.impls);
    if b.len() > 0 {
        assert((a + b).drop_last() =~= a + b.drop_last());
        impls_are_taken_in_order(a, b.drop_last(), x);
        assert(impls_of(a + b) =~= impls_of(a) + impls_of(b));
    } else {
        assert(a + b =~= a);
        assert(impls_of(a) + impls_of(b) =~= impls_of(a));
    }
}

/// The `dyn` types among sites are taken site by site, in order.
pub proof fn dyn_types_are_taken_in_order(a: Seq<SitesView>, b: Seq<SitesView>, x: SitesView)
    ensures
        dyn_traits_of(a + b) == dyn_traits_of(a) + dyn_traits_of(b),
        dyn_traits_of(seq![x]) == x.dyn_traits,
        dyn_traits_of(Seq::empty()).len() == 0,
    decreases b.len(),
{
    assert(seq![x].drop_last() =~= Seq::empty());
    assert(dyn_traits_of(Seq::<SitesView>::empty()) =~= Seq::empty());
    assert(dyn_traits_of(seq![x]) =~= x.dyn_traits);
    if b.len() > 0 {
        assert((a + b).drop_last() =~= a + b.drop_last());
        dyn_types_are_taken_in_order(a, b.drop_last(), x);
        assert(dyn_traits_of(a + b) =~= dyn_traits_of(a) + dyn_traits_of(b));
    } else {
        assert(a + b =~= a);
        assert(dyn_traits_of(a) + dyn_traits_of(b) =~= dyn_traits_of(a));
    }
}

/// The method calls among sites are taken site by site, in order.
pub proof fn calls_are_taken_in_order(a: Seq<SitesView>, b: Seq<SitesView>, x: SitesView)
    ensures
        calls_of(a + b) == calls_of(a) + calls_of(b),
        calls_of(seq![x]) == x.calls,
        calls_of(Seq::empty()).len() == 0,
    decreases b.len(),
{
    assert(seq![x].drop_last() =~= Seq::empty());
    assert(calls_of(Seq::<SitesView>::empty()) =~= Seq::empty());
    assert(calls_of(seq![x]) =~= x.calls);
    if b.len() > 0 {
        assert((a + b).drop_last() =~= a + b.drop_last());
        calls_are_taken_in_order(a, b.drop_last(), x);
        assert(calls_of(a + b) =~= calls_of(a) + calls_of(b));
    } else {
        assert(a + b =~= a);
        assert(calls_of(a) + calls_of(b) =~= calls_of(a));
    }
}

/// A walk goes item by item: an item that holds no others brings its own sites,
/// and a module those in its attributes and then those of its items.
pub proof fn walks_go_item_by_item(
    a: Seq<ItemView>,
    b: Seq<ItemView>,
    item: ItemView,
    t: TreeView,
)
    ensures
        item_sites(a + b) == item_sites(a) + item_sites(b),
        item.body matches BodyView::Leaf(l) ==> item_sites(seq![item]) == seq![l.sites],
        item.body matches BodyView::Module(Some(inner)) ==> item_sites(seq![item]) == attr_sites(
            item.attrs,
        ) + item_sites(inner),
        item.body == BodyView::Module(None) ==> item_sites(seq![item]) == attr_sites(item.attrs),
        tree_sites(t) == attr_sites(t.attrs) + item_sites(t.items),
        attr_sites(t.attrs).len() == t.attrs.len(),
        forall|i: int|
            0 <= i < t.attrs.len() ==> #[trigger] attr_sites(t.attrs)[i] == t.attrs[i].sites,
    decreases b.len(),
{
    reveal_with_fuel(item_sites, 2);
    reveal_with_fuel(sites_inside, 2);
    assert(seq![item].drop_last() =~= Seq::empty());
    assert(item_sites(Seq::<ItemView>::empty()) =~= Seq::empty());
    assert(seq![item].last() == item);
    assert(item_sites(seq![item]) =~= sites_inside(item));
    if b.len() > 0 {
        assert((a + b).drop_last() =~= a + b.drop_last());
        assert((a + b).last() == b.last());
        walks_go_item_by_item(a, b.drop_last(), item, t);
        assert(item_sites(a + b) =~= item_sites(a) + item_sites(b));
    } else {
        assert(a + b =~= a);
        assert(item_sites(a) + item_sites(b) =~= item_sites(a));
    }
}

/// Files are scanned one by one, in order; one that does not parse brings
/// nothing.
pub proof fn files_are_scanned_in_order(
    a: Seq<FileView>,
    b: Seq<FileView>,
    file: FileView,
    f: FeaturesView,
    per: spec_fn(Seq<char>, TreeView) -> Seq<FindingView>,
)
    ensures
        scanned(a + b, f, per) == scanned(a, f, per) + scanned(b, f, per),
        visible_source(file.text, f) matches Some(tree) ==> scanned(seq![file], f, per) == per(
            file.path,
            tree,
        ),
        visible_source(file.text, f) is None ==> scanned(seq![file], f, per).len() == 0,
        scanned(Seq::empty(), f, per).len() == 0,
    decreases b.len(),
{
    assert(seq![file].drop_last() =~= Seq::empty());
    assert(scanned(Seq::<FileView>::empty(), f, per) =~= Seq::empty());
    if let Some(tree) = visible_source(file.text, f) {
        assert(scanned(seq![file], f, per) =~= per(file.path, tree));
    }
    if b.len() > 0 {
        assert((a + b).drop_last() =~= a + b.drop_last());
        files_are_scanned_in_order(a, b.drop_last(), file, f, per);
        assert(scanned(a + b, f, per) =~= scanned(a, f, per) + scanned(b, f, per));
    } else {
        assert(a + b =~= a);
        assert(scanned(a, f, per) + scanned(b, f, per) =~= scanned(a, f, per));
    }
}

} // verus!
