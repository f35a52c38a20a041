//! Feature awareness: which items a set of active features keeps.
//!
//! Only `cfg(feature = "...")`, `cfg(not(...))`, `cfg(all(...))` and
//! `cfg(any(...))` are evaluated. Every other predicate counts as active: a
//! needless finding is better than a missed one. `cfg(test)` is always active,
//! so test modules stay visible.
use crate::names::NameSet;
use crate::syntax::{
    attr_nodes, lemma_meta_nodes, meta_node, meta_nodes, plain_names, read_file_attrs,
    read_item_attrs, read_items, AttrNode, AttrView, BodyView, ItemKind, ItemView, MetaKind,
    MetaNode, MetaView, SourceTree, TreeView,
};
use crate::syntax_tree::{
    copy_mod_items, file_view, into_items, item_kind, item_view, items_are, parse_file,
    parsed_source, set_mod_items, with_items,
};
use crate::text::same;
use vstd::prelude::*;

verus! {

/// Active features.
#[derive(Debug, PartialEq, Eq)]
pub enum FeatureSet {
    /// Every `cfg(...)` is active.
    Permissive,
    /// Exactly these features are active.
    Exact(NameSet),
}

/// A [`FeatureSet`] as plain data.
pub enum FeaturesView {
    Permissive,
    Exact(Seq<Seq<char>>),
}

impl View for FeatureSet {
    type V = FeaturesView;

    open spec fn view(&self) -> FeaturesView {
        match self {
            FeatureSet::Permissive => FeaturesView::Permissive,
            FeatureSet::Exact(n) => FeaturesView::Exact(n@),
        }
    }
}

impl Default for FeatureSet {
    fn default() -> (r: FeatureSet)
        ensures
            r@ == FeaturesView::Permissive,
    {
        FeatureSet::Permissive
    }
}

impl Clone for FeatureSet {
    fn clone(&self) -> (r: FeatureSet)
        ensures
            r@ == self@,
    {
        match self {
            FeatureSet::Permissive => FeatureSet::Permissive,
            FeatureSet::Exact(n) => FeatureSet::Exact(n.clone()),
        }
    }
}

/// Whether a feature is active.
pub open spec fn feature_active(f: FeaturesView, name: Seq<char>) -> bool {
    match f {
        FeaturesView::Permissive => true,
        FeaturesView::Exact(active) => active.contains(name),
    }
}

impl FeatureSet {
    /// Whether a feature is active.
    pub fn is_feature_active(&self, name: &str) -> (r: bool)
        ensures
            r == feature_active(self@, name@),
    {
        match self {
            FeatureSet::Permissive => true,
            FeatureSet::Exact(active) => active.contains(name),
        }
    }

    /// Whether every `cfg(...)` is active.
    pub fn is_permissive(&self) -> (r: bool)
        ensures
            r == (self@ is Permissive),
    {
        match self {
            FeatureSet::Permissive => true,
            FeatureSet::Exact(_) => false,
        }
    }
}

/// The feature set that is installed for an analysis.
#[derive(Debug, PartialEq, Eq)]
pub struct ActiveFeatures {
    pub current: FeatureSet,
}

impl ActiveFeatures {
    /// Nothing is installed: every `cfg(...)` is active.
    pub fn new() -> (r: ActiveFeatures)
        ensures
            r.current@ == FeaturesView::Permissive,
    {
        ActiveFeatures { current: FeatureSet::Permissive }
    }
}

/// A feature set installed over the one that was in force. It covers that one
/// without changing it: when the guard goes, the one before is in force again.
#[derive(Debug, PartialEq, Eq)]
pub struct FeatureGuard<'a> {
    pub installed: ActiveFeatures,
    pub previous: &'a ActiveFeatures,
}

impl<'a> FeatureGuard<'a> {
    /// Installs `next` over `previous`.
    pub fn push(previous: &'a ActiveFeatures, next: FeatureSet) -> (r: FeatureGuard<'a>)
        ensures
            r.installed.current == next,
            r.previous == previous,
    {
        FeatureGuard { installed: ActiveFeatures { current: next }, previous }
    }
}

/// Runs `f`, once, with `features` installed over what is in force in `active`,
/// and returns what `f` returns. `active` is only lent, so what was in force is
/// in force again behind the call, be it that `f` returns or that it panics.
/// Calls can be nested.
pub fn with_features<R, F: FnOnce(&ActiveFeatures) -> R>(
    active: &ActiveFeatures,
    features: FeatureSet,
    f: F,
) -> (r: R)
    requires
        forall|a: ActiveFeatures| a.current == features ==> #[trigger] f.requires((&a,)),
    ensures
        exists|a: ActiveFeatures| a.current == features && #[trigger] f.ensures((&a,), r),
{
    let guard = FeatureGuard::push(active, features);
    f(&guard.installed)
}

/// Whether a cfg predicate holds.
pub open spec fn predicate_holds(m: MetaView, f: FeaturesView) -> bool
    decreases m,
{
    match m.kind {
        MetaKind::Path => true,
        MetaKind::NameValue => if m.ident == Some("feature"@) {
            match m.text {
                Some(t) => feature_active(f, t),
                None => true,
            }
        } else {
            true
        },
        MetaKind::List => if m.ident == Some("not"@) {
            match m.single {
                Some(b) => !predicate_holds(*b, f),
                None => true,
            }
        } else if m.ident == Some("all"@) {
            match m.many {
                Some(s) => all_hold(s, f),
                None => true,
            }
        } else if m.ident == Some("any"@) {
            match m.many {
                Some(s) => any_holds(s, f),
                None => true,
            }
        } else {
            true
        },
    }
}

/// Whether all predicates hold.
pub open spec fn all_hold(s: Seq<MetaView>, f: FeaturesView) -> bool
    decreases s,
{
    s.len() == 0 || (all_hold(s.drop_last(), f) && predicate_holds(s.last(), f))
}

/// Whether a predicate holds.
pub open spec fn any_holds(s: Seq<MetaView>, f: FeaturesView) -> bool
    decreases s,
{
    s.len() > 0 && (any_holds(s.drop_last(), f) || predicate_holds(s.last(), f))
}

/// `all` holds when every argument does, and of no arguments; `any` when some
/// argument does, and not of no arguments.
pub proof fn combinators_quantify(s: Seq<MetaView>, f: FeaturesView)
    ensures
        all_hold(s, f) <==> forall|i: int| 0 <= i < s.len() ==> predicate_holds(#[trigger] s[i], f),
        any_holds(s, f) <==> exists|i: int| 0 <= i < s.len() && predicate_holds(#[trigger] s[i], f),
    decreases s.len(),
{
    if s.len() > 0 {
        let head = s.drop_last();
        combinators_quantify(head, f);
        if all_hold(s, f) {
            assert forall|i: int| 0 <= i < s.len() implies predicate_holds(#[trigger] s[i], f) by {
                if i < s.len() - 1 {
                    assert(predicate_holds(head[i], f));
                }
            }
        }
        if forall|i: int| 0 <= i < s.len() ==> predicate_holds(#[trigger] s[i], f) {
            assert forall|i: int| 0 <= i < head.len() implies predicate_holds(#[trigger] head[i], f) by {
                assert(predicate_holds(s[i], f));
            }
            assert(predicate_holds(s[s.len() - 1], f));
        }
        if any_holds(s, f) {
            if any_holds(head, f) {
                let i = choose|i: int| 0 <= i < head.len() && predicate_holds(#[trigger] head[i], f);
                assert(predicate_holds(s[i], f));
            } else {
                assert(predicate_holds(s[s.len() - 1], f));
            }
        }
        if exists|i: int| 0 <= i < s.len() && predicate_holds(#[trigger] s[i], f) {
            let i = choose|i: int| 0 <= i < s.len() && predicate_holds(#[trigger] s[i], f);
            if i < s.len() - 1 {
                assert(predicate_holds(head[i], f));
            }
        }
    }
}

fn is_word(o: &Option<String>, word: &str) -> (r: bool)
    ensures
        r == (crate::finding::opt_text(*o) == Some(word@)),
{
    match o {
        Some(s) => same(s.as_str(), word),
        None => false,
    }
}

/// Whether a cfg predicate holds under a feature set.
pub fn eval_meta(meta: &MetaNode, features: &FeatureSet) -> (r: bool)
    ensures
        r == predicate_holds(meta@, features@),
    decreases meta,
{
    match meta.kind {
        MetaKind::Path => true,
        MetaKind::NameValue => {
            if is_word(&meta.ident, "feature") {
                match &meta.text {
                    Some(t) => features.is_feature_active(t.as_str()),
                    None => true,
                }
            } else {
                true
            }
        },
        MetaKind::List => {
            proof {
                reveal_strlit("not");
                reveal_strlit("all");
                reveal_strlit("any");
                assert("not"@[0] == 'n');
                assert("all"@[1] == 'l');
                assert("any"@[1] == 'n');
                assert("all"@[0] == 'a');
            }
            if is_word(&meta.ident, "not") {
                match &meta.single {
                    Some(b) => !eval_meta(&**b, features),
                    None => true,
                }
            } else if is_word(&meta.ident, "all") {
                match &meta.many {
                    Some(v) => {
                        let mut i: usize = 0;
                        let mut held: bool = true;
                        proof {
                            assert(meta_nodes(v@.take(0)).len() == 0);
                        }
                        while i < v.len()
                            invariant
                                i <= v@.len(),
                                meta.many == Some(*v),
                                held == all_hold(meta_nodes(v@.take(i as int)), features@),
                            decreases v@.len() - i,
                        {
                            proof {
                                lemma_meta_step(v@, i as int);
                                assert(decreases_to!(*meta => meta.many));
                                assert(decreases_to!(meta.many => meta.many->0));
                                assert(decreases_to!(*v => v@));
                                assert(decreases_to!(v@ => v@[i as int]));
                            }
                            let one = eval_meta(&v[i], features);
                            held = held && one;
                            i = i + 1;
                        }
                        proof {
                            assert(v@.take(v@.len() as int) =~= v@);
                        }
                        held
                    },
                    None => true,
                }
            } else if is_word(&meta.ident, "any") {
                match &meta.many {
                    Some(v) => {
                        let mut i: usize = 0;
                        let mut held: bool = false;
                        proof {
                            assert(meta_nodes(v@.take(0)).len() == 0);
                        }
                        while i < v.len()
                            invariant
                                i <= v@.len(),
                                meta.many == Some(*v),
                                held == any_holds(meta_nodes(v@.take(i as int)), features@),
                            decreases v@.len() - i,
                        {
                            proof {
                                lemma_meta_step(v@, i as int);
                                assert(decreases_to!(*meta => meta.many));
                                assert(decreases_to!(meta.many => meta.many->0));
                                assert(decreases_to!(*v => v@));
                                assert(decreases_to!(v@ => v@[i as int]));
                            }
                            let one = eval_meta(&v[i], features);
                            held = held || one;
                            i = i + 1;
                        }
                        proof {
                            assert(v@.take(v@.len() as int) =~= v@);
                        }
                        held
                    },
                    None => true,
                }
            } else {
                true
            }
        },
    }
}

/// One more argument.
proof fn lemma_meta_step(s: Seq<MetaNode>, i: int)
    requires
        0 <= i < s.len(),
    ensures
        meta_nodes(s.take(i + 1)).drop_last() == meta_nodes(s.take(i)),
        meta_nodes(s.take(i + 1)).last() == meta_node(s[i]),
        meta_nodes(s.take(i + 1)).len() == i + 1,
{
    assert(s.take(i + 1).drop_last() =~= s.take(i));
    assert(s.take(i + 1).last() == s[i]);
    lemma_meta_nodes(s.take(i + 1));
    assert(meta_nodes(s.take(i + 1)).drop_last() =~= meta_nodes(s.take(i)));
}

/// Whether a condition on the features is met. Under the permissive set every
/// one is.
pub open spec fn condition_met(m: MetaView, f: FeaturesView) -> bool {
    f is Permissive || predicate_holds(m, f)
}

/// Whether a condition on the features is met.
pub fn meets_condition(m: &MetaNode, features: &FeatureSet) -> (r: bool)
    ensures
        r == condition_met(m@, features@),
{
    features.is_permissive() || eval_meta(m, features)
}

/// Whether an attribute keeps its item. An attribute that is no `cfg`, and one
/// whose predicate does not parse, keeps it, and under the permissive set every
/// attribute does.
pub open spec fn attr_keeps(a: AttrView, f: FeaturesView) -> bool {
    if a.ident == Some("cfg"@) {
        match a.single {
            Some(m) => condition_met(m, f),
            None => true,
        }
    } else {
        true
    }
}

/// Whether an attribute keeps its item under a feature set.
pub fn cfg_matches(attr: &AttrNode, features: &FeatureSet) -> (r: bool)
    ensures
        r == attr_keeps(attr@, features@),
{
    if !is_word(&attr.ident, "cfg") {
        return true;
    }
    match &attr.single {
        Some(m) => meets_condition(m, features),
        None => true,
    }
}

/// Whether all attributes keep their item.
pub open spec fn attrs_keep(attrs: Seq<AttrView>, f: FeaturesView) -> bool {
    forall|i: int| 0 <= i < attrs.len() ==> attr_keeps(#[trigger] attrs[i], f)
}

/// Whether all attributes keep their item.
pub fn item_active(attrs: &Vec<AttrNode>, features: &FeatureSet) -> (r: bool)
    ensures
        r == attrs_keep(attr_nodes(attrs@), features@),
{
    let mut i: usize = 0;
    while i < attrs.len()
        invariant
            i <= attrs@.len(),
            forall|j: int|
                0 <= j < i ==> attr_keeps(#[trigger] attr_nodes(attrs@)[j], features@),
        decreases attrs@.len() - i,
    {
        if !cfg_matches(&attrs[i], features) {
            proof {
                assert(!attr_keeps(attr_nodes(attrs@)[i as int], features@));
            }
            return false;
        }
        i = i + 1;
    }
    true
}

/// The items that stay active, in modules too.
pub open spec fn active_items(s: Seq<ItemView>, f: FeaturesView) -> Seq<ItemView>
    decreases s,
{
    if s.len() == 0 {
        Seq::empty()
    } else {
        let rest = active_items(s.drop_last(), f);
        if attrs_keep(s.last().attrs, f) {
            rest.push(active_item(s.last(), f))
        } else {
            rest
        }
    }
}

/// An active item with the items of a module that stay active.
pub open spec fn active_item(item: ItemView, f: FeaturesView) -> ItemView
    decreases item,
{
    match item.body {
        BodyView::Module(Some(inner)) => with_items(item, active_items(inner, f)),
        _ => item,
    }
}

/// A source text under a feature set: its items are filtered, its own
/// attributes stay.
pub open spec fn visible_source(src: Seq<char>, f: FeaturesView) -> Option<TreeView> {
    match parsed_source(src) {
        None => None,
        Some(tree) => match f {
            FeaturesView::Permissive => Some(tree),
            FeaturesView::Exact(_) => Some(
                TreeView { items: active_items(tree.items, f), ..tree },
            ),
        },
    }
}

/// The items of a source text under a feature set.
pub open spec fn visible_items(src: Seq<char>, f: FeaturesView) -> Option<Seq<ItemView>> {
    match visible_source(src, f) {
        None => None,
        Some(tree) => Some(tree.items),
    }
}

proof fn lemma_active_step(s: Seq<ItemView>, f: FeaturesView, i: int)
    requires
        0 <= i < s.len(),
    ensures
        active_items(s.take(i + 1), f) == (if attrs_keep(s[i].attrs, f) {
            active_items(s.take(i), f).push(active_item(s[i], f))
        } else {
            active_items(s.take(i), f)
        }),
{
    assert(s.take(i + 1).drop_last() =~= s.take(i));
    assert(s.take(i + 1).last() == s[i]);
}

/// Takes the items that are not active out of a syntax tree.
fn filter_item_vec(items: Vec<syn::Item>, features: &FeatureSet, Ghost(views): Ghost<
    Seq<ItemView>,
>) -> (r: Vec<syn::Item>)
    requires
        items_are(items@, views),
    ensures
        items_are(r@, active_items(views, features@)),
    decreases views,
{
    let ghost all = items@;
    let ghost f = features@;
    let n: usize = items.len();
    let mut kept: Vec<syn::Item> = Vec::new();
    let mut back = crate::order::reversed(items);
    let mut i: usize = 0;
    while i < n
        invariant
            i <= n,
            n == all.len(),
            back@.len() == n - i,
            f == features@,
            items_are(all, views),
            forall|j: int| 0 <= j < back@.len() ==> #[trigger] back@[j] == all[all.len() - 1 - j],
            items_are(kept@, active_items(views.take(i as int), f)),
        decreases n - i,
    {
        let item = back.pop().unwrap();
        let ghost view = views[i as int];
        proof {
            assert(item == all[i as int]);
            assert(item_view(item) == view);
            lemma_active_step(views, f, i as int);
        }
        let attrs = read_item_attrs(&item);
        if item_active(&attrs, features) {
            let ghost before = kept@;
            if item_kind(&item) == ItemKind::Mod {
                match copy_mod_items(&item) {
                    Some(inner) => {
                        let ghost inside = view.body->Module_0->0;
                        proof {
                            assert(decreases_to!(views => view));
                            assert(decreases_to!(view => view.body));
                            assert(decreases_to!(view.body => view.body->Module_0));
                            assert(decreases_to!(view.body->Module_0 => view.body->Module_0->0));
                        }
                        let inner = filter_item_vec(inner, features, Ghost(inside));
                        let whole = set_mod_items(item, inner);
                        proof {
                            assert(item_view(whole) == active_item(view, f));
                        }
                        kept.push(whole);
                    },
                    None => {
                        kept.push(item);
                    },
                }
            } else {
                kept.push(item);
            }
            proof {
                let want = active_items(views.take(i as int), f).push(active_item(view, f));
                assert(kept@.len() == before.len() + 1);
                assert forall|j: int| 0 <= j < kept@.len() implies item_view(#[trigger] kept@[j])
                    == want[j] by {
                    if j < before.len() {
                        assert(kept@[j] == before[j]);
                    }
                }
            }
        }
        i = i + 1;
    }
    proof {
        assert(views.take(n as int) =~= views);
    }
    kept
}

/// Parses Rust source and leaves out the items that are not active. `None`
/// when the source does not parse. The names in it are identifiers.
pub fn parse_and_filter(src: &str, features: &FeatureSet) -> (r: Option<SourceTree>)
    ensures
        match r {
            Some(t) => visible_source(src@, features@) == Some(t@) && plain_names(t@.items),
            None => visible_source(src@, features@) is None,
        },
{
    match parse_file(src) {
        Err(_) => None,
        Ok(file) => {
            let ghost views = file_view(file).items;
            let attrs = read_file_attrs(&file);
            let nodes = into_items(file);
            let items = if features.is_permissive() {
                read_items(&nodes, Ghost(views))
            } else {
                let active = filter_item_vec(nodes, features, Ghost(views));
                read_items(&active, Ghost(active_items(views, features@)))
            };
            Some(SourceTree { attrs, items })
        },
    }
}

// ---------------------------------------------------------------------------
// Laws
// ---------------------------------------------------------------------------

/// Whether items are active, in modules too.
pub open spec fn all_active(s: Seq<ItemView>, f: FeaturesView) -> bool
    decreases s,
{
    s.len() == 0 || (all_active(s.drop_last(), f) && is_active(s.last(), f))
}

/// Whether an item is active, and every item in it where it is a module.
pub open spec fn is_active(item: ItemView, f: FeaturesView) -> bool
    decreases item,
{
    attrs_keep(item.attrs, f) && match item.body {
        BodyView::Module(Some(inner)) => all_active(inner, f),
        _ => true,
    }
}

/// Only active items are left after filtering, at every depth.
pub proof fn filtered_items_are_active(s: Seq<ItemView>, f: FeaturesView)
    ensures
        all_active(active_items(s, f), f),
    decreases s,
{
    if s.len() > 0 {
        let rest = active_items(s.drop_last(), f);
        filtered_items_are_active(s.drop_last(), f);
        if attrs_keep(s.last().attrs, f) {
            lemma_active_item(s.last(), f);
            let r = rest.push(active_item(s.last(), f));
            assert(r.drop_last() =~= rest);
        }
    }
}

proof fn lemma_active_item(item: ItemView, f: FeaturesView)
    requires
        attrs_keep(item.attrs, f),
    ensures
        is_active(active_item(item, f), f),
    decreases item,
{
    if let BodyView::Module(Some(inner)) = item.body {
        filtered_items_are_active(inner, f);
    }
}

/// Under the permissive set every attribute keeps its item.
pub proof fn permissive_keeps_everything(attrs: Seq<AttrView>)
    ensures
        attrs_keep(attrs, FeaturesView::Permissive),
{
}

/// Filtering keeps an item where its own attributes do, and no other.
pub proof fn filtering_goes_by_attributes(s: Seq<ItemView>, f: FeaturesView, item: ItemView)
    ensures
        active_items(s, f).contains(item) <==> exists|i: int|
            0 <= i < s.len() && attrs_keep((#[trigger] s[i]).attrs, f) && item == active_item(
                s[i],
                f,
            ),
    decreases s.len(),
{
    if s.len() > 0 {
        let head = s.drop_last();
        let rest = active_items(head, f);
        let last = s.last();
        filtering_goes_by_attributes(head, f, item);
        if active_items(s, f).contains(item) {
            if rest.contains(item) {
                let i = choose|i: int|
                    0 <= i < head.len() && attrs_keep((#[trigger] head[i]).attrs, f) && item
                        == active_item(head[i], f);
                assert(s[i] == head[i]);
            } else {
                assert(s[s.len() - 1] == last);
            }
        }
        if exists|i: int|
            0 <= i < s.len() && attrs_keep((#[trigger] s[i]).attrs, f) && item == active_item(
                s[i],
                f,
            ) {
            let i = choose|i: int|
                0 <= i < s.len() && attrs_keep((#[trigger] s[i]).attrs, f) && item == active_item(
                    s[i],
                    f,
                );
            if i < head.len() {
                assert(head[i] == s[i]);
                let j = rest.index_of(item);
                assert(active_items(s, f)[j] == item);
            } else {
                assert(active_items(s, f)[rest.len() as int] == item);
            }
        }
    }
}

/// What a predicate means, form by form: a bare name holds; `feature = "x"`
/// holds when the feature is active; `not` of one argument holds exactly when
/// that argument, of whatever form, does not; `all` when each of its arguments
/// does, `any` when one of them does. What is of no such form holds.
pub proof fn predicates_are_evaluated_by_their_form(m: MetaView, f: FeaturesView)
    ensures
        m.kind == MetaKind::Path ==> predicate_holds(m, f),
        m.kind == MetaKind::NameValue ==> (predicate_holds(m, f) <==> (m.ident == Some("feature"@)
            && m.text is Some && f is Exact ==> f->Exact_0.contains(m.text->0))),
        m.kind == MetaKind::List && m.ident == Some("not"@) && m.single is Some ==> (
        predicate_holds(m, f) <==> !predicate_holds(*m.single->0, f)),
        m.kind == MetaKind::List && m.ident == Some("all"@) && m.many is Some ==> (predicate_holds(
            m,
            f,
        ) <==> forall|i: int|
            0 <= i < m.many->0.len() ==> predicate_holds(#[trigger] m.many->0[i], f)),
        m.kind == MetaKind::List && m.ident == Some("any"@) && m.many is Some ==> (predicate_holds(
            m,
            f,
        ) <==> exists|i: int|
            0 <= i < m.many->0.len() && predicate_holds(#[trigger] m.many->0[i], f)),
        m.kind == MetaKind::List && !(m.ident == Some("not"@) && m.single is Some) && !((m.ident
            == Some("all"@) || m.ident == Some("any"@)) && m.many is Some) ==> predicate_holds(
            m,
            f,
        ),
{
    reveal_strlit("not");
    reveal_strlit("all");
    reveal_strlit("any");
    assert("not"@[0] == 'n' && "all"@[0] == 'a' && "any"@[0] == 'a');
    assert("all"@[1] == 'l' && "any"@[1] == 'n');
    if m.many is Some {
        combinators_quantify(m.many->0, f);
    }
}

/// One `not` round a predicate turns it over, and a second one turns it back.
pub proof fn double_negation_changes_nothing(
    outer: MetaView,
    inner: MetaView,
    arg: MetaView,
    f: FeaturesView,
)
    requires
        outer.kind == MetaKind::List,
        outer.ident == Some("not"@),
        outer.single == Some(Box::new(inner)),
        inner.kind == MetaKind::List,
        inner.ident == Some("not"@),
        inner.single == Some(Box::new(arg)),
    ensures
        predicate_holds(outer, f) == predicate_holds(arg, f),
        predicate_holds(inner, f) != predicate_holds(arg, f),
{
    predicates_are_evaluated_by_their_form(outer, f);
    predicates_are_evaluated_by_their_form(inner, f);
}

/// Under an exact feature set an item is kept exactly when the predicate of each
/// of its `cfg` attributes holds; no other attribute counts.
pub proof fn cfg_attributes_decide(attrs: Seq<AttrView>, active: Seq<Seq<char>>)
    ensures
        attrs_keep(attrs, FeaturesView::Exact(active)) <==> forall|i: int|
            0 <= i < attrs.len() && (#[trigger] attrs[i]).ident == Some("cfg"@)
                && attrs[i].single is Some ==> predicate_holds(
                attrs[i].single->0,
                FeaturesView::Exact(active),
            ),
{
    let f = FeaturesView::Exact(active);
    if attrs_keep(attrs, f) {
        assert forall|i: int|
            0 <= i < attrs.len() && (#[trigger] attrs[i]).ident == Some("cfg"@)
                && attrs[i].single is Some implies predicate_holds(attrs[i].single->0, f) by {
            assert(attr_keeps(attrs[i], f));
        }
    }
    if forall|i: int|
        0 <= i < attrs.len() && (#[trigger] attrs[i]).ident == Some("cfg"@) && attrs[i].single
            is Some ==> predicate_holds(attrs[i].single->0, f) {
        assert forall|i: int| 0 <= i < attrs.len() implies attr_keeps(#[trigger] attrs[i], f) by {}
    }
}

/// Filtering goes item by item, in order. An item that is kept keeps all it has,
/// but that the items of a module are filtered in turn.
pub proof fn filtering_goes_item_by_item(
    a: Seq<ItemView>,
    b: Seq<ItemView>,
    item: ItemView,
    f: FeaturesView,
)
    ensures
        active_items(a + b, f) == active_items(a, f) + active_items(b, f),
        !attrs_keep(item.attrs, f) ==> active_items(seq![item], f).len() == 0,
        attrs_keep(item.attrs, f) ==> active_items(seq![item], f).len() == 1 && ({
            let kept = active_items(seq![item], f)[0];
            &&& kept.kind == item.kind
            &&& kept.name == item.name
            &&& kept.attrs == item.attrs
            &&& kept.first_line == item.first_line
            &&& kept.last_line == item.last_line
            &&& match item.body {
                BodyView::Module(Some(inner)) => kept.body == BodyView::Module(
                    Some(active_items(inner, f)),
                ),
                _ => kept == item,
            }
        }),
{
    lemma_active_add(a, b, f);
    assert(seq![item].drop_last() =~= Seq::empty());
    assert(seq![item].last() == item);
    assert(active_items(seq![item].drop_last(), f) =~= Seq::empty());
    if attrs_keep(item.attrs, f) {
        let kept = active_item(item, f);
        assert(active_items(seq![item], f) =~= seq![kept]);
        match item.body {
            BodyView::Module(Some(inner)) => {
                assert(kept == with_items(item, active_items(inner, f)));
            },
            _ => {
                assert(kept == item);
            },
        }
    }
}

proof fn lemma_active_add(a: Seq<ItemView>, b: Seq<ItemView>, f: FeaturesView)
    ensures
        active_items(a + b, f) == active_items(a, f) + active_items(b, f),
    decreases b.len(),
{
    if b.len() == 0 {
        assert(a + b =~= a);
        assert(active_items(a, f) + active_items(b, f) =~= active_items(a, f));
    } else {
        let d = b.drop_last();
        lemma_active_add(a, d, f);
        assert((a + b).drop_last() =~= a + d);
        assert((a + b).last() == b.last());
        let x = active_items(a, f);
        let y = active_items(d, f);
        assert((x + y).push(active_item(b.last(), f)) =~= x + y.push(active_item(b.last(), f)));
    }
}

/// Under the permissive set a text shows all of its items; under an exact one
/// the active ones. Whether it parses does not depend on the features.
pub proof fn feature_sets_only_choose_items(src: Seq<char>, active: Seq<Seq<char>>)
    ensures
        visible_source(src, FeaturesView::Permissive) == parsed_source(src),
        visible_source(src, FeaturesView::Exact(active)) is Some <==> parsed_source(src) is Some,
        parsed_source(src) is Some ==> visible_source(src, FeaturesView::Exact(active))->0.attrs
            == parsed_source(src)->0.attrs && visible_items(src, FeaturesView::Exact(active))
            == Some(active_items(parsed_source(src)->0.items, FeaturesView::Exact(active))),
{
}

} // verus!
