//! Item-by-item comparison of two versions of a file.
//!
//! Items whose tokens are the same in both versions are no changes. When a
//! version does not parse there is no comparison, and the caller falls back to
//! every symbol of the file.
use crate::cfg::{parse_and_filter, visible_items, FeatureSet, FeaturesView};
use crate::names::increasing;
use crate::order::{lemma_sorted_map, sort, sorted};
use crate::symbols::{
    inner_prefix, inside, item_symbol, symbol_of, walk, walk_views, walked, SymbolKind, SymbolView,
};
use crate::syntax::{
    item_node, item_nodes, plain_name, plain_names, BodyView, ItemView, SourceItem,
};
use crate::text::{less, same, text_lt};
use crate::textmap::{keys, lookup, put, putting_sets_one_key, TextMap};
use vstd::prelude::*;
use vstd::string::*;

verus! {

/// What became of an item.
#[derive(Debug, Clone, Copy, PartialEq, Eq, Structural)]
pub enum ItemChange {
    Added,
    Removed,
    Modified,
}

/// An item that changed.
#[derive(Debug, PartialEq, Eq)]
pub struct ChangedItem {
    pub name: String,
    pub kind: SymbolKind,
    pub change: ItemChange,
}

/// A [`ChangedItem`] as plain data.
pub struct ChangeView {
    pub name: Seq<char>,
    pub kind: SymbolKind,
    pub change: ItemChange,
}

impl View for ChangedItem {
    type V = ChangeView;

    open spec fn view(&self) -> ChangeView {
        ChangeView { name: self.name@, kind: self.kind, change: self.change }
    }
}

/// Changes as plain data.
pub open spec fn change_views(s: Seq<ChangedItem>) -> Seq<ChangeView> {
    s.map_values(|c: ChangedItem| c@)
}

/// What is compared of an item.
pub struct DiffEntry {
    pub name: String,
    pub kind: SymbolKind,
    pub tokens: String,
}

/// A [`DiffEntry`] as plain data.
pub struct DiffEntryView {
    pub name: Seq<char>,
    pub kind: SymbolKind,
    pub tokens: Seq<char>,
}

impl View for DiffEntry {
    type V = DiffEntryView;

    open spec fn view(&self) -> DiffEntryView {
        DiffEntryView { name: self.name@, kind: self.kind, tokens: self.tokens@ }
    }
}

/// Entries by qualified name.
pub type DiffMap = Seq<(Seq<char>, DiffEntryView)>;

/// The named items among walked items, by qualified name. Of two items with
/// the same name the later one counts.
pub open spec fn diff_map(w: Seq<(Seq<char>, ItemView)>) -> DiffMap
    decreases w.len(),
{
    if w.len() == 0 {
        Seq::empty()
    } else {
        let rest = diff_map(w.drop_last());
        let (prefix, item) = w.last();
        match item_symbol(item) {
            Some(s) => put(
                rest,
                prefix + s.name,
                DiffEntryView { name: s.name, kind: s.kind, tokens: item.tokens },
            ),
            None => rest,
        }
    }
}

/// The named items of a file by qualified name.
pub open spec fn items_map(items: Seq<ItemView>) -> DiffMap {
    diff_map(walked(items, ""@))
}

/// The named items of a file by qualified name.
pub fn items_by_qualified_name(items: &Vec<SourceItem>) -> (r: TextMap<DiffEntry>)
    ensures
        r@ == items_map(item_nodes(items@)),
{
    let all = walk(items, "");
    let ghost w = walk_views(all@);
    let mut out: TextMap<DiffEntry> = TextMap::new();
    let mut i: usize = 0;
    while i < all.len()
        invariant
            i <= all@.len(),
            w == walk_views(all@),
            out@ == diff_map(w.take(i as int)),
        decreases all@.len() - i,
    {
        proof {
            assert(w.take(i + 1).drop_last() =~= w.take(i as int));
            assert(w.take(i + 1).last() == w[i as int]);
            assert(w[i as int] == (all@[i as int].0@, item_node(*all@[i as int].1)));
        }
        match symbol_of(all[i].1) {
            Some(s) => {
                let mut key = all[i].0.clone();
                key.append(s.name.as_str());
                out.insert(
                    key.as_str(),
                    DiffEntry { name: s.name, kind: s.kind, tokens: all[i].1.tokens.clone() },
                );
            },
            None => {},
        }
        i = i + 1;
    }
    proof {
        assert(w.take(all@.len() as int) =~= w);
    }
    out
}

/// The changes that the entry `e` of the new version stands for.
pub open spec fn new_change(old: DiffMap, e: (Seq<char>, DiffEntryView)) -> Seq<ChangeView> {
    match lookup(old, e.0) {
        None => seq![ChangeView { name: e.1.name, kind: e.1.kind, change: ItemChange::Added }],
        Some(o) => if o.tokens != e.1.tokens {
            seq![ChangeView { name: e.1.name, kind: e.1.kind, change: ItemChange::Modified }]
        } else {
            Seq::empty()
        },
    }
}

/// The changes that the entry `e` of the old version stands for.
pub open spec fn old_change(new: DiffMap, e: (Seq<char>, DiffEntryView)) -> Seq<ChangeView> {
    if lookup(new, e.0) is None {
        seq![ChangeView { name: e.1.name, kind: e.1.kind, change: ItemChange::Removed }]
    } else {
        Seq::empty()
    }
}

/// Added and modified items, in the order of their qualified names.
pub open spec fn new_changes(old: DiffMap, new: DiffMap, n: nat) -> Seq<ChangeView>
    decreases n,
{
    if n == 0 {
        Seq::empty()
    } else {
        new_changes(old, new, (n - 1) as nat) + new_change(old, new[n - 1])
    }
}

/// Removed items, in the order of their qualified names.
pub open spec fn old_changes(old: DiffMap, new: DiffMap, n: nat) -> Seq<ChangeView>
    decreases n,
{
    if n == 0 {
        Seq::empty()
    } else {
        old_changes(old, new, (n - 1) as nat) + old_change(new, old[n - 1])
    }
}

/// The order of changes by name.
pub open spec fn by_name() -> spec_fn(ChangeView, ChangeView) -> bool {
    |a: ChangeView, b: ChangeView| text_lt(a.name, b.name)
}

/// What changed between two versions, by name.
pub open spec fn changes(old: DiffMap, new: DiffMap) -> Seq<ChangeView> {
    sorted(new_changes(old, new, new.len()) + old_changes(old, new, old.len()), by_name())
}

fn name_less(a: &ChangedItem, b: &ChangedItem) -> (r: bool)
    ensures
        r == text_lt(a.name@, b.name@),
{
    less(a.name.as_str(), b.name.as_str())
}

/// What changed between two versions, by name.
pub fn compare_maps(old: &TextMap<DiffEntry>, new: &TextMap<DiffEntry>) -> (r: Vec<ChangedItem>)
    ensures
        change_views(r@) == changes(old@, new@),
{
    let mut out: Vec<ChangedItem> = Vec::new();
    let mut i: usize = 0;
    proof {
        assert(change_views(out@) =~= Seq::empty());
    }
    while i < new.entries.len()
        invariant
            i <= new.entries@.len(),
            change_views(out@) == new_changes(old@, new@, i as nat),
        decreases new.entries@.len() - i,
    {
        let ghost before = out@;
        let entry = &new.entries[i].1;
        proof {
            assert(new@[i as int] == (new.entries@[i as int].0@, entry@));
        }
        match old.get(new.entries[i].0.as_str()) {
            None => {
                out.push(
                    ChangedItem {
                        name: entry.name.clone(),
                        kind: entry.kind,
                        change: ItemChange::Added,
                    },
                );
            },
            Some(o) => {
                if !same(o.tokens.as_str(), entry.tokens.as_str()) {
                    out.push(
                        ChangedItem {
                            name: entry.name.clone(),
                            kind: entry.kind,
                            change: ItemChange::Modified,
                        },
                    );
                }
            },
        }
        proof {
            assert(change_views(out@) =~= change_views(before) + new_change(old@, new@[i as int]));
        }
        i = i + 1;
    }
    let ghost first = new_changes(old@, new@, new@.len());
    let mut k: usize = 0;
    proof {
        assert(first + old_changes(old@, new@, 0) =~= first);
    }
    while k < old.entries.len()
        invariant
            k <= old.entries@.len(),
            change_views(out@) == first + old_changes(old@, new@, k as nat),
        decreases old.entries@.len() - k,
    {
        let ghost before = out@;
        let entry = &old.entries[k].1;
        proof {
            assert(old@[k as int] == (old.entries@[k as int].0@, entry@));
        }
        if new.get(old.entries[k].0.as_str()).is_none() {
            out.push(
                ChangedItem {
                    name: entry.name.clone(),
                    kind: entry.kind,
                    change: ItemChange::Removed,
                },
            );
        }
        proof {
            assert(change_views(out@) =~= change_views(before) + old_change(new@, old@[k as int]));
            assert(first + (old_changes(old@, new@, k as nat) + old_change(new@, old@[k as int]))
                =~= change_views(before) + old_change(new@, old@[k as int]));
        }
        k = k + 1;
    }
    let ghost lt = |a: ChangedItem, b: ChangedItem| text_lt(a.name@, b.name@);
    let ghost all = out@;
    let r = sort(out, name_less, Ghost(lt));
    proof {
        let f = |c: ChangedItem| c@;
        lemma_sorted_map(all, lt, f, by_name());
    }
    r
}

/// What changed between two versions of a file.
pub fn compare(head: &Vec<SourceItem>, wt: &Vec<SourceItem>) -> (r: Vec<ChangedItem>)
    ensures
        change_views(r@) == changes(items_map(item_nodes(head@)), items_map(item_nodes(wt@))),
{
    let old = items_by_qualified_name(head);
    let new = items_by_qualified_name(wt);
    compare_maps(&old, &new)
}

/// Every named item of a text under one change; nothing when it does not parse.
pub open spec fn all_changed(src: Seq<char>, f: FeaturesView, change: ItemChange) -> Seq<ChangeView> {
    match visible_items(src, f) {
        None => Seq::empty(),
        Some(items) => items_map(items).map_values(
            |e: (Seq<char>, DiffEntryView)|
                ChangeView { name: e.1.name, kind: e.1.kind, change },
        ),
    }
}

fn all_as(src: &str, features: &FeatureSet, change: ItemChange) -> (r: Vec<ChangedItem>)
    ensures
        change_views(r@) == all_changed(src@, features@, change),
{
    let mut out: Vec<ChangedItem> = Vec::new();
    match parse_and_filter(src, features) {
        None => {
            proof {
                assert(change_views(out@) =~= Seq::empty());
            }
        },
        Some(tree) => {
            let map = items_by_qualified_name(&tree.items);
            let mut i: usize = 0;
            while i < map.entries.len()
                invariant
                    i <= map.entries@.len(),
                    out@.len() == i,
                    forall|j: int|
                        0 <= j < i ==> (#[trigger] out@[j])@ == (ChangeView {
                            name: map@[j].1.name,
                            kind: map@[j].1.kind,
                            change,
                        }),
                decreases map.entries@.len() - i,
            {
                proof {
                    assert(map@[i as int].1 == map.entries@[i as int].1@);
                }
                out.push(
                    ChangedItem {
                        name: map.entries[i].1.name.clone(),
                        kind: map.entries[i].1.kind,
                        change,
                    },
                );
                i = i + 1;
            }
            proof {
                assert(change_views(out@) =~= all_changed(src@, features@, change));
            }
        },
    }
    out
}

/// What changed in a file; `None` when there is no comparison.
pub open spec fn file_diff(
    wt: Option<Seq<char>>,
    head: Option<Seq<char>>,
    f: FeaturesView,
) -> Option<Seq<ChangeView>> {
    match (head, wt) {
        (None, None) => None,
        (None, Some(w)) => Some(all_changed(w, f, ItemChange::Added)),
        (Some(h), None) => Some(all_changed(h, f, ItemChange::Removed)),
        (Some(h), Some(w)) => match (visible_items(h, f), visible_items(w, f)) {
            (Some(a), Some(b)) => Some(changes(items_map(a), items_map(b))),
            _ => None,
        },
    }
}

/// An optional text as plain data.
pub open spec fn opt_str(o: Option<&str>) -> Option<Seq<char>> {
    match o {
        Some(s) => Some(s@),
        None => None,
    }
}

/// How often a change of a name occurs.
pub open spec fn occurrences(s: Seq<ChangeView>, name: Seq<char>, change: ItemChange) -> nat
    decreases s.len(),
{
    if s.len() == 0 {
        0
    } else {
        occurrences(s.drop_last(), name, change) + (if s.last().name == name && s.last().change
            == change {
            1nat
        } else {
            0nat
        })
    }
}

/// The change that an addition or a removal is when the versions are exchanged.
pub open spec fn exchanged(c: ItemChange) -> ItemChange {
    match c {
        ItemChange::Added => ItemChange::Removed,
        ItemChange::Removed => ItemChange::Added,
        ItemChange::Modified => ItemChange::Modified,
    }
}

/// Whether two lists hold the same changes of the same names as often, with
/// added and removed ones exchanged.
pub open spec fn mirrored(a: Seq<ChangeView>, b: Seq<ChangeView>) -> bool {
    forall|name: Seq<char>, change: ItemChange| #[trigger]
        occurrences(a, name, change) == occurrences(b, name, exchanged(change))
}

/// What changed in a file between a revision and the working tree. A file that
/// is only in one of them is all added or all removed. `None` when it is in
/// neither, or when a version does not parse. With the two versions exchanged,
/// the same names change as often, with added and removed ones exchanged.
pub fn diff_file(wt: Option<&str>, head: Option<&str>, features: &FeatureSet) -> (r: Option<
    Vec<ChangedItem>,
>)
    ensures
        match r {
            Some(v) => file_diff(opt_str(wt), opt_str(head), features@) == Some(change_views(v@)),
            None => file_diff(opt_str(wt), opt_str(head), features@) is None,
        },
        match (r, file_diff(opt_str(head), opt_str(wt), features@)) {
            (Some(v), Some(back)) => mirrored(change_views(v@), back),
            (None, None) => true,
            _ => false,
        },
{
    match (head, wt) {
        (None, None) => None,
        (None, Some(w)) => {
            proof {
                all_added_mirrors_all_removed(w@, features@);
            }
            Some(all_as(w, features, ItemChange::Added))
        },
        (Some(h), None) => {
            proof {
                all_added_mirrors_all_removed(h@, features@);
            }
            Some(all_as(h, features, ItemChange::Removed))
        },
        (Some(h), Some(w)) => match parse_and_filter(h, features) {
            None => None,
            Some(old) => match parse_and_filter(w, features) {
                None => None,
                Some(new) => {
                    proof {
                        comparing_backwards_mirrors_changes(old@.items, new@.items);
                    }
                    Some(compare(&old.items, &new.items))
                },
            },
        },
    }
}

// ---------------------------------------------------------------------------
// Laws
// ---------------------------------------------------------------------------

/// Qualified names stand in order.
proof fn lemma_diff_map_ordered(w: Seq<(Seq<char>, ItemView)>)
    ensures
        increasing(keys(diff_map(w))),
    decreases w.len(),
{
    if w.len() > 0 {
        lemma_diff_map_ordered(w.drop_last());
        let (prefix, item) = w.last();
        match item_symbol(item) {
            Some(s) => {
                putting_sets_one_key(
                    diff_map(w.drop_last()),
                    prefix + s.name,
                    DiffEntryView { name: s.name, kind: s.kind, tokens: item.tokens },
                );
            },
            None => {},
        }
    } else {
        assert(keys(diff_map(w)) =~= Seq::empty());
    }
}

/// Looking up the key of an entry finds that entry.
pub proof fn lemma_lookup_self<W>(s: Seq<(Seq<char>, W)>, i: int)
    requires
        increasing(keys(s)),
        0 <= i < s.len(),
    ensures
        lookup(s, s[i].0) == Some(s[i].1),
    decreases s.len(),
{
    let ks = keys(s);
    if i > 0 {
        assert(text_lt(ks[0], ks[i]));
        crate::text::lemma_text_lt_asymmetric(ks[0], ks[i]);
        let rest = s.skip(1);
        assert(keys(rest) =~= ks.skip(1));
        assert(increasing(keys(rest))) by {
            assert forall|a: int, b: int|
                #![trigger keys(rest)[a], keys(rest)[b]]
                0 <= a < b < keys(rest).len() implies text_lt(keys(rest)[a], keys(rest)[b]) by {
                assert(text_lt(ks[a + 1], ks[b + 1]));
            }
        }
        lemma_lookup_self(rest, i - 1);
    }
}

proof fn lemma_no_new(m: DiffMap, n: nat)
    requires
        increasing(keys(m)),
        n <= m.len(),
    ensures
        new_changes(m, m, n).len() == 0,
        old_changes(m, m, n).len() == 0,
    decreases n,
{
    if n > 0 {
        lemma_no_new(m, (n - 1) as nat);
        lemma_lookup_self(m, n - 1);
    }
}

/// A file compared with itself has no changes.
pub proof fn equal_versions_have_no_changes(items: Seq<ItemView>)
    ensures
        changes(items_map(items), items_map(items)).len() == 0,
{
    let m = items_map(items);
    lemma_diff_map_ordered(walked(items, ""@));
    lemma_no_new(m, m.len());
}

proof fn lemma_by_name_is_weak()
    ensures
        crate::order::weak_order(by_name()),
{
    let lt = by_name();
    assert forall|a: ChangeView| !#[trigger] lt(a, a) by {
        crate::text::lemma_text_lt_irreflexive(a.name);
    }
    assert forall|a: ChangeView, b: ChangeView, c: ChangeView| #[trigger]
        lt(a, c) implies #[trigger] lt(a, b) || lt(b, c) by {
        crate::text::lemma_text_lt_total(a.name, b.name);
        crate::text::lemma_text_lt_total(b.name, c.name);
        if text_lt(b.name, a.name) {
            crate::text::lemma_text_lt_transitive(b.name, a.name, c.name);
        }
    }
    assert forall|a: ChangeView, b: ChangeView| #[trigger] lt(a, b) implies !lt(b, a) by {
        crate::text::lemma_text_lt_asymmetric(a.name, b.name);
    }
}

/// The changes of a file are sorted by name.
pub proof fn changes_are_sorted_by_name(old: DiffMap, new: DiffMap)
    ensures
        crate::order::in_order(changes(old, new), by_name()),
{
    let lt = by_name();
    lemma_by_name_is_weak();
    crate::order::sorting_orders(
        new_changes(old, new, new.len()) + old_changes(old, new, old.len()),
        lt,
    );
}

/// What stands behind the last colon of a text.
spec fn behind_colon(k: Seq<char>) -> Seq<char>
    decreases k.len(),
{
    if k.len() == 0 || k.last() == ':' {
        Seq::empty()
    } else {
        behind_colon(k.drop_last()).push(k.last())
    }
}

/// Whether a text can stand in front of a name.
spec fn is_prefix(t: Seq<char>) -> bool {
    t.len() == 0 || t.last() == ':'
}

proof fn lemma_behind_colon(prefix: Seq<char>, name: Seq<char>)
    requires
        is_prefix(prefix),
        !name.contains(':'),
    ensures
        behind_colon(prefix + name) == name,
    decreases name.len(),
{
    if name.len() == 0 {
        assert(prefix + name =~= prefix);
        assert(behind_colon(prefix) =~= name);
    } else {
        let rest = name.drop_last();
        assert(name.contains(name.last()));
        assert(!rest.contains(':')) by {
            if rest.contains(':') {
                let k = rest.index_of(':');
                assert(name[k] == ':');
            }
        }
        lemma_behind_colon(prefix, rest);
        assert((prefix + name).drop_last() =~= prefix + rest);
        assert(rest.push(name.last()) =~= name);
    }
}

/// Whether walked items have a prefix in front and a plain name.
spec fn well_walked(w: Seq<(Seq<char>, ItemView)>) -> bool {
    forall|i: int| 0 <= i < w.len() ==> is_prefix((#[trigger] w[i]).0) && plain_name(w[i].1)
}

proof fn lemma_well_walked(s: Seq<ItemView>, prefix: Seq<char>)
    requires
        plain_names(s),
        is_prefix(prefix),
    ensures
        well_walked(walked(s, prefix)),
    decreases s,
{
    if s.len() > 0 {
        lemma_well_walked(s.drop_last(), prefix);
        lemma_well_inside(s.last(), prefix);
    }
}

proof fn lemma_well_inside(item: ItemView, prefix: Seq<char>)
    requires
        plain_name(item),
        is_prefix(prefix),
    ensures
        well_walked(inside(item, prefix)),
    decreases item,
{
    if let BodyView::Module(Some(inner)) = item.body {
        let p = inner_prefix(prefix, item.name);
        reveal_strlit("::");
        assert("::"@.len() == 2);
        assert("::"@[1] == ':');
        assert(p.last() == ':');
        lemma_well_walked(inner, p);
    }
}

/// Whether each entry's name is what stands behind the last colon of its key.
spec fn named_by_key(m: DiffMap) -> bool {
    forall|i: int| 0 <= i < m.len() ==> (#[trigger] m[i]).1.name == behind_colon(m[i].0)
}

proof fn lemma_put_named(m: DiffMap, k: Seq<char>, e: DiffEntryView)
    requires
        named_by_key(m),
        e.name == behind_colon(k),
    ensures
        named_by_key(put(m, k, e)),
    decreases m.len(),
{
    let r = put(m, k, e);
    if m.len() > 0 && m[0].0 != k && !text_lt(k, m[0].0) {
        let rest = m.skip(1);
        assert forall|i: int| 0 <= i < rest.len() implies (#[trigger] rest[i]).1.name
            == behind_colon(rest[i].0) by {
            assert(rest[i] == m[i + 1]);
        }
        lemma_put_named(rest, k, e);
        assert forall|i: int| 0 <= i < r.len() implies (#[trigger] r[i]).1.name == behind_colon(
            r[i].0,
        ) by {
            if i > 0 {
                assert(r[i] == put(rest, k, e)[i - 1]);
            } else {
                assert(r[0] == m[0]);
            }
        }
    } else {
        assert forall|i: int| 0 <= i < r.len() implies (#[trigger] r[i]).1.name == behind_colon(
            r[i].0,
        ) by {
            if i > 0 {
                if m.len() > 0 && m[0].0 == k {
                    assert(r[i] == m[i]);
                } else {
                    assert(r[i] == m[i - 1]);
                }
            }
        }
    }
}

proof fn lemma_map_named(w: Seq<(Seq<char>, ItemView)>)
    requires
        well_walked(w),
    ensures
        named_by_key(diff_map(w)),
    decreases w.len(),
{
    if w.len() > 0 {
        let d = w.drop_last();
        assert forall|i: int| 0 <= i < d.len() implies is_prefix((#[trigger] d[i]).0) && plain_name(
            d[i].1,
        ) by {
            assert(d[i] == w[i]);
        }
        lemma_map_named(d);
        let (prefix, item) = w.last();
        assert(w[w.len() - 1] == w.last());
        match item_symbol(item) {
            Some(s) => {
                lemma_behind_colon(prefix, s.name);
                lemma_put_named(
                    diff_map(d),
                    prefix + s.name,
                    DiffEntryView { name: s.name, kind: s.kind, tokens: item.tokens },
                );
            },
            None => {},
        }
    }
}

proof fn lemma_occurrences_push(s: Seq<ChangeView>, x: ChangeView, name: Seq<char>, change: ItemChange)
    ensures
        occurrences(s.push(x), name, change) == occurrences(s, name, change) + (if x.name == name
            && x.change == change {
            1nat
        } else {
            0nat
        }),
{
    assert(s.push(x).drop_last() =~= s);
}

proof fn lemma_occurrences_add(
    a: Seq<ChangeView>,
    b: Seq<ChangeView>,
    name: Seq<char>,
    change: ItemChange,
)
    ensures
        occurrences(a + b, name, change) == occurrences(a, name, change) + occurrences(
            b,
            name,
            change,
        ),
    decreases b.len(),
{
    if b.len() == 0 {
        assert(a + b =~= a);
    } else {
        lemma_occurrences_add(a, b.drop_last(), name, change);
        assert((a + b).drop_last() =~= a + b.drop_last());
        assert((a + b).last() == b.last());
    }
}

proof fn lemma_occurrences_inserted(
    s: Seq<ChangeView>,
    x: ChangeView,
    name: Seq<char>,
    change: ItemChange,
)
    ensures
        occurrences(crate::order::inserted(s, x, by_name()), name, change) == occurrences(
            s.push(x),
            name,
            change,
        ),
    decreases s.len(),
{
    lemma_occurrences_push(s, x, name, change);
    if s.len() == 0 {
        assert(crate::order::inserted(s, x, by_name()) =~= s.push(x));
    } else if by_name()(x, s.last()) {
        let d = s.drop_last();
        lemma_occurrences_inserted(d, x, name, change);
        lemma_occurrences_push(d, x, name, change);
        lemma_occurrences_push(
            crate::order::inserted(d, x, by_name()),
            s.last(),
            name,
            change,
        );
    }
}

proof fn lemma_occurrences_sorted(s: Seq<ChangeView>, name: Seq<char>, change: ItemChange)
    ensures
        occurrences(sorted(s, by_name()), name, change) == occurrences(s, name, change),
    decreases s.len(),
{
    if s.len() > 0 {
        let d = s.drop_last();
        lemma_occurrences_sorted(d, name, change);
        lemma_occurrences_inserted(sorted(d, by_name()), s.last(), name, change);
        lemma_occurrences_push(sorted(d, by_name()), s.last(), name, change);
    }
}

/// What is added one way is removed the other way.
proof fn lemma_added_is_removed(old: DiffMap, new: DiffMap, name: Seq<char>, n: nat)
    requires
        n <= new.len(),
    ensures
        occurrences(new_changes(old, new, n), name, ItemChange::Added) == occurrences(
            old_changes(new, old, n),
            name,
            ItemChange::Removed,
        ),
        occurrences(new_changes(old, new, n), name, ItemChange::Removed) == 0,
        occurrences(old_changes(new, old, n), name, ItemChange::Added) == 0,
        occurrences(old_changes(new, old, n), name, ItemChange::Modified) == 0,
    decreases n,
{
    if n > 0 {
        lemma_added_is_removed(old, new, name, (n - 1) as nat);
        let a = new_changes(old, new, (n - 1) as nat);
        let b = old_changes(new, old, (n - 1) as nat);
        let x = new_change(old, new[n - 1]);
        let y = old_change(old, new[n - 1]);
        reveal_with_fuel(occurrences, 2);
        lemma_occurrences_add(a, x, name, ItemChange::Added);
        lemma_occurrences_add(a, x, name, ItemChange::Removed);
        lemma_occurrences_add(b, y, name, ItemChange::Removed);
        lemma_occurrences_add(b, y, name, ItemChange::Added);
        lemma_occurrences_add(b, y, name, ItemChange::Modified);
    }
}

/// Whether entry `e` is in `old` with other tokens and has the name.
spec fn differs(old: DiffMap, e: (Seq<char>, DiffEntryView), name: Seq<char>) -> bool {
    e.1.name == name && match lookup(old, e.0) {
        Some(o) => o.tokens != e.1.tokens,
        None => false,
    }
}

/// How many of the first `n` entries of `new` differ from those of `old`.
spec fn differing(old: DiffMap, new: DiffMap, name: Seq<char>, n: nat) -> nat
    decreases n,
{
    if n == 0 {
        0
    } else {
        differing(old, new, name, (n - 1) as nat) + (if differs(old, new[n - 1], name) {
            1nat
        } else {
            0nat
        })
    }
}

proof fn lemma_modified_differ(old: DiffMap, new: DiffMap, name: Seq<char>, n: nat)
    requires
        n <= new.len(),
    ensures
        occurrences(new_changes(old, new, n), name, ItemChange::Modified) == differing(
            old,
            new,
            name,
            n,
        ),
    decreases n,
{
    if n > 0 {
        lemma_modified_differ(old, new, name, (n - 1) as nat);
        reveal_with_fuel(occurrences, 2);
        lemma_occurrences_add(
            new_changes(old, new, (n - 1) as nat),
            new_change(old, new[n - 1]),
            name,
            ItemChange::Modified,
        );
    }
}

/// The last entry counts for its own key alone.
proof fn lemma_lookup_drop_last(m: DiffMap, k: Seq<char>)
    requires
        m.len() > 0,
        k != m.last().0,
    ensures
        lookup(m, k) == lookup(m.drop_last(), k),
    decreases m.len(),
{
    let d = m.drop_last();
    if m.len() == 1 {
        assert(m[0] == m.last());
        assert(lookup(m.skip(1), k) is None);
    } else if m[0].0 == k {
        assert(d[0] == m[0]);
    } else {
        assert(d[0] == m[0]);
        assert(m.skip(1).last() == m.last());
        lemma_lookup_drop_last(m.skip(1), k);
        assert(m.skip(1).drop_last() =~= d.skip(1));
    }
}

/// A key that is in no entry is not found.
proof fn lemma_lookup_absent(m: DiffMap, k: Seq<char>)
    requires
        forall|i: int| 0 <= i < m.len() ==> (#[trigger] m[i]).0 != k,
    ensures
        lookup(m, k) is None,
    decreases m.len(),
{
    if m.len() > 0 {
        assert(m[0].0 != k);
        let rest = m.skip(1);
        assert forall|i: int| 0 <= i < rest.len() implies (#[trigger] rest[i]).0 != k by {
            assert(rest[i] == m[i + 1]);
        }
        lemma_lookup_absent(rest, k);
    }
}

/// The first entries of `new` differ from `old` as they do without its last
/// entry, where none of them has its key.
proof fn lemma_differing_without_last(old: DiffMap, new: DiffMap, name: Seq<char>, n: nat)
    requires
        old.len() > 0,
        n <= new.len(),
        forall|i: int| 0 <= i < n ==> (#[trigger] new[i]).0 != old.last().0,
    ensures
        differing(old, new, name, n) == differing(old.drop_last(), new, name, n),
    decreases n,
{
    if n > 0 {
        lemma_differing_without_last(old, new, name, (n - 1) as nat);
        assert(new[n - 1].0 != old.last().0);
        lemma_lookup_drop_last(old, new[n - 1].0);
    }
}

proof fn lemma_differing_prefix(old: DiffMap, new: DiffMap, name: Seq<char>, n: nat)
    requires
        n < new.len(),
    ensures
        differing(old, new, name, n) == differing(old, new.drop_last(), name, n),
    decreases n,
{
    if n > 0 {
        lemma_differing_prefix(old, new, name, (n - 1) as nat);
    }
}

/// Whether the keys of a map stand in order.
spec fn ordered_map(m: DiffMap) -> bool {
    forall|i: int, j: int| #![trigger m[i], m[j]] 0 <= i < j < m.len() ==> text_lt(m[i].0, m[j].0)
}

proof fn lemma_ordered_map(m: DiffMap)
    requires
        increasing(keys(m)),
    ensures
        ordered_map(m),
{
    assert forall|i: int, j: int| #![trigger m[i], m[j]] 0 <= i < j < m.len() implies text_lt(
        m[i].0,
        m[j].0,
    ) by {
        assert(keys(m)[i] == m[i].0);
        assert(keys(m)[j] == m[j].0);
    }
}

/// An entry behind all of another map has a key that the map does not hold.
proof fn lemma_last_is_new(m: DiffMap, k: Seq<char>)
    requires
        ordered_map(m),
        m.len() > 0 ==> text_lt(m.last().0, k),
    ensures
        forall|i: int| 0 <= i < m.len() ==> (#[trigger] m[i]).0 != k,
        lookup(m, k) is None,
{
    assert forall|i: int| 0 <= i < m.len() implies (#[trigger] m[i]).0 != k by {
        if i < m.len() - 1 {
            assert(text_lt(m[i].0, m[m.len() - 1].0));
            crate::text::lemma_text_lt_transitive(m[i].0, m.last().0, k);
        }
        crate::text::lemma_text_lt_irreflexive(k);
    }
    lemma_lookup_absent(m, k);
}

/// What differs one way differs the other way.
proof fn lemma_differing_both_ways(a: DiffMap, b: DiffMap, name: Seq<char>)
    requires
        ordered_map(a),
        ordered_map(b),
        named_by_key(a),
        named_by_key(b),
    ensures
        differing(a, b, name, b.len()) == differing(b, a, name, a.len()),
    decreases a.len() + b.len(),
{
    if a.len() == 0 {
        assert(a =~= Seq::empty());
        lemma_nothing_differs(b, name, b.len());
    } else if b.len() == 0 {
        assert(b =~= Seq::empty());
        lemma_nothing_differs(a, name, a.len());
    } else {
        let x = a.last();
        let y = b.last();
        let a2 = a.drop_last();
        let b2 = b.drop_last();
        assert(ordered_map(a2) && named_by_key(a2)) by {
            assert forall|i: int| 0 <= i < a2.len() implies #[trigger] a2[i] == a[i] by {}
        }
        assert(ordered_map(b2) && named_by_key(b2)) by {
            assert forall|i: int| 0 <= i < b2.len() implies #[trigger] b2[i] == b[i] by {}
        }
        crate::text::lemma_text_lt_total(x.0, y.0);
        assert(a[a.len() - 1] == x && b[b.len() - 1] == y);
        if x.0 == y.0 {
            lemma_differing_both_ways(a2, b2, name);
            assert forall|i: int| 0 <= i < b2.len() implies (#[trigger] b[i]).0 != x.0 by {
                assert(text_lt(b[i].0, b[b.len() - 1].0));
                crate::text::lemma_text_lt_irreflexive(x.0);
            }
            assert forall|i: int| 0 <= i < a2.len() implies (#[trigger] a[i]).0 != y.0 by {
                assert(text_lt(a[i].0, a[a.len() - 1].0));
                crate::text::lemma_text_lt_irreflexive(y.0);
            }
            lemma_differing_without_last(a, b, name, b2.len());
            lemma_differing_prefix(a2, b, name, b2.len());
            lemma_differing_without_last(b, a, name, a2.len());
            lemma_differing_prefix(b2, a, name, a2.len());
            lemma_found_last(a);
            lemma_found_last(b);
            assert(a[a.len() - 1].1.name == behind_colon(x.0));
            assert(b[b.len() - 1].1.name == behind_colon(y.0));
            assert(differs(a, y, name) == differs(b, x, name));
        } else if text_lt(x.0, y.0) {
            lemma_last_is_new(a, y.0);
            lemma_differing_both_ways(a, b2, name);
            lemma_differing_prefix(a, b, name, b2.len());
            lemma_differing_without_last(b, a, name, a.len());
        } else {
            lemma_last_is_new(b, x.0);
            lemma_differing_both_ways(a2, b, name);
            lemma_differing_prefix(b, a, name, a2.len());
            lemma_differing_without_last(a, b, name, b.len());
        }
    }
}

proof fn lemma_found_last(m: DiffMap)
    requires
        ordered_map(m),
        m.len() > 0,
    ensures
        lookup(m, m.last().0) == Some(m.last().1),
{
    assert(increasing(keys(m))) by {
        let k = keys(m);
        assert forall|i: int, j: int| #![trigger k[i], k[j]] 0 <= i < j < k.len() implies text_lt(
            k[i],
            k[j],
        ) by {
            assert(text_lt(m[i].0, m[j].0));
        }
    }
    lemma_lookup_self(m, m.len() - 1);
}

proof fn lemma_nothing_differs(m: DiffMap, name: Seq<char>, n: nat)
    requires
        n <= m.len(),
    ensures
        differing(Seq::empty(), m, name, n) == 0,
    decreases n,
{
    if n > 0 {
        lemma_nothing_differs(m, name, (n - 1) as nat);
    }
}

/// Comparing in the other direction gives the same names as often, with added
/// and removed ones exchanged. A modified item has the same name in both
/// versions where its qualified name tells its name, that is, where names hold
/// no colon; those of a parsed file hold none.
pub proof fn comparing_backwards_exchanges_changes(
    head: Seq<ItemView>,
    wt: Seq<ItemView>,
    name: Seq<char>,
    change: ItemChange,
)
    ensures
        change != ItemChange::Modified ==> occurrences(
            changes(items_map(head), items_map(wt)),
            name,
            change,
        ) == occurrences(changes(items_map(wt), items_map(head)), name, exchanged(change)),
        plain_names(head) && plain_names(wt) ==> occurrences(
            changes(items_map(head), items_map(wt)),
            name,
            change,
        ) == occurrences(changes(items_map(wt), items_map(head)), name, exchanged(change)),
{
    let a = items_map(head);
    let b = items_map(wt);
    lemma_forward(a, b, name, change);
    lemma_forward(b, a, name, exchanged(change));
    lemma_added_is_removed(a, b, name, b.len());
    lemma_added_is_removed(b, a, name, a.len());
    if change == ItemChange::Modified && plain_names(head) && plain_names(wt) {
        reveal_strlit("");
        lemma_well_walked(head, ""@);
        lemma_well_walked(wt, ""@);
        lemma_map_named(walked(head, ""@));
        lemma_map_named(walked(wt, ""@));
        lemma_diff_map_ordered(walked(head, ""@));
        lemma_diff_map_ordered(walked(wt, ""@));
        lemma_ordered_map(a);
        lemma_ordered_map(b);
        lemma_modified_differ(a, b, name, b.len());
        lemma_modified_differ(b, a, name, a.len());
        lemma_differing_both_ways(a, b, name);
    }
}

/// Where names are identifiers, the comparisons in the two directions mirror
/// each other.
pub proof fn comparing_backwards_mirrors_changes(head: Seq<ItemView>, wt: Seq<ItemView>)
    requires
        plain_names(head),
        plain_names(wt),
    ensures
        mirrored(changes(items_map(head), items_map(wt)), changes(items_map(wt), items_map(head))),
        mirrored(changes(items_map(wt), items_map(head)), changes(items_map(head), items_map(wt))),
{
    let there = changes(items_map(head), items_map(wt));
    let back = changes(items_map(wt), items_map(head));
    assert forall|name: Seq<char>, change: ItemChange| #[trigger]
        occurrences(there, name, change) == occurrences(back, name, exchanged(change)) by {
        comparing_backwards_exchanges_changes(head, wt, name, change);
    }
    assert forall|name: Seq<char>, change: ItemChange| #[trigger]
        occurrences(back, name, change) == occurrences(there, name, exchanged(change)) by {
        comparing_backwards_exchanges_changes(wt, head, name, change);
    }
}

proof fn lemma_all_under(m: DiffMap, n: nat, name: Seq<char>, a: ItemChange, b: ItemChange)
    requires
        n <= m.len(),
        a != b,
    ensures
        occurrences(
            m.take(n as int).map_values(
                |e: (Seq<char>, DiffEntryView)|
                    ChangeView { name: e.1.name, kind: e.1.kind, change: a },
            ),
            name,
            a,
        ) == occurrences(
            m.take(n as int).map_values(
                |e: (Seq<char>, DiffEntryView)|
                    ChangeView { name: e.1.name, kind: e.1.kind, change: b },
            ),
            name,
            b,
        ),
        occurrences(
            m.take(n as int).map_values(
                |e: (Seq<char>, DiffEntryView)|
                    ChangeView { name: e.1.name, kind: e.1.kind, change: a },
            ),
            name,
            b,
        ) == 0,
    decreases n,
{
    if n > 0 {
        let f = |e: (Seq<char>, DiffEntryView)|
            ChangeView { name: e.1.name, kind: e.1.kind, change: a };
        let g = |e: (Seq<char>, DiffEntryView)|
            ChangeView { name: e.1.name, kind: e.1.kind, change: b };
        lemma_all_under(m, (n - 1) as nat, name, a, b);
        let s = m.take(n as int).map_values(f);
        let t = m.take(n as int).map_values(g);
        assert(s.drop_last() =~= m.take(n - 1).map_values(f));
        assert(t.drop_last() =~= m.take(n - 1).map_values(g));
        assert(s.last() == f(m[n - 1]));
        assert(t.last() == g(m[n - 1]));
    }
}

/// A file that is all added one way is all removed the other way.
pub proof fn all_added_mirrors_all_removed(src: Seq<char>, f: FeaturesView)
    ensures
        mirrored(
            all_changed(src, f, ItemChange::Added),
            all_changed(src, f, ItemChange::Removed),
        ),
        mirrored(
            all_changed(src, f, ItemChange::Removed),
            all_changed(src, f, ItemChange::Added),
        ),
{
    if let Some(items) = visible_items(src, f) {
        let m = items_map(items);
        assert(m.take(m.len() as int) =~= m);
        let there = all_changed(src, f, ItemChange::Added);
        let back = all_changed(src, f, ItemChange::Removed);
        assert forall|name: Seq<char>, change: ItemChange|
            occurrences(there, name, change) == occurrences(back, name, exchanged(change))
                && occurrences(back, name, change) == occurrences(there, name, exchanged(change)) by {
            lemma_all_under(m, m.len(), name, ItemChange::Added, ItemChange::Removed);
            lemma_all_under(m, m.len(), name, ItemChange::Removed, ItemChange::Added);
            lemma_all_under(m, m.len(), name, ItemChange::Added, ItemChange::Modified);
            lemma_all_under(m, m.len(), name, ItemChange::Removed, ItemChange::Modified);
        }
    }
}

proof fn lemma_forward(old: DiffMap, new: DiffMap, name: Seq<char>, change: ItemChange)
    ensures
        occurrences(changes(old, new), name, change) == occurrences(
            new_changes(old, new, new.len()),
            name,
            change,
        ) + occurrences(old_changes(old, new, old.len()), name, change),
{
    let a = new_changes(old, new, new.len());
    let b = old_changes(old, new, old.len());
    lemma_occurrences_sorted(a + b, name, change);
    lemma_occurrences_add(a, b, name, change);
}

/// In a map with ordered keys a key is found exactly where an entry has it.
proof fn lemma_lookup_is_entry(m: DiffMap, k: Seq<char>)
    requires
        increasing(keys(m)),
    ensures
        lookup(m, k) is None <==> forall|j: int| 0 <= j < m.len() ==> (#[trigger] m[j]).0 != k,
        forall|j: int| 0 <= j < m.len() && (#[trigger] m[j]).0 == k ==> lookup(m, k) == Some(m[j].1),
{
    if forall|j: int| 0 <= j < m.len() ==> (#[trigger] m[j]).0 != k {
        lemma_lookup_absent(m, k);
    }
    assert forall|j: int| 0 <= j < m.len() && (#[trigger] m[j]).0 == k implies lookup(m, k) == Some(
        m[j].1,
    ) by {
        lemma_lookup_self(m, j);
    }
}

proof fn lemma_new_changes(old: DiffMap, new: DiffMap, n: nat, c: ChangeView)
    requires
        n <= new.len(),
    ensures
        new_changes(old, new, n).contains(c) <==> exists|i: int|
            0 <= i < n && new_change(old, #[trigger] new[i]).contains(c),
    decreases n,
{
    if n > 0 {
        let m = (n - 1) as nat;
        lemma_new_changes(old, new, m, c);
        crate::scan::lemma_contains_add(new_changes(old, new, m), new_change(old, new[n - 1]), c);
    }
}

proof fn lemma_old_changes(old: DiffMap, new: DiffMap, n: nat, c: ChangeView)
    requires
        n <= old.len(),
    ensures
        old_changes(old, new, n).contains(c) <==> exists|i: int|
            0 <= i < n && old_change(new, #[trigger] old[i]).contains(c),
    decreases n,
{
    if n > 0 {
        let m = (n - 1) as nat;
        lemma_old_changes(old, new, m, c);
        crate::scan::lemma_contains_add(old_changes(old, new, m), old_change(new, old[n - 1]), c);
    }
}

proof fn lemma_one_element(x: ChangeView, c: ChangeView)
    ensures
        seq![x].contains(c) <==> c == x,
{
    assert(seq![x][0] == x);
}

proof fn lemma_changes_contain(old: DiffMap, new: DiffMap, c: ChangeView)
    ensures
        changes(old, new).contains(c) <==> (exists|i: int|
            0 <= i < new.len() && new_change(old, #[trigger] new[i]).contains(c)) || (exists|i: int|
            0 <= i < old.len() && old_change(new, #[trigger] old[i]).contains(c)),
        changes(old, new).len() == new_changes(old, new, new.len()).len() + old_changes(
            old,
            new,
            old.len(),
        ).len(),
{
    broadcast use vstd::seq_lib::group_to_multiset_ensures;

    let a = new_changes(old, new, new.len());
    let b = old_changes(old, new, old.len());
    lemma_by_name_is_weak();
    crate::order::sorting_orders(a + b, by_name());
    assert((a + b).to_multiset().contains(c) == changes(old, new).to_multiset().contains(c));
    crate::scan::lemma_contains_add(a, b, c);
    lemma_new_changes(old, new, new.len(), c);
    lemma_old_changes(old, new, old.len(), c);
}

/// What a comparison of two maps reports: an item as added where its key is in
/// the new map alone, as removed where it is in the old map alone, as modified
/// where both maps hold its key with different tokens, whatever the kinds, and
/// nothing else.
pub proof fn changes_are_the_differences(old: DiffMap, new: DiffMap, c: ChangeView)
    requires
        increasing(keys(old)),
        increasing(keys(new)),
    ensures
        c.change == ItemChange::Added ==> (changes(old, new).contains(c) <==> exists|i: int|
            0 <= i < new.len() && (#[trigger] new[i]).1.name == c.name && new[i].1.kind == c.kind
                && forall|j: int| 0 <= j < old.len() ==> (#[trigger] old[j]).0 != new[i].0),
        c.change == ItemChange::Modified ==> (changes(old, new).contains(c) <==> exists|
            i: int,
            j: int,
        |
            0 <= i < new.len() && 0 <= j < old.len() && (#[trigger] new[i]).1.name == c.name
                && new[i].1.kind == c.kind && (#[trigger] old[j]).0 == new[i].0 && old[j].1.tokens
                != new[i].1.tokens),
        c.change == ItemChange::Removed ==> (changes(old, new).contains(c) <==> exists|j: int|
            0 <= j < old.len() && (#[trigger] old[j]).1.name == c.name && old[j].1.kind == c.kind
                && forall|i: int| 0 <= i < new.len() ==> (#[trigger] new[i]).0 != old[j].0),
{
    lemma_changes_contain(old, new, c);
    assert forall|i: int| 0 <= i < new.len() implies (new_change(old, #[trigger] new[i]).contains(c)
        <==> c.name == new[i].1.name && c.kind == new[i].1.kind && match c.change {
        ItemChange::Added => lookup(old, new[i].0) is None,
        ItemChange::Modified => lookup(old, new[i].0) is Some && lookup(old, new[i].0)->0.tokens
            != new[i].1.tokens,
        ItemChange::Removed => false,
    }) by {
        lemma_one_element(
            ChangeView { name: new[i].1.name, kind: new[i].1.kind, change: ItemChange::Added },
            c,
        );
        lemma_one_element(
            ChangeView { name: new[i].1.name, kind: new[i].1.kind, change: ItemChange::Modified },
            c,
        );
    }
    assert forall|i: int| 0 <= i < old.len() implies (old_change(new, #[trigger] old[i]).contains(c)
        <==> c.name == old[i].1.name && c.kind == old[i].1.kind && c.change == ItemChange::Removed
        && lookup(new, old[i].0) is None) by {
        lemma_one_element(
            ChangeView { name: old[i].1.name, kind: old[i].1.kind, change: ItemChange::Removed },
            c,
        );
    }
    assert forall|i: int| 0 <= i < new.len() implies ((lookup(old, (#[trigger] new[i]).0) is None
        <==> forall|j: int| 0 <= j < old.len() ==> (#[trigger] old[j]).0 != new[i].0) && forall|
        j: int,
    |
        0 <= j < old.len() && (#[trigger] old[j]).0 == new[i].0 ==> lookup(old, new[i].0) == Some(
            old[j].1,
        )) by {
        lemma_lookup_is_entry(old, new[i].0);
    }
    assert forall|j: int| 0 <= j < old.len() implies (lookup(new, (#[trigger] old[j]).0) is None
        <==> forall|i: int| 0 <= i < new.len() ==> (#[trigger] new[i]).0 != old[j].0) by {
        lemma_lookup_is_entry(new, old[j].0);
    }
    match c.change {
        ItemChange::Added => {},
        ItemChange::Removed => {},
        ItemChange::Modified => {
            if changes(old, new).contains(c) {
                let i = choose|i: int|
                    0 <= i < new.len() && new_change(old, #[trigger] new[i]).contains(c);
                let j = choose|j: int| 0 <= j < old.len() && (#[trigger] old[j]).0 == new[i].0;
                assert(old[j].0 == new[i].0);
            }
        },
    }
}

/// The tokens under a key, where there are some.
pub open spec fn tokens_under(m: DiffMap, k: Seq<char>) -> Option<Seq<char>> {
    match lookup(m, k) {
        Some(e) => Some(e.tokens),
        None => None,
    }
}

/// The keys under which two maps differ.
pub open spec fn differing_keys(old: DiffMap, new: DiffMap) -> Set<Seq<char>> {
    Set::new(|k: Seq<char>| tokens_under(old, k) != tokens_under(new, k))
}

spec fn new_keys(old: DiffMap, new: DiffMap, n: nat) -> Set<Seq<char>>
    decreases n,
{
    if n == 0 {
        Set::empty()
    } else if new_change(old, new[n - 1]).len() > 0 {
        new_keys(old, new, (n - 1) as nat).insert(new[n - 1].0)
    } else {
        new_keys(old, new, (n - 1) as nat)
    }
}

spec fn old_keys(old: DiffMap, new: DiffMap, n: nat) -> Set<Seq<char>>
    decreases n,
{
    if n == 0 {
        Set::empty()
    } else if old_change(new, old[n - 1]).len() > 0 {
        old_keys(old, new, (n - 1) as nat).insert(old[n - 1].0)
    } else {
        old_keys(old, new, (n - 1) as nat)
    }
}

proof fn lemma_new_keys(old: DiffMap, new: DiffMap, n: nat)
    requires
        increasing(keys(new)),
        n <= new.len(),
    ensures
        new_keys(old, new, n).finite(),
        new_keys(old, new, n).len() == new_changes(old, new, n).len(),
        forall|k: Seq<char>| #[trigger]
            new_keys(old, new, n).contains(k) <==> exists|i: int|
                0 <= i < n && (#[trigger] new[i]).0 == k && new_change(old, new[i]).len() > 0,
    decreases n,
{
    if n > 0 {
        let m = (n - 1) as nat;
        lemma_new_keys(old, new, m);
        lemma_ordered_map(new);
        let k = new[n - 1].0;
        assert(!new_keys(old, new, m).contains(k)) by {
            assert forall|i: int| 0 <= i < m implies (#[trigger] new[i]).0 != k by {
                assert(text_lt(new[i].0, new[n - 1].0));
                crate::text::lemma_text_lt_irreflexive(k);
            }
        }
    }
}

proof fn lemma_old_keys(old: DiffMap, new: DiffMap, n: nat)
    requires
        increasing(keys(old)),
        n <= old.len(),
    ensures
        old_keys(old, new, n).finite(),
        old_keys(old, new, n).len() == old_changes(old, new, n).len(),
        forall|k: Seq<char>| #[trigger]
            old_keys(old, new, n).contains(k) <==> exists|i: int|
                0 <= i < n && (#[trigger] old[i]).0 == k && lookup(new, k) is None,
    decreases n,
{
    if n > 0 {
        let m = (n - 1) as nat;
        lemma_old_keys(old, new, m);
        lemma_ordered_map(old);
        let k = old[n - 1].0;
        assert(!old_keys(old, new, m).contains(k)) by {
            assert forall|i: int| 0 <= i < m implies (#[trigger] old[i]).0 != k by {
                assert(text_lt(old[i].0, old[n - 1].0));
                crate::text::lemma_text_lt_irreflexive(k);
            }
        }
    }
}

/// A comparison reports as many changes as there are keys under which the maps
/// differ: each difference once.
pub proof fn differences_are_reported_once(old: DiffMap, new: DiffMap)
    requires
        increasing(keys(old)),
        increasing(keys(new)),
    ensures
        differing_keys(old, new).finite(),
        changes(old, new).len() == differing_keys(old, new).len(),
{
    let a = new_keys(old, new, new.len());
    let b = old_keys(old, new, old.len());
    lemma_new_keys(old, new, new.len());
    lemma_old_keys(old, new, old.len());
    lemma_changes_contain(
        old,
        new,
        ChangeView { name: Seq::empty(), kind: SymbolKind::Fn, change: ItemChange::Added },
    );
    assert forall|k: Seq<char>| a.contains(k) implies !b.contains(k) by {
        lemma_lookup_is_entry(new, k);
    }
    assert(a.disjoint(b));
    vstd::set_lib::lemma_set_disjoint_lens(a, b);
    assert forall|k: Seq<char>| #[trigger]
        differing_keys(old, new).contains(k) <==> (a + b).contains(k) by {
        lemma_lookup_is_entry(new, k);
        lemma_lookup_is_entry(old, k);
        if a.contains(k) {
            let i = choose|i: int|
                0 <= i < new.len() && (#[trigger] new[i]).0 == k && new_change(old, new[i]).len() > 0;
            assert(lookup(new, k) == Some(new[i].1));
        }
        if tokens_under(old, k) != tokens_under(new, k) {
            if lookup(new, k) is Some {
                let i = choose|i: int| 0 <= i < new.len() && (#[trigger] new[i]).0 == k;
                assert(lookup(new, k) == Some(new[i].1));
                assert(new_change(old, new[i]).len() > 0);
            } else {
                let i = choose|i: int| 0 <= i < old.len() && (#[trigger] old[i]).0 == k;
                assert(old[i].0 == k);
            }
        }
    }
    assert(differing_keys(old, new) =~= a + b);
}

/// The qualified name and the entry of a walked item, where it is tracked.
spec fn entry_of(w: (Seq<char>, ItemView)) -> Option<(Seq<char>, DiffEntryView)> {
    match item_symbol(w.1) {
        Some(s) => Some(
            (w.0 + s.name, DiffEntryView { name: s.name, kind: s.kind, tokens: w.1.tokens }),
        ),
        None => None,
    }
}

spec fn key_of(w: (Seq<char>, ItemView)) -> Seq<char> {
    entry_of(w).unwrap().0
}

/// Under a qualified name a map holds the last walked item of that name, with
/// its own name, kind and tokens; under no other name does it hold one.
pub proof fn maps_hold_the_last_item_of_a_name(w: Seq<(Seq<char>, ItemView)>, k: Seq<char>)
    ensures
        increasing(keys(diff_map(w))),
        match lookup(diff_map(w), k) {
            Some(e) => exists|i: int|
                0 <= i < w.len() && item_symbol((#[trigger] w[i]).1) == Some(
                    SymbolView { name: e.name, kind: e.kind },
                ) && w[i].0 + e.name == k && w[i].1.tokens == e.tokens && forall|j: int|
                    i < j < w.len() ==> item_symbol((#[trigger] w[j]).1) is None || w[j].0
                        + item_symbol(w[j].1)->0.name != k,
            None => forall|i: int|
                0 <= i < w.len() ==> item_symbol((#[trigger] w[i]).1) is None || w[i].0
                    + item_symbol(w[i].1)->0.name != k,
        },
    decreases w.len(),
{
    lemma_diff_map_ordered(w);
    if w.len() > 0 {
        let d = w.drop_last();
        let n = w.len() - 1;
        maps_hold_the_last_item_of_a_name(d, k);
        assert(w[n] == w.last());
        assert forall|i: int| 0 <= i < d.len() implies #[trigger] d[i] == w[i] by {}
        let below = diff_map(d);
        match entry_of(w.last()) {
            Some(e) => {
                crate::textmap::set_values_come_back(below, e.0, e.1, k);
                if e.0 == k {
                    assert(lookup(diff_map(w), k) == Some(e.1));
                } else {
                    assert(lookup(diff_map(w), k) == lookup(below, k));
                }
            },
            None => {
                assert(diff_map(w) == below);
            },
        }
        if lookup(diff_map(w), k) == lookup(below, k) && lookup(below, k) is Some && !(entry_of(
            w.last(),
        ) is Some && key_of(w.last()) == k) {
            let e = lookup(below, k)->0;
            let i = choose|i: int|
                0 <= i < d.len() && item_symbol((#[trigger] d[i]).1) == Some(
                    SymbolView { name: e.name, kind: e.kind },
                ) && d[i].0 + e.name == k && d[i].1.tokens == e.tokens && forall|j: int|
                    i < j < d.len() ==> item_symbol((#[trigger] d[j]).1) is None || d[j].0
                        + item_symbol(d[j].1)->0.name != k;
            assert(w[i] == d[i]);
            assert forall|j: int| i < j < w.len() implies item_symbol((#[trigger] w[j]).1) is None
                || w[j].0 + item_symbol(w[j].1)->0.name != k by {
                if j < n {
                    assert(d[j] == w[j]);
                }
            }
        }
        if lookup(diff_map(w), k) is None {
            assert forall|i: int| 0 <= i < w.len() implies item_symbol((#[trigger] w[i]).1) is None
                || w[i].0 + item_symbol(w[i].1)->0.name != k by {
                if i < n {
                    assert(d[i] == w[i]);
                }
            }
        }
    }
}

/// There is a comparison where a version is there and those that are there
/// parse; a file that is in one version alone need not parse. Two versions are
/// compared by their items under the features.
pub proof fn versions_are_compared_where_they_parse(
    wt: Seq<char>,
    head: Seq<char>,
    f: FeaturesView,
)
    ensures
        file_diff(None, None, f) is None,
        file_diff(Some(wt), None, f) is Some,
        file_diff(None, Some(head), f) is Some,
        file_diff(Some(wt), Some(head), f) is Some <==> visible_items(wt, f) is Some
            && visible_items(head, f) is Some,
        visible_items(wt, f) is Some && visible_items(head, f) is Some ==> file_diff(
            Some(wt),
            Some(head),
            f,
        )->0 == changes(items_map(visible_items(head, f)->0), items_map(visible_items(wt, f)->0)),
{
}

/// Of a file that is in one version alone, every item is added or removed, once,
/// in the order of the qualified names. Of one that does not parse, nothing is.
pub proof fn lone_files_change_item_by_item(src: Seq<char>, f: FeaturesView, i: int)
    ensures
        visible_items(src, f) is None ==> file_diff(Some(src), None, f)->0.len() == 0 && file_diff(
            None,
            Some(src),
            f,
        )->0.len() == 0,
        visible_items(src, f) is Some ==> ({
            let m = items_map(visible_items(src, f)->0);
            let added = file_diff(Some(src), None, f)->0;
            let removed = file_diff(None, Some(src), f)->0;
            &&& added.len() == m.len()
            &&& removed.len() == m.len()
            &&& 0 <= i < m.len() ==> added[i] == (ChangeView {
                name: m[i].1.name,
                kind: m[i].1.kind,
                change: ItemChange::Added,
            }) && removed[i] == (ChangeView {
                name: m[i].1.name,
                kind: m[i].1.kind,
                change: ItemChange::Removed,
            })
        }),
{
}

} // verus!
