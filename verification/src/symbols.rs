//! Source files, the items in them, and the symbols that items define.
use crate::cfg::{parse_and_filter, visible_items, FeatureSet};
use crate::syntax::{
    item_node, item_nodes, lemma_item_nodes, BodyView, ItemBody, ItemKind, ItemView, SourceItem,
};
use vstd::prelude::*;
use vstd::string::*;

verus! {

/// A file of the workspace: its path relative to the root, and its text.
#[derive(Debug, PartialEq, Eq)]
pub struct SourceFile {
    pub path: String,
    pub text: String,
}

/// A [`SourceFile`] as plain data.
pub struct FileView {
    pub path: Seq<char>,
    pub text: Seq<char>,
}

impl View for SourceFile {
    type V = FileView;

    open spec fn view(&self) -> FileView {
        FileView { path: self.path@, text: self.text@ }
    }
}

/// Files as plain data.
pub open spec fn file_views(s: Seq<SourceFile>) -> Seq<FileView> {
    s.map_values(|f: SourceFile| f@)
}

/// Kind of a named item.
#[derive(Debug, Clone, Copy, PartialEq, Eq, Structural)]
pub enum SymbolKind {
    Fn,
    Struct,
    Enum,
    Trait,
    Const,
    Static,
    TypeAlias,
    Union,
    Mod,
}

/// A named item.
#[derive(Debug, PartialEq, Eq)]
pub struct TopLevelSymbol {
    pub name: String,
    pub kind: SymbolKind,
}

/// A [`TopLevelSymbol`] as plain data.
pub struct SymbolView {
    pub name: Seq<char>,
    pub kind: SymbolKind,
}

impl View for TopLevelSymbol {
    type V = SymbolView;

    open spec fn view(&self) -> SymbolView {
        SymbolView { name: self.name@, kind: self.kind }
    }
}

/// Symbols as plain data.
pub open spec fn symbol_views(s: Seq<TopLevelSymbol>) -> Seq<SymbolView> {
    s.map_values(|f: TopLevelSymbol| f@)
}

/// The text in front of the names of a module's items.
pub open spec fn inner_prefix(prefix: Seq<char>, module: Option<Seq<char>>) -> Seq<char> {
    match module {
        Some(m) => prefix + m + "::"@,
        None => prefix + "::"@,
    }
}

/// Every item with the text in front of its name, the items of a module before
/// the module.
pub open spec fn walked(s: Seq<ItemView>, prefix: Seq<char>) -> Seq<(Seq<char>, ItemView)>
    decreases s,
{
    if s.len() == 0 {
        Seq::empty()
    } else {
        walked(s.drop_last(), prefix) + inside(s.last(), prefix) + seq![(prefix, s.last())]
    }
}

/// The items inside an item.
pub open spec fn inside(item: ItemView, prefix: Seq<char>) -> Seq<(Seq<char>, ItemView)>
    decreases item,
{
    match item.body {
        BodyView::Module(Some(inner)) => walked(inner, inner_prefix(prefix, item.name)),
        _ => Seq::empty(),
    }
}

/// Walked items as plain data.
pub open spec fn walk_views(s: Seq<(String, &SourceItem)>) -> Seq<(Seq<char>, ItemView)> {
    s.map_values(|p: (String, &SourceItem)| (p.0@, item_node(*p.1)))
}

/// Every item with the text in front of its name, the items of a module before
/// the module.
pub fn walk<'a>(items: &'a Vec<SourceItem>, prefix: &str) -> (r: Vec<(String, &'a SourceItem)>)
    ensures
        walk_views(r@) == walked(item_nodes(items@), prefix@),
    decreases items,
{
    let ghost views = item_nodes(items@);
    let mut out: Vec<(String, &'a SourceItem)> = Vec::new();
    let mut i: usize = 0;
    proof {
        lemma_item_nodes(items@);
        assert(walk_views(out@) =~= walked(views.take(0), prefix@));
    }
    while i < items.len()
        invariant
            i <= items@.len(),
            views == item_nodes(items@),
            views.len() == items@.len(),
            forall|j: int| 0 <= j < items@.len() ==> #[trigger] views[j] == item_node(items@[j]),
            walk_views(out@) == walked(views.take(i as int), prefix@),
        decreases items@.len() - i,
    {
        let ghost before = out@;
        let ghost view = views[i as int];
        proof {
            assert(view == item_node(items@[i as int]));
            assert(views.take(i + 1).drop_last() =~= views.take(i as int));
            assert(views.take(i + 1).last() == view);
        }
        let ghost mut added: Seq<(String, &SourceItem)> = Seq::empty();
        match &items[i].body {
            ItemBody::Module(Some(inner)) => {
                let mut below = prefix.to_owned();
                match &items[i].name {
                    Some(m) => {
                        below.append(m.as_str());
                        below.append("::");
                    },
                    None => {
                        below.append("::");
                    },
                }
                proof {
                    assert(decreases_to!(*items => items@));
                    assert(decreases_to!(items@ => items@[i as int]));
                    assert(decreases_to!(items@[i as int] => items@[i as int].body));
                    let b = items@[i as int].body;
                    assert(decreases_to!(b => b->Module_0));
                    assert(decreases_to!(b->Module_0 => b->Module_0->0));
                    assert(below@ == inner_prefix(prefix@, view.name));
                }
                let mut more = walk(inner, below.as_str());
                proof {
                    added = more@;
                }
                out.append(&mut more);
            },
            _ => {},
        }
        proof {
            assert(walk_views(added) =~= inside(view, prefix@));
            assert(out@ =~= before + added);
            assert(walk_views(out@) =~= walk_views(before) + walk_views(added));
        }
        let ghost half = out@;
        out.push((prefix.to_owned(), &items[i]));
        proof {
            assert(walk_views(out@) =~= walk_views(half) + seq![(prefix@, view)]);
        }
        i = i + 1;
    }
    proof {
        assert(views.take(items@.len() as int) =~= views);
    }
    out
}

/// The symbol kind of an item kind that is tracked by name.
pub open spec fn tracked_kind(k: ItemKind) -> Option<SymbolKind> {
    match k {
        ItemKind::Fn => Some(SymbolKind::Fn),
        ItemKind::Struct => Some(SymbolKind::Struct),
        ItemKind::Enum => Some(SymbolKind::Enum),
        ItemKind::Trait => Some(SymbolKind::Trait),
        ItemKind::Const => Some(SymbolKind::Const),
        ItemKind::Static => Some(SymbolKind::Static),
        ItemKind::Type => Some(SymbolKind::TypeAlias),
        ItemKind::Union => Some(SymbolKind::Union),
        ItemKind::Mod => Some(SymbolKind::Mod),
        _ => None,
    }
}

fn symbol_kind(k: ItemKind) -> (r: Option<SymbolKind>)
    ensures
        r == tracked_kind(k),
{
    match k {
        ItemKind::Fn => Some(SymbolKind::Fn),
        ItemKind::Struct => Some(SymbolKind::Struct),
        ItemKind::Enum => Some(SymbolKind::Enum),
        ItemKind::Trait => Some(SymbolKind::Trait),
        ItemKind::Const => Some(SymbolKind::Const),
        ItemKind::Static => Some(SymbolKind::Static),
        ItemKind::Type => Some(SymbolKind::TypeAlias),
        ItemKind::Union => Some(SymbolKind::Union),
        ItemKind::Mod => Some(SymbolKind::Mod),
        _ => None,
    }
}

/// The symbol that an item defines.
pub open spec fn item_symbol(item: ItemView) -> Option<SymbolView> {
    match (tracked_kind(item.kind), item.name) {
        (Some(kind), Some(name)) => Some(SymbolView { name, kind }),
        _ => None,
    }
}

/// The symbol that an item defines.
pub fn symbol_of(item: &SourceItem) -> (r: Option<TopLevelSymbol>)
    ensures
        match r {
            Some(s) => item_symbol(item@) == Some(s@),
            None => item_symbol(item@) is None,
        },
{
    match (symbol_kind(item.kind), &item.name) {
        (Some(kind), Some(name)) => Some(TopLevelSymbol { name: name.clone(), kind }),
        _ => None,
    }
}

/// The symbols of walked items.
pub open spec fn walk_symbols(w: Seq<(Seq<char>, ItemView)>) -> Seq<SymbolView>
    decreases w.len(),
{
    if w.len() == 0 {
        Seq::empty()
    } else {
        match item_symbol(w.last().1) {
            Some(s) => walk_symbols(w.drop_last()).push(s),
            None => walk_symbols(w.drop_last()),
        }
    }
}

/// The symbols that items define, at every depth.
pub fn collect_items(items: &Vec<SourceItem>) -> (r: Vec<TopLevelSymbol>)
    ensures
        symbol_views(r@) == walk_symbols(walked(item_nodes(items@), ""@)),
{
    let all = walk(items, "");
    let ghost w = walk_views(all@);
    let mut out: Vec<TopLevelSymbol> = Vec::new();
    let mut i: usize = 0;
    proof {
        assert(symbol_views(out@) =~= walk_symbols(w.take(0)));
    }
    while i < all.len()
        invariant
            i <= all@.len(),
            w == walk_views(all@),
            symbol_views(out@) == walk_symbols(w.take(i as int)),
        decreases all@.len() - i,
    {
        proof {
            assert(w.take(i + 1).drop_last() =~= w.take(i as int));
            assert(w.take(i + 1).last() == w[i as int]);
            assert(w[i as int].1 == item_node(*all@[i as int].1));
        }
        match symbol_of(all[i].1) {
            Some(s) => {
                proof {
                    assert(symbol_views(out@.push(s)) =~= symbol_views(out@).push(s@));
                }
                out.push(s);
            },
            None => {},
        }
        i = i + 1;
    }
    proof {
        assert(w.take(all@.len() as int) =~= w);
    }
    out
}

/// The symbols of a source text, where it parses.
pub open spec fn source_symbols(src: Seq<char>, f: crate::cfg::FeaturesView) -> Option<
    Seq<SymbolView>,
> {
    match visible_items(src, f) {
        Some(items) => Some(walk_symbols(walked(items, ""@))),
        None => None,
    }
}

/// The symbols that a source text defines under a feature set, at every depth.
/// `None` when it does not parse.
pub fn top_level_symbols(src: &str, features: &FeatureSet) -> (r: Option<Vec<TopLevelSymbol>>)
    ensures
        match r {
            Some(v) => source_symbols(src@, features@) == Some(symbol_views(v@)),
            None => source_symbols(src@, features@) is None,
        },
{
    match parse_and_filter(src, features) {
        Some(tree) => Some(collect_items(&tree.items)),
        None => None,
    }
}

/// A walk gives each item with the text in front of its name, and what a walk
/// over the items of a module gives, with the name of the module and `::` in
/// front of them, and nothing else.
pub proof fn walks_give_every_item(
    s: Seq<ItemView>,
    prefix: Seq<char>,
    front: Seq<char>,
    item: ItemView,
)
    ensures
        walked(s, prefix).contains((front, item)) <==> exists|i: int|
            0 <= i < s.len() && ((front == prefix && item == #[trigger] s[i]) || (s[i].body
                matches BodyView::Module(Some(inner)) && walked(
                inner,
                match s[i].name {
                    Some(m) => prefix + m + "::"@,
                    None => prefix + "::"@,
                },
            ).contains((front, item)))),
    decreases s.len(),
{
    let x = (front, item);
    if s.len() > 0 {
        let d = s.drop_last();
        let last = s.last();
        let own = seq![(prefix, last)];
        assert(s[s.len() - 1] == last);
        walks_give_every_item(d, prefix, front, item);
        crate::scan::lemma_contains_add(walked(d, prefix), inside(last, prefix), x);
        crate::scan::lemma_contains_add(walked(d, prefix) + inside(last, prefix), own, x);
        assert(own[0] == (prefix, last));
        assert(own.contains(x) <==> x == (prefix, last));
        assert(inside(last, prefix).contains(x) <==> (last.body matches BodyView::Module(
            Some(inner),
        ) && walked(
            inner,
            match last.name {
                Some(m) => prefix + m + "::"@,
                None => prefix + "::"@,
            },
        ).contains(x)));
        if walked(d, prefix).contains(x) {
            let i = choose|i: int|
                0 <= i < d.len() && ((front == prefix && item == #[trigger] d[i]) || (d[i].body
                    matches BodyView::Module(Some(inner)) && walked(
                    inner,
                    match d[i].name {
                        Some(m) => prefix + m + "::"@,
                        None => prefix + "::"@,
                    },
                ).contains((front, item))));
            assert(s[i] == d[i]);
        }
        if exists|i: int|
            0 <= i < s.len() && ((front == prefix && item == #[trigger] s[i]) || (s[i].body
                matches BodyView::Module(Some(inner)) && walked(
                inner,
                match s[i].name {
                    Some(m) => prefix + m + "::"@,
                    None => prefix + "::"@,
                },
            ).contains((front, item)))) {
            let i = choose|i: int|
                0 <= i < s.len() && ((front == prefix && item == #[trigger] s[i]) || (s[i].body
                    matches BodyView::Module(Some(inner)) && walked(
                    inner,
                    match s[i].name {
                        Some(m) => prefix + m + "::"@,
                        None => prefix + "::"@,
                    },
                ).contains((front, item))));
            if i < d.len() {
                assert(d[i] == s[i]);
            }
        }
    }
}

/// Walks go on item by item: a walk over two lists is a walk over the one, then
/// over the other.
pub proof fn walks_go_item_by_item(a: Seq<ItemView>, b: Seq<ItemView>, prefix: Seq<char>)
    ensures
        walked(a + b, prefix) == walked(a, prefix) + walked(b, prefix),
    decreases b.len(),
{
    if b.len() == 0 {
        assert(a + b =~= a);
        assert(walked(a, prefix) + walked(b, prefix) =~= walked(a, prefix));
    } else {
        let d = b.drop_last();
        walks_go_item_by_item(a, d, prefix);
        assert((a + b).drop_last() =~= a + d);
        assert((a + b).last() == b.last());
        let own = seq![(prefix, b.last())];
        assert(walked(a, prefix) + walked(d, prefix) + inside(b.last(), prefix) + own =~= walked(
            a,
            prefix,
        ) + (walked(d, prefix) + inside(b.last(), prefix) + own));
    }
}

/// An item is a symbol exactly where it has a name and is a function, a struct,
/// an enum, a trait, a constant, a static, a type alias, a union or a module. The
/// symbol has its name and its kind.
pub proof fn named_items_are_symbols(item: ItemView)
    ensures
        item_symbol(item) is Some <==> item.name is Some && !(item.kind == ItemKind::ForeignMod
            || item.kind == ItemKind::Impl || item.kind == ItemKind::Other),
        item_symbol(item) is Some ==> ({
            let s = item_symbol(item)->0;
            &&& Some(s.name) == item.name
            &&& s.kind == SymbolKind::Fn <==> item.kind == ItemKind::Fn
            &&& s.kind == SymbolKind::Struct <==> item.kind == ItemKind::Struct
            &&& s.kind == SymbolKind::Enum <==> item.kind == ItemKind::Enum
            &&& s.kind == SymbolKind::Trait <==> item.kind == ItemKind::Trait
            &&& s.kind == SymbolKind::Const <==> item.kind == ItemKind::Const
            &&& s.kind == SymbolKind::Static <==> item.kind == ItemKind::Static
            &&& s.kind == SymbolKind::TypeAlias <==> item.kind == ItemKind::Type
            &&& s.kind == SymbolKind::Union <==> item.kind == ItemKind::Union
            &&& s.kind == SymbolKind::Mod <==> item.kind == ItemKind::Mod
        }),
{
}

/// The symbols of walked items are those of each item, in order.
pub proof fn symbols_are_listed_item_by_item(
    a: Seq<(Seq<char>, ItemView)>,
    b: Seq<(Seq<char>, ItemView)>,
    x: (Seq<char>, ItemView),
)
    ensures
        walk_symbols(a + b) == walk_symbols(a) + walk_symbols(b),
        item_symbol(x.1) is Some ==> walk_symbols(seq![x]) == seq![item_symbol(x.1)->0],
        item_symbol(x.1) is None ==> walk_symbols(seq![x]).len() == 0,
    decreases b.len(),
{
    assert(seq![x].drop_last() =~= Seq::empty());
    assert(seq![x].last() == x);
    assert(walk_symbols(seq![x].drop_last()) =~= Seq::empty());
    if item_symbol(x.1) is Some {
        assert(walk_symbols(seq![x]) =~= seq![item_symbol(x.1)->0]);
    }
    if b.len() == 0 {
        assert(a + b =~= a);
        assert(walk_symbols(a) + walk_symbols(b) =~= walk_symbols(a));
    } else {
        let d = b.drop_last();
        symbols_are_listed_item_by_item(a, d, x);
        assert((a + b).drop_last() =~= a + d);
        assert((a + b).last() == b.last());
        match item_symbol(b.last().1) {
            Some(s) => {
                assert((walk_symbols(a) + walk_symbols(d)).push(s) =~= walk_symbols(a)
                    + walk_symbols(d).push(s));
            },
            None => {},
        }
    }
}

} // verus!
