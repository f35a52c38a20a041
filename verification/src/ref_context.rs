//! Where in a file a reference stands: in a test, in an impl block or
//! elsewhere.
use crate::finding::{opt_text, SeverityClass};
use crate::scan::{is_marked, marked};
use crate::syntax::{
    attr_nodes, impl_fn_views, item_node, item_nodes, lemma_item_nodes, opt_texts, parse_source,
    AttrNode, AttrView, BodyView, ImplFnNode, ImplFnView, ItemBody, ItemKind, ItemView, SourceItem,
};
use crate::syntax_tree::parsed_source;
use crate::text::same;
use vstd::prelude::*;
use vstd::string::*;

verus! {

/// Where a reference stands.
#[derive(Debug, Clone, Copy, PartialEq, Eq, Structural)]
pub enum ReferenceContext {
    /// In a test or a test module.
    TestFn,
    /// In an impl block.
    ImplBlock,
    /// Elsewhere.
    Caller,
}

/// Severity of a reference by where it stands.
pub open spec fn context_severity(c: ReferenceContext) -> SeverityClass {
    match c {
        ReferenceContext::TestFn => SeverityClass::Low,
        ReferenceContext::ImplBlock => SeverityClass::High,
        ReferenceContext::Caller => SeverityClass::Medium,
    }
}

impl ReferenceContext {
    /// Severity of a reference by where it stands.
    pub fn refined_severity(self) -> (r: SeverityClass)
        ensures
            r == context_severity(self),
    {
        match self {
            ReferenceContext::TestFn => SeverityClass::Low,
            ReferenceContext::ImplBlock => SeverityClass::High,
            ReferenceContext::Caller => SeverityClass::Medium,
        }
    }
}

/// Attribute names that mark test code.
pub open spec fn context_marks() -> Seq<Seq<char>> {
    seq!["test"@, "tokio_test"@, "rstest"@, "proptest"@, "bench"@]
}

/// The last segments of attributes.
pub open spec fn last_segments(attrs: Seq<AttrView>) -> Seq<Option<Seq<char>>> {
    attrs.map_values(|a: AttrView| a.last)
}

/// Whether an attribute marks test code.
pub open spec fn test_marked(attrs: Seq<AttrView>) -> bool {
    marked(last_segments(attrs), context_marks())
}

fn marks() -> (r: Vec<&'static str>)
    ensures
        r@.map_values(|m: &'static str| m@) == context_marks(),
{
    let mut marks: Vec<&'static str> = Vec::new();
    marks.push("test");
    marks.push("tokio_test");
    marks.push("rstest");
    marks.push("proptest");
    marks.push("bench");
    proof {
        assert(marks@.map_values(|m: &'static str| m@) =~= context_marks());
    }
    marks
}

fn has_test_attr(attrs: &Vec<AttrNode>) -> (r: bool)
    ensures
        r == test_marked(attr_nodes(attrs@)),
{
    let mut lasts: Vec<Option<String>> = Vec::new();
    let mut i: usize = 0;
    while i < attrs.len()
        invariant
            i <= attrs@.len(),
            lasts@.len() == i,
            forall|j: int|
                0 <= j < i ==> opt_text(#[trigger] lasts@[j]) == opt_text(attrs@[j].last),
        decreases attrs@.len() - i,
    {
        let last = match &attrs[i].last {
            Some(s) => Some(s.clone()),
            None => None,
        };
        lasts.push(last);
        i = i + 1;
    }
    proof {
        assert(opt_texts(lasts@) =~= last_segments(attr_nodes(attrs@)));
    }
    is_marked(&lasts, &marks())
}

/// Whether an attribute is `cfg(test)`.
pub open spec fn is_cfg_test(a: AttrView) -> bool {
    a.ident == Some("cfg"@) && a.word == Some("test"@)
}

/// Whether a module of this name and with these attributes holds tests: it is
/// called `tests` or carries `#[cfg(test)]`.
pub open spec fn test_module(name: Option<Seq<char>>, attrs: Seq<AttrView>) -> bool {
    name == Some("tests"@) || exists|i: int| 0 <= i < attrs.len() && is_cfg_test(#[trigger] attrs[i])
}

fn is_word(o: &Option<String>, word: &str) -> (r: bool)
    ensures
        r == (opt_text(*o) == Some(word@)),
{
    match o {
        Some(s) => same(s.as_str(), word),
        None => false,
    }
}

fn is_test_module(item: &SourceItem) -> (r: bool)
    ensures
        r == test_module(item_node(*item).name, item_node(*item).attrs),
{
    if is_word(&item.name, "tests") {
        return true;
    }
    let ghost views = attr_nodes(item.attrs@);
    let mut i: usize = 0;
    while i < item.attrs.len()
        invariant
            i <= item.attrs@.len(),
            views == attr_nodes(item.attrs@),
            forall|j: int| 0 <= j < i ==> !is_cfg_test(#[trigger] views[j]),
        decreases item.attrs@.len() - i,
    {
        proof {
            assert(views[i as int] == item.attrs@[i as int]@);
        }
        if is_word(&item.attrs[i].ident, "cfg") && is_word(&item.attrs[i].word, "test") {
            proof {
                assert(is_cfg_test(views[i as int]));
            }
            return true;
        }
        i = i + 1;
    }
    false
}

/// Whether a function of an impl block spans the line and is marked as a test.
pub open spec fn test_method(o: Option<ImplFnView>, line: nat) -> bool {
    match o {
        Some(f) => f.first_line <= line <= f.last_line && marked(f.markers, context_marks()),
        None => false,
    }
}

/// Whether an impl block has a test function that spans the line.
pub open spec fn has_test_method(fns: Seq<Option<ImplFnView>>, line: nat) -> bool {
    exists|i: int| 0 <= i < fns.len() && test_method(#[trigger] fns[i], line)
}

fn finds_test_method(fns: &Vec<Option<ImplFnNode>>, line: u64) -> (r: bool)
    ensures
        r == has_test_method(impl_fn_views(fns@), line as nat),
{
    let ghost views = impl_fn_views(fns@);
    let mut i: usize = 0;
    while i < fns.len()
        invariant
            i <= fns@.len(),
            views == impl_fn_views(fns@),
            forall|j: int| 0 <= j < i ==> !test_method(#[trigger] views[j], line as nat),
        decreases fns@.len() - i,
    {
        let found = match &fns[i] {
            Some(f) => f.first_line <= line && line <= f.last_line && is_marked(
                &f.markers,
                &marks(),
            ),
            None => false,
        };
        proof {
            assert(found == test_method(views[i as int], line as nat));
        }
        if found {
            return true;
        }
        i = i + 1;
    }
    false
}

/// Whether an item spans the line.
pub open spec fn spans(item: ItemView, line: nat) -> bool {
    item.first_line <= line <= item.last_line
}

/// Whether the line stands in test code of an item: anywhere in an item of a
/// test module, in a test function, or in a test function of an impl block.
pub open spec fn in_test_code(item: ItemView, line: nat, in_test_mod: bool) -> bool
    decreases item,
{
    spans(item, line) && (in_test_mod || match item.body {
        BodyView::Module(Some(inner)) => some_in_test_code(
            inner,
            line,
            test_module(item.name, item.attrs),
        ),
        BodyView::Module(None) => false,
        BodyView::Leaf(l) => match item.kind {
            ItemKind::Fn => test_marked(item.attrs),
            ItemKind::Impl => has_test_method(l.impl_fns, line),
            _ => false,
        },
    })
}

/// Whether the line stands in test code of one of the items.
pub open spec fn some_in_test_code(items: Seq<ItemView>, line: nat, in_test_mod: bool) -> bool
    decreases items,
{
    items.len() > 0 && (some_in_test_code(items.drop_last(), line, in_test_mod) || in_test_code(
        items.last(),
        line,
        in_test_mod,
    ))
}

/// Whether the line stands in an impl block of an item.
pub open spec fn in_impl(item: ItemView, line: nat) -> bool
    decreases item,
{
    spans(item, line) && match item.body {
        BodyView::Module(Some(inner)) => some_in_impl(inner, line),
        BodyView::Module(None) => false,
        BodyView::Leaf(_) => item.kind == ItemKind::Impl,
    }
}

/// Whether the line stands in an impl block of one of the items.
pub open spec fn some_in_impl(items: Seq<ItemView>, line: nat) -> bool
    decreases items,
{
    items.len() > 0 && (some_in_impl(items.drop_last(), line) || in_impl(items.last(), line))
}

/// Where a line stands among items. Test code goes before impl blocks, and
/// impl blocks before the rest.
pub open spec fn context_at(items: Seq<ItemView>, line: nat) -> ReferenceContext {
    if some_in_test_code(items, line, false) {
        ReferenceContext::TestFn
    } else if some_in_impl(items, line) {
        ReferenceContext::ImplBlock
    } else {
        ReferenceContext::Caller
    }
}

/// Where a line of a source text stands; `Caller` when it does not parse.
pub open spec fn source_context(src: Seq<char>, line: nat) -> ReferenceContext {
    match parsed_source(src) {
        Some(tree) => context_at(tree.items, line),
        None => ReferenceContext::Caller,
    }
}

fn visit_tests(items: &Vec<SourceItem>, line: u64, in_test_mod: bool) -> (r: bool)
    ensures
        r == some_in_test_code(item_nodes(items@), line as nat, in_test_mod),
    decreases items,
{
    let ghost views = item_nodes(items@);
    let mut found: bool = false;
    let mut i: usize = 0;
    proof {
        lemma_item_nodes(items@);
    }
    while i < items.len()
        invariant
            i <= items@.len(),
            views == item_nodes(items@),
            views.len() == items@.len(),
            forall|j: int| 0 <= j < items@.len() ==> #[trigger] views[j] == item_node(items@[j]),
            found == some_in_test_code(views.take(i as int), line as nat, in_test_mod),
        decreases items@.len() - i,
    {
        let ghost view = views[i as int];
        proof {
            assert(view == item_node(items@[i as int]));
            assert(views.take(i + 1).drop_last() =~= views.take(i as int));
            assert(views.take(i + 1).last() == view);
        }
        let item = &items[i];
        if item.first_line <= line && line <= item.last_line {
            let here = in_test_mod || match &item.body {
                ItemBody::Module(Some(inner)) => {
                    proof {
                        assert(decreases_to!(*items => items@));
                        assert(decreases_to!(items@ => items@[i as int]));
                        assert(decreases_to!(items@[i as int] => items@[i as int].body));
                        let b = items@[i as int].body;
                        assert(decreases_to!(b => b->Module_0));
                        assert(decreases_to!(b->Module_0 => b->Module_0->0));
                    }
                    visit_tests(inner, line, is_test_module(item))
                },
                ItemBody::Module(None) => false,
                ItemBody::Leaf(l) => match item.kind {
                    ItemKind::Fn => has_test_attr(&item.attrs),
                    ItemKind::Impl => finds_test_method(&l.impl_fns, line),
                    _ => false,
                },
            };
            proof {
                assert(here == in_test_code(view, line as nat, in_test_mod));
            }
            found = found || here;
        } else {
            proof {
                assert(!in_test_code(view, line as nat, in_test_mod));
            }
        }
        i = i + 1;
    }
    proof {
        assert(views.take(items@.len() as int) =~= views);
    }
    found
}

fn visit_impls(items: &Vec<SourceItem>, line: u64) -> (r: bool)
    ensures
        r == some_in_impl(item_nodes(items@), line as nat),
    decreases items,
{
    let ghost views = item_nodes(items@);
    let mut found: bool = false;
    let mut i: usize = 0;
    proof {
        lemma_item_nodes(items@);
    }
    while i < items.len()
        invariant
            i <= items@.len(),
            views == item_nodes(items@),
            views.len() == items@.len(),
            forall|j: int| 0 <= j < items@.len() ==> #[trigger] views[j] == item_node(items@[j]),
            found == some_in_impl(views.take(i as int), line as nat),
        decreases items@.len() - i,
    {
        let ghost view = views[i as int];
        proof {
            assert(view == item_node(items@[i as int]));
            assert(views.take(i + 1).drop_last() =~= views.take(i as int));
            assert(views.take(i + 1).last() == view);
        }
        let item = &items[i];
        if item.first_line <= line && line <= item.last_line {
            let here = match &item.body {
                ItemBody::Module(Some(inner)) => {
                    proof {
                        assert(decreases_to!(*items => items@));
                        assert(decreases_to!(items@ => items@[i as int]));
                        assert(decreases_to!(items@[i as int] => items@[i as int].body));
                        let b = items@[i as int].body;
                        assert(decreases_to!(b => b->Module_0));
                        assert(decreases_to!(b->Module_0 => b->Module_0->0));
                    }
                    visit_impls(inner, line)
                },
                ItemBody::Module(None) => false,
                ItemBody::Leaf(_) => item.kind == ItemKind::Impl,
            };
            proof {
                assert(here == in_impl(view, line as nat));
            }
            found = found || here;
        } else {
            proof {
                assert(!in_impl(view, line as nat));
            }
        }
        i = i + 1;
    }
    proof {
        assert(views.take(items@.len() as int) =~= views);
    }
    found
}

/// Where a line stands among the items of a file.
pub fn classify_in_file(items: &Vec<SourceItem>, line_1based: u32) -> (r: ReferenceContext)
    ensures
        r == context_at(item_nodes(items@), line_1based as nat),
{
    if visit_tests(items, line_1based as u64, false) {
        ReferenceContext::TestFn
    } else if visit_impls(items, line_1based as u64) {
        ReferenceContext::ImplBlock
    } else {
        ReferenceContext::Caller
    }
}

/// Where a line of a source text stands, counted from 1. `Caller` when there
/// is no text or it does not parse.
pub fn classify(src: Option<&str>, line_1based: u32) -> (r: ReferenceContext)
    ensures
        r == match src {
            Some(s) => source_context(s@, line_1based as nat),
            None => ReferenceContext::Caller,
        },
{
    match src {
        None => ReferenceContext::Caller,
        Some(s) => match parse_source(s) {
            Some(tree) => classify_in_file(&tree.items, line_1based),
            None => ReferenceContext::Caller,
        },
    }
}

/// In a test module, a line of any item is test code, whatever the item is and
/// whatever it is marked with.
pub proof fn test_modules_hold_test_code(
    module: ItemView,
    inner: Seq<ItemView>,
    i: int,
    line: nat,
)
    requires
        module.body == BodyView::Module(Some(inner)),
        test_module(module.name, module.attrs),
        spans(module, line),
        0 <= i < inner.len(),
        spans(inner[i], line),
    ensures
        context_at(seq![module], line) == ReferenceContext::TestFn,
{
    lemma_one_is_enough(inner, i, line);
    let s = seq![module];
    assert(s.last() == module);
    assert(in_test_code(module, line, false));
}

proof fn lemma_one_is_enough(items: Seq<ItemView>, i: int, line: nat)
    requires
        0 <= i < items.len(),
        in_test_code(items[i], line, true),
    ensures
        some_in_test_code(items, line, true),
    decreases items.len(),
{
    if i < items.len() - 1 {
        lemma_one_is_enough(items.drop_last(), i, line);
    }
}

/// Whether the last segment of an attribute is one that marks test code.
pub open spec fn is_test_word(w: Option<Seq<char>>) -> bool {
    w == Some("test"@) || w == Some("tokio_test"@) || w == Some("rstest"@) || w == Some(
        "proptest"@,
    ) || w == Some("bench"@)
}

proof fn lemma_context_marks(markers: Seq<Option<Seq<char>>>)
    ensures
        marked(markers, context_marks()) <==> exists|k: int|
            0 <= k < markers.len() && is_test_word(#[trigger] markers[k]),
{
    let m = context_marks();
    assert(m[0] == "test"@ && m[1] == "tokio_test"@ && m[2] == "rstest"@ && m[3] == "proptest"@
        && m[4] == "bench"@);
    assert(m.contains("test"@) && m.contains("tokio_test"@) && m.contains("rstest"@) && m.contains(
        "proptest"@,
    ) && m.contains("bench"@));
    if marked(markers, m) {
        let i = choose|i: int|
            0 <= i < markers.len() && (#[trigger] markers[i]) is Some && m.contains(markers[i]->0);
        assert(is_test_word(markers[i]));
    }
    if exists|k: int| 0 <= k < markers.len() && is_test_word(#[trigger] markers[k]) {
        let k = choose|k: int| 0 <= k < markers.len() && is_test_word(#[trigger] markers[k]);
        assert(markers[k] is Some && m.contains(markers[k]->0));
    }
}

/// A line is in test code of a list of items exactly where it is in that of one
/// of them, and in an impl block of them likewise.
pub proof fn lines_are_looked_for_in_every_item(items: Seq<ItemView>, line: nat, in_test_mod: bool)
    ensures
        some_in_test_code(items, line, in_test_mod) <==> exists|i: int|
            0 <= i < items.len() && in_test_code(#[trigger] items[i], line, in_test_mod),
        some_in_impl(items, line) <==> exists|i: int|
            0 <= i < items.len() && in_impl(#[trigger] items[i], line),
    decreases items.len(),
{
    if items.len() > 0 {
        let d = items.drop_last();
        lines_are_looked_for_in_every_item(d, line, in_test_mod);
        assert(items[items.len() - 1] == items.last());
        if some_in_test_code(d, line, in_test_mod) {
            let i = choose|i: int|
                0 <= i < d.len() && in_test_code(#[trigger] d[i], line, in_test_mod);
            assert(items[i] == d[i]);
        }
        if some_in_impl(d, line) {
            let i = choose|i: int| 0 <= i < d.len() && in_impl(#[trigger] d[i], line);
            assert(items[i] == d[i]);
        }
        if exists|i: int|
            0 <= i < items.len() && in_test_code(#[trigger] items[i], line, in_test_mod) {
            let i = choose|i: int|
                0 <= i < items.len() && in_test_code(#[trigger] items[i], line, in_test_mod);
            if i < d.len() {
                assert(d[i] == items[i]);
            }
        }
        if exists|i: int| 0 <= i < items.len() && in_impl(#[trigger] items[i], line) {
            let i = choose|i: int| 0 <= i < items.len() && in_impl(#[trigger] items[i], line);
            if i < d.len() {
                assert(d[i] == items[i]);
            }
        }
    }
}

/// Where a line of one item stands. Outside the lines of the item it is in
/// neither. In a function it is test code where an attribute marks the function,
/// in an impl block where one of its functions spans the line and is marked; an
/// impl block holds all of its lines. In a module it is where the items of the
/// module say, all of them test code where the module is called `tests` or has
/// `cfg(test)`.
pub proof fn lines_of_an_item_go_by_its_form(item: ItemView, line: nat)
    ensures
        !(item.first_line <= line <= item.last_line) ==> !in_test_code(item, line, true)
            && !in_test_code(item, line, false) && !in_impl(item, line),
        item.first_line <= line <= item.last_line ==> in_test_code(item, line, true),
        item.first_line <= line <= item.last_line && item.body is Leaf ==> (in_impl(item, line)
            <==> item.kind == ItemKind::Impl),
        item.first_line <= line <= item.last_line && item.body is Leaf && item.kind == ItemKind::Fn
            ==> (in_test_code(item, line, false) <==> exists|k: int|
            0 <= k < item.attrs.len() && is_test_word((#[trigger] item.attrs[k]).last)),
        item.first_line <= line <= item.last_line && item.body is Leaf && item.kind
            == ItemKind::Impl ==> (in_test_code(item, line, false) <==> exists|i: int, k: int|
            #![trigger item.body->Leaf_0.impl_fns[i]->0.markers[k]]
            0 <= i < item.body->Leaf_0.impl_fns.len() && item.body->Leaf_0.impl_fns[i] is Some
                && item.body->Leaf_0.impl_fns[i]->0.first_line <= line
                <= item.body->Leaf_0.impl_fns[i]->0.last_line && 0 <= k
                < item.body->Leaf_0.impl_fns[i]->0.markers.len() && is_test_word(
                item.body->Leaf_0.impl_fns[i]->0.markers[k],
            )),
        item.body is Leaf && item.kind != ItemKind::Fn && item.kind != ItemKind::Impl
            ==> !in_test_code(item, line, false),
        item.body == BodyView::Module(None) ==> !in_test_code(item, line, false) && !in_impl(
            item,
            line,
        ),
        item.first_line <= line <= item.last_line ==> (item.body matches BodyView::Module(
            Some(inner),
        ) ==> in_impl(item, line) == some_in_impl(inner, line) && in_test_code(item, line, false)
            == some_in_test_code(
            inner,
            line,
            item.name == Some("tests"@) || exists|k: int|
                0 <= k < item.attrs.len() && (#[trigger] item.attrs[k]).ident == Some("cfg"@)
                    && item.attrs[k].word == Some("test"@),
        )),
{
    match item.body {
        BodyView::Leaf(l) => {
            let lasts = last_segments(item.attrs);
            lemma_context_marks(lasts);
            if item.kind == ItemKind::Fn {
                if test_marked(item.attrs) {
                    let k = choose|k: int|
                        0 <= k < lasts.len() && is_test_word(#[trigger] lasts[k]);
                    assert(is_test_word(item.attrs[k].last));
                }
                if exists|k: int|
                    0 <= k < item.attrs.len() && is_test_word((#[trigger] item.attrs[k]).last) {
                    let k = choose|k: int|
                        0 <= k < item.attrs.len() && is_test_word((#[trigger] item.attrs[k]).last);
                    assert(is_test_word(lasts[k]));
                }
            }
            if item.kind == ItemKind::Impl {
                let fns = l.impl_fns;
                if has_test_method(fns, line) {
                    let i = choose|i: int| 0 <= i < fns.len() && test_method(#[trigger] fns[i], line);
                    lemma_context_marks(fns[i]->0.markers);
                    let k = choose|k: int|
                        0 <= k < fns[i]->0.markers.len() && is_test_word(
                            #[trigger] fns[i]->0.markers[k],
                        );
                    assert(is_test_word(fns[i]->0.markers[k]));
                }
                if exists|i: int, k: int|
                    #![trigger fns[i]->0.markers[k]]
                    0 <= i < fns.len() && fns[i] is Some && fns[i]->0.first_line <= line
                        <= fns[i]->0.last_line && 0 <= k < fns[i]->0.markers.len() && is_test_word(
                        fns[i]->0.markers[k],
                    ) {
                    let (i, k) = choose|i: int, k: int|
                        #![trigger fns[i]->0.markers[k]]
                        0 <= i < fns.len() && fns[i] is Some && fns[i]->0.first_line <= line
                            <= fns[i]->0.last_line && 0 <= k < fns[i]->0.markers.len()
                            && is_test_word(fns[i]->0.markers[k]);
                    lemma_context_marks(fns[i]->0.markers);
                    assert(test_method(fns[i], line));
                }
            }
        },
        BodyView::Module(Some(inner)) => {
            let named = exists|k: int|
                0 <= k < item.attrs.len() && (#[trigger] item.attrs[k]).ident == Some("cfg"@)
                    && item.attrs[k].word == Some("test"@);
            assert(named <==> exists|i: int|
                0 <= i < item.attrs.len() && is_cfg_test(#[trigger] item.attrs[i])) by {
                if named {
                    let k = choose|k: int|
                        0 <= k < item.attrs.len() && (#[trigger] item.attrs[k]).ident == Some(
                            "cfg"@,
                        ) && item.attrs[k].word == Some("test"@);
                    assert(is_cfg_test(item.attrs[k]));
                }
                if exists|i: int| 0 <= i < item.attrs.len() && is_cfg_test(#[trigger] item.attrs[i]) {
                    let k = choose|i: int|
                        0 <= i < item.attrs.len() && is_cfg_test(#[trigger] item.attrs[i]);
                    assert(item.attrs[k].ident == Some("cfg"@));
                }
            }
        },
        BodyView::Module(None) => {},
    }
}

/// Test code goes before impl blocks and these before the rest; a reference in an
/// impl block is graver than one of a caller, and that is graver than one in a
/// test.
pub proof fn contexts_exclude_each_other(items: Seq<ItemView>, line: nat)
    ensures
        context_at(items, line) == ReferenceContext::TestFn <==> some_in_test_code(
            items,
            line,
            false,
        ),
        context_at(items, line) == ReferenceContext::ImplBlock <==> !some_in_test_code(
            items,
            line,
            false,
        ) && some_in_impl(items, line),
        context_at(items, line) == ReferenceContext::Caller <==> !some_in_test_code(
            items,
            line,
            false,
        ) && !some_in_impl(items, line),
        context_severity(ReferenceContext::ImplBlock) == SeverityClass::High,
        context_severity(ReferenceContext::Caller) == SeverityClass::Medium,
        context_severity(ReferenceContext::TestFn) == SeverityClass::Low,
{
}

} // verus!
