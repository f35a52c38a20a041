//! Rust source as plain data: what the analyses read of a parsed file.
//!
//! `syn` parses a file; this module reads the syntax tree node by node and
//! turns it into [`SourceItem`] values, which hold names, attributes, token
//! text and the sites that the analyses look for. The analyses work on these
//! values alone.
use crate::finding::opt_text;
use crate::syntax_tree::{
    attr_many, attr_names, attr_paths, attr_single, attr_view, attrs_are, enum_variants,
    file_attrs, file_view, fn_signature, foreign_signatures, impl_functions, into_items,
    item_extent, item_joint, item_kind, item_name, item_view, items_are, leaf_of, meta_many,
    meta_names, meta_paths, meta_single, meta_view, metas_are, mod_items, named_item_attrs,
    other_item_attrs, parse_file, parsed_source, struct_fields, trait_frame_parts, trait_methods,
    walk_attr, walk_item,
};
use crate::text::texts;
use vstd::prelude::*;

verus! {

// ---------------------------------------------------------------------------
// Plain data
// ---------------------------------------------------------------------------

/// What kind of item a [`SourceItem`] is.
#[derive(Debug, Clone, Copy, PartialEq, Eq, Structural)]
pub enum ItemKind {
    Const,
    Enum,
    Fn,
    ForeignMod,
    Impl,
    Mod,
    Static,
    Struct,
    Trait,
    Type,
    Union,
    Other,
}

/// Shape of an attribute argument.
#[derive(Debug, Clone, Copy, PartialEq, Eq, Structural)]
pub enum MetaKind {
    /// `name`
    Path,
    /// `name = value`
    NameValue,
    /// `name(...)`
    List,
}

/// An attribute argument.
#[derive(Debug, PartialEq, Eq)]
pub struct MetaNode {
    pub kind: MetaKind,
    /// The path, where it is a single identifier.
    pub ident: Option<String>,
    /// The value, where it is a string literal.
    pub text: Option<String>,
    /// The list contents, where they are one argument.
    pub single: Option<Box<MetaNode>>,
    /// The list contents, where they are arguments between commas.
    pub many: Option<Vec<MetaNode>>,
    /// The list contents, where they are paths between commas: the last
    /// segment of each.
    pub paths: Option<Vec<Option<String>>>,
}

/// An attribute.
#[derive(Debug, PartialEq, Eq)]
pub struct AttrNode {
    /// The path, where it is a single identifier.
    pub ident: Option<String>,
    /// The last segment of the path.
    pub last: Option<String>,
    /// The argument, where it is one identifier.
    pub word: Option<String>,
    /// The arguments, where they are one argument.
    pub single: Option<MetaNode>,
    /// The arguments, where they are arguments between commas.
    pub many: Option<Vec<MetaNode>>,
    /// The arguments, where they are paths between commas: the last segment
    /// of each.
    pub paths: Option<Vec<Option<String>>>,
    /// What a walk over the value meets.
    pub sites: Sites,
}

/// A method of a trait.
#[derive(Debug, PartialEq, Eq)]
pub struct MethodNode {
    pub name: String,
    pub sig: String,
    /// The default body, where there is one.
    pub body: Option<String>,
}

/// A function inside an impl block: the last segments of its attributes and
/// the lines it spans.
#[derive(Debug, PartialEq, Eq)]
pub struct ImplFnNode {
    pub markers: Vec<Option<String>>,
    pub first_line: u64,
    pub last_line: u64,
}

/// A function at any depth: its name, the last segments of its attributes and
/// the text of its body.
#[derive(Debug, PartialEq, Eq)]
pub struct FnSite {
    pub name: String,
    pub markers: Vec<Option<String>>,
    pub body: String,
}

/// An impl block at any depth: the last segment of its trait, and its type as
/// the last segment of a path and as text.
#[derive(Debug, PartialEq, Eq)]
pub struct ImplSite {
    pub trait_name: Option<String>,
    pub self_name: Option<String>,
    pub self_text: String,
}

/// A method call at any depth: its name, whether it has arguments, the first
/// one where it is a string literal, and all of them as text.
#[derive(Debug, PartialEq, Eq)]
pub struct CallSite {
    pub method: String,
    pub has_args: bool,
    pub first_text: Option<String>,
    pub args: String,
}

/// What a walk over a part of a file meets, at any depth and in the order of
/// the walk.
#[derive(Debug, PartialEq, Eq)]
pub struct Sites {
    /// Functions, the item itself too.
    pub fns: Vec<FnSite>,
    /// Impl blocks, the item itself too.
    pub impls: Vec<ImplSite>,
    /// Traits that `dyn` types name.
    pub dyn_traits: Vec<Option<String>>,
    /// Method calls.
    pub calls: Vec<CallSite>,
}

/// What is read of an item that is no module.
#[derive(Debug, PartialEq, Eq)]
pub struct LeafNode {
    /// Signature of a function, and whether it names an ABI.
    pub signature: Option<(String, bool)>,
    /// Fields of a struct as text.
    pub fields: Option<String>,
    /// Variants of an enum: name, and fields as text.
    pub variants: Vec<(String, String)>,
    /// Unsafety, auto marker, generics, supertraits and where clause of a trait
    /// as text.
    pub frame: Vec<String>,
    /// Items of a trait that are methods.
    pub methods: Vec<Option<MethodNode>>,
    /// Items of a foreign block that are functions or statics: name and text.
    pub foreign: Vec<Option<(String, String)>>,
    /// Items of an impl block that are functions.
    pub impl_fns: Vec<Option<ImplFnNode>>,
    /// What a walk over the item meets.
    pub sites: Sites,
}

/// What an item holds.
#[derive(Debug, PartialEq, Eq)]
pub enum ItemBody {
    /// The items of a module, where they are written in place.
    Module(Option<Vec<SourceItem>>),
    Leaf(LeafNode),
}

/// An item of a source file.
#[derive(Debug, PartialEq, Eq)]
pub struct SourceItem {
    pub kind: ItemKind,
    /// Name of an item that has one.
    pub name: Option<String>,
    pub attrs: Vec<AttrNode>,
    pub tokens: String,
    /// Whether the last token is a mark that stood directly before another one.
    pub joint: bool,
    pub first_line: u64,
    pub last_line: u64,
    pub body: ItemBody,
}

/// A source file.
#[derive(Debug, PartialEq, Eq)]
pub struct SourceTree {
    /// The attributes of the file itself.
    pub attrs: Vec<AttrNode>,
    pub items: Vec<SourceItem>,
}

// ---------------------------------------------------------------------------
// Views
// ---------------------------------------------------------------------------

/// Optional texts as plain data.
pub open spec fn opt_texts(s: Seq<Option<String>>) -> Seq<Option<Seq<char>>> {
    s.map_values(|o: Option<String>| opt_text(o))
}

/// An optional list of optional texts as plain data.
pub open spec fn opt_paths(o: Option<Vec<Option<String>>>) -> Option<Seq<Option<Seq<char>>>> {
    match o {
        Some(v) => Some(opt_texts(v@)),
        None => None,
    }
}

/// A [`MetaNode`] as plain data.
pub struct MetaView {
    pub kind: MetaKind,
    pub ident: Option<Seq<char>>,
    pub text: Option<Seq<char>>,
    pub single: Option<Box<MetaView>>,
    pub many: Option<Seq<MetaView>>,
    pub paths: Option<Seq<Option<Seq<char>>>>,
}

/// A [`MetaNode`] as plain data.
pub open spec fn meta_node(n: MetaNode) -> MetaView
    decreases n,
{
    MetaView {
        kind: n.kind,
        ident: opt_text(n.ident),
        text: opt_text(n.text),
        single: match n.single {
            Some(b) => Some(Box::new(meta_node(*b))),
            None => None,
        },
        many: match n.many {
            Some(v) => Some(meta_nodes(v@)),
            None => None,
        },
        paths: opt_paths(n.paths),
    }
}

/// Several [`MetaNode`]s as plain data.
pub open spec fn meta_nodes(s: Seq<MetaNode>) -> Seq<MetaView>
    decreases s,
{
    if s.len() == 0 {
        Seq::empty()
    } else {
        meta_nodes(s.drop_last()).push(meta_node(s.last()))
    }
}

/// [`meta_nodes`], element by element.
pub proof fn lemma_meta_nodes(s: Seq<MetaNode>)
    ensures
        meta_nodes(s).len() == s.len(),
        forall|i: int| 0 <= i < s.len() ==> #[trigger] meta_nodes(s)[i] == meta_node(s[i]),
    decreases s.len(),
{
    if s.len() > 0 {
        lemma_meta_nodes(s.drop_last());
    }
}

impl View for MetaNode {
    type V = MetaView;

    open spec fn view(&self) -> MetaView {
        meta_node(*self)
    }
}

/// An [`AttrNode`] as plain data.
pub struct AttrView {
    pub ident: Option<Seq<char>>,
    pub last: Option<Seq<char>>,
    pub word: Option<Seq<char>>,
    pub single: Option<MetaView>,
    pub many: Option<Seq<MetaView>>,
    pub paths: Option<Seq<Option<Seq<char>>>>,
    pub sites: SitesView,
}

impl View for AttrNode {
    type V = AttrView;

    open spec fn view(&self) -> AttrView {
        AttrView {
            ident: opt_text(self.ident),
            last: opt_text(self.last),
            word: opt_text(self.word),
            single: match self.single {
                Some(m) => Some(meta_node(m)),
                None => None,
            },
            many: match self.many {
                Some(v) => Some(meta_nodes(v@)),
                None => None,
            },
            paths: opt_paths(self.paths),
            sites: self.sites@,
        }
    }
}

/// Attributes as plain data.
pub open spec fn attr_nodes(s: Seq<AttrNode>) -> Seq<AttrView> {
    s.map_values(|a: AttrNode| a@)
}

/// A [`MethodNode`] as plain data.
pub struct MethodView {
    pub name: Seq<char>,
    pub sig: Seq<char>,
    pub body: Option<Seq<char>>,
}

impl View for MethodNode {
    type V = MethodView;

    open spec fn view(&self) -> MethodView {
        MethodView { name: self.name@, sig: self.sig@, body: opt_text(self.body) }
    }
}

/// An [`ImplFnNode`] as plain data.
pub struct ImplFnView {
    pub markers: Seq<Option<Seq<char>>>,
    pub first_line: nat,
    pub last_line: nat,
}

impl View for ImplFnNode {
    type V = ImplFnView;

    open spec fn view(&self) -> ImplFnView {
        ImplFnView {
            markers: opt_texts(self.markers@),
            first_line: self.first_line as nat,
            last_line: self.last_line as nat,
        }
    }
}

/// A [`FnSite`] as plain data.
pub struct FnSiteView {
    pub name: Seq<char>,
    pub markers: Seq<Option<Seq<char>>>,
    pub body: Seq<char>,
}

impl View for FnSite {
    type V = FnSiteView;

    open spec fn view(&self) -> FnSiteView {
        FnSiteView { name: self.name@, markers: opt_texts(self.markers@), body: self.body@ }
    }
}

/// An [`ImplSite`] as plain data.
pub struct ImplSiteView {
    pub trait_name: Option<Seq<char>>,
    pub self_name: Option<Seq<char>>,
    pub self_text: Seq<char>,
}

impl View for ImplSite {
    type V = ImplSiteView;

    open spec fn view(&self) -> ImplSiteView {
        ImplSiteView {
            trait_name: opt_text(self.trait_name),
            self_name: opt_text(self.self_name),
            self_text: self.self_text@,
        }
    }
}

/// A [`CallSite`] as plain data.
pub struct CallSiteView {
    pub method: Seq<char>,
    pub has_args: bool,
    pub first_text: Option<Seq<char>>,
    pub args: Seq<char>,
}

impl View for CallSite {
    type V = CallSiteView;

    open spec fn view(&self) -> CallSiteView {
        CallSiteView {
            method: self.method@,
            has_args: self.has_args,
            first_text: opt_text(self.first_text),
            args: self.args@,
        }
    }
}

/// [`Sites`] as plain data.
pub struct SitesView {
    pub fns: Seq<FnSiteView>,
    pub impls: Seq<ImplSiteView>,
    pub dyn_traits: Seq<Option<Seq<char>>>,
    pub calls: Seq<CallSiteView>,
}

impl View for Sites {
    type V = SitesView;

    open spec fn view(&self) -> SitesView {
        SitesView {
            fns: fn_site_views(self.fns@),
            impls: impl_site_views(self.impls@),
            dyn_traits: opt_texts(self.dyn_traits@),
            calls: call_site_views(self.calls@),
        }
    }
}

/// A [`LeafNode`] as plain data.
pub struct LeafView {
    pub signature: Option<(Seq<char>, bool)>,
    pub fields: Option<Seq<char>>,
    pub variants: Seq<(Seq<char>, Seq<char>)>,
    pub frame: Seq<Seq<char>>,
    pub methods: Seq<Option<MethodView>>,
    pub foreign: Seq<Option<(Seq<char>, Seq<char>)>>,
    pub impl_fns: Seq<Option<ImplFnView>>,
    pub sites: SitesView,
}

/// An optional signature as plain data.
pub open spec fn signature_view(o: Option<(String, bool)>) -> Option<(Seq<char>, bool)> {
    match o {
        Some(p) => Some((p.0@, p.1)),
        None => None,
    }
}

/// Pairs of texts as plain data.
pub open spec fn pair_views(s: Seq<(String, String)>) -> Seq<(Seq<char>, Seq<char>)> {
    s.map_values(|p: (String, String)| (p.0@, p.1@))
}

/// Optional methods as plain data.
pub open spec fn method_views(s: Seq<Option<MethodNode>>) -> Seq<Option<MethodView>> {
    s.map_values(|o: Option<MethodNode>| match o { Some(m) => Some(m@), None => None })
}

/// Optional pairs of texts as plain data.
pub open spec fn opt_pair_views(s: Seq<Option<(String, String)>>) -> Seq<
    Option<(Seq<char>, Seq<char>)>,
> {
    s.map_values(
        |o: Option<(String, String)>| match o { Some(p) => Some((p.0@, p.1@)), None => None },
    )
}

/// Optional functions of an impl block as plain data.
pub open spec fn impl_fn_views(s: Seq<Option<ImplFnNode>>) -> Seq<Option<ImplFnView>> {
    s.map_values(|o: Option<ImplFnNode>| match o { Some(f) => Some(f@), None => None })
}

/// Function sites as plain data.
pub open spec fn fn_site_views(s: Seq<FnSite>) -> Seq<FnSiteView> {
    s.map_values(|f: FnSite| f@)
}

/// Impl sites as plain data.
pub open spec fn impl_site_views(s: Seq<ImplSite>) -> Seq<ImplSiteView> {
    s.map_values(|f: ImplSite| f@)
}

/// Call sites as plain data.
pub open spec fn call_site_views(s: Seq<CallSite>) -> Seq<CallSiteView> {
    s.map_values(|f: CallSite| f@)
}

impl View for LeafNode {
    type V = LeafView;

    open spec fn view(&self) -> LeafView {
        LeafView {
            signature: signature_view(self.signature),
            fields: opt_text(self.fields),
            variants: pair_views(self.variants@),
            frame: texts(self.frame@),
            methods: method_views(self.methods@),
            foreign: opt_pair_views(self.foreign@),
            impl_fns: impl_fn_views(self.impl_fns@),
            sites: self.sites@,
        }
    }
}

/// An [`ItemBody`] as plain data.
pub enum BodyView {
    Module(Option<Seq<ItemView>>),
    Leaf(LeafView),
}

/// A [`SourceItem`] as plain data.
pub struct ItemView {
    pub kind: ItemKind,
    pub name: Option<Seq<char>>,
    pub attrs: Seq<AttrView>,
    pub tokens: Seq<char>,
    pub joint: bool,
    pub first_line: nat,
    pub last_line: nat,
    pub body: BodyView,
}

/// A [`SourceItem`] as plain data.
pub open spec fn item_node(n: SourceItem) -> ItemView
    decreases n,
{
    ItemView {
        kind: n.kind,
        name: opt_text(n.name),
        attrs: attr_nodes(n.attrs@),
        tokens: n.tokens@,
        joint: n.joint,
        first_line: n.first_line as nat,
        last_line: n.last_line as nat,
        body: match n.body {
            ItemBody::Module(Some(v)) => BodyView::Module(Some(item_nodes(v@))),
            ItemBody::Module(None) => BodyView::Module(None),
            ItemBody::Leaf(l) => BodyView::Leaf(l@),
        },
    }
}

/// Several [`SourceItem`]s as plain data.
pub open spec fn item_nodes(s: Seq<SourceItem>) -> Seq<ItemView>
    decreases s,
{
    if s.len() == 0 {
        Seq::empty()
    } else {
        item_nodes(s.drop_last()).push(item_node(s.last()))
    }
}

/// [`item_nodes`], element by element.
pub proof fn lemma_item_nodes(s: Seq<SourceItem>)
    ensures
        item_nodes(s).len() == s.len(),
        forall|i: int| 0 <= i < s.len() ==> #[trigger] item_nodes(s)[i] == item_node(s[i]),
    decreases s.len(),
{
    if s.len() > 0 {
        lemma_item_nodes(s.drop_last());
    }
}

impl View for SourceItem {
    type V = ItemView;

    open spec fn view(&self) -> ItemView {
        item_node(*self)
    }
}

/// A [`SourceTree`] as plain data.
pub struct TreeView {
    pub attrs: Seq<AttrView>,
    pub items: Seq<ItemView>,
}

impl View for SourceTree {
    type V = TreeView;

    open spec fn view(&self) -> TreeView {
        TreeView { attrs: attr_nodes(self.attrs@), items: item_nodes(self.items@) }
    }
}

/// Whether names are identifiers as far as that matters here: no name, at any
/// depth, holds a colon.
pub open spec fn plain_names(s: Seq<ItemView>) -> bool
    decreases s,
{
    s.len() == 0 || (plain_names(s.drop_last()) && plain_name(s.last()))
}

/// Whether the name of an item, and the names inside it, hold no colon.
pub open spec fn plain_name(item: ItemView) -> bool
    decreases item,
{
    (item.name matches Some(n) ==> !n.contains(':')) && match item.body {
        BodyView::Module(Some(inner)) => plain_names(inner),
        _ => true,
    }
}

/// [`plain_names`], element by element.
pub proof fn lemma_plain_names(s: Seq<ItemView>)
    requires
        forall|i: int| 0 <= i < s.len() ==> plain_name(#[trigger] s[i]),
    ensures
        plain_names(s),
    decreases s.len(),
{
    if s.len() > 0 {
        let d = s.drop_last();
        assert forall|i: int| 0 <= i < d.len() implies plain_name(#[trigger] d[i]) by {
            assert(d[i] == s[i]);
        }
        lemma_plain_names(d);
        assert(plain_name(s[s.len() - 1]));
    }
}

// ---------------------------------------------------------------------------
// Reading a syntax tree
// ---------------------------------------------------------------------------

/// Reads an attribute argument.
fn read_meta(meta: &syn::Meta) -> (r: MetaNode)
    ensures
        r@ == meta_view(*meta),
    decreases meta_view(*meta),
{
    let (kind, ident, text) = meta_names(meta);
    let single = match meta_single(meta) {
        Some(m) => Some(Box::new(read_meta(&m))),
        None => None,
    };
    let many = match meta_many(meta) {
        Some(v) => {
            let ghost views = meta_view(*meta).many->0;
            let mut out: Vec<MetaNode> = Vec::new();
            let mut i: usize = 0;
            while i < v.len()
                invariant
                    i <= v@.len(),
                    metas_are(v@, views),
                    meta_view(*meta).many == Some(views),
                    out@.len() == i,
                    forall|j: int| 0 <= j < i ==> (#[trigger] out@[j])@ == views[j],
                decreases v@.len() - i,
            {
                proof {
                    let whole = meta_view(*meta);
                    assert(meta_view(v@[i as int]) == views[i as int]);
                    assert(decreases_to!(whole => whole.many));
                    assert(decreases_to!(whole.many => whole.many->0));
                    assert(decreases_to!(views => views[i as int]));
                }
                let node = read_meta(&v[i]);
                out.push(node);
                i = i + 1;
            }
            proof {
                lemma_meta_nodes(out@);
                assert(meta_nodes(out@) =~= views);
            }
            Some(out)
        },
        None => None,
    };
    let paths = meta_paths(meta);
    MetaNode { kind, ident, text, single, many, paths }
}

/// Reads an attribute.
fn read_attr(attr: &syn::Attribute) -> (r: AttrNode)
    ensures
        r@ == attr_view(*attr),
{
    let (ident, last, word) = attr_names(attr);
    let single = match attr_single(attr) {
        Some(m) => Some(read_meta(&m)),
        None => None,
    };
    let many = match attr_many(attr) {
        Some(v) => {
            let ghost views = attr_view(*attr).many->0;
            let mut out: Vec<MetaNode> = Vec::new();
            let mut i: usize = 0;
            while i < v.len()
                invariant
                    i <= v@.len(),
                    metas_are(v@, views),
                    out@.len() == i,
                    forall|j: int| 0 <= j < i ==> (#[trigger] out@[j])@ == views[j],
                decreases v@.len() - i,
            {
                proof {
                    assert(meta_view(v@[i as int]) == views[i as int]);
                }
                let node = read_meta(&v[i]);
                out.push(node);
                i = i + 1;
            }
            proof {
                lemma_meta_nodes(out@);
                assert(meta_nodes(out@) =~= views);
            }
            Some(out)
        },
        None => None,
    };
    let paths = attr_paths(attr);
    let sites = walk_attr(attr);
    AttrNode { ident, last, word, single, many, paths, sites }
}

/// Reads the attributes of an item.
fn read_attrs(nodes: &Vec<&syn::Attribute>, Ghost(views): Ghost<Seq<AttrView>>) -> (r: Vec<AttrNode>)
    requires
        attrs_are(nodes@, views),
    ensures
        attr_nodes(r@) == views,
{
    let mut out: Vec<AttrNode> = Vec::new();
    let mut i: usize = 0;
    while i < nodes.len()
        invariant
            i <= nodes@.len(),
            attrs_are(nodes@, views),
            out@.len() == i,
            forall|j: int| 0 <= j < i ==> (#[trigger] out@[j])@ == views[j],
        decreases nodes@.len() - i,
    {
        proof {
            assert(attr_view(*nodes@[i as int]) == views[i as int]);
        }
        let node = read_attr(nodes[i]);
        out.push(node);
        i = i + 1;
    }
    proof {
        assert(attr_nodes(out@) =~= views);
    }
    out
}

/// Reads the attributes of an item.
pub(crate) fn read_item_attrs(item: &syn::Item) -> (r: Vec<AttrNode>)
    ensures
        attr_nodes(r@) == item_view(*item).attrs,
{
    let list = match named_item_attrs(item) {
        Some(v) => v,
        None => {
            proof {
                assert(!crate::syntax_tree::named_kind(item_view(*item).kind));
            }
            other_item_attrs(item)
        },
    };
    read_attrs(&list, Ghost(item_view(*item).attrs))
}

/// Reads an item that is no module.
fn read_leaf(item: &syn::Item) -> (r: LeafNode)
    requires
        item_view(*item).body is Leaf,
    ensures
        r@ == leaf_of(*item),
{
    LeafNode {
        signature: fn_signature(item),
        fields: struct_fields(item),
        variants: enum_variants(item),
        frame: trait_frame_parts(item),
        methods: trait_methods(item),
        foreign: foreign_signatures(item),
        impl_fns: impl_functions(item),
        sites: walk_item(item),
    }
}

/// Reads an item.
fn read_item(item: &syn::Item) -> (r: SourceItem)
    ensures
        r@ == item_view(*item),
        plain_name(r@),
    decreases item_view(*item),
{
    let kind = item_kind(item);
    let name = item_name(item);
    let attrs = read_item_attrs(item);
    let (tokens, first_line, last_line) = item_extent(item);
    let joint = item_joint(item);
    let body = if kind == ItemKind::Mod {
        match mod_items(item) {
            Some(v) => {
                let ghost views = item_view(*item).body->Module_0->0;
                let mut out: Vec<SourceItem> = Vec::new();
                let mut i: usize = 0;
                while i < v.len()
                    invariant
                        i <= v@.len(),
                        v@.len() == views.len(),
                        item_view(*item).body == BodyView::Module(Some(views)),
                        forall|j: int|
                            0 <= j < v@.len() ==> item_view(*#[trigger] v@[j]) == views[j],
                        out@.len() == i,
                        forall|j: int| 0 <= j < i ==> (#[trigger] out@[j])@ == views[j],
                        forall|j: int| 0 <= j < i ==> plain_name(#[trigger] views[j]),
                    decreases v@.len() - i,
                {
                    proof {
                        let whole = item_view(*item);
                        assert(item_view(*v@[i as int]) == views[i as int]);
                        assert(decreases_to!(whole => whole.body));
                        assert(decreases_to!(whole.body => whole.body->Module_0));
                        assert(decreases_to!(whole.body->Module_0 => whole.body->Module_0->0));
                        assert(decreases_to!(views => views[i as int]));
                    }
                    let node = read_item(v[i]);
                    out.push(node);
                    i = i + 1;
                }
                proof {
                    lemma_item_nodes(out@);
                    assert(item_nodes(out@) =~= views);
                    lemma_plain_names(views);
                }
                ItemBody::Module(Some(out))
            },
            None => ItemBody::Module(None),
        }
    } else {
        ItemBody::Leaf(read_leaf(item))
    };
    SourceItem { kind, name, attrs, tokens, joint, first_line, last_line, body }
}

/// Reads items.
pub(crate) fn read_items(nodes: &Vec<syn::Item>, Ghost(views): Ghost<Seq<ItemView>>) -> (r: Vec<
    SourceItem,
>)
    requires
        items_are(nodes@, views),
    ensures
        item_nodes(r@) == views,
        plain_names(views),
{
    let mut out: Vec<SourceItem> = Vec::new();
    let mut i: usize = 0;
    while i < nodes.len()
        invariant
            i <= nodes@.len(),
            items_are(nodes@, views),
            out@.len() == i,
            forall|j: int| 0 <= j < i ==> (#[trigger] out@[j])@ == views[j],
            forall|j: int| 0 <= j < i ==> plain_name(#[trigger] views[j]),
        decreases nodes@.len() - i,
    {
        proof {
            assert(item_view(nodes@[i as int]) == views[i as int]);
        }
        let node = read_item(&nodes[i]);
        out.push(node);
        i = i + 1;
    }
    proof {
        lemma_item_nodes(out@);
        assert(item_nodes(out@) =~= views);
        lemma_plain_names(views);
    }
    out
}

/// Reads the attributes of a file.
pub(crate) fn read_file_attrs(file: &syn::File) -> (r: Vec<AttrNode>)
    ensures
        attr_nodes(r@) == file_view(*file).attrs,
{
    let list = file_attrs(file);
    read_attrs(&list, Ghost(file_view(*file).attrs))
}

/// A source text as data, or `None` when it does not parse. The names in it are
/// identifiers.
pub fn parse_source(src: &str) -> (r: Option<SourceTree>)
    ensures
        match r {
            Some(t) => parsed_source(src@) == Some(t@) && plain_names(t@.items),
            None => parsed_source(src@) is None,
        },
{
    match parse_file(src) {
        Err(_) => None,
        Ok(file) => {
            let ghost views = file_view(file).items;
            let attrs = read_file_attrs(&file);
            let nodes = into_items(file);
            let items = read_items(&nodes, Ghost(views));
            Some(SourceTree { attrs, items })
        },
    }
}

} // verus!
