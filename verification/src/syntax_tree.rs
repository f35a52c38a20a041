//! The syntax trees of `syn`, read node by node.
//!
//! The node types are opaque to the proofs. For each of them a name says what a
//! node holds, as plain data, and the functions of this module read one part of
//! it each.
use crate::syntax::{
    impl_fn_views, method_views, opt_pair_views, pair_views, signature_view, AttrView, BodyView,
    CallSite, FnSite, ImplFnNode, ImplSite, ItemKind, ItemView, LeafView, MetaKind, MetaView,
    MethodNode, Sites, TreeView,
};
use crate::finding::opt_text;
use crate::text::texts;
use quote::ToTokens;
use syn::punctuated::Punctuated;
use syn::spanned::Spanned;
use syn::visit::Visit;
use syn::Item;
use vstd::prelude::*;

verus! {

/// `syn::File`, opaque to the proofs.
#[verifier::external_type_specification]
#[verifier::external_body]
pub struct ExFile(syn::File);

/// `syn::Error`, opaque to the proofs.
#[verifier::external_type_specification]
#[verifier::external_body]
pub struct ExSynError(syn::Error);

/// `syn::Item`, opaque to the proofs.
#[verifier::external_type_specification]
#[verifier::external_body]
pub struct ExItem(syn::Item);

/// `syn::Attribute`, opaque to the proofs.
#[verifier::external_type_specification]
#[verifier::external_body]
pub struct ExAttribute(syn::Attribute);

/// `syn::Meta`, opaque to the proofs.
#[verifier::external_type_specification]
#[verifier::external_body]
pub struct ExMeta(syn::Meta);

/// `syn::ItemFn`, opaque to the proofs.
#[verifier::external_type_specification]
#[verifier::external_body]
pub struct ExItemFn(syn::ItemFn);

/// `syn::ItemImpl`, opaque to the proofs.
#[verifier::external_type_specification]
#[verifier::external_body]
pub struct ExItemImpl(syn::ItemImpl);

/// `syn::TypeTraitObject`, opaque to the proofs.
#[verifier::external_type_specification]
#[verifier::external_body]
pub struct ExTypeTraitObject(syn::TypeTraitObject);

/// `syn::ExprMethodCall`, opaque to the proofs.
#[verifier::external_type_specification]
#[verifier::external_body]
pub struct ExExprMethodCall(syn::ExprMethodCall);

/// What a source text holds, where it parses as a Rust file.
pub uninterp spec fn parsed_source(src: Seq<char>) -> Option<TreeView>;

/// What a `syn::File` holds.
pub uninterp spec fn file_view(file: syn::File) -> TreeView;

/// What a `syn::Item` holds.
pub uninterp spec fn item_view(item: syn::Item) -> ItemView;

/// What a `syn::Attribute` holds.
pub uninterp spec fn attr_view(attr: syn::Attribute) -> AttrView;

/// What a `syn::Meta` holds.
pub uninterp spec fn meta_view(meta: syn::Meta) -> MetaView;

/// The part of an item that is no module.
pub open spec fn leaf_of(item: syn::Item) -> LeafView {
    item_view(item).body->Leaf_0
}

/// `syn::parse_file` parses a source text as a Rust file, or fails. Whether it
/// does and what comes out depends on the text alone.
#[verifier::external_body]
pub(crate) fn parse_file(src: &str) -> (r: Result<syn::File, syn::Error>)
    ensures
        match r {
            Ok(f) => parsed_source(src@) == Some(file_view(f)),
            Err(_) => parsed_source(src@) is None,
        },
{
    syn::parse_file(src)
}

/// The `attrs` field of `syn::File`, in order.
#[verifier::external_body]
pub(crate) fn file_attrs(file: &syn::File) -> (r: Vec<&syn::Attribute>)
    ensures
        attrs_are(r@, file_view(*file).attrs),
{
    file.attrs.iter().collect()
}

/// The `items` field of `syn::File`, taken out in order.
#[verifier::external_body]
pub(crate) fn into_items(file: syn::File) -> (r: Vec<syn::Item>)
    ensures
        items_are(r@, file_view(file).items),
{
    file.items
}

/// Item nodes against plain data.
pub open spec fn items_are(nodes: Seq<syn::Item>, views: Seq<ItemView>) -> bool {
    nodes.len() == views.len() && forall|i: int|
        0 <= i < nodes.len() ==> item_view(#[trigger] nodes[i]) == views[i]
}

/// The tokens of a module as text, where its items are exchanged for items
/// with the given tokens, each with whether its last token is joint.
pub uninterp spec fn module_tokens(module: Seq<char>, items: Seq<(Seq<char>, bool)>) -> Seq<char>;

/// What items bring to the tokens of the module around them.
pub open spec fn printed_items(items: Seq<ItemView>) -> Seq<(Seq<char>, bool)> {
    items.map_values(|i: ItemView| (i.tokens, i.joint))
}

/// A module with other items.
pub open spec fn with_items(module: ItemView, items: Seq<ItemView>) -> ItemView {
    ItemView {
        tokens: module_tokens(module.tokens, printed_items(items)),
        body: BodyView::Module(Some(items)),
        ..module
    }
}

/// Sets the `content` field of `syn::ItemMod`, which keeps its braces, so the
/// module keeps its lines, and its last token is no mark. The printed tokens
/// depend on the tokens of the module and of the new items, and on which of
/// these end in a joint mark, behind which no space is printed. The same items
/// print the same module.
#[verifier::external_body]
pub(crate) fn set_mod_items(item: syn::Item, items: Vec<syn::Item>) -> (r: syn::Item)
    requires
        item_view(item).body is Module,
        item_view(item).body->Module_0 is Some,
    ensures
        forall|views: Seq<ItemView>| #[trigger]
            items_are(items@, views) ==> item_view(r) == with_items(item_view(item), views)
                && item_view(r).tokens == module_tokens(
                item_view(item).tokens,
                printed_items(views),
            ),
        forall|views: Seq<ItemView>| #[trigger]
            items_are(items@, views) && item_view(item).body == BodyView::Module(Some(views))
                ==> item_view(r) == item_view(item),
{
    match item {
        Item::Mod(mut m) => {
            m.content = m.content.map(|c| (c.0, items));
            Item::Mod(m)
        },
        other => other,
    }
}

/// The `content` field of `syn::ItemMod`, copied: the items of a module
/// written in place.
#[verifier::external_body]
pub(crate) fn copy_mod_items(item: &syn::Item) -> (r: Option<Vec<syn::Item>>)
    requires
        item_view(*item).body is Module,
    ensures
        match (r, item_view(*item).body->Module_0) {
            (Some(v), Some(s)) => items_are(v@, s),
            (None, None) => true,
            _ => false,
        },
{
    match item {
        Item::Mod(m) => m.content.as_ref().map(|c| c.1.clone()),
        _ => None,
    }
}

/// The variant of a `syn::Item`. Only a module has a module body.
#[verifier::external_body]
pub(crate) fn item_kind(item: &syn::Item) -> (r: ItemKind)
    ensures
        r == item_view(*item).kind,
        r == ItemKind::Mod <==> item_view(*item).body is Module,
{
    match item {
        Item::Const(_) => ItemKind::Const,
        Item::Enum(_) => ItemKind::Enum,
        Item::Fn(_) => ItemKind::Fn,
        Item::ForeignMod(_) => ItemKind::ForeignMod,
        Item::Impl(_) => ItemKind::Impl,
        Item::Mod(_) => ItemKind::Mod,
        Item::Static(_) => ItemKind::Static,
        Item::Struct(_) => ItemKind::Struct,
        Item::Trait(_) => ItemKind::Trait,
        Item::Type(_) => ItemKind::Type,
        Item::Union(_) => ItemKind::Union,
        _ => ItemKind::Other,
    }
}

/// The `ident` of a `syn::Item` of a kind that the analyses track by name; a
/// function has it in its signature. It is an identifier, which holds no colon.
#[verifier::external_body]
pub(crate) fn item_name(item: &syn::Item) -> (r: Option<String>)
    ensures
        opt_text(r) == item_view(*item).name,
        r matches Some(n) ==> !n@.contains(':'),
{
    match item {
        Item::Const(i) => Some(i.ident.to_string()),
        Item::Enum(i) => Some(i.ident.to_string()),
        Item::Fn(i) => Some(i.sig.ident.to_string()),
        Item::Mod(i) => Some(i.ident.to_string()),
        Item::Static(i) => Some(i.ident.to_string()),
        Item::Struct(i) => Some(i.ident.to_string()),
        Item::Trait(i) => Some(i.ident.to_string()),
        Item::Type(i) => Some(i.ident.to_string()),
        Item::Union(i) => Some(i.ident.to_string()),
        _ => None,
    }
}

/// The `attrs` field of a `syn::Item` of one of the kinds that the match
/// names; `None` for the others.
#[verifier::external_body]
pub(crate) fn named_item_attrs(item: &syn::Item) -> (r: Option<Vec<&syn::Attribute>>)
    ensures
        r is Some ==> attrs_are(r->0@, item_view(*item).attrs),
        r is None ==> !named_kind(item_view(*item).kind),
{
    let attrs = match item {
        Item::Const(i) => &i.attrs,
        Item::Enum(i) => &i.attrs,
        Item::Fn(i) => &i.attrs,
        Item::Mod(i) => &i.attrs,
        Item::Static(i) => &i.attrs,
        Item::Struct(i) => &i.attrs,
        Item::Trait(i) => &i.attrs,
        Item::Type(i) => &i.attrs,
        Item::Union(i) => &i.attrs,
        _ => return None,
    };
    Some(attrs.iter().collect())
}

/// The `attrs` field of a `syn::Item` of a kind without a tracked name; empty
/// for tokens that `syn` does not interpret.
#[verifier::external_body]
pub(crate) fn other_item_attrs(item: &syn::Item) -> (r: Vec<&syn::Attribute>)
    requires
        !named_kind(item_view(*item).kind),
    ensures
        attrs_are(r@, item_view(*item).attrs),
{
    let attrs = match item {
        Item::ExternCrate(i) => &i.attrs,
        Item::ForeignMod(i) => &i.attrs,
        Item::Impl(i) => &i.attrs,
        Item::Macro(i) => &i.attrs,
        Item::TraitAlias(i) => &i.attrs,
        Item::Use(i) => &i.attrs,
        _ => return Vec::new(),
    };
    attrs.iter().collect()
}

/// A kind whose items have a tracked name.
pub open spec fn named_kind(k: ItemKind) -> bool {
    !(k == ItemKind::ForeignMod || k == ItemKind::Impl || k == ItemKind::Other)
}

/// Attribute nodes against plain data.
pub open spec fn attrs_are(nodes: Seq<&syn::Attribute>, views: Seq<AttrView>) -> bool {
    nodes.len() == views.len() && forall|i: int|
        0 <= i < nodes.len() ==> attr_view(*#[trigger] nodes[i]) == views[i]
}

/// Argument nodes against plain data.
pub open spec fn metas_are(nodes: Seq<syn::Meta>, views: Seq<MetaView>) -> bool {
    nodes.len() == views.len() && forall|i: int|
        0 <= i < nodes.len() ==> meta_view(#[trigger] nodes[i]) == views[i]
}

/// `ToTokens::to_token_stream` and `Spanned::span` of a `syn::Item`: its
/// tokens as text, and the lines where it starts and ends.
#[verifier::external_body]
pub(crate) fn item_extent(item: &syn::Item) -> (r: (String, u64, u64))
    ensures
        r.0@ == item_view(*item).tokens,
        r.1 == item_view(*item).first_line,
        r.2 == item_view(*item).last_line,
{
    let span = item.span();
    (
        item.to_token_stream().to_string(),
        span.start().line as u64,
        span.end().line as u64,
    )
}

/// `ToTokens::to_token_stream` of a `syn::Item`: whether its last token is a
/// `proc_macro2::Punct` with `Spacing::Joint`.
#[verifier::external_body]
pub(crate) fn item_joint(item: &syn::Item) -> (r: bool)
    ensures
        r == item_view(*item).joint,
{
    match item.to_token_stream().into_iter().last() {
        Some(proc_macro2::TokenTree::Punct(p)) => match p.spacing() {
            proc_macro2::Spacing::Joint => true,
            proc_macro2::Spacing::Alone => false,
        },
        _ => false,
    }
}

/// The `content` field of `syn::ItemMod`: the items of a module written in
/// place.
#[verifier::external_body]
pub(crate) fn mod_items(item: &syn::Item) -> (r: Option<Vec<&syn::Item>>)
    requires
        item_view(*item).body is Module,
    ensures
        match (r, item_view(*item).body->Module_0) {
            (Some(v), Some(s)) => v@.len() == s.len() && forall|i: int|
                0 <= i < v@.len() ==> item_view(*#[trigger] v@[i]) == s[i],
            (None, None) => true,
            _ => false,
        },
{
    match item {
        Item::Mod(m) => m.content.as_ref().map(|c| c.1.iter().collect()),
        _ => None,
    }
}

/// The `sig` field of `syn::ItemFn` as text, and whether its `abi` is there.
#[verifier::external_body]
pub(crate) fn fn_signature(item: &syn::Item) -> (r: Option<(String, bool)>)
    requires
        item_view(*item).body is Leaf,
    ensures
        signature_view(r) == leaf_of(*item).signature,
{
    match item {
        Item::Fn(f) => Some((f.sig.to_token_stream().to_string(), f.sig.abi.is_some())),
        _ => None,
    }
}

/// The `fields` field of `syn::ItemStruct` as text.
#[verifier::external_body]
pub(crate) fn struct_fields(item: &syn::Item) -> (r: Option<String>)
    requires
        item_view(*item).body is Leaf,
    ensures
        opt_text(r) == leaf_of(*item).fields,
{
    match item {
        Item::Struct(s) => Some(s.fields.to_token_stream().to_string()),
        _ => None,
    }
}

/// The `variants` field of `syn::ItemEnum`: the name and the fields of each,
/// as text, in order.
#[verifier::external_body]
pub(crate) fn enum_variants(item: &syn::Item) -> (r: Vec<(String, String)>)
    requires
        item_view(*item).body is Leaf,
    ensures
        pair_views(r@) == leaf_of(*item).variants,
{
    match item {
        Item::Enum(e) => {
            e.variants.iter().map(|v| (v.ident.to_string(), v.fields.to_token_stream().to_string())).collect()
        },
        _ => Vec::new(),
    }
}

/// The `unsafety`, `auto_token`, `generics` and `supertraits` fields of
/// `syn::ItemTrait`, and the `where_clause` of its `generics`, which these do
/// not print, as text.
#[verifier::external_body]
pub(crate) fn trait_frame_parts(item: &syn::Item) -> (r: Vec<String>)
    requires
        item_view(*item).body is Leaf,
    ensures
        texts(r@) == leaf_of(*item).frame,
{
    match item {
        Item::Trait(t) => vec![
            t.unsafety.to_token_stream().to_string(),
            t.auto_token.to_token_stream().to_string(),
            t.generics.to_token_stream().to_string(),
            t.supertraits.to_token_stream().to_string(),
            t.generics.where_clause.to_token_stream().to_string(),
        ],
        _ => Vec::new(),
    }
}

/// The `items` field of `syn::ItemTrait`: name, signature and default body of
/// each method as text, `None` for any other item, in order.
#[verifier::external_body]
pub(crate) fn trait_methods(item: &syn::Item) -> (r: Vec<Option<MethodNode>>)
    requires
        item_view(*item).body is Leaf,
    ensures
        method_views(r@) == leaf_of(*item).methods,
{
    let Item::Trait(t) = item else {
        return Vec::new();
    };
    t.items.iter().map(|i| match i {
        syn::TraitItem::Fn(f) => Some(MethodNode {
            name: f.sig.ident.to_string(),
            sig: f.sig.to_token_stream().to_string(),
            body: f.default.as_ref().map(|b| b.to_token_stream().to_string()),
        }),
        _ => None,
    }).collect()
}

/// The `items` field of `syn::ItemForeignMod`: name and text of each function
/// signature and each static, `None` for any other item, in order.
#[verifier::external_body]
pub(crate) fn foreign_signatures(item: &syn::Item) -> (r: Vec<Option<(String, String)>>)
    requires
        item_view(*item).body is Leaf,
    ensures
        opt_pair_views(r@) == leaf_of(*item).foreign,
{
    let Item::ForeignMod(m) = item else {
        return Vec::new();
    };
    m.items.iter().map(|i| match i {
        syn::ForeignItem::Fn(f) => Some((f.sig.ident.to_string(), f.sig.to_token_stream().to_string())),
        syn::ForeignItem::Static(s) => Some((s.ident.to_string(), s.to_token_stream().to_string())),
        _ => None,
    }).collect()
}

/// The `items` field of `syn::ItemImpl`: the last attribute path segments and
/// the lines of each function, `None` for any other item, in order.
#[verifier::external_body]
pub(crate) fn impl_functions(item: &syn::Item) -> (r: Vec<Option<ImplFnNode>>)
    requires
        item_view(*item).body is Leaf,
    ensures
        impl_fn_views(r@) == leaf_of(*item).impl_fns,
{
    let Item::Impl(b) = item else {
        return Vec::new();
    };
    b.items.iter().map(|i| match i {
        syn::ImplItem::Fn(f) => Some(ImplFnNode {
            markers: f.attrs.iter().map(|a| a.path().segments.last().map(|s| s.ident.to_string())).collect(),
            first_line: f.span().start().line as u64,
            last_line: f.span().end().line as u64,
        }),
        _ => None,
    }).collect()
}

/// What a walk over a syntax tree has met.
pub(crate) struct SiteWalk {
    pub sites: Sites,
}

impl<'ast> Visit<'ast> for SiteWalk {
    /// Records a `syn::ItemFn` and goes on inside it with
    /// `syn::visit::visit_item_fn`.
    #[verifier::external_body]
    fn visit_item_fn(&mut self, f: &'ast syn::ItemFn) {
        self.sites.fns.push(FnSite {
            name: f.sig.ident.to_string(),
            markers: f.attrs.iter().map(|a| a.path().segments.last().map(|s| s.ident.to_string())).collect(),
            body: f.block.to_token_stream().to_string(),
        });
        syn::visit::visit_item_fn(self, f);
    }

    /// Records a `syn::ItemImpl` and goes on inside it with
    /// `syn::visit::visit_item_impl`.
    #[verifier::external_body]
    fn visit_item_impl(&mut self, i: &'ast syn::ItemImpl) {
        self.sites.impls.push(ImplSite {
            trait_name: i.trait_.as_ref().and_then(|t| t.1.segments.last().map(|s| s.ident.to_string())),
            self_name: match &*i.self_ty {
                syn::Type::Path(syn::TypePath { qself: None, path }) => path.segments.last().map(|s| s.ident.to_string()),
                _ => None,
            },
            self_text: i.self_ty.to_token_stream().to_string(),
        });
        syn::visit::visit_item_impl(self, i);
    }

    /// Records the bounds of a `syn::TypeTraitObject`, the last path segment of
    /// each trait, and goes on inside it with
    /// `syn::visit::visit_type_trait_object`.
    #[verifier::external_body]
    fn visit_type_trait_object(&mut self, t: &'ast syn::TypeTraitObject) {
        self.sites.dyn_traits.extend(t.bounds.iter().map(|b| match b {
            syn::TypeParamBound::Trait(tb) => tb.path.segments.last().map(|s| s.ident.to_string()),
            _ => None,
        }));
        syn::visit::visit_type_trait_object(self, t);
    }

    /// Records a `syn::ExprMethodCall` and goes on inside it with
    /// `syn::visit::visit_expr_method_call`.
    #[verifier::external_body]
    fn visit_expr_method_call(&mut self, c: &'ast syn::ExprMethodCall) {
        self.sites.calls.push(CallSite {
            method: c.method.to_string(),
            has_args: c.args.first().is_some(),
            first_text: match c.args.first() {
                Some(syn::Expr::Lit(syn::ExprLit { lit: syn::Lit::Str(s), .. })) => Some(s.value()),
                _ => None,
            },
            args: c.args.to_token_stream().to_string(),
        });
        syn::visit::visit_expr_method_call(self, c);
    }
}

/// `Visit::visit_item`: every `syn::ItemFn`, every `syn::ItemImpl`, the bounds
/// of every `syn::TypeTraitObject` and every `syn::ExprMethodCall` in an item,
/// the item itself too, each in the order of the walk.
#[verifier::external_body]
pub(crate) fn walk_item(item: &syn::Item) -> (r: Sites)
    requires
        item_view(*item).body is Leaf,
    ensures
        r@ == leaf_of(*item).sites,
{
    let mut walk = SiteWalk {
        sites: Sites {
            fns: Vec::new(),
            impls: Vec::new(),
            dyn_traits: Vec::new(),
            calls: Vec::new(),
        },
    };
    walk.visit_item(item);
    walk.sites
}

/// `Visit::visit_attribute`: what [`walk_item`] looks for, in the value of an
/// attribute. Arguments in brackets are tokens, which the walk does not enter.
#[verifier::external_body]
pub(crate) fn walk_attr(attr: &syn::Attribute) -> (r: Sites)
    ensures
        r@ == attr_view(*attr).sites,
{
    let mut walk = SiteWalk {
        sites: Sites {
            fns: Vec::new(),
            impls: Vec::new(),
            dyn_traits: Vec::new(),
            calls: Vec::new(),
        },
    };
    walk.visit_attribute(attr);
    walk.sites
}

/// The path of a `syn::Attribute` as a single identifier, its last segment,
/// and `Attribute::parse_args` as one identifier.
#[verifier::external_body]
pub(crate) fn attr_names(attr: &syn::Attribute) -> (r: (
    Option<String>,
    Option<String>,
    Option<String>,
))
    ensures
        opt_text(r.0) == attr_view(*attr).ident,
        opt_text(r.1) == attr_view(*attr).last,
        opt_text(r.2) == attr_view(*attr).word,
{
    (
        attr.path().get_ident().map(|i| i.to_string()),
        attr.path().segments.last().map(|s| s.ident.to_string()),
        attr.parse_args::<syn::Ident>().ok().map(|i| i.to_string()),
    )
}

/// `Attribute::parse_args` as one `syn::Meta`.
#[verifier::external_body]
pub(crate) fn attr_single(attr: &syn::Attribute) -> (r: Option<syn::Meta>)
    ensures
        match (r, attr_view(*attr).single) {
            (Some(m), Some(v)) => meta_view(m) == v,
            (None, None) => true,
            _ => false,
        },
{
    attr.parse_args::<syn::Meta>().ok()
}

/// `Attribute::parse_args_with` as `syn::Meta` values between commas.
#[verifier::external_body]
pub(crate) fn attr_many(attr: &syn::Attribute) -> (r: Option<Vec<syn::Meta>>)
    ensures
        match (r, attr_view(*attr).many) {
            (Some(m), Some(v)) => metas_are(m@, v),
            (None, None) => true,
            _ => false,
        },
{
    let parser = Punctuated::<syn::Meta, syn::token::Comma>::parse_terminated;
    attr.parse_args_with(parser).ok().map(|p| p.into_iter().collect())
}

/// `Attribute::parse_args_with` as `syn::Path` values between commas: the last
/// segment of each.
#[verifier::external_body]
pub(crate) fn attr_paths(attr: &syn::Attribute) -> (r: Option<Vec<Option<String>>>)
    ensures
        crate::syntax::opt_paths(r) == attr_view(*attr).paths,
{
    let parser = Punctuated::<syn::Path, syn::token::Comma>::parse_terminated;
    let paths = attr.parse_args_with(parser).ok()?;
    Some(paths.iter().map(|p| p.segments.last().map(|s| s.ident.to_string())).collect())
}

/// The variant of a `syn::Meta`, its path as a single identifier, and its value
/// where that is a string literal.
#[verifier::external_body]
pub(crate) fn meta_names(meta: &syn::Meta) -> (r: (MetaKind, Option<String>, Option<String>))
    ensures
        r.0 == meta_view(*meta).kind,
        opt_text(r.1) == meta_view(*meta).ident,
        opt_text(r.2) == meta_view(*meta).text,
{
    let ident = meta.path().get_ident().map(|i| i.to_string());
    match meta {
        syn::Meta::Path(_) => (MetaKind::Path, ident, None),
        syn::Meta::List(_) => (MetaKind::List, ident, None),
        syn::Meta::NameValue(nv) => match &nv.value {
            syn::Expr::Lit(syn::ExprLit { lit: syn::Lit::Str(s), .. }) => (MetaKind::NameValue, ident, Some(s.value())),
            _ => (MetaKind::NameValue, ident, None),
        },
    }
}

/// `MetaList::parse_args` as one `syn::Meta`.
#[verifier::external_body]
pub(crate) fn meta_single(meta: &syn::Meta) -> (r: Option<syn::Meta>)
    ensures
        match (r, meta_view(*meta).single) {
            (Some(m), Some(v)) => meta_view(m) == *v,
            (None, None) => true,
            _ => false,
        },
{
    match meta {
        syn::Meta::List(l) => l.parse_args::<syn::Meta>().ok(),
        _ => None,
    }
}

/// `MetaList::parse_args_with` as `syn::Meta` values between commas.
#[verifier::external_body]
pub(crate) fn meta_many(meta: &syn::Meta) -> (r: Option<Vec<syn::Meta>>)
    ensures
        match (r, meta_view(*meta).many) {
            (Some(m), Some(v)) => metas_are(m@, v),
            (None, None) => true,
            _ => false,
        },
{
    let syn::Meta::List(l) = meta else {
        return None;
    };
    let parser = Punctuated::<syn::Meta, syn::token::Comma>::parse_terminated;
    l.parse_args_with(parser).ok().map(|p| p.into_iter().collect())
}

/// `MetaList::parse_args_with` as `syn::Path` values between commas: the last
/// segment of each.
#[verifier::external_body]
pub(crate) fn meta_paths(meta: &syn::Meta) -> (r: Option<Vec<Option<String>>>)
    ensures
        crate::syntax::opt_paths(r) == meta_view(*meta).paths,
{
    let syn::Meta::List(l) = meta else {
        return None;
    };
    let parser = Punctuated::<syn::Path, syn::token::Comma>::parse_terminated;
    let paths = l.parse_args_with(parser).ok()?;
    Some(paths.iter().map(|p| p.segments.last().map(|s| s.ident.to_string())).collect())
}

} // verus!
