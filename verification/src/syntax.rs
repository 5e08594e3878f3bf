//! Parsing a Rust source file with `syn` and reading the parsed tree into
//! the plain model of `source`.
use vstd::prelude::*;

use crate::source::{
    ImplNode, ModuleNode, PathNode, SegmentNode, SourceItem, StaticNode, TypeAliasNode, TypeNode,
    TypePathNode, UseNode,
};

verus! {

#[verifier::external_type_specification]
#[verifier::external_body]
pub struct ExSynItem(syn::Item);

#[verifier::external_type_specification]
#[verifier::external_body]
pub struct ExSynItemMod(syn::ItemMod);

#[verifier::external_type_specification]
#[verifier::external_body]
pub struct ExSynItemStatic(syn::ItemStatic);

#[verifier::external_type_specification]
#[verifier::external_body]
pub struct ExSynItemType(syn::ItemType);

#[verifier::external_type_specification]
#[verifier::external_body]
pub struct ExSynUseTree(syn::UseTree);

#[verifier::external_type_specification]
#[verifier::external_body]
pub struct ExSynPath(syn::Path);

#[verifier::external_type_specification]
#[verifier::external_body]
pub struct ExSynPathSegment(syn::PathSegment);

#[verifier::external_type_specification]
#[verifier::external_body]
pub struct ExSynType(syn::Type);

#[verifier::external_type_specification]
#[verifier::external_body]
pub struct ExSynTypePath(syn::TypePath);

#[verifier::external_type_specification]
#[verifier::external_body]
pub struct ExSynIdent(syn::Ident);

/// Whether `syn::parse_file` accepts the text `content` as a Rust source
/// file. It depends on the text alone.
pub uninterp spec fn syn_parses(content: Seq<char>) -> bool;

/// The items of the tree that `syn::parse_file` builds from the text
/// `content`, converted node for node into the model of `source` (as the
/// converters below do). It depends on the text alone.
pub uninterp spec fn syn_source_items(content: Seq<char>) -> Seq<SourceItem>;

/// `Ident::to_string` (through `Display`): the text of an identifier.
/// `proc_macro2` refuses to build an empty identifier, so the text is never
/// empty; what the text is, is not stated here.
#[verifier::external_body]
fn ident_text(ident: &syn::Ident) -> (r: String)
    ensures
        r@.len() > 0,
{
    ident.to_string()
}

/// `quote::ToTokens::to_token_stream` on a `syn::ItemStatic`, then
/// `TokenStream::to_string`: the token text of the item (what
/// `quote!(#item).to_string()` gives).
#[verifier::external_body]
fn static_tokens(s: &syn::ItemStatic) -> String {
    quote::ToTokens::to_token_stream(s).to_string()
}

/// `quote::ToTokens::to_token_stream` on a `syn::TypePath`, then
/// `TokenStream::to_string`: the token text of the type.
#[verifier::external_body]
fn type_path_tokens(p: &syn::TypePath) -> String {
    quote::ToTokens::to_token_stream(p).to_string()
}

/// Converts a `syn::Type`: a `Type::Path` to the text of the identifier of
/// its last segment (`Punctuated::last`), any other type to `Other`.
#[verifier::external_body]
fn convert_type(ty: &syn::Type) -> TypeNode {
    match ty {
        syn::Type::Path(p) => TypeNode::Path(
            TypePathNode { last_ident: p.path.segments.last().map(|seg| ident_text(&seg.ident)) },
        ),
        _ => TypeNode::Other,
    }
}

/// Converts a `syn::PathSegment`: its identifier, and the first of its
/// angle-bracketed arguments (`Punctuated::first`) when that is a type.
#[verifier::external_body]
fn convert_segment(seg: &syn::PathSegment) -> SegmentNode {
    let first_type_arg = match &seg.arguments {
        syn::PathArguments::AngleBracketed(a) => match a.args.first() {
            Some(syn::GenericArgument::Type(t)) => Some(convert_type(t)),
            _ => None,
        },
        _ => None,
    };
    SegmentNode { ident: ident_text(&seg.ident), first_type_arg }
}

/// Converts a `syn::Path` to its last segment (`Punctuated::last`).
#[verifier::external_body]
fn convert_path(p: &syn::Path) -> PathNode {
    PathNode { last_segment: p.segments.last().map(convert_segment) }
}

/// Converts a `syn::UseTree`, variant for variant (a group through
/// `Punctuated::iter`; a renaming or a glob to `Other`).
#[verifier::external_body]
fn convert_use(t: &syn::UseTree) -> UseNode {
    match t {
        syn::UseTree::Path(p) => UseNode::Path {
            segment: ident_text(&p.ident),
            rest: Box::new(convert_use(&p.tree)),
        },
        syn::UseTree::Name(n) => UseNode::Name(ident_text(&n.ident)),
        syn::UseTree::Group(g) => UseNode::Group(g.items.iter().map(convert_use).collect()),
        _ => UseNode::Other,
    }
}

/// Converts a `syn::ItemMod`: its identifier and, when it has content, its
/// items.
#[verifier::external_body]
fn convert_module(m: &syn::ItemMod) -> ModuleNode {
    ModuleNode {
        name: ident_text(&m.ident),
        content: m.content.as_ref().map(|c| convert_items(&c.1)),
    }
}

/// Converts a `syn::ItemType`: its identifier, and the token text of the
/// aliased type when it is a `Type::Path`.
#[verifier::external_body]
fn convert_type_alias(t: &syn::ItemType) -> TypeAliasNode {
    let path_tokens = match &*t.ty {
        syn::Type::Path(p) => Some(type_path_tokens(p)),
        _ => None,
    };
    TypeAliasNode { name: ident_text(&t.ident), path_tokens }
}

/// Converts a `syn::Item`, variant for variant; the variants that are not
/// read become `Other`.
#[verifier::external_body]
fn convert_item(item: &syn::Item) -> SourceItem {
    match item {
        syn::Item::Mod(m) => SourceItem::Module(convert_module(m)),
        syn::Item::Static(s) => SourceItem::Static(
            StaticNode { name: ident_text(&s.ident), tokens: static_tokens(s) },
        ),
        syn::Item::Type(t) => SourceItem::TypeAlias(convert_type_alias(t)),
        syn::Item::Use(u) => SourceItem::Use(convert_use(&u.tree)),
        syn::Item::Impl(i) => SourceItem::Impl(
            ImplNode { trait_path: i.trait_.as_ref().map(|tr| convert_path(&tr.1)) },
        ),
        _ => SourceItem::Other,
    }
}

/// Converts a sequence of `syn::Item`s, one node for each, in order.
#[verifier::external_body]
fn convert_items(items: &Vec<syn::Item>) -> Vec<SourceItem> {
    items.iter().map(convert_item).collect()
}

/// `syn::parse_file`, with the items of the parsed file converted node for
/// node. It succeeds exactly when `syn_parses` holds of the text, and the
/// converted items are named by `syn_source_items`; both depend on the
/// text alone.
#[verifier::external_body]
fn parse_file_items(content: &str) -> (r: Option<Vec<SourceItem>>)
    ensures
        r is Some <==> syn_parses(content@),
        r matches Some(v) ==> v@ == syn_source_items(content@),
{
    match syn::parse_file(content) {
        Ok(file) => Some(convert_items(&file.items)),
        Err(_) => None,
    }
}

/// Parses `content` as a Rust source file with `syn::parse_file` and reads
/// its items. `None` exactly when `syn` does not accept the text; otherwise
/// the items of the parsed tree (`syn_source_items`).
pub fn parse_source(content: &str) -> (r: Option<Vec<SourceItem>>)
    ensures
        r is Some <==> syn_parses(content@),
        r matches Some(v) ==> v@ == syn_source_items(content@),
{
    parse_file_items(content)
}

} // verus!
