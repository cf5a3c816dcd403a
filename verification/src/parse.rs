//! The trusted boundary to the parser collaborator: `syn` turns raw source
//! text into its own syntax tree, and the conversion functions here move
//! that tree, node by node, into the plain declaration values of
//! [`crate::source`].  Everything downstream of [`parse_source`] is
//! verified against [`parsed_source`], the name given to its result.

use vstd::prelude::*;

use crate::source::{RawArg, RawDecl, RawFields, RawItem, RawType, RawUseTree, RawVariant, SourceUnit};

verus! {

#[verifier::external_type_specification]
#[verifier::external_body]
pub struct ExSynFile(syn::File);

#[verifier::external_type_specification]
#[verifier::external_body]
pub struct ExSynItem(syn::Item);

#[verifier::external_type_specification]
#[verifier::external_body]
pub struct ExSynItemStruct(syn::ItemStruct);

#[verifier::external_type_specification]
#[verifier::external_body]
pub struct ExSynItemEnum(syn::ItemEnum);

#[verifier::external_type_specification]
#[verifier::external_body]
pub struct ExSynUseTree(syn::UseTree);

#[verifier::external_type_specification]
#[verifier::external_body]
pub struct ExSynAttribute(syn::Attribute);

#[verifier::external_type_specification]
#[verifier::external_body]
pub struct ExSynFields(syn::Fields);

#[verifier::external_type_specification]
#[verifier::external_body]
pub struct ExSynVariant(syn::Variant);

#[verifier::external_type_specification]
#[verifier::external_body]
pub struct ExSynType(syn::Type);

/// What parsing a source unit yields: `None` when the text does not parse,
/// otherwise its declaration data.  Parsing is a pure function of the text
/// alone, so its result is named rather than spelled out.
pub uninterp spec fn parsed_source(s: Seq<char>) -> Option<SourceUnit>;

/// Relies on syn::parse_file: parses a source unit, then converts each item
/// into the library's declaration values.  Parsing is deterministic: the
/// same text always yields the same result.
#[verifier::external_body]
pub fn parse_source(source: &str) -> (r: Option<SourceUnit>)
    ensures
        r == parsed_source(source@),
{
    match syn::parse_file(source) {
        Ok(file) => Some(SourceUnit { items: file.items.into_iter().map(item_of).collect() }),
        Err(_) => None,
    }
}

/// Relies on syn::Item: one arm per item kind extraction reads.
#[verifier::external_body]
fn item_of(item: syn::Item) -> RawItem {
    match item {
        syn::Item::Use(u) => RawItem::UseDecl(use_tree_of(u.tree)),
        syn::Item::Type(t) => alias_of(t),
        syn::Item::Struct(s) => RawItem::Decl(struct_decl_of(s)),
        syn::Item::Enum(e) => RawItem::Decl(enum_decl_of(e)),
        _ => RawItem::Other,
    }
}

/// Relies on syn::ItemType: a type alias's target path, segment by segment.
#[verifier::external_body]
fn alias_of(t: syn::ItemType) -> RawItem {
    match *t.ty {
        syn::Type::Path(syn::TypePath { path, .. }) => RawItem::TypeAlias {
            name: t.ident.to_string(),
            target: path.segments.iter().map(|s| s.ident.to_string()).collect(),
        },
        _ => RawItem::Other,
    }
}

#[verifier::external_type_specification]
#[verifier::external_body]
pub struct ExSynItemType(syn::ItemType);

/// Relies on syn::UseTree: one arm per tree node, fields moved as they are.
#[verifier::external_body]
fn use_tree_of(tree: syn::UseTree) -> RawUseTree {
    match tree {
        syn::UseTree::Path(p) => RawUseTree::Seg(p.ident.to_string(), Box::new(use_tree_of(*p.tree))),
        syn::UseTree::Name(n) => RawUseTree::Leaf(n.ident.to_string()),
        syn::UseTree::Rename(r) => RawUseTree::Rename(r.ident.to_string(), r.rename.to_string()),
        syn::UseTree::Glob(_) => RawUseTree::Glob,
        syn::UseTree::Group(g) => RawUseTree::Group(g.items.into_iter().map(use_tree_of).collect()),
    }
}

/// Relies on syn::ItemStruct: the declaration's name, attributes and fields.
#[verifier::external_body]
fn struct_decl_of(s: syn::ItemStruct) -> RawDecl {
    RawDecl {
        is_enum: false,
        name: s.ident.to_string(),
        derives: derives_of(&s.attrs),
        remote_target: remote_of(&s.attrs),
        archived: archived_of(&s.attrs),
        fields: fields_of(s.fields),
        variants: Vec::new(),
    }
}

/// Relies on syn::ItemEnum: the declaration's name, attributes and variants.
#[verifier::external_body]
fn enum_decl_of(e: syn::ItemEnum) -> RawDecl {
    RawDecl {
        is_enum: true,
        name: e.ident.to_string(),
        derives: derives_of(&e.attrs),
        remote_target: remote_of(&e.attrs),
        archived: archived_of(&e.attrs),
        fields: RawFields::Unit,
        variants: e.variants.into_iter().map(variant_of).collect(),
    }
}

/// Relies on syn::Path: a path as its plain segment list.
#[verifier::external_body]
fn path_segs(p: &syn::Path) -> Vec<String> {
    p.segments.iter().map(|s| s.ident.to_string()).collect()
}

#[verifier::external_type_specification]
#[verifier::external_body]
pub struct ExSynPath(syn::Path);

/// Relies on syn::Attribute::parse_args_with: the path of every derive, as
/// its segment list.
#[verifier::external_body]
fn derives_of(attrs: &Vec<syn::Attribute>) -> Vec<Vec<String>> {
    let mut out = Vec::new();
    for attr in attrs {
        if attr.path().is_ident("derive") {
            if let Ok(paths) = attr.parse_args_with(
                syn::punctuated::Punctuated::<syn::Path, syn::token::Comma>::parse_terminated,
            ) {
                out.extend(paths.iter().map(path_segs));
            }
        }
    }
    out
}

/// Relies on syn::Attribute::parse_args_with: every comma-separated meta
/// item of the archive attributes.
#[verifier::external_body]
fn archive_metas(attrs: &Vec<syn::Attribute>) -> Vec<syn::Meta> {
    let mut out = Vec::new();
    for attr in attrs {
        if attr.path().is_ident("rkyv") {
            if let Ok(metas) = attr.parse_args_with(
                syn::punctuated::Punctuated::<syn::Meta, syn::token::Comma>::parse_terminated,
            ) {
                out.extend(metas);
            }
        }
    }
    out
}

#[verifier::external_type_specification]
#[verifier::external_body]
pub struct ExSynMeta(syn::Meta);

/// Relies on syn::Meta: the path named by `remote = path` inside the
/// archive attribute, if present.
#[verifier::external_body]
fn remote_of(attrs: &Vec<syn::Attribute>) -> Option<Vec<String>> {
    for meta in archive_metas(attrs) {
        if let syn::Meta::NameValue(nv) = meta {
            if nv.path.is_ident("remote") {
                if let syn::Expr::Path(ep) = &nv.value {
                    return Some(path_segs(&ep.path));
                }
            }
        }
    }
    None
}

/// Relies on syn::Meta: the identifier named by `archived = Name` inside
/// the archive attribute, if present.
#[verifier::external_body]
fn archived_of(attrs: &Vec<syn::Attribute>) -> Option<String> {
    for meta in archive_metas(attrs) {
        if let syn::Meta::NameValue(nv) = meta {
            if nv.path.is_ident("archived") {
                if let syn::Expr::Path(ep) = &nv.value {
                    return ep.path.segments.last().map(|s| s.ident.to_string());
                }
            }
        }
    }
    None
}

/// Relies on syn::Fields: one arm per field shape, fields converted in
/// order.
#[verifier::external_body]
fn fields_of(fields: syn::Fields) -> RawFields {
    match fields {
        syn::Fields::Named(named) => RawFields::Named(
            named.named.into_iter().map(
                |f| (f.ident.map(|i| i.to_string()).unwrap_or_default(), raw_type_of(&f.ty)),
            ).collect(),
        ),
        syn::Fields::Unnamed(unnamed) => RawFields::Unnamed(
            unnamed.unnamed.into_iter().map(|f| raw_type_of(&f.ty)).collect(),
        ),
        syn::Fields::Unit => RawFields::Unit,
    }
}

/// Relies on syn::Variant: its name and field shape.
#[verifier::external_body]
fn variant_of(v: syn::Variant) -> RawVariant {
    RawVariant { name: v.ident.to_string(), fields: fields_of(v.fields) }
}

/// Relies on syn::Type: one arm per shape the generator handles; the
/// generic arguments of a path belong to its last segment.
#[verifier::external_body]
fn raw_type_of(ty: &syn::Type) -> RawType {
    match ty {
        syn::Type::Path(syn::TypePath { path, .. }) => RawType::Path {
            segments: path.segments.iter().map(|s| s.ident.to_string()).collect(),
            args: path.segments.last().map(args_of).unwrap_or_default(),
        },
        syn::Type::Array(syn::TypeArray { elem, len, .. }) => RawType::Array {
            elem: Box::new(raw_type_of(elem)),
            len: array_len_of(len),
        },
        syn::Type::Tuple(syn::TypeTuple { elems, .. }) => RawType::Tuple(
            elems.iter().map(raw_type_of).collect(),
        ),
        syn::Type::Reference(r) => RawType::Ref(Box::new(raw_type_of(&r.elem))),
        _ => RawType::Unsupported,
    }
}

/// Relies on syn::PathArguments: the angle-bracketed arguments of one
/// segment; non-type arguments are kept as placeholders.
#[verifier::external_body]
fn args_of(segment: &syn::PathSegment) -> Vec<RawArg> {
    match &segment.arguments {
        syn::PathArguments::AngleBracketed(args) => args.args.iter().map(|a| match a {
            syn::GenericArgument::Type(t) => RawArg::Ty(raw_type_of(t)),
            _ => RawArg::Other,
        }).collect(),
        _ => Vec::new(),
    }
}

#[verifier::external_type_specification]
#[verifier::external_body]
pub struct ExSynPathSegment(syn::PathSegment);

/// Relies on syn::LitInt::base10_parse: a plain integer array length.
#[verifier::external_body]
fn array_len_of(len: &syn::Expr) -> Option<usize> {
    match len {
        syn::Expr::Lit(syn::ExprLit { lit: syn::Lit::Int(n), .. }) => n.base10_parse().ok(),
        _ => None,
    }
}

#[verifier::external_type_specification]
#[verifier::external_body]
pub struct ExSynExpr(syn::Expr);

} // verus!
