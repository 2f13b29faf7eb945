//! The trusted boundary to the outside parser.
//!
//! Everything in this module is taken on trust: the bodies call into
//! `syn`, and only the stated contracts are visible to verification.
//! What crosses the boundary is a flat pre-order event stream over the
//! parsed file's module declarations (see [`crate::parser::ModEvent`]);
//! each syn node is converted one for one, with no decisions beyond
//! telling the node forms apart.

use crate::parser::{AttrInfo, ModEvent};
use vstd::prelude::*;

verus! {

/// The outside parser's module-item node, opaque to verification.
#[verifier::external_type_specification]
#[verifier::external_body]
pub struct ExItemMod(syn::ItemMod);

/// The outside parser's attribute node, opaque to verification.
#[verifier::external_type_specification]
#[verifier::external_body]
pub struct ExAttribute(syn::Attribute);

/// What parsing a source text yields: the pre-order event stream of
/// its module declarations, or nothing where the text does not parse.
pub uninterp spec fn parsed_events(s: Seq<char>) -> Option<Seq<ModEvent>>;

/// Relies on `syn::parse_file`: parsing is a function of the text
/// alone, and either fails or yields one syntax tree, whose module
/// declarations are dumped here as one event stream in source order.
#[verifier::external_body]
pub fn parse_mod_events(source: &str) -> (r: Option<Vec<ModEvent>>)
    ensures
        (r matches Some(v) ==> parsed_events(source@) == Some(v@)),
        (r is None ==> parsed_events(source@) is None),
{
    let file = match syn::parse_file(source) {
        Ok(f) => f,
        Err(_) => return None,
    };
    let mut out: Vec<ModEvent> = Vec::new();
    for item in &file.items {
        if let syn::Item::Mod(m) = item {
            push_mod_events(m, &mut out);
        }
    }
    Some(out)
}

/// Helper of `parse_mod_events`: dumps one `syn::ItemMod` and the
/// declarations nested in its body as `Enter`/`Exit` events.
#[verifier::external_body]
fn push_mod_events(item: &syn::ItemMod, out: &mut Vec<ModEvent>) {
    let attrs: Vec<AttrInfo> = item.attrs.iter().map(attr_info).collect();
    let has_body = item.content.is_some();
    out.push(ModEvent::Enter { name: item.ident.to_string(), attrs, has_body });
    if let Some((_, items)) = &item.content {
        for it in items {
            if let syn::Item::Mod(m) = it {
                push_mod_events(m, out);
            }
        }
    }
    out.push(ModEvent::Exit);
}

/// Helper of `parse_mod_events`: converts one `syn::Attribute`,
/// moving the name and string value of a `#[name = "value"]` form and
/// folding every other form into `Other`.
#[verifier::external_body]
fn attr_info(attr: &syn::Attribute) -> AttrInfo {
    if let syn::Meta::NameValue(nv) = &attr.meta {
        if let Some(ident) = attr.path().get_ident() {
            if let syn::Expr::Lit(syn::ExprLit { lit: syn::Lit::Str(lit), .. }) = &nv.value {
                return AttrInfo::StrNameValue { name: ident.to_string(), value: lit.value() };
            }
        }
    }
    AttrInfo::Other
}

} // verus!
