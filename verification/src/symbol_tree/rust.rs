//! The symbols of a Rust source: items, and the items declared inside
//! structs, enums, traits, impls and modules.
use vstd::prelude::*;
use crate::text::str_eq;
use super::{
    SyntaxNode, Symbol, SymView, source_bytes, name_of, field_text, sig_text, made, all_views,
    opt_sym_view, node_name, field_child_text, signature_text, make_symbol, push_symbol,
    append_symbols,
};

verus! {

broadcast use vstd::string::group_string_axioms;

/// The kinds of child that open a declaration's body.
pub open spec fn body_kinds() -> Seq<&'static str> {
    seq!["block", "field_declaration_list", "ordered_field_declaration_list", "enum_variant_list", "declaration_list"]
}

fn body_kind_list() -> (r: Vec<&'static str>)
    ensures
        r@ == body_kinds(),
{
    let mut v: Vec<&'static str> = Vec::new();
    v.push("block");
    v.push("field_declaration_list");
    v.push("ordered_field_declaration_list");
    v.push("enum_variant_list");
    v.push("declaration_list");
    assert(v@ =~= body_kinds());
    v
}

/// A declaration's signature.
pub open spec fn sig(b: Seq<u8>, n: SyntaxNode) -> Seq<char> {
    sig_text(b, n, body_kinds())
}

fn signature(source: &str, node: &SyntaxNode) -> (r: String)
    ensures
        r@ == sig(source_bytes(source), *node),
{
    let kinds = body_kind_list();
    signature_text(source, node, kinds.as_slice())
}

/// The kinds whose children are looked through for items.
pub open spec fn container_kind(k: Seq<char>) -> bool {
    k == "declaration_list"@ || k == "enum_variant_list"@ || k == "field_declaration_list"@ || k
        == "ordered_field_declaration_list"@ || k == "macro_rule_list"@ || k == "extern_item_list"@
}

fn is_container(k: &str) -> (r: bool)
    ensures
        r == container_kind(k@),
{
    str_eq(k, "declaration_list") || str_eq(k, "enum_variant_list") || str_eq(k, "field_declaration_list")
        || str_eq(k, "ordered_field_declaration_list") || str_eq(k, "macro_rule_list") || str_eq(
        k,
        "extern_item_list",
    )
}

/// The symbol of a declaration with a name, when it has one.
pub open spec fn named(b: Seq<u8>, n: SyntaxNode, kind: Seq<char>, children: Seq<SymView>) -> Option<SymView> {
    match name_of(b, n) {
        Some(name) => Some(made(b, n, kind, name, sig(b, n), children)),
        None => None,
    }
}

/// The symbol a node makes: functions, type definitions, constants,
/// statics and macros by their names; structs, enums, traits and modules
/// with the items inside them; an impl named by its type (and trait).
pub open spec fn rust_symbol(b: Seq<u8>, n: SyntaxNode) -> Option<SymView>
    decreases n, 2nat,
{
    let k = n.kind@;
    if k == "function_item"@ || k == "function_signature_item"@ {
        named(b, n, "fn"@, Seq::empty())
    } else if k == "struct_item"@ {
        named(b, n, "struct"@, rust_block(b, n))
    } else if k == "enum_item"@ {
        named(b, n, "enum"@, rust_block(b, n))
    } else if k == "trait_item"@ {
        named(b, n, "trait"@, rust_block(b, n))
    } else if k == "impl_item"@ {
        match field_text(b, n, "type"@) {
            None => None,
            Some(t) => {
                let name = match field_text(b, n, "trait"@) {
                    Some(tr) => tr + " for "@ + t,
                    None => t,
                };
                Some(made(b, n, "impl"@, name, sig(b, n), rust_block(b, n)))
            },
        }
    } else if k == "mod_item"@ {
        named(b, n, "mod"@, rust_block(b, n))
    } else if k == "type_item"@ {
        named(b, n, "type"@, Seq::empty())
    } else if k == "const_item"@ {
        named(b, n, "const"@, Seq::empty())
    } else if k == "static_item"@ {
        named(b, n, "static"@, Seq::empty())
    } else if k == "macro_definition"@ {
        named(b, n, "macro"@, Seq::empty())
    } else {
        None
    }
}

/// The symbols inside a node.
pub open spec fn rust_block(b: Seq<u8>, n: SyntaxNode) -> Seq<SymView>
    decreases n, 1nat,
{
    rust_items(b, n.children@, n.children@.len() as int)
}

/// The symbols of the first `k` nodes of a list: each node's symbol, or the
/// symbols inside it when it is a container that makes none.
pub open spec fn rust_items(b: Seq<u8>, cs: Seq<SyntaxNode>, k: int) -> Seq<SymView>
    decreases cs, k,
{
    if k <= 0 || k > cs.len() {
        Seq::empty()
    } else {
        let prev = rust_items(b, cs, k - 1);
        match rust_symbol(b, cs[k - 1]) {
            Some(s) => prev.push(s),
            None => if container_kind(cs[k - 1].kind@) {
                prev + rust_block(b, cs[k - 1])
            } else {
                prev
            },
        }
    }
}

fn named_symbol(source: &str, node: &SyntaxNode, kind: &'static str) -> (r: Option<Symbol>)
    requires
        source_bytes(source).len() < usize::MAX,
    ensures
        opt_sym_view(r) == named(source_bytes(source), *node, kind@, Seq::empty()),
{
    let name = match node_name(source, node) {
        Some(x) => x,
        None => return None,
    };
    proof {
        assert(all_views(Seq::<Symbol>::empty()) =~= Seq::<SymView>::empty());
    }
    Some(make_symbol(source, node, kind, name, signature(source, node), Vec::new()))
}

fn named_with_items(source: &str, node: &SyntaxNode, kind: &'static str) -> (r: Option<Symbol>)
    requires
        source_bytes(source).len() < usize::MAX,
    ensures
        opt_sym_view(r) == named(source_bytes(source), *node, kind@, rust_block(source_bytes(source), *node)),
    decreases node, 1nat, 1nat,
{
    let name = match node_name(source, node) {
        Some(x) => x,
        None => return None,
    };
    let items = extract_block(source, node);
    Some(make_symbol(source, node, kind, name, signature(source, node), items))
}

/// The symbol a node makes.
pub fn node_to_symbol(source: &str, node: &SyntaxNode) -> (r: Option<Symbol>)
    requires
        source_bytes(source).len() < usize::MAX,
    ensures
        opt_sym_view(r) == rust_symbol(source_bytes(source), *node),
    decreases node, 2nat, 0nat,
{
    let k = node.kind.as_str();
    if str_eq(k, "function_item") || str_eq(k, "function_signature_item") {
        named_symbol(source, node, "fn")
    } else if str_eq(k, "struct_item") {
        named_with_items(source, node, "struct")
    } else if str_eq(k, "enum_item") {
        named_with_items(source, node, "enum")
    } else if str_eq(k, "trait_item") {
        named_with_items(source, node, "trait")
    } else if str_eq(k, "impl_item") {
        let t = match field_child_text(source, node, "type") {
            Some(t) => t,
            None => return None,
        };
        let name = match field_child_text(source, node, "trait") {
            Some(tr) => {
                let mut s = tr;
                s.append(" for ");
                s.append(t.as_str());
                s
            },
            None => t,
        };
        let items = extract_block(source, node);
        Some(make_symbol(source, node, "impl", name, signature(source, node), items))
    } else if str_eq(k, "mod_item") {
        named_with_items(source, node, "mod")
    } else if str_eq(k, "type_item") {
        named_symbol(source, node, "type")
    } else if str_eq(k, "const_item") {
        named_symbol(source, node, "const")
    } else if str_eq(k, "static_item") {
        named_symbol(source, node, "static")
    } else if str_eq(k, "macro_definition") {
        named_symbol(source, node, "macro")
    } else {
        None
    }
}

/// The symbols inside a node.
pub fn extract_block(source: &str, node: &SyntaxNode) -> (r: Vec<Symbol>)
    requires
        source_bytes(source).len() < usize::MAX,
    ensures
        all_views(r@) == rust_block(source_bytes(source), *node),
    decreases node, 1nat, 0nat,
{
    let mut out: Vec<Symbol> = Vec::new();
    let mut i: usize = 0;
    proof {
        assert(all_views(out@) =~= Seq::<SymView>::empty());
    }
    while i < node.children.len()
        invariant
            i <= node.children@.len(),
            source_bytes(source).len() < usize::MAX,
            all_views(out@) == rust_items(source_bytes(source), node.children@, i as int),
        decreases node.children.len() - i,
    {
        let child = &node.children[i];
        match node_to_symbol(source, child) {
            Some(s) => push_symbol(&mut out, s),
            None => {
                if is_container(child.kind.as_str()) {
                    let more = extract_block(source, child);
                    append_symbols(&mut out, more);
                }
            },
        }
        i += 1;
    }
    out
}

/// The symbols of a parsed Rust file: those of its root.
pub fn parse(source: &str, root: &SyntaxNode) -> (r: Vec<Symbol>)
    requires
        source_bytes(source).len() < usize::MAX,
    ensures
        all_views(r@) == rust_block(source_bytes(source), *root),
{
    extract_block(source, root)
}

} // verus!
