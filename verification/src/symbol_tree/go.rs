//! The symbols of a Go source: the package, functions and methods, types
//! (with the fields of structs and the methods of interfaces), constants and
//! variables, a declaration with several specs as a group.
use vstd::prelude::*;
use crate::text::str_eq;
use super::{
    SyntaxNode, Symbol, SymView, source_bytes, name_of, text_of, sig_text, made, all_views,
    opt_sym_view, opt_views, group_view, node_name, node_text, signature_text, make_symbol,
    push_opt_symbol, append_symbols, group_or_single, kind_index_from, first_of_kind,
};

verus! {

broadcast use vstd::string::group_string_axioms;

/// The kinds of child where a declaration's signature stops.
pub open spec fn body_kinds() -> Seq<&'static str> {
    seq![
        "block",
        "field_declaration_list",
        "interface_body",
        "struct_type",
        "interface_type",
        "map_type",
        "channel_type",
        "function_type",
        "array_type",
        "slice_type",
        "pointer_type",
    ]
}

/// A declaration's signature.
pub open spec fn sig(b: Seq<u8>, n: SyntaxNode) -> Seq<char> {
    sig_text(b, n, body_kinds())
}

fn signature(source: &str, node: &SyntaxNode) -> (r: String)
    ensures
        r@ == sig(source_bytes(source), *node),
{
    let mut kinds: Vec<&'static str> = Vec::new();
    kinds.push("block");
    kinds.push("field_declaration_list");
    kinds.push("interface_body");
    kinds.push("struct_type");
    kinds.push("interface_type");
    kinds.push("map_type");
    kinds.push("channel_type");
    kinds.push("function_type");
    kinds.push("array_type");
    kinds.push("slice_type");
    kinds.push("pointer_type");
    assert(kinds@ =~= body_kinds());
    signature_text(source, node, kinds.as_slice())
}

/// The first child, from `i` on, that is a struct or an interface type.
pub open spec fn type_body_from(cs: Seq<SyntaxNode>, i: int) -> Option<int>
    decreases cs.len() - i,
{
    if i < 0 || i >= cs.len() {
        None
    } else if cs[i].kind@ == "struct_type"@ || cs[i].kind@ == "interface_type"@ {
        Some(i)
    } else {
        type_body_from(cs, i + 1)
    }
}

fn first_type_body(node: &SyntaxNode) -> (r: Option<usize>)
    ensures
        match r {
            Some(j) => type_body_from(node.children@, 0) == Some(j as int) && j < node.children@.len(),
            None => type_body_from(node.children@, 0) is None,
        },
{
    let mut i: usize = 0;
    while i < node.children.len()
        invariant
            i <= node.children@.len(),
            type_body_from(node.children@, 0) == type_body_from(node.children@, i as int),
        decreases node.children.len() - i,
    {
        let k = node.children[i].kind.as_str();
        if str_eq(k, "struct_type") || str_eq(k, "interface_type") {
            return Some(i);
        }
        i += 1;
    }
    None
}

/// The named members of a type body: the children of the given kinds that
/// have a name, each a symbol of kind `kind`.
pub open spec fn members(b: Seq<u8>, cs: Seq<SyntaxNode>, k1: Seq<char>, k2: Seq<char>, kind: Seq<char>, k: int) -> Seq<SymView>
    decreases k,
{
    if k <= 0 || k > cs.len() {
        Seq::empty()
    } else {
        let c = cs[k - 1];
        let this = if c.kind@ == k1 || c.kind@ == k2 {
            match name_of(b, c) {
                Some(name) => seq![made(b, c, kind, name, sig(b, c), Seq::empty())],
                None => Seq::empty(),
            }
        } else {
            Seq::empty()
        };
        members(b, cs, k1, k2, kind, k - 1) + this
    }
}

/// The symbol of a type spec: a struct with its fields, an interface with
/// its methods, or another type.
pub open spec fn type_spec_symbol(b: Seq<u8>, n: SyntaxNode) -> Option<SymView> {
    match name_of(b, n) {
        None => None,
        Some(name) => {
            let cs = n.children@;
            let (kind, children) = match type_body_from(cs, 0) {
                Some(j) => if 0 <= j < cs.len() && cs[j].kind@ == "struct_type"@ {
                    (
                        "struct"@,
                        members(b, cs[j].children@, "field_declaration"@, "field_declaration_list"@, "field"@, cs[j].children@.len() as int),
                    )
                } else if 0 <= j < cs.len() {
                    (
                        "interface"@,
                        members(b, cs[j].children@, "method_elem"@, "method_spec"@, "fn"@, cs[j].children@.len() as int),
                    )
                } else {
                    ("type"@, Seq::empty())
                },
                None => ("type"@, Seq::empty()),
            };
            Some(made(b, n, kind, name, sig(b, n), children))
        },
    }
}

/// The type specs among the first `k` children.
pub open spec fn type_specs(b: Seq<u8>, cs: Seq<SyntaxNode>, k: int) -> Seq<SymView>
    decreases k,
{
    if k <= 0 || k > cs.len() {
        Seq::empty()
    } else if cs[k - 1].kind@ == "type_spec"@ {
        type_specs(b, cs, k - 1) + opt_views(type_spec_symbol(b, cs[k - 1]))
    } else {
        type_specs(b, cs, k - 1)
    }
}

/// The specs of a kind in a node and, through the other children, in the
/// lists and groups below it, each a named symbol.
pub open spec fn specs_in(b: Seq<u8>, n: SyntaxNode, spec_kind: Seq<char>, kind: Seq<char>) -> Seq<SymView>
    decreases n, 0nat,
{
    specs_among(b, n.children@, spec_kind, kind, n.children@.len() as int)
}

/// The specs found among the first `k` nodes of a list.
pub open spec fn specs_among(b: Seq<u8>, cs: Seq<SyntaxNode>, spec_kind: Seq<char>, kind: Seq<char>, k: int) -> Seq<SymView>
    decreases cs, k,
{
    if k <= 0 || k > cs.len() {
        Seq::empty()
    } else {
        let c = cs[k - 1];
        let this = if c.kind@ == spec_kind {
            match name_of(b, c) {
                Some(name) => seq![made(b, c, kind, name, sig(b, c), Seq::empty())],
                None => Seq::empty(),
            }
        } else {
            specs_in(b, c, spec_kind, kind)
        };
        specs_among(b, cs, spec_kind, kind, k - 1) + this
    }
}

/// The symbol a top-level node makes.
pub open spec fn go_symbol(b: Seq<u8>, n: SyntaxNode) -> Option<SymView> {
    let k = n.kind@;
    if k == "package_clause"@ {
        match kind_index_from(n.children@, "package_identifier"@, 0) {
            Some(j) => if 0 <= j < n.children@.len() {
                match text_of(b, n.children@[j]) {
                    Some(name) => Some(made(b, n, "package"@, name, sig(b, n), Seq::empty())),
                    None => None,
                }
            } else {
                None
            },
            None => None,
        }
    } else if k == "function_declaration"@ || k == "method_declaration"@ {
        match name_of(b, n) {
            Some(name) => Some(made(b, n, "fn"@, name, sig(b, n), Seq::empty())),
            None => None,
        }
    } else if k == "type_declaration"@ {
        group_view(b, n, "type"@, sig(b, n), type_specs(b, n.children@, n.children@.len() as int))
    } else if k == "const_declaration"@ {
        group_view(b, n, "const"@, sig(b, n), specs_in(b, n, "const_spec"@, "const"@))
    } else if k == "var_declaration"@ {
        group_view(b, n, "var"@, sig(b, n), specs_in(b, n, "var_spec"@, "var"@))
    } else {
        None
    }
}

/// The symbols of a parsed Go file: those its top-level nodes make.
pub open spec fn go_items(b: Seq<u8>, cs: Seq<SyntaxNode>, k: int) -> Seq<SymView>
    decreases k,
{
    if k <= 0 || k > cs.len() {
        Seq::empty()
    } else {
        go_items(b, cs, k - 1) + opt_views(go_symbol(b, cs[k - 1]))
    }
}

fn member_symbols(source: &str, node: &SyntaxNode, k1: &str, k2: &str, kind: &'static str) -> (r: Vec<Symbol>)
    requires
        source_bytes(source).len() < usize::MAX,
    ensures
        all_views(r@) == members(source_bytes(source), node.children@, k1@, k2@, kind@, node.children@.len() as int),
{
    let mut out: Vec<Symbol> = Vec::new();
    let mut i: usize = 0;
    proof {
        assert(all_views(out@) =~= Seq::<SymView>::empty());
    }
    while i < node.children.len()
        invariant
            i <= node.children@.len(),
            source_bytes(source).len() < usize::MAX,
            all_views(out@) == members(source_bytes(source), node.children@, k1@, k2@, kind@, i as int),
        decreases node.children.len() - i,
    {
        let c = &node.children[i];
        let ck = c.kind.as_str();
        let mut s: Option<Symbol> = None;
        if str_eq(ck, k1) || str_eq(ck, k2) {
            match node_name(source, c) {
                Some(name) => {
                    proof {
                        assert(all_views(Seq::<Symbol>::empty()) =~= Seq::<SymView>::empty());
                    }
                    s = Some(make_symbol(source, c, kind, name, signature(source, c), Vec::new()));
                },
                None => {},
            }
        }
        proof {
            let this = opt_views(opt_sym_view(s));
            let b = source_bytes(source);
            let cc = node.children@[i as int];
            if cc.kind@ == k1@ || cc.kind@ == k2@ {
                if name_of(b, cc) is Some {
                    assert(this =~= seq![made(b, cc, kind@, name_of(b, cc)->0, sig(b, cc), Seq::empty())]);
                }
            }
        }
        push_opt_symbol(&mut out, s);
        i += 1;
    }
    out
}

/// The fields of a struct type.
fn extract_struct_fields(source: &str, node: &SyntaxNode) -> (r: Vec<Symbol>)
    requires
        source_bytes(source).len() < usize::MAX,
    ensures
        all_views(r@) == members(
            source_bytes(source),
            node.children@,
            "field_declaration"@,
            "field_declaration_list"@,
            "field"@,
            node.children@.len() as int,
        ),
{
    member_symbols(source, node, "field_declaration", "field_declaration_list", "field")
}

/// The methods of an interface type.
fn extract_interface_methods(source: &str, node: &SyntaxNode) -> (r: Vec<Symbol>)
    requires
        source_bytes(source).len() < usize::MAX,
    ensures
        all_views(r@) == members(
            source_bytes(source),
            node.children@,
            "method_elem"@,
            "method_spec"@,
            "fn"@,
            node.children@.len() as int,
        ),
{
    member_symbols(source, node, "method_elem", "method_spec", "fn")
}

fn type_spec_to_symbol(source: &str, node: &SyntaxNode) -> (r: Option<Symbol>)
    requires
        source_bytes(source).len() < usize::MAX,
    ensures
        opt_sym_view(r) == type_spec_symbol(source_bytes(source), *node),
{
    let name = match node_name(source, node) {
        Some(x) => x,
        None => return None,
    };
    let sig = signature(source, node);
    let (kind, children): (&'static str, Vec<Symbol>) = match first_type_body(node) {
        Some(j) => {
            let body = &node.children[j];
            if str_eq(body.kind.as_str(), "struct_type") {
                ("struct", extract_struct_fields(source, body))
            } else {
                ("interface", extract_interface_methods(source, body))
            }
        },
        None => {
            proof {
                assert(all_views(Seq::<Symbol>::empty()) =~= Seq::<SymView>::empty());
            }
            ("type", Vec::new())
        },
    };
    Some(make_symbol(source, node, kind, name, sig, children))
}

fn type_spec_symbols(source: &str, node: &SyntaxNode) -> (r: Vec<Symbol>)
    requires
        source_bytes(source).len() < usize::MAX,
    ensures
        all_views(r@) == type_specs(source_bytes(source), node.children@, node.children@.len() as int),
{
    let mut out: Vec<Symbol> = Vec::new();
    let mut i: usize = 0;
    proof {
        assert(all_views(out@) =~= Seq::<SymView>::empty());
    }
    while i < node.children.len()
        invariant
            i <= node.children@.len(),
            source_bytes(source).len() < usize::MAX,
            all_views(out@) == type_specs(source_bytes(source), node.children@, i as int),
        decreases node.children.len() - i,
    {
        let c = &node.children[i];
        if str_eq(c.kind.as_str(), "type_spec") {
            let s = type_spec_to_symbol(source, c);
            push_opt_symbol(&mut out, s);
        } else {
            assert(all_views(out@) + Seq::<SymView>::empty() =~= all_views(out@));
        }
        i += 1;
    }
    out
}

/// The specs of a kind in a node and below it.
pub fn collect_specs(source: &str, node: &SyntaxNode, spec_kind: &str, kind: &'static str, out: &mut Vec<Symbol>)
    requires
        source_bytes(source).len() < usize::MAX,
    ensures
        all_views(final(out)@) == all_views(old(out)@) + specs_in(source_bytes(source), *node, spec_kind@, kind@),
    decreases node,
{
    let ghost start = all_views(out@);
    let mut i: usize = 0;
    proof {
        assert(start + specs_among(source_bytes(source), node.children@, spec_kind@, kind@, 0) =~= start);
    }
    while i < node.children.len()
        invariant
            i <= node.children@.len(),
            source_bytes(source).len() < usize::MAX,
            all_views(out@) == start + specs_among(source_bytes(source), node.children@, spec_kind@, kind@, i as int),
        decreases node.children.len() - i,
    {
        let c = &node.children[i];
        let ghost before = all_views(out@);
        let ghost b = source_bytes(source);
        if str_eq(c.kind.as_str(), spec_kind) {
            let mut s: Option<Symbol> = None;
            match node_name(source, c) {
                Some(name) => {
                    proof {
                        assert(all_views(Seq::<Symbol>::empty()) =~= Seq::<SymView>::empty());
                    }
                    s = Some(make_symbol(source, c, kind, name, signature(source, c), Vec::new()));
                },
                None => {},
            }
            proof {
                let cc = node.children@[i as int];
                if name_of(b, cc) is Some {
                    assert(opt_views(opt_sym_view(s)) =~= seq![made(b, cc, kind@, name_of(b, cc)->0, sig(b, cc), Seq::empty())]);
                } else {
                    assert(opt_views(opt_sym_view(s)) =~= Seq::<SymView>::empty());
                }
            }
            push_opt_symbol(out, s);
        } else {
            collect_specs(source, c, spec_kind, kind, out);
        }
        proof {
            assert(all_views(out@) =~= start + specs_among(b, node.children@, spec_kind@, kind@, i + 1));
        }
        i += 1;
    }
}

/// The symbol a top-level node makes.
pub fn node_to_symbol(source: &str, node: &SyntaxNode) -> (r: Option<Symbol>)
    requires
        source_bytes(source).len() < usize::MAX,
    ensures
        opt_sym_view(r) == go_symbol(source_bytes(source), *node),
{
    proof {
        assert(all_views(Seq::<Symbol>::empty()) =~= Seq::<SymView>::empty());
    }
    let k = node.kind.as_str();
    if str_eq(k, "package_clause") {
        let j = match first_of_kind(node, "package_identifier") {
            Some(j) => j,
            None => return None,
        };
        let name = match node_text(source, &node.children[j]) {
            Some(x) => x,
            None => return None,
        };
        Some(make_symbol(source, node, "package", name, signature(source, node), Vec::new()))
    } else if str_eq(k, "function_declaration") || str_eq(k, "method_declaration") {
        let name = match node_name(source, node) {
            Some(x) => x,
            None => return None,
        };
        Some(make_symbol(source, node, "fn", name, signature(source, node), Vec::new()))
    } else if str_eq(k, "type_declaration") {
        let children = type_spec_symbols(source, node);
        group_or_single(source, node, "type", signature(source, node), children)
    } else if str_eq(k, "const_declaration") {
        let mut children: Vec<Symbol> = Vec::new();
        collect_specs(source, node, "const_spec", "const", &mut children);
        proof {
            assert(Seq::<SymView>::empty() + specs_in(source_bytes(source), *node, "const_spec"@, "const"@)
                =~= specs_in(source_bytes(source), *node, "const_spec"@, "const"@));
        }
        group_or_single(source, node, "const", signature(source, node), children)
    } else if str_eq(k, "var_declaration") {
        let mut children: Vec<Symbol> = Vec::new();
        collect_specs(source, node, "var_spec", "var", &mut children);
        proof {
            assert(Seq::<SymView>::empty() + specs_in(source_bytes(source), *node, "var_spec"@, "var"@)
                =~= specs_in(source_bytes(source), *node, "var_spec"@, "var"@));
        }
        group_or_single(source, node, "var", signature(source, node), children)
    } else {
        None
    }
}

/// The symbols of a parsed Go file: those its top-level nodes make.
pub fn parse(source: &str, root: &SyntaxNode) -> (r: Vec<Symbol>)
    requires
        source_bytes(source).len() < usize::MAX,
    ensures
        all_views(r@) == go_items(source_bytes(source), root.children@, root.children@.len() as int),
{
    let mut out: Vec<Symbol> = Vec::new();
    let mut i: usize = 0;
    proof {
        assert(all_views(out@) =~= Seq::<SymView>::empty());
    }
    while i < root.children.len()
        invariant
            i <= root.children@.len(),
            source_bytes(source).len() < usize::MAX,
            all_views(out@) == go_items(source_bytes(source), root.children@, i as int),
        decreases root.children.len() - i,
    {
        let s = node_to_symbol(source, &root.children[i]);
        push_opt_symbol(&mut out, s);
        i += 1;
    }
    out
}

} // verus!
