//! The symbols of a TypeScript or JavaScript source: functions, classes with
//! their members, interfaces with theirs, enums, type aliases, variables
//! (several in one declaration as a group), and what an export declares.
use vstd::prelude::*;
use crate::text::str_eq;
use super::{
    SyntaxNode, Symbol, SymView, source_bytes, name_of, field_text, field_index, sig_text, made,
    all_views, opt_sym_view, opt_views, group_view, node_name, field_child_text, field_child,
    signature_text, make_symbol, push_opt_symbol, append_symbols, group_or_single,
};

verus! {

broadcast use vstd::string::group_string_axioms;

/// The kinds of child that open a declaration's body.
pub open spec fn body_kinds() -> Seq<&'static str> {
    seq!["statement_block", "class_body", "interface_body", "enum_body", "object_type"]
}

/// A declaration's signature.
pub open spec fn sig(b: Seq<u8>, n: SyntaxNode) -> Seq<char> {
    sig_text(b, n, body_kinds())
}

fn signature(source: &str, node: &SyntaxNode) -> (r: String)
    ensures
        r@ == sig(source_bytes(source), *node),
{
    let mut kinds: Vec<&'static str> = Vec::new();
    kinds.push("statement_block");
    kinds.push("class_body");
    kinds.push("interface_body");
    kinds.push("enum_body");
    kinds.push("object_type");
    assert(kinds@ =~= body_kinds());
    signature_text(source, node, kinds.as_slice())
}

/// A symbol named by the text of a field of the node.
pub open spec fn by_field(b: Seq<u8>, n: SyntaxNode, f: Seq<char>, kind: Seq<char>, children: Seq<SymView>) -> Option<SymView> {
    match field_text(b, n, f) {
        Some(name) => Some(made(b, n, kind, name, sig(b, n), children)),
        None => None,
    }
}

/// The symbol a class member makes: a method, an abstract method or a field.
pub open spec fn class_member(b: Seq<u8>, n: SyntaxNode) -> Option<SymView> {
    let k = n.kind@;
    if k == "method_definition"@ || k == "abstract_method_signature"@ {
        by_field(b, n, "name"@, "fn"@, Seq::empty())
    } else if k == "field_definition"@ {
        by_field(b, n, "property"@, "field"@, Seq::empty())
    } else {
        None
    }
}

/// The symbol an interface member makes: a method, a property or a
/// constructor.
pub open spec fn interface_member(b: Seq<u8>, n: SyntaxNode) -> Option<SymView> {
    let k = n.kind@;
    if k == "method_signature"@ {
        by_field(b, n, "name"@, "fn"@, Seq::empty())
    } else if k == "property_signature"@ {
        by_field(b, n, "name"@, "field"@, Seq::empty())
    } else if k == "construct_signature"@ {
        Some(made(b, n, "fn"@, "constructor"@, sig(b, n), Seq::empty()))
    } else {
        None
    }
}

/// The members of a body: what each of its first `k` children makes.
pub open spec fn body_members(b: Seq<u8>, cs: Seq<SyntaxNode>, class: bool, k: int) -> Seq<SymView>
    decreases k,
{
    if k <= 0 || k > cs.len() {
        Seq::empty()
    } else {
        body_members(b, cs, class, k - 1) + opt_views(
            if class {
                class_member(b, cs[k - 1])
            } else {
                interface_member(b, cs[k - 1])
            },
        )
    }
}

/// The members in the bodies (of the given kind) among the first `k`
/// children of a declaration.
pub open spec fn bodies(b: Seq<u8>, cs: Seq<SyntaxNode>, body_kind: Seq<char>, class: bool, k: int) -> Seq<SymView>
    decreases k,
{
    if k <= 0 || k > cs.len() {
        Seq::empty()
    } else if cs[k - 1].kind@ == body_kind {
        bodies(b, cs, body_kind, class, k - 1) + body_members(
            b,
            cs[k - 1].children@,
            class,
            cs[k - 1].children@.len() as int,
        )
    } else {
        bodies(b, cs, body_kind, class, k - 1)
    }
}

/// The variables a declaration declares, among its first `k` children.
pub open spec fn declarators(b: Seq<u8>, cs: Seq<SyntaxNode>, k: int) -> Seq<SymView>
    decreases k,
{
    if k <= 0 || k > cs.len() {
        Seq::empty()
    } else if cs[k - 1].kind@ == "variable_declarator"@ {
        declarators(b, cs, k - 1) + match name_of(b, cs[k - 1]) {
            Some(name) => seq![made(b, cs[k - 1], "var"@, name, sig_text(b, cs[k - 1], Seq::empty()), Seq::empty())],
            None => Seq::empty(),
        }
    } else {
        declarators(b, cs, k - 1)
    }
}

/// The symbol a node makes.
pub open spec fn ts_symbol(b: Seq<u8>, n: SyntaxNode) -> Option<SymView>
    decreases n,
{
    let k = n.kind@;
    let cs = n.children@;
    if k == "function_declaration"@ || k == "generator_function_declaration"@ || k == "function_signature"@ {
        by_field(b, n, "name"@, "fn"@, Seq::empty())
    } else if k == "class_declaration"@ || k == "abstract_class_declaration"@ {
        by_field(b, n, "name"@, "class"@, bodies(b, cs, "class_body"@, true, cs.len() as int))
    } else if k == "interface_declaration"@ {
        by_field(b, n, "name"@, "interface"@, bodies(b, cs, "interface_body"@, false, cs.len() as int))
    } else if k == "enum_declaration"@ {
        by_field(b, n, "name"@, "enum"@, Seq::empty())
    } else if k == "type_alias_declaration"@ {
        by_field(b, n, "name"@, "type"@, Seq::empty())
    } else if k == "variable_declaration"@ || k == "lexical_declaration"@ {
        group_view(b, n, "var"@, sig(b, n), declarators(b, cs, cs.len() as int))
    } else if k == "export_statement"@ {
        match field_index(n, "declaration"@) {
            Some(j) => if 0 <= j < cs.len() {
                ts_symbol(b, cs[j])
            } else {
                None
            },
            None => None,
        }
    } else {
        None
    }
}

/// The symbols of the first `k` top-level nodes.
pub open spec fn ts_items(b: Seq<u8>, cs: Seq<SyntaxNode>, k: int) -> Seq<SymView>
    decreases k,
{
    if k <= 0 || k > cs.len() {
        Seq::empty()
    } else {
        ts_items(b, cs, k - 1) + opt_views(ts_symbol(b, cs[k - 1]))
    }
}

fn field_symbol(source: &str, node: &SyntaxNode, f: &str, kind: &'static str, children: Vec<Symbol>) -> (r: Option<Symbol>)
    requires
        source_bytes(source).len() < usize::MAX,
    ensures
        opt_sym_view(r) == by_field(source_bytes(source), *node, f@, kind@, all_views(children@)),
{
    match field_child_text(source, node, f) {
        Some(name) => Some(make_symbol(source, node, kind, name, signature(source, node), children)),
        None => None,
    }
}

/// The symbol a class member makes.
fn class_member_to_symbol(source: &str, node: &SyntaxNode) -> (r: Option<Symbol>)
    requires
        source_bytes(source).len() < usize::MAX,
    ensures
        opt_sym_view(r) == class_member(source_bytes(source), *node),
{
    proof {
        assert(all_views(Seq::<Symbol>::empty()) =~= Seq::<SymView>::empty());
    }
    let k = node.kind.as_str();
    if str_eq(k, "method_definition") || str_eq(k, "abstract_method_signature") {
        field_symbol(source, node, "name", "fn", Vec::new())
    } else if str_eq(k, "field_definition") {
        field_symbol(source, node, "property", "field", Vec::new())
    } else {
        None
    }
}

/// The symbol an interface member makes.
fn interface_member_to_symbol(source: &str, node: &SyntaxNode) -> (r: Option<Symbol>)
    requires
        source_bytes(source).len() < usize::MAX,
    ensures
        opt_sym_view(r) == interface_member(source_bytes(source), *node),
{
    proof {
        assert(all_views(Seq::<Symbol>::empty()) =~= Seq::<SymView>::empty());
    }
    let k = node.kind.as_str();
    if str_eq(k, "method_signature") {
        field_symbol(source, node, "name", "fn", Vec::new())
    } else if str_eq(k, "property_signature") {
        field_symbol(source, node, "name", "field", Vec::new())
    } else if str_eq(k, "construct_signature") {
        Some(make_symbol(source, node, "fn", "constructor".to_string(), signature(source, node), Vec::new()))
    } else {
        None
    }
}

fn members_of(source: &str, node: &SyntaxNode, body_kind: &str, class: bool) -> (r: Vec<Symbol>)
    requires
        source_bytes(source).len() < usize::MAX,
    ensures
        all_views(r@) == bodies(source_bytes(source), node.children@, body_kind@, class, node.children@.len() as int),
{
    let mut out: Vec<Symbol> = Vec::new();
    let mut i: usize = 0;
    proof {
        assert(all_views(out@) =~= Seq::<SymView>::empty());
    }
    while i < node.children.len()
        invariant
            i <= node.children@.len(),
            source_bytes(source).len() < usize::MAX,
            all_views(out@) == bodies(source_bytes(source), node.children@, body_kind@, class, i as int),
        decreases node.children.len() - i,
    {
        let body = &node.children[i];
        if str_eq(body.kind.as_str(), body_kind) {
            let ghost before = all_views(out@);
            let mut j: usize = 0;
            proof {
                assert(before + body_members(source_bytes(source), body.children@, class, 0) =~= before);
            }
            while j < body.children.len()
                invariant
                    j <= body.children@.len(),
                    source_bytes(source).len() < usize::MAX,
                    all_views(out@) == before + body_members(source_bytes(source), body.children@, class, j as int),
                decreases body.children.len() - j,
            {
                let s = if class {
                    class_member_to_symbol(source, &body.children[j])
                } else {
                    interface_member_to_symbol(source, &body.children[j])
                };
                push_opt_symbol(&mut out, s);
                proof {
                    assert(all_views(out@) =~= before + body_members(source_bytes(source), body.children@, class, j + 1));
                }
                j += 1;
            }
        }
        i += 1;
    }
    out
}

/// The members of a class.
fn extract_class_body(source: &str, node: &SyntaxNode) -> (r: Vec<Symbol>)
    requires
        source_bytes(source).len() < usize::MAX,
    ensures
        all_views(r@) == bodies(source_bytes(source), node.children@, "class_body"@, true, node.children@.len() as int),
{
    members_of(source, node, "class_body", true)
}

/// The members of an interface.
fn extract_interface_body(source: &str, node: &SyntaxNode) -> (r: Vec<Symbol>)
    requires
        source_bytes(source).len() < usize::MAX,
    ensures
        all_views(r@) == bodies(source_bytes(source), node.children@, "interface_body"@, false, node.children@.len() as int),
{
    members_of(source, node, "interface_body", false)
}

fn collect_variable_declarators(source: &str, node: &SyntaxNode) -> (r: Vec<Symbol>)
    requires
        source_bytes(source).len() < usize::MAX,
    ensures
        all_views(r@) == declarators(source_bytes(source), node.children@, node.children@.len() as int),
{
    let mut out: Vec<Symbol> = Vec::new();
    let mut i: usize = 0;
    proof {
        assert(all_views(out@) =~= Seq::<SymView>::empty());
        assert(all_views(Seq::<Symbol>::empty()) =~= Seq::<SymView>::empty());
    }
    while i < node.children.len()
        invariant
            i <= node.children@.len(),
            source_bytes(source).len() < usize::MAX,
            all_views(Seq::<Symbol>::empty()) == Seq::<SymView>::empty(),
            all_views(out@) == declarators(source_bytes(source), node.children@, i as int),
        decreases node.children.len() - i,
    {
        let c = &node.children[i];
        if str_eq(c.kind.as_str(), "variable_declarator") {
            let ghost b = source_bytes(source);
            let mut s: Option<Symbol> = None;
            match node_name(source, c) {
                Some(name) => {
                    let no_kinds: Vec<&'static str> = Vec::new();
                    let sig = signature_text(source, c, no_kinds.as_slice());
                    proof {
                        assert(no_kinds@ =~= Seq::<&'static str>::empty());
                    }
                    s = Some(make_symbol(source, c, "var", name, sig, Vec::new()));
                },
                None => {},
            }
            proof {
                let cc = node.children@[i as int];
                if name_of(b, cc) is Some {
                    assert(opt_views(opt_sym_view(s)) =~= seq![made(b, cc, "var"@, name_of(b, cc)->0, sig_text(b, cc, Seq::empty()), Seq::empty())]);
                } else {
                    assert(opt_views(opt_sym_view(s)) =~= Seq::<SymView>::empty());
                }
            }
            push_opt_symbol(&mut out, s);
        }
        i += 1;
    }
    out
}

/// The symbol a node makes.
pub fn node_to_symbol(source: &str, node: &SyntaxNode) -> (r: Option<Symbol>)
    requires
        source_bytes(source).len() < usize::MAX,
    ensures
        opt_sym_view(r) == ts_symbol(source_bytes(source), *node),
    decreases node,
{
    proof {
        assert(all_views(Seq::<Symbol>::empty()) =~= Seq::<SymView>::empty());
    }
    let k = node.kind.as_str();
    if str_eq(k, "function_declaration") || str_eq(k, "generator_function_declaration") || str_eq(
        k,
        "function_signature",
    ) {
        field_symbol(source, node, "name", "fn", Vec::new())
    } else if str_eq(k, "class_declaration") || str_eq(k, "abstract_class_declaration") {
        if field_child(node, "name").is_none() {
            return None;
        }
        let members = extract_class_body(source, node);
        field_symbol(source, node, "name", "class", members)
    } else if str_eq(k, "interface_declaration") {
        if field_child(node, "name").is_none() {
            return None;
        }
        let members = extract_interface_body(source, node);
        field_symbol(source, node, "name", "interface", members)
    } else if str_eq(k, "enum_declaration") {
        field_symbol(source, node, "name", "enum", Vec::new())
    } else if str_eq(k, "type_alias_declaration") {
        field_symbol(source, node, "name", "type", Vec::new())
    } else if str_eq(k, "variable_declaration") || str_eq(k, "lexical_declaration") {
        let children = collect_variable_declarators(source, node);
        group_or_single(source, node, "var", signature(source, node), children)
    } else if str_eq(k, "export_statement") {
        match field_child(node, "declaration") {
            Some(j) => node_to_symbol(source, &node.children[j]),
            None => None,
        }
    } else {
        None
    }
}

/// The symbols of a parsed TypeScript or JavaScript file: those its
/// top-level nodes make.
pub fn parse(source: &str, root: &SyntaxNode) -> (r: Vec<Symbol>)
    requires
        source_bytes(source).len() < usize::MAX,
    ensures
        all_views(r@) == ts_items(source_bytes(source), root.children@, root.children@.len() as int),
{
    let mut out: Vec<Symbol> = Vec::new();
    let mut i: usize = 0;
    proof {
        assert(all_views(out@) =~= Seq::<SymView>::empty());
    }
    while i < root.children.len()
        invariant
            i <= root.children@.len(),
            source_bytes(source).len() < usize::MAX,
            all_views(out@) == ts_items(source_bytes(source), root.children@, i as int),
        decreases root.children.len() - i,
    {
        let s = node_to_symbol(source, &root.children[i]);
        push_opt_symbol(&mut out, s);
        i += 1;
    }
    out
}

} // verus!
