//! The symbols of a Python source: functions, classes with their members,
//! decorated definitions and module-level assignments.
use vstd::prelude::*;
use crate::text::str_eq;
use super::{
    SyntaxNode, Symbol, SymView, source_bytes, name_of, field_index, text_of, sig_text, made,
    all_views, opt_sym_view, opt_views, node_name, node_text, field_child, signature_text,
    make_symbol, push_opt_symbol, append_symbols,
};

verus! {

broadcast use vstd::string::group_string_axioms;

/// The kinds of child that open a definition's body.
pub open spec fn body_kinds() -> Seq<&'static str> {
    seq!["block"]
}

/// A definition's signature.
pub open spec fn sig(b: Seq<u8>, n: SyntaxNode) -> Seq<char> {
    sig_text(b, n, body_kinds())
}

fn signature(source: &str, node: &SyntaxNode) -> (r: String)
    ensures
        r@ == sig(source_bytes(source), *node),
{
    let mut kinds: Vec<&'static str> = Vec::new();
    kinds.push("block");
    assert(kinds@ =~= body_kinds());
    signature_text(source, node, kinds.as_slice())
}

/// The symbol a node makes: a function or a class (with its members) by
/// name; a decorated definition as the definition it decorates, spanning
/// the decorators too; an assignment to a plain name as a variable, also
/// when it stands alone as a statement.
pub open spec fn py_symbol(b: Seq<u8>, n: SyntaxNode) -> Option<SymView>
    decreases n, 2nat,
{
    let k = n.kind@;
    if k == "function_definition"@ {
        match name_of(b, n) {
            Some(name) => Some(made(b, n, "fn"@, name, sig(b, n), Seq::empty())),
            None => None,
        }
    } else if k == "class_definition"@ {
        match name_of(b, n) {
            Some(name) => Some(made(b, n, "class"@, name, sig(b, n), py_class_body(b, n))),
            None => None,
        }
    } else if k == "decorated_definition"@ {
        match field_index(n, "definition"@) {
            Some(j) => if 0 <= j < n.children@.len() {
                match py_symbol(b, n.children@[j]) {
                    Some(inner) => Some(
                        made(b, n, inner.kind, inner.name, inner.signature, inner.children),
                    ),
                    None => None,
                }
            } else {
                None
            },
            None => None,
        }
    } else if k == "expression_statement"@ {
        if n.children@.len() > 0 && n.children@[0].kind@ == "assignment"@ {
            py_symbol(b, n.children@[0])
        } else {
            None
        }
    } else if k == "assignment"@ {
        match field_index(n, "left"@) {
            Some(j) => if 0 <= j < n.children@.len() && n.children@[j].kind@ == "identifier"@ {
                match text_of(b, n.children@[j]) {
                    Some(name) => Some(made(b, n, "var"@, name, sig(b, n), Seq::empty())),
                    None => None,
                }
            } else {
                None
            },
            None => None,
        }
    } else {
        None
    }
}

/// The members of a class: the symbols of the statements in its blocks.
pub open spec fn py_class_body(b: Seq<u8>, n: SyntaxNode) -> Seq<SymView>
    decreases n, 1nat,
{
    py_blocks(b, n.children@, n.children@.len() as int)
}

/// The symbols of the statements of the blocks among the first `k` nodes.
pub open spec fn py_blocks(b: Seq<u8>, cs: Seq<SyntaxNode>, k: int) -> Seq<SymView>
    decreases cs, k,
{
    if k <= 0 || k > cs.len() {
        Seq::empty()
    } else if cs[k - 1].kind@ == "block"@ {
        py_blocks(b, cs, k - 1) + py_items(b, cs[k - 1].children@, cs[k - 1].children@.len() as int)
    } else {
        py_blocks(b, cs, k - 1)
    }
}

/// The symbols the first `k` nodes of a list make.
pub open spec fn py_items(b: Seq<u8>, cs: Seq<SyntaxNode>, k: int) -> Seq<SymView>
    decreases cs, k,
{
    if k <= 0 || k > cs.len() {
        Seq::empty()
    } else {
        py_items(b, cs, k - 1) + opt_views(py_symbol(b, cs[k - 1]))
    }
}

/// The symbol a node makes.
pub fn node_to_symbol(source: &str, node: &SyntaxNode) -> (r: Option<Symbol>)
    requires
        source_bytes(source).len() < usize::MAX,
    ensures
        opt_sym_view(r) == py_symbol(source_bytes(source), *node),
    decreases node, 2nat,
{
    proof {
        assert(all_views(Seq::<Symbol>::empty()) =~= Seq::<SymView>::empty());
    }
    let k = node.kind.as_str();
    if str_eq(k, "function_definition") {
        let name = match node_name(source, node) {
            Some(x) => x,
            None => return None,
        };
        Some(make_symbol(source, node, "fn", name, signature(source, node), Vec::new()))
    } else if str_eq(k, "class_definition") {
        let name = match node_name(source, node) {
            Some(x) => x,
            None => return None,
        };
        let members = extract_class_body(source, node);
        Some(make_symbol(source, node, "class", name, signature(source, node), members))
    } else if str_eq(k, "decorated_definition") {
        let j = match field_child(node, "definition") {
            Some(j) => j,
            None => return None,
        };
        match node_to_symbol(source, &node.children[j]) {
            Some(inner) => {
                let s = Symbol {
                    kind: inner.kind,
                    name: inner.name,
                    line_start: crate::symbol_tree::byte_to_line(source, node.start_byte),
                    line_end: crate::symbol_tree::byte_to_line(source, node.end_byte),
                    signature: inner.signature,
                    children: inner.children,
                };
                Some(s)
            },
            None => None,
        }
    } else if str_eq(k, "expression_statement") {
        if node.children.len() > 0 && str_eq(node.children[0].kind.as_str(), "assignment") {
            node_to_symbol(source, &node.children[0])
        } else {
            None
        }
    } else if str_eq(k, "assignment") {
        let j = match field_child(node, "left") {
            Some(j) => j,
            None => return None,
        };
        if !str_eq(node.children[j].kind.as_str(), "identifier") {
            return None;
        }
        let name = match node_text(source, &node.children[j]) {
            Some(x) => x,
            None => return None,
        };
        Some(make_symbol(source, node, "var", name, signature(source, node), Vec::new()))
    } else {
        None
    }
}

/// The symbols the statements of a list make.
fn extract_block(source: &str, node: &SyntaxNode) -> (r: Vec<Symbol>)
    requires
        source_bytes(source).len() < usize::MAX,
    ensures
        all_views(r@) == py_items(source_bytes(source), node.children@, node.children@.len() as int),
    decreases node, 0nat,
{
    let mut out: Vec<Symbol> = Vec::new();
    let mut i: usize = 0;
    proof {
        assert(all_views(out@) =~= Seq::<SymView>::empty());
    }
    while i < node.children.len()
        invariant
            i <= node.children@.len(),
            source_bytes(source).len() < usize::MAX,
            all_views(out@) == py_items(source_bytes(source), node.children@, i as int),
        decreases node.children.len() - i,
    {
        let s = node_to_symbol(source, &node.children[i]);
        push_opt_symbol(&mut out, s);
        i += 1;
    }
    out
}

/// The members of a class.
fn extract_class_body(source: &str, node: &SyntaxNode) -> (r: Vec<Symbol>)
    requires
        source_bytes(source).len() < usize::MAX,
    ensures
        all_views(r@) == py_class_body(source_bytes(source), *node),
    decreases node, 1nat,
{
    let mut out: Vec<Symbol> = Vec::new();
    let mut i: usize = 0;
    proof {
        assert(all_views(out@) =~= Seq::<SymView>::empty());
    }
    while i < node.children.len()
        invariant
            i <= node.children@.len(),
            source_bytes(source).len() < usize::MAX,
            all_views(out@) == py_blocks(source_bytes(source), node.children@, i as int),
        decreases node.children.len() - i,
    {
        let child = &node.children[i];
        if str_eq(child.kind.as_str(), "block") {
            let more = extract_block(source, child);
            append_symbols(&mut out, more);
        }
        i += 1;
    }
    out
}

/// The symbols of a parsed Python file: those its top-level statements make.
pub fn parse(source: &str, root: &SyntaxNode) -> (r: Vec<Symbol>)
    requires
        source_bytes(source).len() < usize::MAX,
    ensures
        all_views(r@) == py_items(source_bytes(source), root.children@, root.children@.len() as int),
{
    extract_block(source, root)
}

} // verus!
