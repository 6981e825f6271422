//! The symbols of a C# source: namespaces (a file-scoped one holding the
//! whole file), classes, records, structs and interfaces with their members,
//! enums, methods, properties and fields (several in one declaration as a
//! group).
use vstd::prelude::*;
use crate::text::str_eq;
use super::{
    SyntaxNode, Symbol, SymView, sym_view, source_bytes, name_of, sig_text, made, all_views, opt_sym_view,
    opt_views, group_view, node_name, signature_text, make_symbol, push_symbol, push_opt_symbol,
    append_symbols, group_or_single, kind_index_from, first_of_kind, line_of_byte, byte_to_line,
};

verus! {

broadcast use vstd::string::group_string_axioms;

/// The kinds of child that open a declaration's body.
pub open spec fn body_kinds() -> Seq<&'static str> {
    seq![
        "block",
        "arrow_expression_clause",
        "declaration_list",
        "class_body",
        "struct_body",
        "interface_body",
        "enum_body",
    ]
}

/// A declaration's signature.
pub open spec fn sig(b: Seq<u8>, n: SyntaxNode) -> Seq<char> {
    sig_text(b, n, body_kinds())
}

fn signature(source: &str, node: &SyntaxNode) -> (r: String)
    ensures
        r@ == sig(source_bytes(source), *node),
{
    let mut kinds: Vec<&'static str> = Vec::new();
    kinds.push("block");
    kinds.push("arrow_expression_clause");
    kinds.push("declaration_list");
    kinds.push("class_body");
    kinds.push("struct_body");
    kinds.push("interface_body");
    kinds.push("enum_body");
    assert(kinds@ =~= body_kinds());
    signature_text(source, node, kinds.as_slice())
}

/// The kinds of body whose members are looked through.
pub open spec fn body_kind(k: Seq<char>) -> bool {
    k == "declaration_list"@ || k == "class_body"@ || k == "struct_body"@ || k == "interface_body"@
}

fn is_body_kind(k: &str) -> (r: bool)
    ensures
        r == body_kind(k@),
{
    str_eq(k, "declaration_list") || str_eq(k, "class_body") || str_eq(k, "struct_body") || str_eq(
        k,
        "interface_body",
    )
}

/// The symbol of a declaration with a name, when it has one.
pub open spec fn named(b: Seq<u8>, n: SyntaxNode, kind: Seq<char>, children: Seq<SymView>) -> Option<SymView> {
    match name_of(b, n) {
        Some(name) => Some(made(b, n, kind, name, sig(b, n), children)),
        None => None,
    }
}

/// The variables declared in the first `k` children of a declaration.
pub open spec fn declarators(b: Seq<u8>, ds: Seq<SyntaxNode>, k: int) -> Seq<SymView>
    decreases k,
{
    if k <= 0 || k > ds.len() {
        Seq::empty()
    } else {
        let d = ds[k - 1];
        declarators(b, ds, k - 1) + if d.kind@ == "variable_declarator"@ {
            match name_of(b, d) {
                Some(name) => seq![made(b, d, "field"@, name, sig_text(b, d, Seq::empty()), Seq::empty())],
                None => Seq::empty(),
            }
        } else {
            Seq::empty()
        }
    }
}

/// The fields a field declaration declares, among its first `k` children.
pub open spec fn fields(b: Seq<u8>, cs: Seq<SyntaxNode>, k: int) -> Seq<SymView>
    decreases k,
{
    if k <= 0 || k > cs.len() {
        Seq::empty()
    } else if cs[k - 1].kind@ == "variable_declaration"@ {
        fields(b, cs, k - 1) + declarators(b, cs[k - 1].children@, cs[k - 1].children@.len() as int)
    } else {
        fields(b, cs, k - 1)
    }
}

/// The symbol a declaration makes.
pub open spec fn cs_symbol(b: Seq<u8>, n: SyntaxNode) -> Option<SymView>
    decreases n, 2nat,
{
    let k = n.kind@;
    if k == "namespace_declaration"@ || k == "file_scoped_namespace_declaration"@ {
        named(b, n, "namespace"@, cs_block(b, n))
    } else if k == "class_declaration"@ || k == "record_declaration"@ {
        named(b, n, "class"@, cs_block(b, n))
    } else if k == "struct_declaration"@ {
        named(b, n, "struct"@, cs_block(b, n))
    } else if k == "interface_declaration"@ {
        named(b, n, "interface"@, cs_block(b, n))
    } else if k == "enum_declaration"@ {
        named(b, n, "enum"@, Seq::empty())
    } else if k == "method_declaration"@ || k == "constructor_declaration"@ || k == "destructor_declaration"@ {
        named(b, n, "fn"@, Seq::empty())
    } else if k == "property_declaration"@ {
        named(b, n, "field"@, Seq::empty())
    } else if k == "field_declaration"@ {
        group_view(b, n, "field"@, sig(b, n), fields(b, n.children@, n.children@.len() as int))
    } else {
        None
    }
}

/// The symbols inside a node.
pub open spec fn cs_block(b: Seq<u8>, n: SyntaxNode) -> Seq<SymView>
    decreases n, 1nat,
{
    cs_items(b, n.children@, n.children@.len() as int)
}

/// The symbols of the first `k` nodes of a list: each node's symbol, or the
/// symbols inside a body or compilation unit that makes none.
pub open spec fn cs_items(b: Seq<u8>, cs: Seq<SyntaxNode>, k: int) -> Seq<SymView>
    decreases cs, k,
{
    if k <= 0 || k > cs.len() {
        Seq::empty()
    } else {
        let c = cs[k - 1];
        cs_items(b, cs, k - 1) + match cs_symbol(b, c) {
            Some(s) => seq![s],
            None => if body_kind(c.kind@) || c.kind@ == "compilation_unit"@ {
                cs_block(b, c)
            } else {
                Seq::empty()
            },
        }
    }
}

/// The symbols of the first `k` top-level nodes, around a file-scoped
/// namespace: using directives and the namespace itself are left out.
pub open spec fn scoped_items(b: Seq<u8>, cs: Seq<SyntaxNode>, k: int) -> Seq<SymView>
    decreases k,
{
    if k <= 0 || k > cs.len() {
        Seq::empty()
    } else {
        let c = cs[k - 1];
        scoped_items(b, cs, k - 1) + if c.kind@ != "file_scoped_namespace_declaration"@ && c.kind@
            != "using_directive"@ {
            match cs_symbol(b, c) {
                Some(s) => seq![s],
                None => if body_kind(c.kind@) {
                    cs_block(b, c)
                } else {
                    Seq::empty()
                },
            }
        } else {
            Seq::empty()
        }
    }
}

/// A file-scoped namespace, holding the symbols of the whole file and
/// running to its end.
pub open spec fn scoped_namespace(b: Seq<u8>, root: SyntaxNode) -> Option<SymView> {
    let cs = root.children@;
    match kind_index_from(cs, "file_scoped_namespace_declaration"@, 0) {
        Some(j) => if 0 <= j < cs.len() {
            match name_of(b, cs[j]) {
                Some(name) => {
                    let s = made(b, cs[j], "namespace"@, name, sig(b, cs[j]), scoped_items(b, cs, cs.len() as int));
                    Some(SymView { line_end: line_of_byte(b, root.end_byte as int), ..s })
                },
                None => None,
            }
        } else {
            None
        },
        None => None,
    }
}

/// The symbols of a parsed C# file: the file-scoped namespace when there is
/// one, else the symbols of the root.
pub open spec fn cs_file(b: Seq<u8>, root: SyntaxNode) -> Seq<SymView> {
    match scoped_namespace(b, root) {
        Some(s) => seq![s],
        None => cs_block(b, root),
    }
}

fn named_symbol(source: &str, node: &SyntaxNode, kind: &'static str, with_items: bool) -> (r: Option<Symbol>)
    requires
        source_bytes(source).len() < usize::MAX,
    ensures
        opt_sym_view(r) == named(
            source_bytes(source),
            *node,
            kind@,
            if with_items {
                cs_block(source_bytes(source), *node)
            } else {
                Seq::empty()
            },
        ),
    decreases node, 2nat, 1nat,
{
    let name = match node_name(source, node) {
        Some(x) => x,
        None => return None,
    };
    let items = if with_items {
        extract_block(source, node)
    } else {
        proof {
            assert(all_views(Seq::<Symbol>::empty()) =~= Seq::<SymView>::empty());
        }
        Vec::new()
    };
    Some(make_symbol(source, node, kind, name, signature(source, node), items))
}

fn collect_variable_declarators(source: &str, node: &SyntaxNode) -> (r: Vec<Symbol>)
    requires
        source_bytes(source).len() < usize::MAX,
    ensures
        all_views(r@) == fields(source_bytes(source), node.children@, node.children@.len() as int),
{
    let ghost b = source_bytes(source);
    let mut out: Vec<Symbol> = Vec::new();
    let mut i: usize = 0;
    proof {
        assert(all_views(out@) =~= Seq::<SymView>::empty());
    }
    while i < node.children.len()
        invariant
            i <= node.children@.len(),
            b == source_bytes(source),
            b.len() < usize::MAX,
            all_views(out@) == fields(b, node.children@, i as int),
        decreases node.children.len() - i,
    {
        let c = &node.children[i];
        if str_eq(c.kind.as_str(), "variable_declaration") {
            let ghost before = all_views(out@);
            let mut j: usize = 0;
            proof {
                assert(before + declarators(b, c.children@, 0) =~= before);
            }
            while j < c.children.len()
                invariant
                    j <= c.children@.len(),
                    b == source_bytes(source),
                    b.len() < usize::MAX,
                    all_views(out@) == before + declarators(b, c.children@, j as int),
                decreases c.children.len() - j,
            {
                let d = &c.children[j];
                let mut s: Option<Symbol> = None;
                if str_eq(d.kind.as_str(), "variable_declarator") {
                    match node_name(source, d) {
                        Some(name) => {
                            let no_kinds: Vec<&'static str> = Vec::new();
                            let sg = signature_text(source, d, no_kinds.as_slice());
                            proof {
                                assert(no_kinds@ =~= Seq::<&'static str>::empty());
                                assert(all_views(Seq::<Symbol>::empty()) =~= Seq::<SymView>::empty());
                            }
                            s = Some(make_symbol(source, d, "field", name, sg, Vec::new()));
                        },
                        None => {},
                    }
                }
                proof {
                    let dd = c.children@[j as int];
                    let this = if dd.kind@ == "variable_declarator"@ {
                        match name_of(b, dd) {
                            Some(name) => seq![made(b, dd, "field"@, name, sig_text(b, dd, Seq::empty()), Seq::empty())],
                            None => Seq::empty(),
                        }
                    } else {
                        Seq::empty()
                    };
                    assert(opt_views(opt_sym_view(s)) =~= this);
                }
                push_opt_symbol(&mut out, s);
                proof {
                    assert(all_views(out@) =~= before + declarators(b, c.children@, j + 1));
                }
                j += 1;
            }
        }
        i += 1;
    }
    out
}

/// The symbol a declaration makes.
pub fn node_to_symbol(source: &str, node: &SyntaxNode) -> (r: Option<Symbol>)
    requires
        source_bytes(source).len() < usize::MAX,
    ensures
        opt_sym_view(r) == cs_symbol(source_bytes(source), *node),
    decreases node, 2nat, 2nat,
{
    let k = node.kind.as_str();
    if str_eq(k, "namespace_declaration") || str_eq(k, "file_scoped_namespace_declaration") {
        named_symbol(source, node, "namespace", true)
    } else if str_eq(k, "class_declaration") || str_eq(k, "record_declaration") {
        named_symbol(source, node, "class", true)
    } else if str_eq(k, "struct_declaration") {
        named_symbol(source, node, "struct", true)
    } else if str_eq(k, "interface_declaration") {
        named_symbol(source, node, "interface", true)
    } else if str_eq(k, "enum_declaration") {
        named_symbol(source, node, "enum", false)
    } else if str_eq(k, "method_declaration") || str_eq(k, "constructor_declaration") || str_eq(
        k,
        "destructor_declaration",
    ) {
        named_symbol(source, node, "fn", false)
    } else if str_eq(k, "property_declaration") {
        named_symbol(source, node, "field", false)
    } else if str_eq(k, "field_declaration") {
        let children = collect_variable_declarators(source, node);
        group_or_single(source, node, "field", signature(source, node), children)
    } else {
        None
    }
}

/// The symbols inside a node.
pub fn extract_block(source: &str, node: &SyntaxNode) -> (r: Vec<Symbol>)
    requires
        source_bytes(source).len() < usize::MAX,
    ensures
        all_views(r@) == cs_block(source_bytes(source), *node),
    decreases node, 1nat, 0nat,
{
    let mut out: Vec<Symbol> = Vec::new();
    let mut i: usize = 0;
    proof {
        assert(all_views(out@) =~= Seq::<SymView>::empty());
    }
    while i < node.children.len()
        invariant
            i <= node.children@.len(),
            source_bytes(source).len() < usize::MAX,
            all_views(out@) == cs_items(source_bytes(source), node.children@, i as int),
        decreases node.children.len() - i,
    {
        let c = &node.children[i];
        let ghost before = all_views(out@);
        match node_to_symbol(source, c) {
            Some(s) => {
                push_symbol(&mut out, s);
                proof {
                    assert(before.push(sym_view(s)) =~= before + seq![sym_view(s)]);
                }
            },
            None => {
                if is_body_kind(c.kind.as_str()) || str_eq(c.kind.as_str(), "compilation_unit") {
                    let more = extract_block(source, c);
                    append_symbols(&mut out, more);
                } else {
                    assert(before + Seq::<SymView>::empty() =~= before);
                }
            },
        }
        i += 1;
    }
    out
}

/// The symbols around a file-scoped namespace.
fn scoped_symbols(source: &str, root: &SyntaxNode) -> (r: Vec<Symbol>)
    requires
        source_bytes(source).len() < usize::MAX,
    ensures
        all_views(r@) == scoped_items(source_bytes(source), root.children@, root.children@.len() as int),
{
    let mut out: Vec<Symbol> = Vec::new();
    let mut i: usize = 0;
    proof {
        assert(all_views(out@) =~= Seq::<SymView>::empty());
    }
    while i < root.children.len()
        invariant
            i <= root.children@.len(),
            source_bytes(source).len() < usize::MAX,
            all_views(out@) == scoped_items(source_bytes(source), root.children@, i as int),
        decreases root.children.len() - i,
    {
        let c = &root.children[i];
        let ck = c.kind.as_str();
        let ghost before = all_views(out@);
        if !str_eq(ck, "file_scoped_namespace_declaration") && !str_eq(ck, "using_directive") {
            match node_to_symbol(source, c) {
                Some(s) => {
                    push_symbol(&mut out, s);
                    proof {
                        assert(before.push(sym_view(s)) =~= before + seq![sym_view(s)]);
                    }
                },
                None => {
                    if is_body_kind(ck) {
                        let more = extract_block(source, c);
                        append_symbols(&mut out, more);
                    } else {
                        assert(before + Seq::<SymView>::empty() =~= before);
                    }
                },
            }
        } else {
            assert(before + Seq::<SymView>::empty() =~= before);
        }
        i += 1;
    }
    out
}

/// The file-scoped namespace of a parsed C# file, holding the symbols of
/// the whole file and running to its end.
pub fn file_scoped_namespace_symbol(source: &str, root: &SyntaxNode) -> (r: Option<Symbol>)
    requires
        source_bytes(source).len() < usize::MAX,
    ensures
        opt_sym_view(r) == scoped_namespace(source_bytes(source), *root),
{
    let j = match first_of_kind(root, "file_scoped_namespace_declaration") {
        Some(j) => j,
        None => return None,
    };
    let ns = &root.children[j];
    let name = match node_name(source, ns) {
        Some(x) => x,
        None => return None,
    };
    let children = scoped_symbols(source, root);
    let mut s = make_symbol(source, ns, "namespace", name, signature(source, ns), children);
    s.line_end = byte_to_line(source, root.end_byte);
    Some(s)
}

/// The symbols of a parsed C# file: the file-scoped namespace when there is
/// one, else the symbols of the root.
pub fn parse(source: &str, root: &SyntaxNode) -> (r: Vec<Symbol>)
    requires
        source_bytes(source).len() < usize::MAX,
    ensures
        all_views(r@) == cs_file(source_bytes(source), *root),
{
    match file_scoped_namespace_symbol(source, root) {
        Some(s) => {
            let mut out: Vec<Symbol> = Vec::new();
            proof {
                assert(all_views(out@) =~= Seq::<SymView>::empty());
            }
            push_symbol(&mut out, s);
            proof {
                assert(Seq::<SymView>::empty().push(sym_view(s)) =~= seq![sym_view(s)]);
            }
            out
        },
        None => extract_block(source, root),
    }
}

} // verus!
