//! The symbols of a C++ source: namespaces (an anonymous one flattened into
//! its surroundings), classes and structs with their members, enums,
//! functions, declarations (several declarators as a group), type
//! definitions and aliases, templates as what they declare.
use vstd::prelude::*;
use crate::text::str_eq;
use super::{
    SyntaxNode, Symbol, SymView, sym_view, source_bytes, field_index, field_text, text_of,
    sig_text, made, all_views, opt_views, opt_sym_view, group_view, node_text, field_child,
    field_child_text, signature_text, make_symbol, push_symbol, push_opt_symbol, append_symbols,
    group_or_single, line_of_byte, byte_to_line, lemma_views_len,
};

verus! {

broadcast use vstd::string::group_string_axioms;

/// The kinds of child that open a declaration's body.
pub open spec fn body_kinds() -> Seq<&'static str> {
    seq!["compound_statement", "field_declaration_list", "enumerator_list", "declaration_list"]
}

/// A declaration's signature.
pub open spec fn sig(b: Seq<u8>, n: SyntaxNode) -> Seq<char> {
    sig_text(b, n, body_kinds())
}

fn signature(source: &str, node: &SyntaxNode) -> (r: String)
    ensures
        r@ == sig(source_bytes(source), *node),
{
    let mut kinds: Vec<&'static str> = Vec::new();
    kinds.push("compound_statement");
    kinds.push("field_declaration_list");
    kinds.push("enumerator_list");
    kinds.push("declaration_list");
    assert(kinds@ =~= body_kinds());
    signature_text(source, node, kinds.as_slice())
}

/// The kinds of node that are a declarator's name.
pub open spec fn name_kind(k: Seq<char>) -> bool {
    k == "identifier"@ || k == "field_identifier"@ || k == "scoped_identifier"@ || k
        == "qualified_identifier"@ || k == "destructor_name"@ || k == "operator_name"@
}

fn is_name_kind(k: &str) -> (r: bool)
    ensures
        r == name_kind(k@),
{
    str_eq(k, "identifier") || str_eq(k, "field_identifier") || str_eq(k, "scoped_identifier")
        || str_eq(k, "qualified_identifier") || str_eq(k, "destructor_name") || str_eq(k, "operator_name")
}

/// The kinds of declarator that wrap another.
pub open spec fn wrapper_kind(k: Seq<char>) -> bool {
    k == "function_declarator"@ || k == "pointer_declarator"@ || k == "reference_declarator"@ || k
        == "array_declarator"@ || k == "parenthesized_declarator"@
}

fn is_wrapper_kind(k: &str) -> (r: bool)
    ensures
        r == wrapper_kind(k@),
{
    str_eq(k, "function_declarator") || str_eq(k, "pointer_declarator") || str_eq(k, "reference_declarator")
        || str_eq(k, "array_declarator") || str_eq(k, "parenthesized_declarator")
}

/// The name a declarator declares: a name node's text; through a template
/// function's name; through the inner declarator of a wrapping declarator,
/// or else its first child (not a parameter list) that has one; through
/// the inner declarator of anything else.
pub open spec fn decl_name(b: Seq<u8>, n: SyntaxNode) -> Option<Seq<char>>
    decreases n, 1int,
{
    let k = n.kind@;
    let cs = n.children@;
    if name_kind(k) {
        text_of(b, n)
    } else if k == "template_function"@ {
        match field_index(n, "name"@) {
            Some(j) => if 0 <= j < cs.len() {
                decl_name(b, cs[j])
            } else {
                text_of(b, n)
            },
            None => text_of(b, n),
        }
    } else if wrapper_kind(k) {
        match field_index(n, "declarator"@) {
            Some(j) => if 0 <= j < cs.len() {
                decl_name(b, cs[j])
            } else {
                decl_name_from(b, cs, 0)
            },
            None => decl_name_from(b, cs, 0),
        }
    } else {
        match field_index(n, "declarator"@) {
            Some(j) => if 0 <= j < cs.len() {
                decl_name(b, cs[j])
            } else {
                None
            },
            None => None,
        }
    }
}

/// The name of the first child, from `i` on, that is not a parameter list
/// and has one.
pub open spec fn decl_name_from(b: Seq<u8>, cs: Seq<SyntaxNode>, i: int) -> Option<Seq<char>>
    decreases cs, cs.len() - i,
{
    if i < 0 || i >= cs.len() {
        None
    } else if cs[i].kind@ != "parameter_list"@ && decl_name(b, cs[i]) is Some {
        decl_name(b, cs[i])
    } else {
        decl_name_from(b, cs, i + 1)
    }
}

/// The name a declarator declares.
pub fn find_declarator_name(source: &str, node: &SyntaxNode) -> (r: Option<String>)
    ensures
        super::opt_text(r) == decl_name(source_bytes(source), *node),
    decreases node,
{
    let k = node.kind.as_str();
    if is_name_kind(k) {
        node_text(source, node)
    } else if str_eq(k, "template_function") {
        match field_child(node, "name") {
            Some(j) => find_declarator_name(source, &node.children[j]),
            None => node_text(source, node),
        }
    } else if is_wrapper_kind(k) {
        match field_child(node, "declarator") {
            Some(j) => find_declarator_name(source, &node.children[j]),
            None => {
                proof {
                    assert(decl_name(source_bytes(source), *node) == decl_name_from(
                        source_bytes(source),
                        node.children@,
                        0,
                    ));
                }
                let mut i: usize = 0;
                while i < node.children.len()
                    invariant
                        i <= node.children@.len(),
                        decl_name(source_bytes(source), *node) == decl_name_from(
                            source_bytes(source),
                            node.children@,
                            0,
                        ),
                        decl_name_from(source_bytes(source), node.children@, 0) == decl_name_from(
                            source_bytes(source),
                            node.children@,
                            i as int,
                        ),
                    decreases node.children.len() - i,
                {
                    let c = &node.children[i];
                    if !str_eq(c.kind.as_str(), "parameter_list") {
                        match find_declarator_name(source, c) {
                            Some(name) => {
                                proof {
                                    assert(decl_name_from(source_bytes(source), node.children@, i as int)
                                        == decl_name(source_bytes(source), node.children@[i as int]));
                                }
                                return Some(name);
                            },
                            None => {},
                        }
                    }
                    i += 1;
                }
                None
            },
        }
    } else {
        match field_child(node, "declarator") {
            Some(j) => find_declarator_name(source, &node.children[j]),
            None => None,
        }
    }
}

/// Whether a declarator, or the declarator it wraps, declares a function.
pub open spec fn is_fn_declarator(n: SyntaxNode) -> bool
    decreases n,
{
    if n.kind@ == "function_declarator"@ {
        true
    } else {
        match field_index(n, "declarator"@) {
            Some(j) => if 0 <= j < n.children@.len() {
                is_fn_declarator(n.children@[j])
            } else {
                false
            },
            None => false,
        }
    }
}

/// Whether a declarator declares a function.
pub fn is_function_declarator(node: &SyntaxNode) -> (r: bool)
    ensures
        r == is_fn_declarator(*node),
    decreases node,
{
    if str_eq(node.kind.as_str(), "function_declarator") {
        true
    } else {
        match field_child(node, "declarator") {
            Some(j) => is_function_declarator(&node.children[j]),
            None => false,
        }
    }
}

/// The init declarators among the first `k` children.
pub open spec fn init_declarators(cs: Seq<SyntaxNode>, k: int) -> Seq<int>
    decreases k,
{
    if k <= 0 || k > cs.len() {
        Seq::empty()
    } else if cs[k - 1].kind@ == "init_declarator"@ {
        init_declarators(cs, k - 1).push(k - 1)
    } else {
        init_declarators(cs, k - 1)
    }
}

/// The declarators of a declaration: its init declarators, or else its
/// `declarator` field.
pub open spec fn declarators(n: SyntaxNode) -> Seq<int> {
    let inits = init_declarators(n.children@, n.children@.len() as int);
    if inits.len() == 0 {
        match field_index(n, "declarator"@) {
            Some(j) => seq![j],
            None => Seq::empty(),
        }
    } else {
        inits
    }
}

/// The declarators of a declaration.
fn get_declarators(node: &SyntaxNode) -> (r: Vec<usize>)
    ensures
        r@.map_values(|x: usize| x as int) == declarators(*node),
        forall|t: int| 0 <= t < r@.len() ==> #[trigger] r@[t] < node.children@.len(),
{
    let mut decls: Vec<usize> = Vec::new();
    let mut i: usize = 0;
    while i < node.children.len()
        invariant
            i <= node.children@.len(),
            decls@.map_values(|x: usize| x as int) == init_declarators(node.children@, i as int),
            forall|t: int| 0 <= t < decls@.len() ==> #[trigger] decls@[t] < i,
        decreases node.children.len() - i,
    {
        if str_eq(node.children[i].kind.as_str(), "init_declarator") {
            let ghost before = decls@;
            decls.push(i);
            proof {
                assert(decls@.map_values(|x: usize| x as int) =~= before.map_values(|x: usize| x as int).push(
                    i as int,
                ));
            }
        }
        i += 1;
    }
    if decls.len() == 0 {
        match field_child(node, "declarator") {
            Some(j) => {
                decls.push(j);
                proof {
                    assert(decls@.map_values(|x: usize| x as int) =~= seq![j as int]);
                }
            },
            None => {},
        }
    }
    decls
}

/// The kind of a declared name: a function, else a field in a class or a
/// variable outside one.
pub open spec fn declared_kind(is_fn: bool, member: bool) -> Seq<char> {
    if is_fn {
        "fn"@
    } else if member {
        "field"@
    } else {
        "var"@
    }
}

/// The symbols of the first `k` declarators of a declaration.
pub open spec fn declared(b: Seq<u8>, cs: Seq<SyntaxNode>, ds: Seq<int>, member: bool, k: int) -> Seq<SymView>
    decreases k,
{
    if k <= 0 || k > ds.len() {
        Seq::empty()
    } else {
        let d = ds[k - 1];
        declared(b, cs, ds, member, k - 1) + if 0 <= d < cs.len() {
            match decl_name(b, cs[d]) {
                Some(name) => seq![
                    made(
                        b,
                        cs[d],
                        declared_kind(is_fn_declarator(cs[d]), member),
                        name,
                        sig_text(b, cs[d], Seq::empty()),
                        Seq::empty(),
                    ),
                ],
                None => Seq::empty(),
            }
        } else {
            Seq::empty()
        }
    }
}

/// The first child, from `i` on, that is neither the `template` keyword nor
/// the template parameters.
pub open spec fn template_target(cs: Seq<SyntaxNode>, i: int) -> Option<int>
    decreases cs.len() - i,
{
    if i < 0 || i >= cs.len() {
        None
    } else if cs[i].kind@ != "template"@ && cs[i].kind@ != "template_parameter_list"@ {
        Some(i)
    } else {
        template_target(cs, i + 1)
    }
}

/// The child a template declares.
fn template_target_index(node: &SyntaxNode) -> (r: Option<usize>)
    ensures
        match r {
            Some(j) => template_target(node.children@, 0) == Some(j as int) && j < node.children@.len(),
            None => template_target(node.children@, 0) is None,
        },
{
    let mut i: usize = 0;
    while i < node.children.len()
        invariant
            i <= node.children@.len(),
            template_target(node.children@, 0) == template_target(node.children@, i as int),
        decreases node.children.len() - i,
    {
        let ck = node.children[i].kind.as_str();
        if !str_eq(ck, "template") && !str_eq(ck, "template_parameter_list") {
            return Some(i);
        }
        i += 1;
    }
    None
}

/// A symbol given the signature and the lines of a template around it.
pub open spec fn retimed(b: Seq<u8>, n: SyntaxNode, s: SymView) -> SymView {
    SymView {
        signature: sig(b, n),
        line_start: line_of_byte(b, n.start_byte as int),
        line_end: line_of_byte(b, n.end_byte as int),
        ..s
    }
}

/// A symbol of a named declaration with a body.
pub open spec fn with_body(b: Seq<u8>, n: SyntaxNode, kind: Seq<char>) -> Seq<SymView>
    decreases n, 1nat, 1nat,
{
    let cs = n.children@;
    match field_text(b, n, "name"@) {
        Some(name) => match field_index(n, "body"@) {
            Some(j) => if 0 <= j < cs.len() {
                seq![made(b, n, kind, name, sig(b, n), cpp_block(b, cs[j], true))]
            } else {
                Seq::empty()
            },
            None => Seq::empty(),
        },
        None => Seq::empty(),
    }
}

/// The symbol of a declaration named by its declarator.
pub open spec fn by_declarator(b: Seq<u8>, n: SyntaxNode, kind: Seq<char>) -> Seq<SymView> {
    let cs = n.children@;
    match field_index(n, "declarator"@) {
        Some(j) => if 0 <= j < cs.len() {
            match decl_name(b, cs[j]) {
                Some(name) => seq![made(b, n, kind, name, sig(b, n), Seq::empty())],
                None => Seq::empty(),
            }
        } else {
            Seq::empty()
        },
        None => Seq::empty(),
    }
}

/// The symbol of a declaration named by its `name` field.
pub open spec fn by_name(b: Seq<u8>, n: SyntaxNode, kind: Seq<char>) -> Seq<SymView> {
    match field_text(b, n, "name"@) {
        Some(name) => seq![made(b, n, kind, name, sig(b, n), Seq::empty())],
        None => Seq::empty(),
    }
}

/// The symbols a node makes (members of a class when `member`).
pub open spec fn cpp_syms(b: Seq<u8>, n: SyntaxNode, member: bool) -> Seq<SymView>
    decreases n, 2nat, 0nat,
{
    let k = n.kind@;
    let cs = n.children@;
    if k == "template_declaration"@ {
        match template_target(cs, 0) {
            Some(j) => if 0 <= j < cs.len() {
                cpp_syms(b, cs[j], member).map_values(|s: SymView| retimed(b, n, s))
            } else {
                Seq::empty()
            },
            None => Seq::empty(),
        }
    } else if k == "namespace_definition"@ {
        match field_index(n, "body"@) {
            Some(j) => if 0 <= j < cs.len() {
                match field_text(b, n, "name"@) {
                    Some(name) => seq![made(b, n, "namespace"@, name, sig(b, n), cpp_block(b, cs[j], false))],
                    None => cpp_block(b, cs[j], member),
                }
            } else {
                Seq::empty()
            },
            None => Seq::empty(),
        }
    } else if k == "class_specifier"@ {
        with_body(b, n, "class"@)
    } else if k == "struct_specifier"@ {
        with_body(b, n, "struct"@)
    } else if k == "enum_specifier"@ {
        by_name(b, n, "enum"@)
    } else if k == "function_definition"@ {
        by_declarator(b, n, "fn"@)
    } else if k == "declaration"@ || k == "field_declaration"@ {
        let ds = declarators(n);
        opt_views(
            group_view(
                b,
                n,
                if member {
                    "field"@
                } else {
                    "var"@
                },
                sig(b, n),
                declared(b, cs, ds, member, ds.len() as int),
            ),
        )
    } else if k == "type_definition"@ {
        by_declarator(b, n, "type"@)
    } else if k == "alias_declaration"@ {
        by_name(b, n, "type"@)
    } else {
        Seq::empty()
    }
}

/// The kinds whose children are looked through when they make no symbol.
pub open spec fn container_kind(k: Seq<char>) -> bool {
    k == "declaration_list"@ || k == "field_declaration_list"@ || k == "translation_unit"@ || k
        == "linkage_specification"@
}

fn is_container(k: &str) -> (r: bool)
    ensures
        r == container_kind(k@),
{
    str_eq(k, "declaration_list") || str_eq(k, "field_declaration_list") || str_eq(k, "translation_unit")
        || str_eq(k, "linkage_specification")
}

/// The symbols inside a node.
pub open spec fn cpp_block(b: Seq<u8>, n: SyntaxNode, member: bool) -> Seq<SymView>
    decreases n, 1nat, 0nat,
{
    cpp_items(b, n.children@, member, n.children@.len() as int)
}

/// The symbols of the first `k` nodes of a list: what each makes, or the
/// symbols inside a container that makes none.
pub open spec fn cpp_items(b: Seq<u8>, cs: Seq<SyntaxNode>, member: bool, k: int) -> Seq<SymView>
    decreases cs, k, 0nat,
{
    if k <= 0 || k > cs.len() {
        Seq::empty()
    } else {
        let syms = cpp_syms(b, cs[k - 1], member);
        cpp_items(b, cs, member, k - 1) + if syms.len() > 0 {
            syms
        } else if container_kind(cs[k - 1].kind@) {
            cpp_block(b, cs[k - 1], member)
        } else {
            Seq::empty()
        }
    }
}

fn one(s: Symbol) -> (r: Vec<Symbol>)
    ensures
        all_views(r@) == seq![sym_view(s)],
{
    let mut out: Vec<Symbol> = Vec::new();
    proof {
        assert(all_views(out@) =~= Seq::<SymView>::empty());
    }
    push_symbol(&mut out, s);
    proof {
        assert(Seq::<SymView>::empty().push(sym_view(s)) =~= seq![sym_view(s)]);
    }
    out
}

fn none() -> (r: Vec<Symbol>)
    ensures
        all_views(r@) == Seq::<SymView>::empty(),
{
    let out: Vec<Symbol> = Vec::new();
    proof {
        assert(all_views(out@) =~= Seq::<SymView>::empty());
    }
    out
}

/// Gives each symbol the signature and lines of the template around it.
fn retime(source: &str, node: &SyntaxNode, syms: Vec<Symbol>) -> (r: Vec<Symbol>)
    requires
        source_bytes(source).len() < usize::MAX,
    ensures
        all_views(r@) == all_views(syms@).map_values(|s: SymView| retimed(source_bytes(source), *node, s)),
{
    let ghost b = source_bytes(source);
    let ghost orig = syms@;
    let sg = signature(source, node);
    let line_start = byte_to_line(source, node.start_byte);
    let line_end = byte_to_line(source, node.end_byte);
    let mut rest = syms;
    let mut out: Vec<Symbol> = Vec::new();
    while rest.len() > 0
        invariant
            b == source_bytes(source),
            sg@ == sig(b, *node),
            line_start == line_of_byte(b, node.start_byte as int),
            line_end == line_of_byte(b, node.end_byte as int),
            out@.len() + rest@.len() == orig.len(),
            forall|t: int| 0 <= t < out@.len() ==> #[trigger] sym_view(out@[t]) == retimed(b, *node, sym_view(orig[t])),
            forall|t: int| 0 <= t < rest@.len() ==> #[trigger] rest@[t] == orig[out@.len() + t],
        decreases rest.len(),
    {
        let s = rest.remove(0);
        let t = Symbol {
            kind: s.kind,
            name: s.name,
            line_start,
            line_end,
            signature: sg.clone(),
            children: s.children,
        };
        let ghost before = out@;
        out.push(t);
        proof {
            assert forall|u: int| 0 <= u < out@.len() implies #[trigger] sym_view(out@[u]) == retimed(
                b,
                *node,
                sym_view(orig[u]),
            ) by {
                if u < before.len() {
                    assert(out@[u] == before[u]);
                }
            }
        }
    }
    proof {
        lemma_views_len(out@, out@.len() as int);
        lemma_views_len(orig, orig.len() as int);
        assert(all_views(out@) =~= all_views(orig).map_values(|s: SymView| retimed(b, *node, s)));
    }
    out
}

fn body_symbols(source: &str, node: &SyntaxNode, kind: &'static str) -> (r: Vec<Symbol>)
    requires
        source_bytes(source).len() < usize::MAX,
    ensures
        all_views(r@) == with_body(source_bytes(source), *node, kind@),
    decreases node, 1nat, 1nat,
{
    let name = match field_child_text(source, node, "name") {
        Some(x) => x,
        None => return none(),
    };
    let j = match field_child(node, "body") {
        Some(j) => j,
        None => return none(),
    };
    let members = extract_block(source, &node.children[j], true);
    one(make_symbol(source, node, kind, name, signature(source, node), members))
}

fn declarator_symbol(source: &str, node: &SyntaxNode, kind: &'static str) -> (r: Vec<Symbol>)
    requires
        source_bytes(source).len() < usize::MAX,
    ensures
        all_views(r@) == by_declarator(source_bytes(source), *node, kind@),
{
    let j = match field_child(node, "declarator") {
        Some(j) => j,
        None => return none(),
    };
    let name = match find_declarator_name(source, &node.children[j]) {
        Some(x) => x,
        None => return none(),
    };
    proof {
        assert(all_views(Seq::<Symbol>::empty()) =~= Seq::<SymView>::empty());
    }
    one(make_symbol(source, node, kind, name, signature(source, node), Vec::new()))
}

fn named_symbol(source: &str, node: &SyntaxNode, kind: &'static str) -> (r: Vec<Symbol>)
    requires
        source_bytes(source).len() < usize::MAX,
    ensures
        all_views(r@) == by_name(source_bytes(source), *node, kind@),
{
    let name = match field_child_text(source, node, "name") {
        Some(x) => x,
        None => return none(),
    };
    proof {
        assert(all_views(Seq::<Symbol>::empty()) =~= Seq::<SymView>::empty());
    }
    one(make_symbol(source, node, kind, name, signature(source, node), Vec::new()))
}

fn declaration_symbols(source: &str, node: &SyntaxNode, is_member: bool) -> (r: Vec<Symbol>)
    requires
        source_bytes(source).len() < usize::MAX,
    ensures
        all_views(r@) == ({
            let ds = declarators(*node);
            declared(source_bytes(source), node.children@, ds, is_member, ds.len() as int)
        }),
{
    let ghost b = source_bytes(source);
    let decls = get_declarators(node);
    let ghost ds = declarators(*node);
    let mut out: Vec<Symbol> = Vec::new();
    let mut i: usize = 0;
    proof {
        assert(all_views(out@) =~= Seq::<SymView>::empty());
        assert(ds.len() == decls@.len()) by {
            assert(decls@.map_values(|x: usize| x as int).len() == decls@.len());
        }
    }
    while i < decls.len()
        invariant
            i <= decls@.len() == ds.len(),
            b == source_bytes(source),
            b.len() < usize::MAX,
            ds == declarators(*node),
            decls@.map_values(|x: usize| x as int) == ds,
            forall|t: int| 0 <= t < decls@.len() ==> #[trigger] decls@[t] < node.children@.len(),
            all_views(out@) == declared(b, node.children@, ds, is_member, i as int),
        decreases decls.len() - i,
    {
        let d = &node.children[decls[i]];
        proof {
            assert(ds[i as int] == decls@[i as int] as int);
        }
        let mut s: Option<Symbol> = None;
        match find_declarator_name(source, d) {
            Some(name) => {
                let kind: &'static str = if is_function_declarator(d) {
                    "fn"
                } else if is_member {
                    "field"
                } else {
                    "var"
                };
                let no_kinds: Vec<&'static str> = Vec::new();
                let sg = signature_text(source, d, no_kinds.as_slice());
                proof {
                    assert(no_kinds@ =~= Seq::<&'static str>::empty());
                    assert(all_views(Seq::<Symbol>::empty()) =~= Seq::<SymView>::empty());
                }
                s = Some(make_symbol(source, d, kind, name, sg, Vec::new()));
            },
            None => {},
        }
        proof {
            let dd = node.children@[ds[i as int]];
            let this = match decl_name(b, dd) {
                Some(name) => seq![
                    made(
                        b,
                        dd,
                        declared_kind(is_fn_declarator(dd), is_member),
                        name,
                        sig_text(b, dd, Seq::empty()),
                        Seq::empty(),
                    ),
                ],
                None => Seq::<SymView>::empty(),
            };
            assert(opt_views(opt_sym_view(s)) =~= this);
        }
        push_opt_symbol(&mut out, s);
        i += 1;
    }
    out
}

/// The symbols a node makes (members of a class when `is_member`).
pub fn symbols_for_node(source: &str, node: &SyntaxNode, is_member: bool) -> (r: Vec<Symbol>)
    requires
        source_bytes(source).len() < usize::MAX,
    ensures
        all_views(r@) == cpp_syms(source_bytes(source), *node, is_member),
    decreases node, 2nat, 0nat,
{
    let k = node.kind.as_str();
    if str_eq(k, "template_declaration") {
        let i = match template_target_index(node) {
            Some(i) => i,
            None => return none(),
        };
        let syms = symbols_for_node(source, &node.children[i], is_member);
        retime(source, node, syms)
    } else if str_eq(k, "namespace_definition") {
        let j = match field_child(node, "body") {
            Some(j) => j,
            None => return none(),
        };
        match field_child_text(source, node, "name") {
            Some(name) => {
                let members = extract_block(source, &node.children[j], false);
                one(make_symbol(source, node, "namespace", name, signature(source, node), members))
            },
            None => extract_block(source, &node.children[j], is_member),
        }
    } else if str_eq(k, "class_specifier") {
        body_symbols(source, node, "class")
    } else if str_eq(k, "struct_specifier") {
        body_symbols(source, node, "struct")
    } else if str_eq(k, "enum_specifier") {
        named_symbol(source, node, "enum")
    } else if str_eq(k, "function_definition") {
        declarator_symbol(source, node, "fn")
    } else if str_eq(k, "declaration") || str_eq(k, "field_declaration") {
        let children = declaration_symbols(source, node, is_member);
        let default_kind: &'static str = if is_member {
            "field"
        } else {
            "var"
        };
        let g = group_or_single(source, node, default_kind, signature(source, node), children);
        let mut out = none();
        push_opt_symbol(&mut out, g);
        proof {
            assert(Seq::<SymView>::empty() + opt_views(opt_sym_view(g)) =~= opt_views(opt_sym_view(g)));
        }
        out
    } else if str_eq(k, "type_definition") {
        declarator_symbol(source, node, "type")
    } else if str_eq(k, "alias_declaration") {
        named_symbol(source, node, "type")
    } else {
        none()
    }
}

/// The symbols inside a node.
pub fn extract_block(source: &str, node: &SyntaxNode, is_member: bool) -> (r: Vec<Symbol>)
    requires
        source_bytes(source).len() < usize::MAX,
    ensures
        all_views(r@) == cpp_block(source_bytes(source), *node, is_member),
    decreases node, 1nat, 0nat,
{
    let mut out: Vec<Symbol> = Vec::new();
    let mut i: usize = 0;
    proof {
        assert(all_views(out@) =~= Seq::<SymView>::empty());
    }
    while i < node.children.len()
        invariant
            i <= node.children@.len(),
            source_bytes(source).len() < usize::MAX,
            all_views(out@) == cpp_items(source_bytes(source), node.children@, is_member, i as int),
        decreases node.children.len() - i,
    {
        let c = &node.children[i];
        let syms = symbols_for_node(source, c, is_member);
        let ghost before = all_views(out@);
        proof {
            lemma_views_len(syms@, syms@.len() as int);
        }
        if syms.len() > 0 {
            append_symbols(&mut out, syms);
        } else if is_container(c.kind.as_str()) {
            let more = extract_block(source, c, is_member);
            append_symbols(&mut out, more);
        } else {
            assert(before + Seq::<SymView>::empty() =~= before);
        }
        i += 1;
    }
    out
}

/// The symbols of a parsed C++ file: those of its root, outside any class.
pub fn parse(source: &str, root: &SyntaxNode) -> (r: Vec<Symbol>)
    requires
        source_bytes(source).len() < usize::MAX,
    ensures
        all_views(r@) == cpp_block(source_bytes(source), *root, false),
{
    extract_block(source, root, false)
}

} // verus!
