//! Symbol trees of source files: the symbols, how they are shown, and the
//! line numbers and signatures they are given.
use vstd::prelude::*;
use vstd::utf8::{valid_utf8, decode_utf8};
use crate::text::{
    chars_of, push_decimal, decimal, trim, trim_end, trim_bounds, slice_range,
    string_of, lines_of, lines_chars, join_with, join_vecs, char_views, find, find_in,
    lemma_find_from_facts, skip_ws_backward, trail_run, trail_run_exec, trim_end_char, push_chars,
    text_or, utf8_text, utf8_text_or, byte_range, str_eq,
};

pub mod rust;
pub mod python;
pub mod go;
pub mod typescript;
pub mod c_sharp;
pub mod cpp;

verus! {

broadcast use vstd::string::group_string_axioms;

/// A symbol of a source file, with the symbols inside it.
#[derive(Debug)]
pub struct Symbol {
    pub kind: &'static str,
    pub name: String,
    pub line_start: usize,
    pub line_end: usize,
    pub signature: String,
    pub children: Vec<Symbol>,
}

/// A signature on one line: each of its lines trimmed, joined by spaces.
pub open spec fn one_line(sig: Seq<char>) -> Seq<char> {
    join_with(lines_of(trim(sig)).map_values(|l: Seq<char>| trim(l)), " "@)
}

/// What a symbol line shows after its position: the signature from just
/// after the first `kind ` in it, or the whole trimmed signature.
pub open spec fn rest_of(kind: Seq<char>, signature: Seq<char>) -> Seq<char> {
    let s = trim(signature);
    match find(s, kind + " "@) {
        Some(pos) => s.skip(pos + kind.len() + 1),
        None => s,
    }
}

/// What a symbol line shows after its position.
pub fn display_rest(kind: &str, signature: &str) -> (r: String)
    ensures
        r@ == rest_of(kind@, signature@),
{
    let v = chars_of(signature);
    let (a, b) = trim_bounds(v.as_slice(), 0, v.len());
    proof {
        assert(v@.subrange(0, v@.len() as int) =~= v@);
    }
    let s = slice_range(v.as_slice(), a, b);
    let mut target = String::new();
    target.append(kind);
    target.append(" ");
    let t = chars_of(target.as_str());
    proof {
        reveal_strlit(" ");
    }
    match find_in(s.as_slice(), t.as_slice()) {
        Some(pos) => {
            proof {
                lemma_find_from_facts(s@, t@, 0);
            }
            let start = pos + t.len();
            let r = string_of(slice_range(s.as_slice(), start, s.len()).as_slice());
            proof {
                assert(s@.subrange(start as int, s@.len() as int) =~= s@.skip(start as int));
            }
            r
        },
        None => string_of(s.as_slice()),
    }
}

/// A signature on one line.
pub fn compact_lines(signature: &str) -> (r: String)
    ensures
        r@ == one_line(signature@),
{
    let v = chars_of(signature);
    let (a, b) = trim_bounds(v.as_slice(), 0, v.len());
    proof {
        assert(v@.subrange(0, v@.len() as int) =~= v@);
    }
    let s = slice_range(v.as_slice(), a, b);
    let ls = lines_chars(s.as_slice());
    let ghost lv = lines_of(trim(signature@));
    let mut trimmed: Vec<Vec<char>> = Vec::new();
    let mut i: usize = 0;
    while i < ls.len()
        invariant
            i <= ls@.len(),
            ls@.len() == lv.len(),
            lv == lines_of(s@),
            forall|k: int| 0 <= k < ls@.len() ==> #[trigger] ls@[k]@ == lv[k],
            trimmed@.len() == i,
            forall|k: int| 0 <= k < i ==> #[trigger] trimmed@[k]@ == trim(lv[k]),
        decreases ls.len() - i,
    {
        let (x, y) = trim_bounds(ls[i].as_slice(), 0, ls[i].len());
        proof {
            assert(ls@[i as int]@.subrange(0, ls@[i as int]@.len() as int) =~= ls@[i as int]@);
        }
        trimmed.push(slice_range(ls[i].as_slice(), x, y));
        i += 1;
    }
    proof {
        assert(char_views(trimmed@) =~= lv.map_values(|l: Seq<char>| trim(l)));
    }
    join_vecs(&trimmed, " ")
}

/// Two spaces per level.
pub open spec fn indent(depth: nat) -> Seq<char>
    decreases depth,
{
    if depth == 0 {
        Seq::empty()
    } else {
        indent((depth - 1) as nat) + "  "@
    }
}

/// The line of a symbol: with a signature, its kind, position and the rest
/// of the signature; without, its kind, name and position.
pub open spec fn symbol_line(sym: Symbol, depth: nat) -> Seq<char> {
    let sig = one_line(sym.signature@);
    if sig.len() == 0 {
        indent(depth) + sym.kind@ + " "@ + sym.name@ + "@"@ + decimal(sym.line_start as nat) + ":"@
            + decimal(sym.line_end as nat) + "\n"@
    } else {
        indent(depth) + sym.kind@ + " @"@ + decimal(sym.line_start as nat) + ":"@ + decimal(
            sym.line_end as nat,
        ) + " "@ + rest_of(sym.kind@, sig) + "\n"@
    }
}

/// The lines of a symbol and, one level deeper, of the symbols inside it.
pub open spec fn symbol_text(sym: Symbol, depth: nat) -> Seq<char>
    decreases sym, 0nat,
{
    symbol_line(sym, depth) + children_text(sym.children@, (depth + 1) as nat, sym.children@.len() as int)
}

/// The lines of the first `k` symbols of a list.
pub open spec fn children_text(syms: Seq<Symbol>, depth: nat, k: int) -> Seq<char>
    decreases syms, k,
{
    if k <= 0 || k > syms.len() {
        Seq::empty()
    } else {
        children_text(syms, depth, k - 1) + symbol_text(syms[k - 1], depth)
    }
}

/// Appends `depth` levels of indentation.
fn push_indent(out: &mut String, depth: usize)
    ensures
        final(out)@ == old(out)@ + indent(depth as nat),
    decreases depth,
{
    if depth > 0 {
        push_indent(out, depth - 1);
        out.append("  ");
    }
}

/// Appends the lines of a symbol and of the symbols inside it.
pub fn format_symbol(out: &mut String, sym: &Symbol, depth: usize)
    requires
        depth < usize::MAX - symbol_depth(*sym),
    ensures
        final(out)@ == old(out)@ + symbol_text(*sym, depth as nat),
    decreases sym,
{
    let ghost start = out@;
    push_indent(out, depth);
    let sig = compact_lines(sym.signature.as_str());
    if sig.as_str().is_empty() {
        out.append(sym.kind);
        out.append(" ");
        out.append(sym.name.as_str());
        out.append("@");
        push_decimal(out, sym.line_start as u64);
        out.append(":");
        push_decimal(out, sym.line_end as u64);
        out.append("\n");
    } else {
        let rest = display_rest(sym.kind, sig.as_str());
        out.append(sym.kind);
        out.append(" @");
        push_decimal(out, sym.line_start as u64);
        out.append(":");
        push_decimal(out, sym.line_end as u64);
        out.append(" ");
        out.append(rest.as_str());
        out.append("\n");
    }
    proof {
        assert(out@ =~= start + symbol_line(*sym, depth as nat));
    }
    let ghost mid = out@;
    let mut i: usize = 0;
    while i < sym.children.len()
        invariant
            i <= sym.children@.len(),
            depth < usize::MAX - symbol_depth(*sym),
            out@ == mid + children_text(sym.children@, (depth + 1) as nat, i as int),
        decreases sym.children.len() - i,
    {
        proof {
            lemma_child_depth(*sym, i as int);
        }
        format_symbol(out, &sym.children[i], depth + 1);
        i += 1;
    }
}

/// How deep the symbols inside a symbol nest.
pub open spec fn symbol_depth(sym: Symbol) -> nat
    decreases sym, 0nat,
{
    1 + children_depth(sym.children@, sym.children@.len() as int)
}

/// The deepest nesting among the first `k` symbols of a list.
pub open spec fn children_depth(syms: Seq<Symbol>, k: int) -> nat
    decreases syms, k,
{
    if k <= 0 || k > syms.len() {
        0
    } else {
        let a = children_depth(syms, k - 1);
        let b = symbol_depth(syms[k - 1]);
        if a > b {
            a
        } else {
            b
        }
    }
}

proof fn lemma_children_depth(syms: Seq<Symbol>, k: int, i: int)
    requires
        0 <= i < k <= syms.len(),
    ensures
        symbol_depth(syms[i]) <= children_depth(syms, k),
    decreases k,
{
    if i < k - 1 {
        lemma_children_depth(syms, k - 1, i);
    }
}

proof fn lemma_child_depth(sym: Symbol, i: int)
    requires
        0 <= i < sym.children@.len(),
    ensures
        symbol_depth(sym.children@[i]) + 1 <= symbol_depth(sym),
{
    lemma_children_depth(sym.children@, sym.children@.len() as int, i);
}

/// The 1-based line of a byte offset: one more than the newlines before it.
pub open spec fn line_of_byte(source: Seq<u8>, byte: int) -> int {
    let end = if byte < source.len() { byte } else { source.len() as int };
    source.take(end).filter(|b: u8| b == 10u8).len() + 1int
}

/// The 1-based line of a byte offset of a source.
pub fn byte_to_line(source: &str, byte: usize) -> (r: usize)
    requires
        vstd::string::StringSliceAdditionalSpecFns::spec_bytes(source).len() < usize::MAX,
    ensures
        r == line_of_byte(vstd::string::StringSliceAdditionalSpecFns::spec_bytes(source), byte as int),
{
    let bytes = source.as_bytes();
    let end = if byte < bytes.len() { byte } else { bytes.len() };
    let mut count: usize = 0;
    let mut i: usize = 0;
    proof {
        assert(bytes@.take(0).filter(|b: u8| b == 10u8) =~= Seq::<u8>::empty());
    }
    while i < end
        invariant
            i <= end <= bytes@.len(),
            count == bytes@.take(i as int).filter(|b: u8| b == 10u8).len(),
            count <= i,
            bytes@.len() < usize::MAX,
        decreases end - i,
    {
        proof {
            reveal(Seq::filter);
            assert(bytes@.take(i + 1).drop_last() =~= bytes@.take(i as int));
            assert(bytes@.take(i + 1).last() == bytes@[i as int]);
        }
        if bytes[i] == 10u8 {
            count += 1;
        }
        i += 1;
    }
    count + 1
}

/// A declaration's signature from its text up to its body: without trailing
/// whitespace and, when a body was cut off, without trailing `;`s.
pub open spec fn signature_of(text: Seq<char>, cut_body: bool) -> Seq<char> {
    let t = trim_end(text);
    if cut_body {
        trim_end(trim_end_char(t, ';'))
    } else {
        t
    }
}

/// A declaration's signature from its text up to its body.
pub fn clean_signature(text: &str, cut_body: bool) -> (r: String)
    ensures
        r@ == signature_of(text@, cut_body),
{
    let v = chars_of(text);
    let e = skip_ws_backward(v.as_slice(), 0, v.len());
    proof {
        assert(v@.subrange(0, v@.len() as int) =~= v@);
        assert(v@.subrange(0, e as int) =~= trim_end(text@));
    }
    let t = slice_range(v.as_slice(), 0, e);
    if !cut_body {
        return string_of(t.as_slice());
    }
    let k = trail_run_exec(t.as_slice(), ';');
    let u = slice_range(t.as_slice(), 0, t.len() - k);
    proof {
        assert(u@ =~= trim_end_char(t@, ';'));
    }
    let e2 = skip_ws_backward(u.as_slice(), 0, u.len());
    proof {
        assert(u@.subrange(0, u@.len() as int) =~= u@);
        assert(u@.subrange(0, e2 as int) =~= trim_end(u@));
    }
    string_of(slice_range(u.as_slice(), 0, e2).as_slice())
}

/// Whether a node kind is a body that ends a Rust declaration's signature.
pub open spec fn is_rust_body(kind: Seq<char>) -> bool {
    kind == "block"@ || kind == "field_declaration_list"@ || kind == "ordered_field_declaration_list"@
        || kind == "enum_variant_list"@ || kind == "declaration_list"@
}

/// The header of a file's symbols: its path on a line.
pub fn file_header(path: &str) -> (r: String)
    ensures
        r@ == path@ + "\n"@,
{
    let mut s = String::new();
    s.append(path);
    s.append("\n");
    s
}

/// The message when a path holds no supported source file.
pub fn no_sources_message(path: &str) -> (r: String)
    ensures
        r@ == "no supported source files found at "@ + path@
            + " (expected .rs, .go, .ts, .tsx, .js, .jsx, .mjs, .cjs, or .py)"@,
{
    let mut s = String::new();
    s.append("no supported source files found at ");
    s.append(path);
    s.append(" (expected .rs, .go, .ts, .tsx, .js, .jsx, .mjs, .cjs, or .py)");
    s
}

/// Whether a file extension is one of the supported sources.
pub open spec fn supported_extension(ext: Seq<char>) -> bool {
    ext == "rs"@ || ext == "go"@ || ext == "ts"@ || ext == "tsx"@ || ext == "js"@ || ext == "jsx"@
        || ext == "mjs"@ || ext == "cjs"@ || ext == "py"@
}

/// Whether a file extension is one of the supported sources.
pub fn is_supported_extension(ext: &str) -> (r: bool)
    ensures
        r == supported_extension(ext@),
{
    crate::text::str_eq(ext, "rs") || crate::text::str_eq(ext, "go") || crate::text::str_eq(ext, "ts")
        || crate::text::str_eq(ext, "tsx") || crate::text::str_eq(ext, "js") || crate::text::str_eq(ext, "jsx")
        || crate::text::str_eq(ext, "mjs") || crate::text::str_eq(ext, "cjs") || crate::text::str_eq(ext, "py")
}

// ---------------------------------------------------------------------------
// Syntax trees

/// A node of a parsed source file: its kind, the field of its parent that
/// it fills (when it fills one), the bytes of the source it spans, and its
/// children in order (named and anonymous alike).
#[derive(Debug)]
pub struct SyntaxNode {
    pub kind: String,
    pub field: Option<String>,
    pub start_byte: usize,
    pub end_byte: usize,
    pub children: Vec<SyntaxNode>,
}

/// The bytes of a source text.
pub open spec fn source_bytes(source: &str) -> Seq<u8> {
    vstd::string::StringSliceAdditionalSpecFns::spec_bytes(source)
}

/// Whether a node fills the field `f` of its parent.
pub open spec fn has_field(n: SyntaxNode, f: Seq<char>) -> bool {
    n.field matches Some(x) && x@ == f
}

/// The first child, from `i` on, that fills field `f`.
pub open spec fn field_from(cs: Seq<SyntaxNode>, f: Seq<char>, i: int) -> Option<int>
    decreases cs.len() - i,
{
    if i < 0 || i >= cs.len() {
        None
    } else if has_field(cs[i], f) {
        Some(i)
    } else {
        field_from(cs, f, i + 1)
    }
}

/// The child that fills field `f` (the first, when several do).
pub open spec fn field_index(n: SyntaxNode, f: Seq<char>) -> Option<int> {
    field_from(n.children@, f, 0)
}

proof fn lemma_field_from(cs: Seq<SyntaxNode>, f: Seq<char>, i: int)
    requires
        0 <= i,
    ensures
        field_from(cs, f, i) matches Some(j) ==> i <= j < cs.len() && has_field(cs[j], f),
    decreases cs.len() - i,
{
    if i < cs.len() && !has_field(cs[i], f) {
        lemma_field_from(cs, f, i + 1);
    }
}

/// The index of the child that fills field `f`.
pub fn field_child(node: &SyntaxNode, f: &str) -> (r: Option<usize>)
    ensures
        match r {
            Some(j) => field_index(*node, f@) == Some(j as int) && j < node.children@.len(),
            None => field_index(*node, f@) is None,
        },
{
    let mut i: usize = 0;
    while i < node.children.len()
        invariant
            i <= node.children@.len(),
            field_from(node.children@, f@, 0) == field_from(node.children@, f@, i as int),
        decreases node.children.len() - i,
    {
        let c = &node.children[i];
        let hit = match &c.field {
            Some(x) => str_eq(x.as_str(), f),
            None => false,
        };
        if hit {
            return Some(i);
        }
        i += 1;
    }
    None
}

/// The text of a node: the bytes it spans, when they lie in the source and
/// are UTF-8.
pub open spec fn text_of(b: Seq<u8>, n: SyntaxNode) -> Option<Seq<char>> {
    if n.start_byte <= n.end_byte <= b.len() && valid_utf8(
        b.subrange(n.start_byte as int, n.end_byte as int),
    ) {
        Some(decode_utf8(b.subrange(n.start_byte as int, n.end_byte as int)))
    } else {
        None
    }
}

/// The text of an optional string.
pub open spec fn opt_text(o: Option<String>) -> Option<Seq<char>> {
    match o {
        Some(s) => Some(s@),
        None => None,
    }
}

/// The text of a node.
pub fn node_text(source: &str, node: &SyntaxNode) -> (r: Option<String>)
    ensures
        opt_text(r) == text_of(source_bytes(source), *node),
{
    let bytes = source.as_bytes();
    if node.start_byte <= node.end_byte && node.end_byte <= bytes.len() {
        let part = byte_range(bytes, node.start_byte, node.end_byte);
        utf8_text(part.as_slice())
    } else {
        None
    }
}

/// The text of the child that fills field `f`.
pub open spec fn field_text(b: Seq<u8>, n: SyntaxNode, f: Seq<char>) -> Option<Seq<char>> {
    match field_index(n, f) {
        Some(j) => if 0 <= j < n.children@.len() {
            text_of(b, n.children@[j])
        } else {
            None
        },
        None => None,
    }
}

/// The text of the child that fills field `f`.
pub fn field_child_text(source: &str, node: &SyntaxNode, f: &str) -> (r: Option<String>)
    ensures
        opt_text(r) == field_text(source_bytes(source), *node, f@),
{
    match field_child(node, f) {
        Some(j) => node_text(source, &node.children[j]),
        None => None,
    }
}

/// The name of a node: the text of its `name` field.
pub open spec fn name_of(b: Seq<u8>, n: SyntaxNode) -> Option<Seq<char>> {
    field_text(b, n, "name"@)
}

/// The name of a node.
pub fn node_name(source: &str, node: &SyntaxNode) -> (r: Option<String>)
    ensures
        opt_text(r) == name_of(source_bytes(source), *node),
{
    field_child_text(source, node, "name")
}

/// Whether a kind is one of a list.
pub open spec fn kind_in(k: Seq<char>, kinds: Seq<&str>) -> bool {
    exists|i: int| 0 <= i < kinds.len() && #[trigger] kinds[i]@ == k
}

/// Whether a kind is one of a list.
pub fn kind_among(k: &str, kinds: &[&str]) -> (r: bool)
    ensures
        r == kind_in(k@, kinds@),
{
    let mut i: usize = 0;
    while i < kinds.len()
        invariant
            i <= kinds@.len(),
            forall|j: int| 0 <= j < i ==> #[trigger] kinds@[j]@ != k@,
        decreases kinds.len() - i,
    {
        if str_eq(kinds[i], k) {
            return true;
        }
        i += 1;
    }
    false
}

/// The first child, from `i` on, whose kind is in `kinds`.
pub open spec fn kind_from(cs: Seq<SyntaxNode>, kinds: Seq<&str>, i: int) -> Option<int>
    decreases cs.len() - i,
{
    if i < 0 || i >= cs.len() {
        None
    } else if kind_in(cs[i].kind@, kinds) {
        Some(i)
    } else {
        kind_from(cs, kinds, i + 1)
    }
}

/// A declaration's signature: its text up to its first child whose kind is
/// a body kind, trimmed at the end, with the `;`s before the body cut off;
/// the text runs to the node's end when it has no body. Text that is not
/// UTF-8, or a node that starts past where its text ends, gives nothing.
pub open spec fn sig_text(b: Seq<u8>, n: SyntaxNode, kinds: Seq<&str>) -> Seq<char> {
    let end = match kind_from(n.children@, kinds, 0) {
        Some(j) => if 0 <= j < n.children@.len() {
            n.children@[j].start_byte as int
        } else {
            n.end_byte as int
        },
        None => n.end_byte as int,
    };
    let e = if end < b.len() {
        end
    } else {
        b.len() as int
    };
    let t = if n.start_byte <= e {
        text_or(b.subrange(n.start_byte as int, e), Seq::empty())
    } else {
        Seq::empty()
    };
    signature_of(t, end < n.end_byte)
}

proof fn lemma_kind_from(cs: Seq<SyntaxNode>, kinds: Seq<&str>, i: int)
    requires
        0 <= i,
    ensures
        kind_from(cs, kinds, i) matches Some(j) ==> i <= j < cs.len(),
    decreases cs.len() - i,
{
    if i < cs.len() && !kind_in(cs[i].kind@, kinds) {
        lemma_kind_from(cs, kinds, i + 1);
    }
}

/// The first child whose kind is in `kinds`.
fn first_of_kinds(node: &SyntaxNode, kinds: &[&str]) -> (r: Option<usize>)
    ensures
        match r {
            Some(j) => kind_from(node.children@, kinds@, 0) == Some(j as int) && j < node.children@.len(),
            None => kind_from(node.children@, kinds@, 0) is None,
        },
{
    let mut i: usize = 0;
    while i < node.children.len()
        invariant
            i <= node.children@.len(),
            kind_from(node.children@, kinds@, 0) == kind_from(node.children@, kinds@, i as int),
        decreases node.children.len() - i,
    {
        if kind_among(node.children[i].kind.as_str(), kinds) {
            return Some(i);
        }
        i += 1;
    }
    None
}

/// A declaration's signature.
pub fn signature_text(source: &str, node: &SyntaxNode, kinds: &[&str]) -> (r: String)
    ensures
        r@ == sig_text(source_bytes(source), *node, kinds@),
{
    let end = match first_of_kinds(node, kinds) {
        Some(j) => node.children[j].start_byte,
        None => node.end_byte,
    };
    let bytes = source.as_bytes();
    let e = if end < bytes.len() { end } else { bytes.len() };
    let t = if node.start_byte <= e {
        let part = byte_range(bytes, node.start_byte, e);
        utf8_text_or(part.as_slice(), "")
    } else {
        String::new()
    };
    proof {
        reveal_strlit("");
    }
    clean_signature(t.as_str(), end < node.end_byte)
}

/// The first child, from `i` on, of the given kind.
pub open spec fn kind_index_from(cs: Seq<SyntaxNode>, kind: Seq<char>, i: int) -> Option<int>
    decreases cs.len() - i,
{
    if i < 0 || i >= cs.len() {
        None
    } else if cs[i].kind@ == kind {
        Some(i)
    } else {
        kind_index_from(cs, kind, i + 1)
    }
}

/// The first child of the given kind.
pub fn first_of_kind(node: &SyntaxNode, kind: &str) -> (r: Option<usize>)
    ensures
        match r {
            Some(j) => kind_index_from(node.children@, kind@, 0) == Some(j as int) && j < node.children@.len(),
            None => kind_index_from(node.children@, kind@, 0) is None,
        },
{
    let mut i: usize = 0;
    while i < node.children.len()
        invariant
            i <= node.children@.len(),
            kind_index_from(node.children@, kind@, 0) == kind_index_from(node.children@, kind@, i as int),
        decreases node.children.len() - i,
    {
        if str_eq(node.children[i].kind.as_str(), kind) {
            return Some(i);
        }
        i += 1;
    }
    None
}

// ---------------------------------------------------------------------------
// What a symbol holds

/// The content of a symbol: its kind, name, lines, signature and the
/// content of the symbols inside it.
pub struct SymView {
    pub kind: Seq<char>,
    pub name: Seq<char>,
    pub line_start: int,
    pub line_end: int,
    pub signature: Seq<char>,
    pub children: Seq<SymView>,
}

/// The content of a symbol.
pub open spec fn sym_view(s: Symbol) -> SymView
    decreases s, 0nat,
{
    SymView {
        kind: s.kind@,
        name: s.name@,
        line_start: s.line_start as int,
        line_end: s.line_end as int,
        signature: s.signature@,
        children: views_of(s.children@, s.children@.len() as int),
    }
}

/// The content of the first `k` symbols of a list.
pub open spec fn views_of(syms: Seq<Symbol>, k: int) -> Seq<SymView>
    decreases syms, k,
{
    if k <= 0 || k > syms.len() {
        Seq::empty()
    } else {
        views_of(syms, k - 1).push(sym_view(syms[k - 1]))
    }
}

/// The content of a list of symbols.
pub open spec fn all_views(syms: Seq<Symbol>) -> Seq<SymView> {
    views_of(syms, syms.len() as int)
}

/// The content of an optional symbol, as a list.
pub open spec fn opt_views(o: Option<SymView>) -> Seq<SymView> {
    match o {
        Some(v) => seq![v],
        None => Seq::empty(),
    }
}

/// The content of an optional symbol.
pub open spec fn opt_sym_view(o: Option<Symbol>) -> Option<SymView> {
    match o {
        Some(s) => Some(sym_view(s)),
        None => None,
    }
}

proof fn lemma_views_prefix(a: Seq<Symbol>, b: Seq<Symbol>, k: int)
    requires
        0 <= k <= a.len(),
        k <= b.len(),
        a.take(k) == b.take(k),
    ensures
        views_of(a, k) == views_of(b, k),
    decreases k,
{
    if k > 0 {
        assert(a.take(k - 1) =~= a.take(k).take(k - 1));
        assert(b.take(k - 1) =~= b.take(k).take(k - 1));
        lemma_views_prefix(a, b, k - 1);
        assert(a[k - 1] == a.take(k)[k - 1]);
        assert(b[k - 1] == b.take(k)[k - 1]);
    }
}

/// Appending a symbol appends its content.
pub proof fn lemma_views_push(syms: Seq<Symbol>, x: Symbol)
    ensures
        all_views(syms.push(x)) == all_views(syms).push(sym_view(x)),
{
    let p = syms.push(x);
    assert(p.take(syms.len() as int) =~= syms.take(syms.len() as int));
    lemma_views_prefix(p, syms, syms.len() as int);
}

/// The content of two lists joined is their contents joined.
pub proof fn lemma_views_concat(a: Seq<Symbol>, b: Seq<Symbol>)
    ensures
        all_views(a + b) == all_views(a) + all_views(b),
    decreases b.len(),
{
    if b.len() == 0 {
        assert(a + b =~= a);
        assert(all_views(b) =~= Seq::<SymView>::empty());
        assert(all_views(a) + all_views(b) =~= all_views(a));
    } else {
        let b1 = b.drop_last();
        lemma_views_concat(a, b1);
        assert(a + b =~= (a + b1).push(b.last()));
        lemma_views_push(a + b1, b.last());
        assert(b =~= b1.push(b.last()));
        lemma_views_push(b1, b.last());
        assert(all_views(a + b) =~= all_views(a) + all_views(b));
    }
}

/// A list's content has one entry per symbol.
pub proof fn lemma_views_len(syms: Seq<Symbol>, k: int)
    requires
        0 <= k <= syms.len(),
    ensures
        views_of(syms, k).len() == k,
        forall|i: int| 0 <= i < k ==> #[trigger] views_of(syms, k)[i] == sym_view(syms[i]),
    decreases k,
{
    if k > 0 {
        lemma_views_len(syms, k - 1);
    }
}

/// A list of one symbol has that symbol's content.
pub proof fn lemma_views_single(x: Symbol)
    ensures
        all_views(seq![x]) == seq![sym_view(x)],
{
    assert(seq![x] =~= Seq::<Symbol>::empty().push(x));
    lemma_views_push(Seq::<Symbol>::empty(), x);
    assert(all_views(Seq::<Symbol>::empty()) =~= Seq::<SymView>::empty());
}

/// Appends a symbol to a list, keeping track of the content.
pub fn push_symbol(out: &mut Vec<Symbol>, s: Symbol)
    ensures
        all_views(final(out)@) == all_views(old(out)@).push(sym_view(s)),
{
    proof {
        lemma_views_push(out@, s);
    }
    out.push(s);
}

/// Appends an optional symbol to a list.
pub fn push_opt_symbol(out: &mut Vec<Symbol>, s: Option<Symbol>)
    ensures
        all_views(final(out)@) == all_views(old(out)@) + opt_views(opt_sym_view(s)),
{
    match s {
        Some(x) => {
            push_symbol(out, x);
            assert(all_views(old(out)@).push(sym_view(x)) =~= all_views(old(out)@) + seq![sym_view(x)]);
        },
        None => {
            assert(all_views(old(out)@) + Seq::<SymView>::empty() =~= all_views(old(out)@));
        },
    }
}

/// Appends a list of symbols to a list.
pub fn append_symbols(out: &mut Vec<Symbol>, more: Vec<Symbol>)
    ensures
        all_views(final(out)@) == all_views(old(out)@) + all_views(more@),
{
    let mut m = more;
    proof {
        lemma_views_concat(out@, m@);
    }
    out.append(&mut m);
}

/// The symbol a node makes, with the lines the node spans.
pub open spec fn made(
    b: Seq<u8>,
    n: SyntaxNode,
    kind: Seq<char>,
    name: Seq<char>,
    signature: Seq<char>,
    children: Seq<SymView>,
) -> SymView {
    SymView {
        kind,
        name,
        line_start: line_of_byte(b, n.start_byte as int),
        line_end: line_of_byte(b, n.end_byte as int),
        signature,
        children,
    }
}

/// The symbol a node makes.
pub fn make_symbol(
    source: &str,
    node: &SyntaxNode,
    kind: &'static str,
    name: String,
    signature: String,
    children: Vec<Symbol>,
) -> (r: Symbol)
    requires
        source_bytes(source).len() < usize::MAX,
    ensures
        sym_view(r) == made(source_bytes(source), *node, kind@, name@, signature@, all_views(children@)),
{
    Symbol {
        kind,
        name,
        line_start: byte_to_line(source, node.start_byte),
        line_end: byte_to_line(source, node.end_byte),
        signature,
        children,
    }
}

/// A list of symbols as one: none when empty, the symbol itself when alone,
/// else a group named `(group)` spanning the node.
pub open spec fn group_view(
    b: Seq<u8>,
    n: SyntaxNode,
    kind: Seq<char>,
    signature: Seq<char>,
    cs: Seq<SymView>,
) -> Option<SymView> {
    if cs.len() == 0 {
        None
    } else if cs.len() == 1 {
        Some(cs[0])
    } else {
        Some(made(b, n, kind, "(group)"@, signature, cs))
    }
}

/// A list of symbols as one.
pub fn group_or_single(
    source: &str,
    node: &SyntaxNode,
    kind: &'static str,
    signature: String,
    children: Vec<Symbol>,
) -> (r: Option<Symbol>)
    requires
        source_bytes(source).len() < usize::MAX,
    ensures
        opt_sym_view(r) == group_view(source_bytes(source), *node, kind@, signature@, all_views(children@)),
{
    proof {
        lemma_views_len(children@, children@.len() as int);
    }
    if children.len() == 0 {
        None
    } else if children.len() == 1 {
        let mut c = children;
        let ghost cv = c@;
        proof {
            assert(cv =~= seq![cv[0]]);
            lemma_views_single(cv[0]);
        }
        c.pop()
    } else {
        Some(make_symbol(source, node, kind, "(group)".to_string(), signature, children))
    }
}


} // verus!
