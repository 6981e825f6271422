use ogent::symbol_tree::{
    byte_to_line, clean_signature, compact_lines, display_rest, file_header, format_symbol,
    group_or_single, is_supported_extension, no_sources_message, signature_text, Symbol, SyntaxNode,
};
use ogent::symbol_tree::{c_sharp, cpp, go, python, rust, typescript};

/// A syntax node, filling `field` of its parent when given.
fn n(kind: &str, field: Option<&str>, start: usize, end: usize, children: Vec<SyntaxNode>) -> SyntaxNode {
    SyntaxNode {
        kind: kind.to_string(),
        field: field.map(|f| f.to_string()),
        start_byte: start,
        end_byte: end,
        children,
    }
}

fn leaf(kind: &str, field: Option<&str>, start: usize, end: usize) -> SyntaxNode {
    n(kind, field, start, end, vec![])
}

/// Kind, name, lines and signature of a symbol.
fn brief(s: &Symbol) -> (String, String, usize, usize, String) {
    (s.kind.to_string(), s.name.clone(), s.line_start, s.line_end, s.signature.clone())
}

fn b(kind: &str, name: &str, a: usize, z: usize, sig: &str) -> (String, String, usize, usize, String) {
    (kind.to_string(), name.to_string(), a, z, sig.to_string())
}

fn sym(kind: &'static str, name: &str, a: usize, b: usize, sig: &str, children: Vec<Symbol>) -> Symbol {
    Symbol { kind, name: name.to_string(), line_start: a, line_end: b, signature: sig.to_string(), children }
}

#[test]
fn symbols_format_with_indentation_and_positions() {
    let s = sym(
        "struct",
        "Person",
        7,
        10,
        "type Person struct {",
        vec![sym("method", "String", 20, 22, "func (p *Person) String() string", vec![]), sym("field", "Name", 8, 8, "", vec![])],
    );
    let mut out = file_header("test.go");
    format_symbol(&mut out, &s, 1);
    assert_eq!(
        out,
        "test.go\n  struct @7:10 {\n    method @20:22 func (p *Person) String() string\n    field Name@8:8\n"
    );
}

#[test]
fn signatures_are_compacted_and_cut() {
    assert_eq!(compact_lines("  fn a(\n    x: u8,\n  ) -> u8  "), "fn a( x: u8, ) -> u8");
    assert_eq!(display_rest("fn", "pub fn run(x: u8)"), "run(x: u8)");
    assert_eq!(display_rest("class", "def f()"), "def f()");
    assert_eq!(clean_signature("fn a() {  ", false), "fn a() {");
}

#[test]
fn byte_offsets_map_to_lines() {
    let src = "a\nbc\n\nd";
    assert_eq!(byte_to_line(src, 0), 1);
    assert_eq!(byte_to_line(src, 2), 2);
    assert_eq!(byte_to_line(src, 5), 3);
    assert_eq!(byte_to_line(src, 6), 4);
    assert_eq!(byte_to_line(src, 100), 4);
}

#[test]
fn extensions_and_groups() {
    assert!(is_supported_extension("rs"));
    assert!(is_supported_extension("mjs"));
    assert!(!is_supported_extension("c"));
    assert_eq!(
        no_sources_message("docs"),
        "no supported source files found at docs (expected .rs, .go, .ts, .tsx, .js, .jsx, .mjs, .cjs, or .py)"
    );
    let src = "const (\n A\n B\n)";
    let node = leaf("const_declaration", None, 0, src.len());
    assert!(group_or_single(src, &node, "const", String::new(), vec![]).is_none());
    let one = group_or_single(src, &node, "const", String::new(), vec![sym("const", "A", 2, 2, "", vec![])]).unwrap();
    assert_eq!(one.name, "A");
    assert_eq!(one.line_start, 2);
    let two = group_or_single(
        src,
        &node,
        "const",
        "const (".to_string(),
        vec![sym("const", "A", 2, 2, "", vec![]), sym("const", "B", 3, 3, "", vec![])],
    )
    .unwrap();
    assert_eq!(two.name, "(group)");
    assert_eq!((two.line_start, two.line_end), (1, 4));
    assert_eq!(two.children.len(), 2);
}

#[test]
fn signatures_stop_at_the_body() {
    let src = "fn run(x: u8) -> u8 ;  { x }";
    let node = n("function_item", None, 0, src.len(), vec![leaf("block", Some("body"), 23, src.len())]);
    assert_eq!(signature_text(src, &node, &["block"]), "fn run(x: u8) -> u8");
    assert_eq!(signature_text(src, &node, &[]), src);
}

#[test]
fn rust_items_nest_inside_structs_and_impls() {
    let src = "struct Point {\n    x: i32,\n}\nimpl Display for Point {\n    fn fmt(&self) {}\n}\n";
    let root = n(
        "source_file",
        None,
        0,
        77,
        vec![
            n(
                "struct_item",
                None,
                0,
                28,
                vec![
                    leaf("struct", None, 0, 6),
                    leaf("type_identifier", Some("name"), 7, 12),
                    n("field_declaration_list", Some("body"), 13, 28, vec![leaf("field_declaration", None, 19, 25)]),
                ],
            ),
            n(
                "impl_item",
                None,
                29,
                76,
                vec![
                    leaf("type_identifier", Some("trait"), 34, 41),
                    leaf("type_identifier", Some("type"), 46, 51),
                    n(
                        "declaration_list",
                        Some("body"),
                        52,
                        76,
                        vec![n(
                            "function_item",
                            None,
                            58,
                            74,
                            vec![leaf("identifier", Some("name"), 61, 64), leaf("block", Some("body"), 72, 74)],
                        )],
                    ),
                ],
            ),
        ],
    );
    let syms = rust::parse(src, &root);
    assert_eq!(syms.len(), 2);
    assert_eq!(brief(&syms[0]), b("struct", "Point", 1, 3, "struct Point"));
    assert!(syms[0].children.is_empty());
    assert_eq!(brief(&syms[1]), b("impl", "Display for Point", 4, 6, "impl Display for Point"));
    assert_eq!(brief(&syms[1].children[0]), b("fn", "fmt", 5, 5, "fn fmt(&self)"));
}

#[test]
fn python_decorated_definitions_and_class_members() {
    let src = "@dec\ndef f(x):\n    pass\nclass C:\n    y = 1\n";
    let root = n(
        "module",
        None,
        0,
        43,
        vec![
            n(
                "decorated_definition",
                None,
                0,
                23,
                vec![
                    leaf("decorator", None, 0, 4),
                    n(
                        "function_definition",
                        Some("definition"),
                        5,
                        23,
                        vec![leaf("identifier", Some("name"), 9, 10), leaf("block", Some("body"), 19, 23)],
                    ),
                ],
            ),
            n(
                "class_definition",
                None,
                24,
                42,
                vec![
                    leaf("identifier", Some("name"), 30, 31),
                    n(
                        "block",
                        Some("body"),
                        37,
                        42,
                        vec![n(
                            "expression_statement",
                            None,
                            37,
                            42,
                            vec![n("assignment", None, 37, 42, vec![leaf("identifier", Some("left"), 37, 38)])],
                        )],
                    ),
                ],
            ),
        ],
    );
    let syms = python::parse(src, &root);
    assert_eq!(syms.len(), 2);
    assert_eq!(brief(&syms[0]), b("fn", "f", 1, 3, "def f(x):"));
    assert_eq!(brief(&syms[1]), b("class", "C", 4, 5, "class C:"));
    assert_eq!(brief(&syms[1].children[0]), b("var", "y", 5, 5, "y = 1"));
}

#[test]
fn go_packages_types_and_const_groups() {
    let src = "package main\ntype P struct {\n\tName string\n}\nconst (\n\tA = 1\n\tB = 2\n)\n";
    let root = n(
        "source_file",
        None,
        0,
        68,
        vec![
            n("package_clause", None, 0, 12, vec![leaf("package", None, 0, 7), leaf("package_identifier", None, 8, 12)]),
            n(
                "type_declaration",
                None,
                13,
                43,
                vec![
                    leaf("type", None, 13, 17),
                    n(
                        "type_spec",
                        None,
                        18,
                        43,
                        vec![
                            leaf("type_identifier", Some("name"), 18, 19),
                            n(
                                "struct_type",
                                Some("type"),
                                20,
                                43,
                                vec![
                                    leaf("struct", None, 20, 26),
                                    n(
                                        "field_declaration_list",
                                        None,
                                        27,
                                        43,
                                        vec![n("field_declaration", None, 30, 41, vec![leaf("field_identifier", Some("name"), 30, 34)])],
                                    ),
                                ],
                            ),
                        ],
                    ),
                ],
            ),
            n(
                "const_declaration",
                None,
                44,
                67,
                vec![
                    leaf("const", None, 44, 49),
                    n("const_spec", None, 53, 58, vec![leaf("identifier", Some("name"), 53, 54)]),
                    n("const_spec", None, 60, 65, vec![leaf("identifier", Some("name"), 60, 61)]),
                ],
            ),
        ],
    );
    let syms = go::parse(src, &root);
    assert_eq!(syms.len(), 3);
    assert_eq!(brief(&syms[0]), b("package", "main", 1, 1, "package main"));
    assert_eq!(brief(&syms[1]), b("struct", "P", 2, 4, "P"));
    assert!(syms[1].children.is_empty());
    assert_eq!(brief(&syms[2]), b("const", "(group)", 5, 8, "const (\n\tA = 1\n\tB = 2\n)"));
    assert_eq!(brief(&syms[2].children[0]), b("const", "A", 6, 6, "A = 1"));
    assert_eq!(brief(&syms[2].children[1]), b("const", "B", 7, 7, "B = 2"));
}

#[test]
fn typescript_exports_classes_and_variable_groups() {
    let src = "export class K {\n  run() {}\n}\nlet a = 1, b = 2;\n";
    let root = n(
        "program",
        None,
        0,
        48,
        vec![
            n(
                "export_statement",
                None,
                0,
                29,
                vec![
                    leaf("export", None, 0, 6),
                    n(
                        "class_declaration",
                        Some("declaration"),
                        7,
                        29,
                        vec![
                            leaf("type_identifier", Some("name"), 13, 14),
                            n(
                                "class_body",
                                Some("body"),
                                15,
                                29,
                                vec![n(
                                    "method_definition",
                                    None,
                                    19,
                                    27,
                                    vec![leaf("property_identifier", Some("name"), 19, 22), leaf("statement_block", Some("body"), 25, 27)],
                                )],
                            ),
                        ],
                    ),
                ],
            ),
            n(
                "lexical_declaration",
                None,
                30,
                47,
                vec![
                    leaf("let", None, 30, 33),
                    n("variable_declarator", None, 34, 39, vec![leaf("identifier", Some("name"), 34, 35)]),
                    n("variable_declarator", None, 41, 46, vec![leaf("identifier", Some("name"), 41, 42)]),
                ],
            ),
        ],
    );
    let syms = typescript::parse(src, &root);
    assert_eq!(syms.len(), 2);
    assert_eq!(brief(&syms[0]), b("class", "K", 1, 3, "class K"));
    assert_eq!(brief(&syms[0].children[0]), b("fn", "run", 2, 2, "run()"));
    assert_eq!(brief(&syms[1]), b("var", "(group)", 4, 4, "let a = 1, b = 2;"));
    assert_eq!(brief(&syms[1].children[1]), b("var", "b", 4, 4, "b = 2"));
}

#[test]
fn c_sharp_file_scoped_namespace_holds_the_file() {
    let src = "namespace App;\nusing X;\nclass Svc {\n  void Go() {}\n}\n";
    let root = n(
        "compilation_unit",
        None,
        0,
        53,
        vec![
            n("file_scoped_namespace_declaration", None, 0, 14, vec![leaf("identifier", Some("name"), 10, 13)]),
            leaf("using_directive", None, 15, 23),
            n(
                "class_declaration",
                None,
                24,
                52,
                vec![
                    leaf("identifier", Some("name"), 30, 33),
                    n(
                        "declaration_list",
                        Some("body"),
                        34,
                        52,
                        vec![n(
                            "method_declaration",
                            None,
                            38,
                            50,
                            vec![leaf("identifier", Some("name"), 43, 45), leaf("block", Some("body"), 48, 50)],
                        )],
                    ),
                ],
            ),
        ],
    );
    let syms = c_sharp::parse(src, &root);
    assert_eq!(syms.len(), 1);
    assert_eq!(brief(&syms[0]), b("namespace", "App", 1, 6, "namespace App;"));
    assert_eq!(syms[0].children.len(), 1);
    assert_eq!(brief(&syms[0].children[0]), b("class", "Svc", 3, 5, "class Svc"));
    assert_eq!(brief(&syms[0].children[0].children[0]), b("fn", "Go", 4, 4, "void Go()"));
}

#[test]
fn cpp_templates_and_anonymous_namespaces() {
    let src = "template <typename T>\nT id(T x) { return x; }\nnamespace {\nint a, b;\n}\n";
    let root = n(
        "translation_unit",
        None,
        0,
        70,
        vec![
            n(
                "template_declaration",
                None,
                0,
                45,
                vec![
                    leaf("template", None, 0, 8),
                    leaf("template_parameter_list", Some("parameters"), 9, 21),
                    n(
                        "function_definition",
                        None,
                        22,
                        45,
                        vec![
                            leaf("type_identifier", Some("type"), 22, 23),
                            n(
                                "function_declarator",
                                Some("declarator"),
                                24,
                                31,
                                vec![leaf("identifier", Some("declarator"), 24, 26), leaf("parameter_list", Some("parameters"), 26, 31)],
                            ),
                            leaf("compound_statement", Some("body"), 32, 45),
                        ],
                    ),
                ],
            ),
            n(
                "namespace_definition",
                None,
                46,
                69,
                vec![
                    leaf("namespace", None, 46, 55),
                    n(
                        "declaration_list",
                        Some("body"),
                        56,
                        69,
                        vec![n(
                            "declaration",
                            None,
                            58,
                            67,
                            vec![
                                leaf("primitive_type", Some("type"), 58, 61),
                                leaf("identifier", Some("declarator"), 62, 63),
                                leaf("identifier", Some("declarator"), 65, 66),
                            ],
                        )],
                    ),
                ],
            ),
        ],
    );
    let syms = cpp::parse(src, &root);
    assert_eq!(syms.len(), 2);
    assert_eq!(brief(&syms[0]), b("fn", "id", 1, 2, "template <typename T>\nT id(T x) { return x; }"));
    assert_eq!(brief(&syms[1]), b("var", "a", 4, 4, "a"));
}
