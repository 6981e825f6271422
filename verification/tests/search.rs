use ogent::tools::search::{
    build_matcher, search_file_lines,
    collect_file_matches, compact_signature, entry_kind, node_signature, rust_impl_name, search_limits,
    OutlineLanguage, TextMatch,
};
use ogent::tools::repo::{glob_paths, map_levels, path_or_root};

fn lines(v: &[&str]) -> Vec<String> {
    v.iter().map(|s| s.to_string()).collect()
}

#[test]
fn search_limits_are_bounded() {
    assert_eq!(search_limits(2, 0), (2, 100));
    assert_eq!(search_limits(9, 50), (5, 50));
    assert_eq!(search_limits(0, 9000), (0, 500));
    assert_eq!(path_or_root(""), ".");
    assert_eq!(path_or_root("src"), "src");
    assert_eq!(map_levels(0), 3);
    assert_eq!(map_levels(2), 2);
}

#[test]
fn matches_carry_their_context_in_line_order() {
    let ls = lines(&["a", "foo b", "c", "d foo", "e"]);
    let found = vec![None, Some(0), None, Some(2), None];
    let mut out: Vec<TextMatch> = Vec::new();
    collect_file_matches("f.txt", &ls, &found, 1, 10, &mut out);
    assert_eq!(out.len(), 2);
    assert_eq!((out[0].line, out[0].column), (2, 1));
    assert_eq!(out[0].before, lines(&["a"]));
    assert_eq!(out[0].after, lines(&["c"]));
    assert_eq!((out[1].line, out[1].column), (4, 3));
    assert_eq!(out[1].text, "d foo");
    assert_eq!(out[1].after, lines(&["e"]));
    assert_eq!(out[1].path, "f.txt");
}

#[test]
fn matches_stop_at_the_limit() {
    let ls = lines(&["x", "x", "x"]);
    let found = vec![Some(0), Some(0), Some(0)];
    let mut out: Vec<TextMatch> = Vec::new();
    collect_file_matches("a", &ls, &found, 0, 2, &mut out);
    assert_eq!(out.len(), 2);
    assert_eq!(out[1].line, 2);
    collect_file_matches("b", &ls, &found, 0, 2, &mut out);
    assert_eq!(out.len(), 2);
}

#[test]
fn outline_languages_and_kinds() {
    assert_eq!(OutlineLanguage::from_path("src/lib.rs").unwrap(), OutlineLanguage::Rust);
    assert_eq!(OutlineLanguage::from_path("a.py").unwrap().name(), "Python");
    assert_eq!(
        OutlineLanguage::from_path("a.ts").unwrap_err().message,
        "outline supports .rs, .go, and .py files only"
    );
    assert_eq!(entry_kind(OutlineLanguage::Rust, "function_item", true, None), Some("method"));
    assert_eq!(entry_kind(OutlineLanguage::Go, "type_spec", false, Some("interface_type")), Some("interface"));
    assert_eq!(entry_kind(OutlineLanguage::Python, "class_definition", false, None), Some("class"));
    assert_eq!(entry_kind(OutlineLanguage::Python, "call", false, None), None);
}

#[test]
fn signatures_are_compacted() {
    assert_eq!(compact_signature("  pub   fn  a( x )  "), "pub fn a( x )");
    assert_eq!(rust_impl_name(Some("Foo < T >"), None), "Foo < T >");
    assert_eq!(rust_impl_name(None, Some("impl  Display for Foo {\n}")), "Display for Foo");
    assert_eq!(rust_impl_name(None, None), "impl");
    let src = "fn main() {\n    body();\n}\n";
    assert_eq!(node_signature(src, 0, src.len()), "fn main() {");
    assert_eq!(node_signature(src, 3, 7), "main");
}

#[test]
fn literal_patterns_are_escaped_and_bad_regexes_refused() {
    assert_eq!(build_matcher("a.b(c)", false, true).unwrap(), "a\\.b\\(c\\)");
    assert_eq!(build_matcher("a.b", true, true).unwrap(), "a.b");
    let err = build_matcher("(", true, true).unwrap_err();
    assert_eq!(err.message, "invalid regex pattern \"(\"");
}

#[test]
fn searching_a_file_reports_byte_columns() {
    let lines: Vec<String> = vec!["let x = 1;".into(), "héllo World".into(), "world".into()];
    let mut out: Vec<TextMatch> = Vec::new();
    assert!(search_file_lines("f.rs", &lines, "world", false, 0, 10, &mut out));
    assert_eq!(out.len(), 2);
    assert_eq!((out[0].line, out[0].column), (2, 8));
    assert_eq!((out[1].line, out[1].column), (3, 1));
    let mut out: Vec<TextMatch> = Vec::new();
    assert!(search_file_lines("f.rs", &lines, "world", true, 0, 10, &mut out));
    assert_eq!(out.len(), 1);
    assert!(!search_file_lines("f.rs", &lines, "[", true, 0, 10, &mut out));
    assert_eq!(out.len(), 1);
}

#[test]
fn globs_keep_matching_files_in_order() {
    let files: Vec<String> = vec!["a.rs".into(), "src/b.rs".into(), "README.md".into(), "src/c.txt".into()];
    assert_eq!(glob_paths("**/*.rs", &files).unwrap(), vec!["a.rs".to_string(), "src/b.rs".to_string()]);
    assert_eq!(glob_paths("src/*", &files).unwrap(), vec!["src/b.rs".to_string(), "src/c.txt".to_string()]);
    assert_eq!(glob_paths("  ", &files).unwrap_err().message, "pattern is required");
    assert!(glob_paths("{a", &files).unwrap_err().message.contains("{a"));
}
