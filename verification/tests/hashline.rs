use ogent::hashline::{apply_anchor_edits, render_hashlines, EditOp};

#[test]
fn hashline_matches_go_fnv_prefix() {
    assert_eq!(render_hashlines("hello\n", None, None), "1:a430|hello\n");
}

#[test]
fn hashline_empty_when_start_exceeds_end() {
    assert_eq!(render_hashlines("hello\n", Some(60), Some(15)), "");
}

fn anchors(source: &str) -> Vec<String> {
    render_hashlines(source, None, None)
        .lines()
        .map(|l| l.split('|').next().unwrap().to_string())
        .collect()
}

fn ok(r: Result<String, ogent::hashline::AnchorEditError>) -> String {
    match r {
        Ok(s) => s,
        Err(_) => panic!("edit refused"),
    }
}

fn op(start_at: &str, action: &str, content: &str) -> EditOp {
    EditOp {
        start_at: start_at.to_string(),
        end_at: String::new(),
        action: action.to_string(),
        content: content.to_string(),
    }
}

#[test]
fn replacing_a_line_by_itself_keeps_the_text() {
    let source = "fn a() {}\n\nlet b = 2;\n";
    let a = anchors(source);
    assert_eq!(ok(apply_anchor_edits(source, &[op(&a[0], "replace", "fn a() {}")])), source);
    assert_eq!(ok(apply_anchor_edits(source, &[op(&a[2], "replace", "let b = 2;")])), source);
}

#[test]
fn disjoint_edits_apply_in_either_order() {
    let source = "a\nb\nc\n";
    let a = anchors(source);
    let op1 = op(&a[0], "insert_after", "x");
    let op2 = op(&a[2], "replace", "z");
    assert_eq!(ok(apply_anchor_edits(source, &[op1.clone(), op2.clone()])), "a\nx\nb\nz\n");
    assert_eq!(ok(apply_anchor_edits(source, &[op2, op1])), "a\nx\nb\nz\n");
}
