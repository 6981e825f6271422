use ogent::tools::fs::{
    anchor_lines, applied_message, byte_window, check_line_args, check_ops, check_overwrite, check_size,
    no_changes_message, preview_header, render_compact_unified_diff, read_window, select_lines, truncate_preview, wrote_message,
    PREVIEW_DIFF_MAX_CHARS,
};

#[test]
fn reading_windows_are_cut_to_the_file() {
    assert_eq!(byte_window(10, None, None), (0, 10));
    assert_eq!(byte_window(10, Some(4), Some(3)), (4, 7));
    assert_eq!(byte_window(10, Some(40), Some(3)), (10, 10));
    assert_eq!(byte_window(10, Some(8), Some(30)), (8, 10));
    assert_eq!(read_window(b"hello world", Some(6), None), "world");
    assert_eq!(read_window(&[0x68, 0xff, 0x69], None, None), "h\u{fffd}i");
}

#[test]
fn line_ranges_select_whole_lines() {
    assert_eq!(check_line_args(0, 3).unwrap_err().message, "start_line must be >= 1");
    assert_eq!(check_line_args(4, 3).unwrap_err().message, "end_line must be >= start_line");
    assert!(check_line_args(2, 2).is_ok());
    let src = "one\ntwo\nthree";
    assert_eq!(select_lines(src, 2, 3).unwrap(), "two\nthree");
    assert_eq!(select_lines(src, 1, 1).unwrap(), "one\n");
    assert_eq!(
        select_lines(src, 2, 5).unwrap_err().message,
        "line range 2-5 is outside file with 3 lines"
    );
    assert_eq!(select_lines("a\n", 1, 1).unwrap(), "a\n");
}

#[test]
fn anchor_windows_cover_whole_lines() {
    let src = "ab\ncd\nef\n";
    assert_eq!(anchor_lines(src, 9, None, None), (Some(1), Some(3)));
    assert_eq!(anchor_lines(src, 9, Some(3), Some(3)), (Some(2), Some(2)));
}

#[test]
fn size_and_argument_checks() {
    assert!(check_size("a.txt", 1 << 20).is_ok());
    assert_eq!(
        check_size("a.txt", (1 << 20) + 1).unwrap_err().message,
        "file a.txt exceeds size limit (1048577 > 1048576 bytes)"
    );
    assert!(check_ops(0).is_err());
    assert!(check_ops(2).is_ok());
    assert!(check_overwrite("a", true, false).is_err());
    assert!(check_overwrite("a", true, true).is_ok());
    assert!(check_overwrite("a", false, false).is_ok());
}

#[test]
fn answers_name_the_file() {
    assert_eq!(wrote_message(12, "a.txt"), "Wrote 12 bytes to a.txt");
    assert_eq!(applied_message(3, "b.rs"), "Applied 3 edits to b.rs");
    assert_eq!(no_changes_message("b.rs"), "No changes to b.rs\n");
    assert_eq!(preview_header("b.rs"), "b.rs (preview)");
}

#[test]
fn long_previews_are_truncated_with_visible_marker() {
    let long: String = (0..300).map(|i| format!("+after-{i}-{}\n", "y".repeat(80))).collect();
    let preview = truncate_preview(long.clone());
    assert!(preview.contains("preview truncated to stay under the tool output cap"));
    assert!(preview.chars().count() <= PREVIEW_DIFF_MAX_CHARS);
    assert_eq!(truncate_preview("short".to_string()), "short");
}

#[test]
fn preview_diff_truncates_with_visible_marker() {
    let before = (0..300)
        .map(|i| format!("before-{i}-{}", "x".repeat(80)))
        .collect::<Vec<_>>()
        .join("\n")
        + "\n";
    let after = (0..300)
        .map(|i| format!("after-{i}-{}", "y".repeat(80)))
        .collect::<Vec<_>>()
        .join("\n")
        + "\n";

    let preview = render_compact_unified_diff("large.rs", &before, &after);

    assert!(preview.contains("\n... preview truncated to stay under the tool output cap ...\n"));
    assert!(preview.chars().count() <= PREVIEW_DIFF_MAX_CHARS);
}

#[test]
fn small_edits_preview_as_unified_diffs() {
    assert_eq!(render_compact_unified_diff("a.txt", "x\n", "x\n"), "No changes to a.txt\n");
    assert_eq!(
        render_compact_unified_diff("a.txt", "a\nb\n", "a\nc\n"),
        "--- a.txt\n+++ a.txt (preview)\n@@ -1,2 +1,2 @@\n a\n-b\n+c\n"
    );
}
