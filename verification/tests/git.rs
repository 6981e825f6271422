use ogent::tools::git::{
    parse_hunk_header, bounded_context, bounded_log_entries, validate_git_ref_arg,
    parse_unified_diff, parse_porcelain_v1_z, validate_git_path, compact_line_ranges,
    MAX_GIT_CONTEXT, MAX_GIT_LOG_ENTRIES,
};
use ogent::workspace::Workspace;

#[test]
fn test_parse_hunk_header() {
    let h = parse_hunk_header("@@ -10,5 +10,7 @@").unwrap();
    assert_eq!(h.old_start, 10);
    assert_eq!(h.old_lines, 5);
    assert_eq!(h.new_start, 10);
    assert_eq!(h.new_lines, 7);

    let h = parse_hunk_header("@@ -0,0 +1 @@").unwrap();
    assert_eq!(h.old_start, 0);
    assert_eq!(h.old_lines, 0);
    assert_eq!(h.new_start, 1);
    assert_eq!(h.new_lines, 1);

    let h = parse_hunk_header("@@ -1,3 +0,0 @@").unwrap();
    assert_eq!(h.old_start, 1);
    assert_eq!(h.old_lines, 3);
    assert_eq!(h.new_start, 0);
    assert_eq!(h.new_lines, 0);
}

#[test]
fn bounds_agent_controlled_git_sizes() {
    assert_eq!(bounded_context(0), 0);
    assert_eq!(bounded_context(3), 3);
    assert_eq!(bounded_context(MAX_GIT_CONTEXT + 1), MAX_GIT_CONTEXT);
    assert_eq!(bounded_log_entries(10), 10);
    assert_eq!(bounded_log_entries(MAX_GIT_LOG_ENTRIES + 1), MAX_GIT_LOG_ENTRIES);
}

#[test]
fn validate_git_path_requires_workspace_relative_paths() {
    let ws = Workspace::from_root("/tmp/ogent-git-test");
    assert!(validate_git_path(&ws, "src/lib.rs").is_ok());
    assert!(validate_git_path(&ws, "*.rs").is_ok());
    assert!(validate_git_path(&ws, "").is_err());
    assert!(validate_git_path(&ws, "/tmp/outside.rs").is_err());
    assert!(validate_git_path(&ws, "../outside.rs").is_err());
}

#[test]
fn validate_git_ref_rejects_option_shaped_values() {
    assert!(validate_git_ref_arg("base", "HEAD~1").is_ok());
    assert!(validate_git_ref_arg("base", "abc123").is_ok());
    assert!(validate_git_ref_arg("base", "--help").is_err());
    assert!(validate_git_ref_arg("base", "").is_err());
    assert!(validate_git_ref_arg("base", "HEAD\nnext").is_err());
}

#[test]
fn test_parse_unified_diff_basic() {
    let text = r#"diff --git a/src/main.rs b/src/main.rs
index abc..def 100644
--- a/src/main.rs
+++ b/src/main.rs
@@ -10,5 +10,7 @@
     let x = 1;
-    let y = 2;
+    let z = 3;
     context
"#;
    let deltas = parse_unified_diff(text, false).unwrap();
    assert_eq!(deltas.len(), 1);
    let d = &deltas[0];
    assert_eq!(d.path, "src/main.rs");
    assert_eq!(d.old_path, "src/main.rs");
    assert_eq!(d.change_type, "modified");
    assert!(!d.is_binary);
    assert_eq!(d.hunks.as_ref().unwrap().len(), 1);
    let h = &d.hunks.as_ref().unwrap()[0];
    assert_eq!(h.old_start, 10);
    assert_eq!(h.lines.len(), 4);
    assert_eq!(h.lines[0].kind, "context");
    assert_eq!(h.lines[0].old_line, Some(10));
    assert_eq!(h.lines[0].new_line, Some(10));
    assert_eq!(h.lines[1].kind, "deletion");
    assert_eq!(h.lines[1].old_line, Some(11));
    assert_eq!(h.lines[1].new_line, None);
    assert_eq!(h.lines[2].kind, "addition");
    assert_eq!(h.lines[2].old_line, None);
    assert_eq!(h.lines[2].new_line, Some(11));
    assert_eq!(h.lines[3].kind, "context");
    assert_eq!(h.lines[3].old_line, Some(12));
    assert_eq!(h.lines[3].new_line, Some(12));
    assert_eq!(d.insertions, Some(1));
    assert_eq!(d.deletions, Some(1));
}

#[test]
fn test_parse_unified_diff_preserves_paths_with_spaces() {
    let text = r#"diff --git a/x b/y z.txt b/x b/y z.txt
index 7898192..6178079 100644
--- a/x b/y z.txt
+++ b/x b/y z.txt
@@ -1 +1 @@
-a
+b
"#;
    let deltas = parse_unified_diff(text, false).unwrap();
    assert_eq!(deltas.len(), 1);
    let d = &deltas[0];
    assert_eq!(d.path, "x b/y z.txt");
    assert_eq!(d.old_path, "x b/y z.txt");
    assert_eq!(d.insertions, Some(1));
    assert_eq!(d.deletions, Some(1));
}

#[test]
fn test_parse_unified_diff_rename() {
    let text = r#"diff --git a/old.rs b/new.rs
similarity index 100%
rename from old.rs
rename to new.rs
index abc..def 100644
--- a/old.rs
+++ b/new.rs
"#;
    let deltas = parse_unified_diff(text, false).unwrap();
    assert_eq!(deltas.len(), 1);
    let d = &deltas[0];
    assert_eq!(d.path, "new.rs");
    assert_eq!(d.old_path, "old.rs");
    assert_eq!(d.change_type, "renamed");
    assert_eq!(d.similarity, Some(100));
}

#[test]
fn test_parse_unified_diff_new_file() {
    let text = r#"diff --git a/new.rs b/new.rs
new file mode 100644
index 0000000..abc
--- /dev/null
+++ b/new.rs
@@ -0,0 +1,3 @@
+line1
+line2
+line3
"#;
    let deltas = parse_unified_diff(text, false).unwrap();
    assert_eq!(deltas.len(), 1);
    let d = &deltas[0];
    assert_eq!(d.path, "new.rs");
    assert_eq!(d.change_type, "added");
    assert_eq!(d.new_mode, Some("100644".to_string()));
    assert_eq!(d.insertions, Some(3));
}

#[test]
fn test_parse_unified_diff_deleted_file() {
    let text = r#"diff --git a/del.rs b/del.rs
deleted file mode 100644
index abc..0000000
--- a/del.rs
+++ /dev/null
@@ -1,3 +0,0 @@
-line1
-line2
-line3
"#;
    let deltas = parse_unified_diff(text, false).unwrap();
    assert_eq!(deltas.len(), 1);
    let d = &deltas[0];
    assert_eq!(d.path, "del.rs");
    assert_eq!(d.change_type, "deleted");
    assert_eq!(d.old_mode, Some("100644".to_string()));
    assert_eq!(d.deletions, Some(3));
}

#[test]
fn test_parse_unified_diff_stat_only() {
    let text = r#"diff --git a/src/main.rs b/src/main.rs
index abc..def 100644
--- a/src/main.rs
+++ b/src/main.rs
@@ -10,5 +10,7 @@
     let x = 1;
-    let y = 2;
+    let z = 3;
     context
"#;
    let deltas = parse_unified_diff(text, true).unwrap();
    assert_eq!(deltas.len(), 1);
    let d = &deltas[0];
    assert!(d.hunks.is_none());
    assert_eq!(d.insertions, Some(1));
    assert_eq!(d.deletions, Some(1));
}

#[test]
fn test_parse_porcelain_v1_z_simple() {
    let data = b" M README.md\0?? untracked.txt\0!! ignored.txt\0";
    let entries = parse_porcelain_v1_z(data).unwrap();
    assert_eq!(entries.len(), 3);

    assert_eq!(entries[0].path, "README.md");
    assert_eq!(entries[0].status, "modified");
    assert!(!entries[0].staged);
    assert!(entries[0].worktree);
    assert_eq!(entries[0].index_char, " ");
    assert_eq!(entries[0].worktree_char, "M");
    assert_eq!(entries[0].display, " M");
    assert_eq!(entries[0].state_description, "Modified in worktree");

    assert_eq!(entries[1].path, "untracked.txt");
    assert_eq!(entries[1].status, "untracked");
    assert_eq!(entries[1].index_char, "?");
    assert_eq!(entries[1].worktree_char, "?");
    assert_eq!(entries[1].state_description, "Untracked");

    assert_eq!(entries[2].path, "ignored.txt");
    assert_eq!(entries[2].status, "ignored");
    assert_eq!(entries[2].index_char, "!");
    assert_eq!(entries[2].worktree_char, "!");
    assert_eq!(entries[2].state_description, "Ignored");
}

#[test]
fn test_parse_porcelain_v1_z_rename() {
    let data = b"R  new.rs\0old.rs\0";
    let entries = parse_porcelain_v1_z(data).unwrap();
    assert_eq!(entries.len(), 1);
    assert_eq!(entries[0].path, "new.rs");
    assert_eq!(entries[0].old_path, Some("old.rs".to_string()));
    assert_eq!(entries[0].status, "renamed");
    assert!(entries[0].staged);
    assert!(!entries[0].worktree);
    assert_eq!(entries[0].index_char, "R");
    assert_eq!(entries[0].worktree_char, " ");
    assert_eq!(entries[0].state_description, "Renamed in index");
}

#[test]
fn test_parse_porcelain_v1_z_staged_and_worktree() {
    let data = b"AM file.rs\0";
    let entries = parse_porcelain_v1_z(data).unwrap();
    assert_eq!(entries.len(), 1);
    assert_eq!(entries[0].path, "file.rs");
    assert_eq!(entries[0].status, "modified");
    assert!(entries[0].staged);
    assert!(entries[0].worktree);
    assert_eq!(entries[0].state_description, "Added in index, modified in worktree");
}

#[test]
fn test_parse_porcelain_v1_z_unmerged() {
    let data = b"UU conflict.rs\0AU added_by_us.rs\0UA added_by_them.rs\0";
    let entries = parse_porcelain_v1_z(data).unwrap();
    assert_eq!(entries.len(), 3);

    assert_eq!(entries[0].path, "conflict.rs");
    assert_eq!(entries[0].status, "unmerged");
    assert_eq!(entries[0].index_char, "U");
    assert_eq!(entries[0].worktree_char, "U");
    assert!(entries[0].staged);
    assert!(entries[0].worktree);
    assert_eq!(entries[0].state_description, "Unmerged in index, unmerged in worktree");

    assert_eq!(entries[1].path, "added_by_us.rs");
    assert_eq!(entries[1].status, "unmerged");
    assert_eq!(entries[1].index_char, "A");
    assert_eq!(entries[1].worktree_char, "U");
    assert_eq!(entries[1].state_description, "Added in index, unmerged in worktree");

    assert_eq!(entries[2].path, "added_by_them.rs");
    assert_eq!(entries[2].status, "unmerged");
    assert_eq!(entries[2].index_char, "U");
    assert_eq!(entries[2].worktree_char, "A");
    assert_eq!(entries[2].state_description, "Unmerged in index, added in worktree");
}

#[test]
fn test_parse_porcelain_v1_z_type_changed() {
    let data = b"T  file.rs\0";
    let entries = parse_porcelain_v1_z(data).unwrap();
    assert_eq!(entries.len(), 1);
    assert_eq!(entries[0].path, "file.rs");
    assert_eq!(entries[0].status, "type_changed");
    assert_eq!(entries[0].index_char, "T");
    assert_eq!(entries[0].worktree_char, " ");
    assert!(entries[0].staged);
    assert!(!entries[0].worktree);
    assert_eq!(entries[0].state_description, "Type changed in index");
}

#[test]
fn changed_lines_compact_into_ranges() {
    assert_eq!(compact_line_ranges(&[1, 2, 3, 7, 9, 10]), vec![[1, 3], [7, 7], [9, 10]]);
    assert!(compact_line_ranges(&[]).is_empty());
}
