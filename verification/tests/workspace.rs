use ogent::workspace::{normalize, Workspace, WorkspaceError};

fn ws() -> Workspace {
    Workspace::from_root_with_home("/work/repo", Some("/home/dev".to_string()))
}

#[test]
fn workspace_path_rejects_empty() {
    let ws = ws();
    assert!(ws.workspace_path("").is_err());
}

#[test]
fn workspace_path_accepts_relative_in_workspace() {
    let ws = ws();
    assert!(ws.workspace_path("src/main.rs").is_ok());
    assert!(ws.workspace_path("./src/main.rs").is_ok());
    assert!(ws.workspace_path(".").is_ok());
}

#[test]
fn workspace_path_rejects_outside_workspace() {
    let ws = ws();
    assert!(ws.workspace_path("/etc/passwd").is_err());
    assert!(ws.workspace_path("/tmp/foo").is_err());
}

#[test]
fn workspace_path_rejects_ogent_config() {
    let ws = ws();
    assert!(ws.workspace_path("~/.ogent/skills/test.md").is_err());
}

#[test]
fn readable_path_rejects_empty() {
    let ws = ws();
    assert!(ws.readable_path("").is_err());
}

#[test]
fn readable_path_accepts_relative_in_workspace() {
    let ws = ws();
    assert!(ws.readable_path("src/main.rs").is_ok());
}

#[test]
fn readable_path_rejects_outside_workspace_and_ogent() {
    let ws = ws();
    assert!(ws.readable_path("/etc/passwd").is_err());
    assert!(ws.readable_path("/tmp/foo").is_err());
}

#[test]
fn readable_path_accepts_ogent_config() {
    let ws = ws();
    assert!(ws.readable_path("~/.ogent/skills/test.md").is_ok());
}

#[test]
fn workspace_from_root_resolves_relative_paths_against_given_root() {
    let ws = Workspace::from_root("/tmp/example");
    let p = ws.workspace_path("dir/file.txt").unwrap();
    assert_eq!(p, "/tmp/example/dir/file.txt");
}

#[test]
fn normalize_collapses_dot_and_dotdot() {
    assert_eq!(normalize("/a/b/./c/../d"), "/a/b/d");
}

#[test]
fn normalize_leading_parent_dir_pops_nothing() {
    assert_eq!(normalize("../a/b"), "a/b");
}

#[test]
fn workspace_paths_resolve_and_report() {
    let ws = ws();
    assert_eq!(ws.root(), "/work/repo");
    assert_eq!(ws.workspace_path("a/../b/./c.txt").unwrap(), "/work/repo/b/c.txt");
    assert_eq!(ws.workspace_path("/work/repo/x").unwrap(), "/work/repo/x");
    assert_eq!(ws.readable_path("~/.ogent/skills/a.md").unwrap(), "/home/dev/.ogent/skills/a.md");
    match ws.workspace_path("/etc/passwd") {
        Err(e) => assert_eq!(e.message(), "path /etc/passwd is outside workspace /work/repo"),
        Ok(_) => panic!("expected an error"),
    }
    assert_eq!(WorkspaceError::Empty.message(), "path is required");
    assert!(ws.workspace_path("/work/repository").is_err());
    assert!(ws.workspace_path("../repo2/x").is_err());
}

#[test]
fn empty_root_holds_every_path() {
    let ws = Workspace::from_root(".");
    assert_eq!(ws.root(), "");
    assert_eq!(ws.workspace_path("/etc/passwd").unwrap(), "/etc/passwd");
    assert_eq!(ws.workspace_path("src/../lib.rs").unwrap(), "lib.rs");
    let ws = Workspace::from_root("/work");
    assert!(ws.workspace_path("/etc/passwd").is_err());
}
