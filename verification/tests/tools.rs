use ogent::tools::shell::check_bash_cds;
use ogent::tools::require_nonempty;
use ogent::workspace::Workspace;

fn test_workspace(root: &str) -> Workspace {
    Workspace::from_root(root)
}

#[test]
fn tools_check_bash_cds_tracks_cwd_after_tmp_cd() {
    let ws = test_workspace("/tmp/demo");
    let err = check_bash_cds(&ws, "cd /tmp && cd ..").unwrap_err();
    assert!(err.message().contains("cd to .. is not allowed"));
}

#[test]
fn tools_check_bash_cds_allows_relative_tmp_child_after_tmp_cd() {
    let ws = test_workspace("/workspace/project");
    assert!(check_bash_cds(&ws, "cd /tmp && cd src").is_ok());
}

#[test]
fn tools_check_bash_cds_tracks_workspace_relative_cd_chain() {
    let ws = test_workspace("/workspace/project");
    assert!(check_bash_cds(&ws, "cd src && cd ..").is_ok());
    assert!(check_bash_cds(&ws, "cd src && cd ../..").is_err());
}

#[test]
fn tools_check_bash_cds_ignores_heredoc_body_examples() {
    let ws = test_workspace("/workspace/project");
    let command = "cat <<'EOF'\ncd /tmp && cd ..\nEOF";
    assert!(check_bash_cds(&ws, command).is_ok());
}

#[test]
fn require_nonempty_names_the_argument() {
    assert!(require_nonempty("x", "path").is_ok());
    assert_eq!(require_nonempty("  ", "path").unwrap_err().message, "path is required");
}

#[test]
fn agent_tools_includes_expected() {
    let tools = ogent::tools::agent_tools();
    let names: Vec<_> = tools.iter().map(|t| t.function.name.as_str()).collect();
    assert_eq!(names.len(), 2);
    assert!(names.contains(&"exec"));
    assert!(names.contains(&"eval"));
    let schema: serde_json::Value = serde_json::from_str(&tools[0].function.parameters).unwrap();
    assert_eq!(schema["required"][0], "code");
    assert_eq!(tools[1].kind, "function");
}
