use ogent::tools::shell::check_bash_cds;
use ogent::workspace::Workspace;

fn test_workspace(root: &str) -> Workspace {
    Workspace::from_root(root)
}

#[test]
fn shell_check_bash_cds_tracks_cwd_after_tmp_cd() {
    let ws = test_workspace("/tmp/demo");
    let err = check_bash_cds(&ws, "cd /tmp && cd ..").unwrap_err();
    assert!(err.message().contains("cd to .. is not allowed"));
}

#[test]
fn shell_check_bash_cds_allows_relative_tmp_child_after_tmp_cd() {
    let ws = test_workspace("/workspace/project");
    assert!(check_bash_cds(&ws, "cd /tmp && cd src").is_ok());
}

#[test]
fn shell_check_bash_cds_tracks_workspace_relative_cd_chain() {
    let ws = test_workspace("/workspace/project");
    assert!(check_bash_cds(&ws, "cd src && cd ..").is_ok());
    assert!(check_bash_cds(&ws, "cd src && cd ../..").is_err());
}

#[test]
fn shell_check_bash_cds_ignores_heredoc_body_examples() {
    let ws = test_workspace("/workspace/project");
    let command = "cat <<'EOF'\ncd /tmp && cd ..\nEOF";
    assert!(check_bash_cds(&ws, command).is_ok());
}

#[test]
fn shell_cd_home_forms_are_refused() {
    let ws = Workspace::from_root_with_home("/workspace/project", Some("/home/u".to_string()));
    assert!(check_bash_cds(&ws, "cd").is_err());
    assert!(check_bash_cds(&ws, "cd ~").is_err());
    assert!(check_bash_cds(&ws, "cd ~/x").is_err());
    assert!(check_bash_cds(&ws, "cd /etc").is_err());
    assert!(check_bash_cds(&ws, "ls; cd sub").is_ok());
}
