use ogent::session::{
    session_file_in, ensure_valid_session_id, session_lines, format_session_id, SessionError,
};
use ogent::workspace::Workspace;

#[test]
fn workspace_scoped_paths_use_workspace_root() {
    let ws = Workspace::from_root("/tmp/ogent-session-test");
    assert_eq!(
        session_file_in(&ws, "abc"),
        "/tmp/ogent-session-test/.ogent/sessions/abc.jsonl"
    );
}

#[test]
fn load_session_rejects_path_like_id() {
    let err = ensure_valid_session_id("../outside").unwrap_err();
    assert!(err.message().contains("invalid session id"));
    assert!(matches!(err, SessionError::InvalidId { .. }));
}

#[test]
fn session_ids_allow_letters_digits_and_dashes() {
    assert!(ensure_valid_session_id("abc-123-DEF").is_ok());
    assert!(ensure_valid_session_id("").is_err());
    assert!(ensure_valid_session_id("a b").is_err());
}

#[test]
fn session_lines_skip_blank_lines_keeping_numbers() {
    let lines = session_lines("{\"a\":1}\n\n  \n{\"b\":2}\n");
    assert_eq!(lines, vec![(1, "{\"a\":1}".to_string()), (4, "{\"b\":2}".to_string())]);
}

#[test]
fn session_id_format() {
    assert_eq!(format_session_id(1700000000, 42, 255, 0), "1700000000-002a-ff-0");
    assert_eq!(format_session_id(5, 0x12345, 16, 17), "5-12345-10-11");
}

#[test]
fn generate_session_id_is_unique_in_process() {
    let a = format_session_id(1700000000, 42, 255, 0);
    let b = format_session_id(1700000000, 42, 255, 1);
    assert_ne!(a, b);
}
