use ogent::websocket::{
    route_event, route_uninitialized, ClientEvent, InitAction, check_repo, scoped_session_key, session_settings, SessionRegistry};

#[test]
fn start_requires_directory_repo() {
    let err = check_repo("/definitely/not/a/repo", false, false).unwrap_err();
    assert!(err.contains("does not exist"));
}

#[test]
fn fork_resume_reject_temp() {
    let err = session_settings(true, Some(true), None, None, "ds-flash", 80, false).unwrap_err();
    assert!(err.contains("temp is only valid for start"));
}

#[test]
fn repo_that_is_a_file_is_refused() {
    assert_eq!(
        check_repo("/tmp/file", true, false).unwrap_err(),
        "repo path is not a directory: /tmp/file"
    );
    assert!(check_repo("/tmp", true, true).is_ok());
}

#[test]
fn start_settings_take_defaults_and_overrides() {
    let s = session_settings(false, None, None, None, "ds-flash", 80, true).unwrap();
    assert_eq!(s.profile_name, "ds-flash");
    assert_eq!(s.autocompact, 80);
    assert!(s.temp);
    let s = session_settings(true, None, None, Some(-1), "ds-flash", 80, true).unwrap();
    assert!(!s.temp);
    assert_eq!(s.autocompact, -1);
    let err = session_settings(false, None, Some("nope".to_string()), None, "ds-flash", 80, false)
        .unwrap_err();
    assert_eq!(err, "unknown profile: nope");
}

#[test]
fn registry_refuses_a_second_session_for_one_key() {
    let key = scoped_session_key("/repo", "abc");
    let mut reg = SessionRegistry::new();
    assert!(reg.register(key.as_str()));
    assert!(!reg.register(key.as_str()));
    reg.unregister(key.as_str());
    assert!(reg.register(key.as_str()));
}

#[test]
fn events_before_setup_are_refused_unless_they_set_up() {
    assert!(matches!(route_uninitialized(ClientEvent::Start), InitAction::Start));
    assert!(matches!(route_uninitialized(ClientEvent::Fork), InitAction::Fork));
    assert!(matches!(route_uninitialized(ClientEvent::Resume), InitAction::Resume));
    match route_uninitialized(ClientEvent::Message("hi".to_string())) {
        InitAction::Refuse { code, message } => {
            assert_eq!(code, "not_initialized");
            assert_eq!(message, "connection is not initialized; send start, fork, or resume first");
        }
        _ => panic!("expected a refusal"),
    }
}

#[test]
fn events_after_setup_steer_the_agent() {
    let (steer, exit, err) = route_event(ClientEvent::Start);
    assert!(steer.is_none() && !exit);
    assert_eq!(err.unwrap().0, "already_initialized");
    let (steer, exit, err) = route_event(ClientEvent::Exit);
    assert!(steer.is_some() && exit && err.is_none());
}
