use ogent::client::{retry_delay_secs, should_retry, status_error, AgentError, ClientError};

#[test]
fn agent_error_displays_client_cause() {
    let err = AgentError::from(ClientError::RateLimited { body: "slow down".to_string() });
    assert_eq!(err.message(), "rate limited (429): slow down");
}

#[test]
fn statuses_map_to_client_errors() {
    assert!(status_error(200, "ok").is_none());
    match status_error(429, "  busy \n") {
        Some(ClientError::RateLimited { body }) => assert_eq!(body, "busy"),
        other => panic!("unexpected {:?}", other),
    }
    let e = status_error(503, "down").unwrap();
    assert_eq!(e.message(), "api error 503: down");
    assert!(e.is_retryable());
    assert!(!status_error(400, "bad").unwrap().is_retryable());
    assert_eq!(e.exit_code(), 5);
}

#[test]
fn retries_back_off_and_stop() {
    let e = ClientError::Http { connect: true, timeout: false };
    assert!(should_retry(1, &e));
    assert!(!should_retry(5, &e));
    assert!(!should_retry(1, &ClientError::BuildRequest));
    assert_eq!(retry_delay_secs(1), 1);
    assert_eq!(retry_delay_secs(2), 2);
    assert_eq!(retry_delay_secs(3), 4);
    assert_eq!(AgentError::Other("boom".to_string()).message(), "boom");
}

#[test]
fn agent_errors_map_to_exit_codes() {
    assert_eq!(AgentError::from(ClientError::RateLimited { body: String::new() }).exit_code(), 4);
    assert_eq!(AgentError::from(ClientError::Http { connect: true, timeout: false }).exit_code(), 6);
    assert_eq!(AgentError::Other("x".to_string()).exit_code(), 1);
}
