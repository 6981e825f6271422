use ogent::tools::web::{clamp_num_results, default_num_results, ensure_exa_api_key_set};

#[test]
fn test_web_search_args_default_num_results() {
    assert_eq!(default_num_results(), 10);
}

#[test]
fn result_counts_are_clamped() {
    assert_eq!(clamp_num_results(0), 1);
    assert_eq!(clamp_num_results(7), 7);
    assert_eq!(clamp_num_results(500), 100);
    assert!(ensure_exa_api_key_set(Some("k")).is_ok());
    assert!(ensure_exa_api_key_set(None).is_err());
}
