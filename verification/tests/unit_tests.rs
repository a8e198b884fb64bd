use gh_jobs_purge::{
    calculate_wait_seconds, check_for_secondary_rate_limit, is_valid_status, normalize_status,
    parse_and_validate_statuses, parse_run_ids, should_hibernate,
};

#[test]
fn test_parse_run_ids_empty() {
    let output = "";
    let result = parse_run_ids(output).unwrap();
    assert_eq!(result, Vec::<i64>::new());
}

#[test]
fn test_parse_run_ids_single() {
    let output = "12345\n";
    let result = parse_run_ids(output).unwrap();
    assert_eq!(result, vec![12345]);
}

#[test]
fn test_parse_run_ids_multiple() {
    let output = "12345\n67890\n11111\n";
    let result = parse_run_ids(output).unwrap();
    assert_eq!(result, vec![12345, 67890, 11111]);
}

#[test]
fn test_parse_run_ids_with_empty_lines() {
    let output = "12345\n\n67890\n\n";
    let result = parse_run_ids(output).unwrap();
    assert_eq!(result, vec![12345, 67890]);
}

#[test]
fn test_parse_run_ids_invalid_numbers() {
    let output = "12345\nabc\n67890\n";
    let result = parse_run_ids(output).unwrap();
    // Invalid lines are filtered out
    assert_eq!(result, vec![12345, 67890]);
}

#[test]
fn test_parse_run_ids_negative_numbers() {
    let output = "12345\n-67890\n11111\n";
    let result = parse_run_ids(output).unwrap();
    // Negative numbers are valid i64
    assert_eq!(result, vec![12345, -67890, 11111]);
}

#[test]
fn test_check_for_secondary_rate_limit_empty() {
    let errors: Vec<String> = vec![];
    assert!(!check_for_secondary_rate_limit(&errors));
}

#[test]
fn test_check_for_secondary_rate_limit_no_match() {
    let errors = vec![
        String::from("Some other error"),
        String::from("Network timeout"),
    ];
    assert!(!check_for_secondary_rate_limit(&errors));
}

#[test]
fn test_check_for_secondary_rate_limit_match_lowercase() {
    let errors = vec![
        String::from("Some other error"),
        String::from("Hit secondary rate limit"),
    ];
    assert!(check_for_secondary_rate_limit(&errors));
}

#[test]
fn test_check_for_secondary_rate_limit_match_uppercase() {
    let errors = vec![String::from("SECONDARY RATE LIMIT exceeded")];
    assert!(check_for_secondary_rate_limit(&errors));
}

#[test]
fn test_check_for_secondary_rate_limit_match_mixed_case() {
    let errors = vec![String::from("Error: Secondary Rate Limit reached")];
    assert!(check_for_secondary_rate_limit(&errors));
}

#[test]
fn test_calculate_wait_seconds_future() {
    let reset = 1000;
    let current = 500;
    assert_eq!(calculate_wait_seconds(reset, current), 500);
}

#[test]
fn test_calculate_wait_seconds_past() {
    let reset = 500;
    let current = 1000;
    // Should return 0, not negative
    assert_eq!(calculate_wait_seconds(reset, current), 0);
}

#[test]
fn test_calculate_wait_seconds_same_time() {
    let reset = 1000;
    let current = 1000;
    assert_eq!(calculate_wait_seconds(reset, current), 0);
}

#[test]
fn test_calculate_wait_seconds_large_difference() {
    let reset = i64::MAX;
    let current = 0;
    assert_eq!(calculate_wait_seconds(reset, current), i64::MAX);
}

#[test]
fn test_should_hibernate_below_threshold() {
    assert!(should_hibernate(49, 50));
    assert!(should_hibernate(0, 50));
    assert!(should_hibernate(1, 50));
}

#[test]
fn test_should_hibernate_at_threshold() {
    assert!(!should_hibernate(50, 50));
}

#[test]
fn test_should_hibernate_above_threshold() {
    assert!(!should_hibernate(51, 50));
    assert!(!should_hibernate(100, 50));
    assert!(!should_hibernate(5000, 50));
}

#[test]
fn test_should_hibernate_custom_threshold() {
    assert!(should_hibernate(99, 100));
    assert!(!should_hibernate(100, 100));
    assert!(!should_hibernate(101, 100));
}

#[test]
fn test_should_hibernate_negative_remaining() {
    // Edge case: negative remaining (shouldn't happen but handle gracefully)
    assert!(should_hibernate(-1, 50));
    assert!(should_hibernate(-100, 50));
}

#[test]
fn test_normalize_status_with_dashes() {
    assert_eq!(normalize_status("in-progress"), "in_progress");
    assert_eq!(normalize_status("timed-out"), "timed_out");
    assert_eq!(normalize_status("action-required"), "action_required");
}

#[test]
fn test_normalize_status_without_dashes() {
    assert_eq!(normalize_status("completed"), "completed");
    assert_eq!(normalize_status("success"), "success");
    assert_eq!(normalize_status("queued"), "queued");
}

#[test]
fn test_is_valid_status_runtime() {
    assert!(is_valid_status("queued"));
    assert!(is_valid_status("in_progress"));
    assert!(is_valid_status("requested"));
    assert!(is_valid_status("waiting"));
    assert!(is_valid_status("pending"));
}

#[test]
fn test_is_valid_status_conclusion() {
    assert!(is_valid_status("success"));
    assert!(is_valid_status("failure"));
    assert!(is_valid_status("cancelled"));
    assert!(is_valid_status("skipped"));
    assert!(is_valid_status("neutral"));
    assert!(is_valid_status("stale"));
    assert!(is_valid_status("timed_out"));
    assert!(is_valid_status("action_required"));
}

#[test]
fn test_is_valid_status_completed() {
    assert!(is_valid_status("completed"));
}

#[test]
fn test_is_valid_status_invalid() {
    assert!(!is_valid_status("invalid"));
    assert!(!is_valid_status("running"));
    assert!(!is_valid_status(""));
    assert!(!is_valid_status("COMPLETED"));
}

#[test]
fn test_parse_and_validate_statuses_single() {
    let result = parse_and_validate_statuses("completed").unwrap();
    assert_eq!(result, vec!["completed"]);
}

#[test]
fn test_parse_and_validate_statuses_multiple() {
    let result = parse_and_validate_statuses("success,failure,cancelled").unwrap();
    assert_eq!(result, vec!["success", "failure", "cancelled"]);
}

#[test]
fn test_parse_and_validate_statuses_with_dashes() {
    let result = parse_and_validate_statuses("in-progress,timed-out").unwrap();
    assert_eq!(result, vec!["in_progress", "timed_out"]);
}

#[test]
fn test_parse_and_validate_statuses_with_spaces() {
    let result = parse_and_validate_statuses("success, failure, cancelled").unwrap();
    assert_eq!(result, vec!["success", "failure", "cancelled"]);
}

#[test]
fn test_parse_and_validate_statuses_mixed() {
    let result = parse_and_validate_statuses("completed,queued,success,in-progress").unwrap();
    assert_eq!(result, vec![
        "completed",
        "queued",
        "success",
        "in_progress"
    ]);
}

#[test]
fn test_parse_and_validate_statuses_invalid() {
    assert!(parse_and_validate_statuses("invalid").is_err());
    assert!(parse_and_validate_statuses("success,invalid,failure").is_err());
    assert!(parse_and_validate_statuses("").is_err());
}

#[test]
fn test_parse_and_validate_statuses_all_runtime() {
    let result =
        parse_and_validate_statuses("queued,in-progress,requested,waiting,pending").unwrap();
    assert_eq!(result, vec![
        "queued",
        "in_progress",
        "requested",
        "waiting",
        "pending"
    ]);
}

#[test]
fn test_parse_and_validate_statuses_all_conclusion() {
    let result = parse_and_validate_statuses(
        "success,failure,cancelled,skipped,neutral,stale,timed-out,action-required",
    )
    .unwrap();
    assert_eq!(result, vec![
        "success",
        "failure",
        "cancelled",
        "skipped",
        "neutral",
        "stale",
        "timed_out",
        "action_required"
    ]);
}
