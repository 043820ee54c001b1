use caldir_provider_proton::api::{
    check_api_response, endpoint_url, is_time_window_too_big, retry_delay_secs, ApiError,
    ApiReply, RequestState, RequestStep,
};

fn reply(status: u16, status_text: &str, code: Option<i64>, error: Option<&str>) -> ApiReply {
    ApiReply {
        status,
        status_text: status_text.to_string(),
        code,
        error: error.map(str::to_string),
        verification_methods: None,
        verification_url: None,
    }
}

#[test]
fn human_verification_is_actionable() {
    let mut value = reply(422, "422 Unprocessable Entity", Some(9001), Some("Human verification required"));
    value.verification_methods = Some("[\"captcha\"]".to_string());
    value.verification_url = Some("https://verify.example".to_string());
    let error = check_api_response(&value).unwrap_err();
    let message = error.message();
    assert!(message.contains("captcha"));
    assert!(message.contains("https://verify.example"));
}

#[test]
fn human_verification_defaults() {
    let value = reply(422, "422 Unprocessable Entity", Some(9001), None);
    let error = check_api_response(&value).unwrap_err();
    assert_eq!(
        error.message(),
        "Proton requires human verification (methods: unknown). Complete it at https://account.proton.me, then retry from the same network"
    );
}

#[test]
fn successful_replies_are_accepted() {
    assert!(check_api_response(&reply(200, "200 OK", Some(1000), None)).is_ok());
    assert!(check_api_response(&reply(200, "200 OK", Some(1001), None)).is_ok());
    assert!(check_api_response(&reply(204, "204 No Content", None, None)).is_ok());
    assert!(check_api_response(&reply(200, "200 OK", Some(0), None)).is_ok());
}

#[test]
fn rejections_are_reported_by_code() {
    let error = check_api_response(&reply(422, "422 Unprocessable Entity", Some(8002), None)).unwrap_err();
    assert!(matches!(error, ApiError::BadCredentials));
    assert_eq!(error.message(), "Proton rejected the username or password");
    let error = check_api_response(&reply(401, "401 Unauthorized", Some(10013), None)).unwrap_err();
    assert!(matches!(error, ApiError::SessionExpired));
    assert_eq!(error.message(), "Proton session expired; run `caldir connect proton` again");
    let error = check_api_response(&reply(500, "500 Internal Server Error", None, None)).unwrap_err();
    assert_eq!(
        error.message(),
        "Proton API error 0 (HTTP 500 Internal Server Error): unknown Proton API error"
    );
    let error = check_api_response(&reply(200, "200 OK", Some(2001), Some("Invalid input"))).unwrap_err();
    assert_eq!(error.message(), "Proton API error 2001 (HTTP 200 OK): Invalid input");
    let error = check_api_response(&reply(400, "400 Bad Request", Some(-3), Some("odd"))).unwrap_err();
    assert_eq!(error.message(), "Proton API error -3 (HTTP 400 Bad Request): odd");
}

#[test]
fn retry_delay_is_capped_and_defaults_to_one_second() {
    assert_eq!(retry_delay_secs(None), 1);
    assert_eq!(retry_delay_secs(Some("5")), 5);
    assert_eq!(retry_delay_secs(Some("0")), 0);
    assert_eq!(retry_delay_secs(Some("120")), 30);
    assert_eq!(retry_delay_secs(Some("soon")), 1);
    assert_eq!(retry_delay_secs(Some("")), 1);
    assert_eq!(retry_delay_secs(Some("99999999999999999999999")), 1);
}

#[test]
fn a_request_is_sent_at_most_three_times() {
    let mut state = RequestState::new();
    assert_eq!(state.next_step(401, None), RequestStep::Refresh);
    assert_eq!(state.next_step(401, None), RequestStep::Finish);
    let mut state = RequestState::new();
    assert_eq!(state.next_step(429, Some("7")), RequestStep::Wait { seconds: 7 });
    assert_eq!(state.next_step(401, None), RequestStep::Refresh);
    assert_eq!(state.next_step(429, Some("7")), RequestStep::Finish);
    let mut state = RequestState::new();
    assert_eq!(state.next_step(200, None), RequestStep::Finish);
    assert!(!state.refreshed && !state.rate_limited);
}

#[test]
fn endpoint_urls_drop_trailing_slashes() {
    assert_eq!(endpoint_url("https://mail.proton.me/api", "/core/v4/users"), "https://mail.proton.me/api/core/v4/users");
    assert_eq!(endpoint_url("https://mail.proton.me/api//", "/auth/v4/refresh"), "https://mail.proton.me/api/auth/v4/refresh");
    assert_eq!(endpoint_url("", "/x"), "/x");
}

#[test]
fn window_rejections_are_recognised() {
    let too_big = ApiError::Rejected {
        code: 2001,
        status_text: "422 Unprocessable Entity".to_string(),
        message: "Time window too big".to_string(),
    };
    assert!(is_time_window_too_big(&too_big));
    let other = ApiError::Rejected {
        code: 2001,
        status_text: "422 Unprocessable Entity".to_string(),
        message: "Invalid input".to_string(),
    };
    assert!(!is_time_window_too_big(&other));
    assert!(!is_time_window_too_big(&ApiError::SessionExpired));
}
