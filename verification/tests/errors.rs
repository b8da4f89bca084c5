use aisix::types::{error_type, ErrorKind, GatewayError};

#[test]
fn maps_too_many_requests_to_rate_limit_error() {
    assert_eq!(error_type(429), "rate_limit_error");
}

#[test]
fn status_codes_follow_error_kinds() {
    let cases = [
        (ErrorKind::Authentication, 401),
        (ErrorKind::Permission, 403),
        (ErrorKind::NotFound, 404),
        (ErrorKind::InvalidRequest, 400),
        (ErrorKind::RateLimited, 429),
        (ErrorKind::Timeout, 504),
        (ErrorKind::Upstream, 502),
        (ErrorKind::Internal, 500),
    ];
    for (kind, status) in cases {
        let error = GatewayError::new(kind, "x".to_string());
        assert_eq!(error.status_code(), status);
    }
}

#[test]
fn error_types_cover_client_and_server_errors() {
    assert_eq!(error_type(401), "authentication_error");
    assert_eq!(error_type(403), "permission_error");
    assert_eq!(error_type(404), "invalid_request_error");
    assert_eq!(error_type(400), "invalid_request_error");
    assert_eq!(error_type(502), "server_error");
}

#[test]
fn openai_error_body_carries_message_and_type() {
    let error = GatewayError::new(ErrorKind::Permission, "nope".to_string());
    let response = error.to_openai_response();
    assert_eq!(response.error.message, "nope");
    assert_eq!(response.error.error_type, "permission_error");
}
