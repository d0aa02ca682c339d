use netflow_query_api::error::ApiError;

#[test]
fn each_error_has_its_status_code_and_message() {
    let cases = vec![
        (ApiError::Unauthorized, 401, "UNAUTHORIZED", "API key is missing or invalid"),
        (ApiError::forbidden("no".to_string()), 403, "FORBIDDEN", "no"),
        (ApiError::validation("bad".to_string()), 422, "VALIDATION_ERROR", "bad"),
        (ApiError::Database("secret".to_string()), 500, "DATABASE_ERROR", "database query failed"),
    ];
    for (err, status, code, message) in cases {
        assert_eq!(err.parts(), (status, code));
        let response = err.into_response();
        assert_eq!(response.status, status);
        assert_eq!(response.code, code);
        assert_eq!(response.message, message);
    }
}

#[test]
fn database_failures_are_answered_alike() {
    let a = ApiError::Database("password authentication failed".to_string()).into_response();
    let b = ApiError::Database("relation does not exist".to_string()).into_response();
    assert_eq!((a.status, a.code, a.message), (b.status, b.code, b.message));
}
