use book_auth::exception::ApiError;

#[test]
fn unauthorized_is_401_with_uniform_body() {
    let e = ApiError::Unauthorized;
    assert_eq!(e.message(), "Unauthorized".to_string());
    assert_eq!(e.http_status(), 401);
    assert_eq!(e.error_code(), -1);
}

#[test]
fn internal_errors_are_500() {
    let e = ApiError::DbError("no such table".to_string());
    assert_eq!(e.message(), "Db error no such table".to_string());
    assert_eq!(e.http_status(), 500);
    assert_eq!(e.error_code(), -1);

    let e = ApiError::InvalidSize;
    assert_eq!(e.message(), "Invalid length".to_string());
    assert_eq!(e.http_status(), 500);
    assert_eq!(e.error_code(), -1);
}
