use file_serve::errors::ServeError;

#[test]
fn status_codes_follow_the_taxonomy() {
    assert_eq!(ServeError::InvalidRequestPath.status_code(), 400);
    assert_eq!(ServeError::TraversalRejected.status_code(), 403);
    assert_eq!(ServeError::NotFound.status_code(), 404);
    assert_eq!(ServeError::IoFailure.status_code(), 500);
}

#[test]
fn messages_are_short_and_user_safe() {
    assert_eq!(ServeError::InvalidRequestPath.message(), "Invalid file path");
    assert_eq!(ServeError::TraversalRejected.message(), "Access denied");
    assert_eq!(ServeError::NotFound.message(), "File not found");
    assert_eq!(ServeError::IoFailure.message(), "Internal server error");
}
