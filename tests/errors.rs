use media_server::errors::{AppError, MediaError};

#[test]
fn media_error_messages() {
    assert_eq!(MediaError::NotFound.message(), "Media file not found");
    assert_eq!(MediaError::InvalidFormat.message(), "Invalid media format");
    assert_eq!(MediaError::StreamingError("eof".to_string()).message(), "Streaming error: eof");
    assert_eq!(MediaError::P2PConnectionFailed.message(), "P2P connection failed");
}

#[test]
fn media_errors_become_app_errors() {
    assert_eq!(AppError::from_media_error(MediaError::NotFound), AppError::NotFound);
    assert_eq!(
        AppError::from_media_error(MediaError::InvalidFormat),
        AppError::InternalServerError("Invalid media format".to_string())
    );
    assert_eq!(
        AppError::from_media_error(MediaError::StreamingError("x".to_string())),
        AppError::InternalServerError("Streaming error: x".to_string())
    );
}

#[test]
fn app_error_statuses_and_bodies() {
    let cases = vec![
        (AppError::DatabaseError("relation missing at /var/db".to_string()), 500, "Database error occurred"),
        (AppError::ValidationError("bad path".to_string()), 400, "bad path"),
        (AppError::AuthenticationError, 401, "Authentication failed"),
        (AppError::AuthorizationError, 403, "Not authorized to perform this action"),
        (AppError::NotFound, 404, "Resource not found"),
        (AppError::InvalidPayload("eof".to_string()), 400, "Invalid request payload: eof"),
        (AppError::MediaStreamingError("m".to_string()), 500, "Media streaming error: m"),
        (AppError::InternalServerError("i".to_string()), 500, "Internal server error: i"),
    ];
    for (e, status, body) in cases {
        assert_eq!(e.status_code(), status);
        assert_eq!(e.body(), body);
    }
}
