//! The errors of the media services.

use vstd::prelude::*;
use crate::catalog::StoreError;

verus! {

/// What can go wrong while serving media.
#[derive(Clone, Debug, PartialEq, Eq)]
pub enum MediaError {
    NotFound,
    InvalidFormat,
    StreamingError(String),
    P2PConnectionFailed,
}

/// A synchronisation stopped by the catalog store; what it committed
/// before stays committed.
#[derive(Clone, Copy, Debug, PartialEq, Eq, Structural)]
pub enum SyncError {
    Store(StoreError),
}

/// Why a playback request could not be dispatched.
#[derive(Clone, Copy, Debug, PartialEq, Eq, Structural)]
pub enum DispatchError {
    /// No media has the requested id.
    NotFound,
    /// The catalogued file is not on disk: the catalog needs a new scan.
    IOError,
}

/// The message of a media error.
pub open spec fn media_error_text(e: MediaError) -> Seq<char> {
    match e {
        MediaError::NotFound => "Media file not found"@,
        MediaError::InvalidFormat => "Invalid media format"@,
        MediaError::StreamingError(m) => "Streaming error: "@ + m@,
        MediaError::P2PConnectionFailed => "P2P connection failed"@,
    }
}

impl MediaError {
    /// The message of the error.
    pub fn message(&self) -> (r: String)
        ensures
            r@ == media_error_text(*self),
    {
        match self {
            MediaError::NotFound => String::from_str("Media file not found"),
            MediaError::InvalidFormat => String::from_str("Invalid media format"),
            MediaError::StreamingError(m) => String::from_str("Streaming error: ").concat(
                m.as_str(),
            ),
            MediaError::P2PConnectionFailed => String::from_str("P2P connection failed"),
        }
    }
}

/// An error as the HTTP surface reports it. `DatabaseError` carries the
/// store's own description, which is never shown to the client.
#[derive(Clone, Debug, PartialEq, Eq)]
pub enum AppError {
    DatabaseError(String),
    ValidationError(String),
    AuthenticationError,
    AuthorizationError,
    NotFound,
    InvalidPayload(String),
    MediaStreamingError(String),
    InternalServerError(String),
}

/// The HTTP status of an error.
pub open spec fn status_of(e: AppError) -> u16 {
    match e {
        AppError::ValidationError(_) | AppError::InvalidPayload(_) => 400,
        AppError::AuthenticationError => 401,
        AppError::AuthorizationError => 403,
        AppError::NotFound => 404,
        AppError::DatabaseError(_) | AppError::MediaStreamingError(_)
        | AppError::InternalServerError(_) => 500,
    }
}

/// The body sent with an error.
pub open spec fn body_of(e: AppError) -> Seq<char> {
    match e {
        AppError::DatabaseError(_) => "Database error occurred"@,
        AppError::ValidationError(m) => m@,
        AppError::AuthenticationError => "Authentication failed"@,
        AppError::AuthorizationError => "Not authorized to perform this action"@,
        AppError::NotFound => "Resource not found"@,
        AppError::InvalidPayload(m) => "Invalid request payload: "@ + m@,
        AppError::MediaStreamingError(m) => "Media streaming error: "@ + m@,
        AppError::InternalServerError(m) => "Internal server error: "@ + m@,
    }
}

impl AppError {
    /// The HTTP status of the error: 400 for a bad request, 401 and 403 for
    /// failed authentication and authorization, 404 for a missing resource,
    /// 500 for the rest.
    pub fn status_code(&self) -> (r: u16)
        ensures
            r == status_of(*self),
    {
        match self {
            AppError::ValidationError(_) | AppError::InvalidPayload(_) => 400,
            AppError::AuthenticationError => 401,
            AppError::AuthorizationError => 403,
            AppError::NotFound => 404,
            AppError::DatabaseError(_) | AppError::MediaStreamingError(_)
            | AppError::InternalServerError(_) => 500,
        }
    }

    /// The body sent with the error; a store failure is not described.
    pub fn body(&self) -> (r: String)
        ensures
            r@ == body_of(*self),
    {
        match self {
            AppError::DatabaseError(_) => String::from_str("Database error occurred"),
            AppError::ValidationError(m) => m.clone(),
            AppError::AuthenticationError => String::from_str("Authentication failed"),
            AppError::AuthorizationError => String::from_str(
                "Not authorized to perform this action",
            ),
            AppError::NotFound => String::from_str("Resource not found"),
            AppError::InvalidPayload(m) => String::from_str("Invalid request payload: ").concat(
                m.as_str(),
            ),
            AppError::MediaStreamingError(m) => String::from_str("Media streaming error: ").concat(
                m.as_str(),
            ),
            AppError::InternalServerError(m) => String::from_str("Internal server error: ").concat(
                m.as_str(),
            ),
        }
    }
}

impl AppError {
    /// How a media error is reported: a missing file as `NotFound`, any
    /// other as an internal error carrying its message.
    pub fn from_media_error(error: MediaError) -> (r: AppError)
        ensures
            error == MediaError::NotFound ==> r == AppError::NotFound,
            error != MediaError::NotFound ==> (r matches AppError::InternalServerError(m) && m@
                == media_error_text(error)),
    {
        match error {
            MediaError::NotFound => AppError::NotFound,
            _ => AppError::InternalServerError(error.message()),
        }
    }
}

} // verus!
