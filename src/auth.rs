//! The payloads of the account endpoints. Authentication itself is done
//! outside this library; these are the values it exchanges.

use vstd::prelude::*;

verus! {

pub struct RegisterRequest {
    pub email: String,
    pub password: String,
    pub name: String,
    pub phone: Option<String>,
    pub pin: Option<String>,
    pub use_pin: Option<bool>,
}

pub struct LoginRequest {
    pub email: String,
    pub password: String,
}

/// The tokens handed out at login; `expires_in` is in seconds.
pub struct AuthResponse {
    pub access_token: String,
    pub refresh_token: String,
    pub expires_in: i64,
    pub token_type: String,
    pub scope: String,
}

pub struct ForgotPasswordRequest {
    pub email: String,
}

pub struct ResetPasswordRequest {
    pub token: String,
    pub new_password: String,
}

pub struct SetPinRequest {
    pub pin: String,
}

pub struct ForgotPinRequest {
    pub email: String,
}

pub struct ResetPinRequest {
    pub token: String,
    pub new_pin: String,
}

pub struct UpdateProfileRequest {
    pub name: Option<String>,
    pub email: Option<String>,
    pub phone: Option<String>,
    pub avatar: Option<String>,
}

pub struct AddChildProfileRequest {
    pub name: String,
}

} // verus!
