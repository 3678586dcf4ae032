//! The server's settings, from the values of its configuration variables.

use vstd::prelude::*;

verus! {

/// The settings that the request handlers share.
pub struct AppState {
    pub jwt_secret: String,
    pub media_root: String,
    pub allow_register: bool,
    pub allow_anonymous: bool,
    pub allow_peer_to_peer: bool,
}

/// A switch is on only when its variable is set to exactly `true`.
pub open spec fn switch_on(value: Option<Seq<char>>) -> bool {
    value == Some("true"@)
}

pub open spec fn view_opt(value: Option<String>) -> Option<Seq<char>> {
    match value {
        Some(v) => Some(v@),
        None => None,
    }
}

fn switch(value: &Option<String>) -> (r: bool)
    ensures
        r == switch_on(view_opt(*value)),
{
    match value {
        Some(v) => v.eq(&String::from_str("true")),
        None => false,
    }
}

impl AppState {
    /// The settings from the configuration values, each `None` where its
    /// variable is unset: the secret defaults to `default_jwt_secret`, the
    /// media root to `/media`, and each switch is on only when set to `true`.
    pub fn new(
        jwt_secret: Option<String>,
        media_root: Option<String>,
        allow_register: Option<String>,
        allow_anonymous: Option<String>,
        allow_peer_to_peer: Option<String>,
    ) -> (r: AppState)
        ensures
            r.jwt_secret@ == match jwt_secret {
                Some(s) => s@,
                None => "default_jwt_secret"@,
            },
            r.media_root@ == match media_root {
                Some(m) => m@,
                None => "/media"@,
            },
            r.allow_register == switch_on(view_opt(allow_register)),
            r.allow_anonymous == switch_on(view_opt(allow_anonymous)),
            r.allow_peer_to_peer == switch_on(view_opt(allow_peer_to_peer)),
    {
        let allow_register = switch(&allow_register);
        let allow_anonymous = switch(&allow_anonymous);
        let allow_peer_to_peer = switch(&allow_peer_to_peer);
        let jwt_secret = match jwt_secret {
            Some(s) => s,
            None => String::from_str("default_jwt_secret"),
        };
        let media_root = match media_root {
            Some(m) => m,
            None => String::from_str("/media"),
        };
        AppState { jwt_secret, media_root, allow_register, allow_anonymous, allow_peer_to_peer }
    }
}

} // verus!
