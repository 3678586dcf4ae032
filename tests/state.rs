use media_server::state::AppState;

#[test]
fn settings_defaults() {
    let s = AppState::new(None, None, None, None, None);
    assert_eq!(s.jwt_secret, "default_jwt_secret");
    assert_eq!(s.media_root, "/media");
    assert!(!s.allow_register && !s.allow_anonymous && !s.allow_peer_to_peer);
}

#[test]
fn settings_switches_need_exactly_true() {
    let s = AppState::new(
        Some("k".to_string()),
        Some("/srv/media".to_string()),
        Some("true".to_string()),
        Some("TRUE".to_string()),
        Some("yes".to_string()),
    );
    assert_eq!(s.jwt_secret, "k");
    assert_eq!(s.media_root, "/srv/media");
    assert!(s.allow_register);
    assert!(!s.allow_anonymous);
    assert!(!s.allow_peer_to_peer);
}
