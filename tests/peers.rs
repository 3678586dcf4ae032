use media_server::peers::{PeerRegistry, DEFAULT_FRESHNESS_SECS};

const T: i64 = 1_700_000_000;

fn ids(r: &[media_server::peers::Peer]) -> Vec<String> {
    r.iter().map(|p| p.peer_id.clone()).collect()
}

#[test]
fn heartbeat_keeps_peer_fresh_for_five_minutes() {
    let mut reg = PeerRegistry::new();
    reg.upsert_at("alpha", "10.0.0.1", 4000, T, 1);
    let at4 = reg.candidates_at(0, 10, T + 240, DEFAULT_FRESHNESS_SECS);
    assert_eq!(ids(&at4), vec!["alpha".to_string()]);
    let at6 = reg.candidates_at(0, 10, T + 360, DEFAULT_FRESHNESS_SECS);
    assert!(at6.is_empty());
}

#[test]
fn upsert_is_idempotent_on_peer_id() {
    let mut reg = PeerRegistry::new();
    reg.upsert_at("alpha", "10.0.0.1", 4000, T, 1);
    reg.upsert_at("alpha", "10.0.0.2", 4001, T + 10, 2);
    assert_eq!(reg.len(), 1);
    let p = reg.get(0);
    assert_eq!((p.id, p.ip_address.as_str(), p.port, p.last_seen), (1, "10.0.0.2", 4001, T + 10));
}

#[test]
fn candidates_order_and_limit() {
    let mut reg = PeerRegistry::new();
    reg.upsert_at("delta", "d", 1, T - 100, 1);
    reg.upsert_at("bravo", "b", 1, T - 10, 2);
    reg.upsert_at("alpha", "a", 1, T - 10, 3);
    reg.upsert_at("stale", "s", 1, T - 1000, 4);
    reg.upsert_at("carol", "c", 1, T, 5);
    let all = reg.candidates_at(0, 10, T, 300);
    assert_eq!(ids(&all), vec!["carol", "alpha", "bravo", "delta"]);
    let two = reg.candidates_at(0, 2, T, 300);
    assert_eq!(ids(&two), vec!["carol", "alpha"]);
    assert!(reg.candidates_at(0, 0, T, 300).is_empty());
}

#[test]
fn window_edge_is_inclusive() {
    let mut reg = PeerRegistry::new();
    reg.upsert_at("p", "x", 1, T, 1);
    assert_eq!(reg.candidates_at(0, 5, T + 300, 300).len(), 1);
    assert_eq!(reg.candidates_at(0, 5, T + 301, 300).len(), 0);
}

#[test]
fn upsert_now_makes_a_current_candidate() {
    let mut reg = PeerRegistry::new();
    reg.upsert("live", "10.1.1.1", 9000);
    reg.upsert("live", "10.1.1.1", 9000);
    assert_eq!(reg.len(), 1);
    let c = reg.candidates(42, 4);
    assert_eq!(ids(&c), vec!["live".to_string()]);
}
