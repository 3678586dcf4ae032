use media_server::catalog::{Catalog, MediaRecord};
use media_server::dispatch::{playback_address, StreamDispatcher};
use media_server::errors::DispatchError;
use media_server::models::{MediaType, StreamRequest, StreamType};
use media_server::peers::PeerRegistry;
use media_server::range::RangePlan;

const T: i64 = 1_700_000_000;
const MEDIA: u128 = 0xa1a2a3a4_b1b2_c1c2_d1d2_d3d4d5d6d7d8;

fn catalog() -> Catalog {
    let mut c = Catalog::new();
    c.insert_media(MediaRecord {
        id: MEDIA,
        library_id: 1,
        title: "a.mp4".to_string(),
        file_path: "/lib/a.mp4".to_string(),
        media_type: MediaType::Video,
        created_at: 0,
        updated_at: 0,
    })
    .unwrap();
    c
}

fn request(media_id: u128, prefer_p2p: bool, seek_position: Option<u64>) -> StreamRequest {
    StreamRequest { media_id, profile_id: 9, seek_position, prefer_p2p }
}

#[test]
fn playback_address_is_hyphenated_uuid() {
    assert_eq!(playback_address(MEDIA), "/media/a1a2a3a4-b1b2-c1c2-d1d2-d3d4d5d6d7d8/stream");
    assert_eq!(playback_address(0), "/media/00000000-0000-0000-0000-000000000000/stream");
}

#[test]
fn prefer_p2p_without_fresh_peers_falls_back_to_http() {
    let c = catalog();
    let mut reg = PeerRegistry::new();
    reg.upsert_at("old", "10.0.0.1", 1, T - 3600, 1);
    let r = StreamDispatcher::dispatch_at(&c, &reg, &request(MEDIA, true, None), Some(1000), 8, T, 300)
        .unwrap();
    assert_eq!(r.stream_type, StreamType::HTTP);
    assert_eq!(r.url, "/media/a1a2a3a4-b1b2-c1c2-d1d2-d3d4d5d6d7d8/stream");
    assert!(r.p2p_peers.is_empty());
    assert_eq!(r.range, None);
    let empty = PeerRegistry::new();
    let r = StreamDispatcher::dispatch(&c, &empty, &request(MEDIA, true, None), Some(1000)).unwrap();
    assert_eq!(r.stream_type, StreamType::HTTP);
}

#[test]
fn prefer_p2p_with_fresh_peers_offers_them() {
    let c = catalog();
    let mut reg = PeerRegistry::new();
    reg.upsert_at("b", "10.0.0.2", 2, T - 5, 1);
    reg.upsert_at("a", "10.0.0.1", 1, T - 1, 2);
    reg.upsert_at("old", "10.0.0.3", 3, T - 3600, 3);
    let r = StreamDispatcher::dispatch_at(&c, &reg, &request(MEDIA, true, None), None, 8, T, 300)
        .unwrap();
    assert_eq!(r.stream_type, StreamType::P2P);
    assert_eq!(r.url, "");
    let offered: Vec<(String, String, u16, bool)> = r
        .p2p_peers
        .iter()
        .map(|p| (p.peer_id.clone(), p.ip_address.clone(), p.port, p.has_full_file))
        .collect();
    assert_eq!(
        offered,
        vec![
            ("a".to_string(), "10.0.0.1".to_string(), 1, false),
            ("b".to_string(), "10.0.0.2".to_string(), 2, false),
        ]
    );
}

#[test]
fn without_p2p_preference_http_is_used() {
    let c = catalog();
    let mut reg = PeerRegistry::new();
    reg.upsert_at("a", "10.0.0.1", 1, T, 1);
    let r = StreamDispatcher::dispatch_at(&c, &reg, &request(MEDIA, false, Some(250)), Some(1000), 8, T, 300)
        .unwrap();
    assert_eq!(r.stream_type, StreamType::HTTP);
    assert_eq!(r.range, Some(RangePlan { start: 250, end: 999, total_size: 1000, satisfiable: true }));
    let r = StreamDispatcher::dispatch_at(&c, &reg, &request(MEDIA, false, Some(5000)), Some(1000), 8, T, 300)
        .unwrap();
    assert_eq!(r.range.map(|p| p.satisfiable), Some(false));
}

#[test]
fn unknown_media_is_not_found() {
    let c = catalog();
    let reg = PeerRegistry::new();
    let r = StreamDispatcher::dispatch_at(&c, &reg, &request(5, true, None), Some(10), 8, T, 300);
    assert_eq!(r.err(), Some(DispatchError::NotFound));
}

#[test]
fn missing_file_is_io_error() {
    let c = catalog();
    let reg = PeerRegistry::new();
    let r = StreamDispatcher::dispatch_at(&c, &reg, &request(MEDIA, false, None), None, 8, T, 300);
    assert_eq!(r.err(), Some(DispatchError::IOError));
}
