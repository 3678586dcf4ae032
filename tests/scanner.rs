use media_server::catalog::{Catalog, MediaRecord, StoreError};
use media_server::errors::SyncError;
use media_server::models::MediaType;
use media_server::scanner::MediaScanner;

const LIB: u128 = 1;

fn strings(v: &[&str]) -> Vec<String> {
    v.iter().map(|s| s.to_string()).collect()
}

fn rows(c: &Catalog) -> Vec<(u128, u128, String, String, MediaType, i64)> {
    (0..c.len())
        .map(|i| {
            let r = c.get(i);
            (r.id, r.library_id, r.title.clone(), r.file_path.clone(), r.media_type, r.created_at)
        })
        .collect()
}

fn record(id: u128, library_id: u128, path: &str, kind: MediaType) -> MediaRecord {
    MediaRecord {
        id,
        library_id,
        title: path.to_string(),
        file_path: path.to_string(),
        media_type: kind,
        created_at: 0,
        updated_at: 0,
    }
}

#[test]
fn sync_catalogs_only_media() {
    let mut c = Catalog::new();
    let walked = strings(&["/lib/a.mp4", "/lib/b.txt", "/lib/c.mp3"]);
    let r = MediaScanner::scan_library_with(&mut c, LIB, &walked, &walked, &vec![10, 11, 12], 500);
    assert_eq!(r, Ok(()));
    assert_eq!(
        rows(&c),
        vec![
            (10, LIB, "a.mp4".to_string(), "/lib/a.mp4".to_string(), MediaType::Video, 500),
            (12, LIB, "c.mp3".to_string(), "/lib/c.mp3".to_string(), MediaType::Audio, 500),
        ]
    );
    assert!(c.find_by_path(LIB, "/lib/b.txt").is_none());
}

#[test]
fn sync_twice_changes_nothing() {
    let mut c = Catalog::new();
    let walked = strings(&["/lib/a.mp4", "/lib/sub/x.png", "/lib/b.txt", "/lib/c.mp3"]);
    MediaScanner::scan_library_with(&mut c, LIB, &walked, &walked, &vec![1, 2, 3, 4], 100).unwrap();
    let first = rows(&c);
    MediaScanner::scan_library_with(&mut c, LIB, &walked, &walked, &vec![5, 6, 7, 8], 200).unwrap();
    assert_eq!(rows(&c), first);
    MediaScanner::scan_library(&mut c, LIB, &walked, &walked).unwrap();
    assert_eq!(rows(&c), first);
}

#[test]
fn deleted_file_loses_its_record_and_comes_back_new() {
    let mut c = Catalog::new();
    let both = strings(&["/lib/a.mp4", "/lib/c.mp3"]);
    MediaScanner::scan_library_with(&mut c, LIB, &both, &both, &vec![1, 2], 100).unwrap();
    // a.mp4 is deleted from disk.
    let only_c = strings(&["/lib/c.mp3"]);
    MediaScanner::scan_library_with(&mut c, LIB, &only_c, &only_c, &vec![3], 200).unwrap();
    assert!(c.find_by_path(LIB, "/lib/a.mp4").is_none());
    assert!(c.find_media(1).is_none());
    assert_eq!(c.len(), 1);
    // It is created again at the same path.
    MediaScanner::scan_library_with(&mut c, LIB, &both, &both, &vec![4, 5], 300).unwrap();
    let i = c.find_by_path(LIB, "/lib/a.mp4").unwrap();
    assert_eq!(c.get(i).id, 4);
    assert_eq!(c.get(i).created_at, 300);
    assert_eq!(c.len(), 2);
}

#[test]
fn recreated_file_gets_new_random_id() {
    let mut c = Catalog::new();
    let a = strings(&["/lib/a.mp4"]);
    let none: Vec<String> = Vec::new();
    MediaScanner::scan_library(&mut c, LIB, &a, &a).unwrap();
    let old_id = c.get(0).id;
    assert!(c.get(0).created_at > 1_600_000_000);
    MediaScanner::scan_library(&mut c, LIB, &none, &none).unwrap();
    assert_eq!(c.len(), 0);
    MediaScanner::scan_library(&mut c, LIB, &a, &a).unwrap();
    assert_eq!(c.len(), 1);
    assert_ne!(c.get(0).id, old_id);
}

#[test]
fn orphan_pass_leaves_other_libraries_alone() {
    let mut c = Catalog::new();
    c.insert_media(record(1, 2, "/other/x.mp4", MediaType::Video)).unwrap();
    c.insert_media(record(2, LIB, "/lib/gone.mp4", MediaType::Video)).unwrap();
    c.insert_media(record(3, LIB, "/lib/kept.mp4", MediaType::Video)).unwrap();
    MediaScanner::clean_orphaned_media(&mut c, LIB, &strings(&["/lib/kept.mp4"]));
    let ids: Vec<u128> = rows(&c).iter().map(|r| r.0).collect();
    assert_eq!(ids, vec![1, 3]);
}

#[test]
fn store_refusal_stops_the_scan() {
    let mut c = Catalog::new();
    c.insert_media(record(7, 2, "/other/x.mp4", MediaType::Video)).unwrap();
    let walked = strings(&["/lib/a.mp4", "/lib/b.mp4", "/lib/c.mp4"]);
    let r = MediaScanner::scan_library_with(&mut c, LIB, &walked, &walked, &vec![1, 7, 3], 100);
    assert_eq!(r, Err(SyncError::Store(StoreError::DuplicateId)));
    // What was done before the refusal stays.
    let ids: Vec<u128> = rows(&c).iter().map(|r| r.0).collect();
    assert_eq!(ids, vec![7, 1]);
}

#[test]
fn process_media_file_inserts_once() {
    let mut c = Catalog::new();
    assert_eq!(MediaScanner::process_media_file(&mut c, LIB, "/lib/a.gif", 1, 5), Ok(()));
    assert_eq!(MediaScanner::process_media_file(&mut c, LIB, "/lib/a.gif", 2, 6), Ok(()));
    assert_eq!(MediaScanner::process_media_file(&mut c, LIB, "/lib/a.doc", 3, 6), Ok(()));
    assert_eq!(rows(&c), vec![(1, LIB, "a.gif".to_string(), "/lib/a.gif".to_string(), MediaType::Image, 5)]);
}

#[test]
fn catalog_enforces_uniqueness() {
    let mut c = Catalog::new();
    assert_eq!(c.insert_media(record(1, LIB, "/lib/a.mp4", MediaType::Video)), Ok(()));
    assert_eq!(
        c.insert_media(record(1, LIB, "/lib/b.mp4", MediaType::Video)),
        Err(StoreError::DuplicateId)
    );
    assert_eq!(
        c.insert_media(record(2, LIB, "/lib/a.mp4", MediaType::Video)),
        Err(StoreError::DuplicatePath)
    );
    assert_eq!(c.insert_media(record(2, 9, "/lib/a.mp4", MediaType::Video)), Ok(()));
    assert_eq!(c.list_media(LIB).len(), 1);
    assert!(c.delete_media(1));
    assert!(!c.delete_media(1));
    assert_eq!(c.len(), 1);
    assert_eq!(c.get(0).id, 2);
}
