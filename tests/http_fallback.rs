use media_server::http_fallback::HttpStreamer;
use media_server::models::MediaType;
use media_server::range::RangePlan;

fn bytes(n: usize) -> Vec<u8> {
    (0..n).map(|i| (i % 251) as u8).collect()
}

#[test]
fn whole_file_without_header() {
    let data = bytes(1000);
    let r = HttpStreamer::stream_file(&data, MediaType::Video, None);
    assert_eq!(r.status, 200);
    assert_eq!(r.body, data);
    assert_eq!(r.content_type, "video/mp4");
    assert_eq!(r.content_range, None);
}

#[test]
fn partial_content_for_a_range() {
    let data = bytes(1000);
    let r = HttpStreamer::stream_file(&data, MediaType::Audio, Some("bytes=500-600"));
    assert_eq!(r.status, 206);
    assert_eq!(r.body, data[500..=600].to_vec());
    assert_eq!(r.content_type, "audio/mpeg");
    assert_eq!(r.content_range.as_deref(), Some("bytes 500-600/1000"));
    let r = HttpStreamer::stream_file(&data, MediaType::Audio, Some("bytes=990-"));
    assert_eq!(r.body, data[990..].to_vec());
    assert_eq!(r.content_range.as_deref(), Some("bytes 990-999/1000"));
}

#[test]
fn range_end_past_file_sends_what_exists() {
    let data = bytes(100);
    let r = HttpStreamer::stream_file(&data, MediaType::Image, Some("bytes=90-500"));
    assert_eq!(r.status, 206);
    assert_eq!(r.body, data[90..].to_vec());
    assert_eq!(r.content_range.as_deref(), Some("bytes 90-99/100"));
    assert_eq!(r.content_type, "application/octet-stream");
}

#[test]
fn unsatisfiable_range_is_416() {
    let data = bytes(1000);
    let r = HttpStreamer::stream_file(&data, MediaType::Video, Some("bytes=1000-2000"));
    assert_eq!(r.status, 416);
    assert!(r.body.is_empty());
    assert_eq!(r.content_range.as_deref(), Some("bytes */1000"));
}

#[test]
fn malformed_range_is_400() {
    let data = bytes(1000);
    for h in ["items=0-1", "bytes=abc"] {
        let r = HttpStreamer::stream_file(&data, MediaType::Video, Some(h));
        assert_eq!(r.status, 400);
        assert!(r.body.is_empty());
        assert_eq!(r.content_range, None);
    }
    let r = HttpStreamer::stream_file(&data, MediaType::Video, Some("bytes=0-1,5-6"));
    assert_eq!(r.status, 416);
}

#[test]
fn content_range_text() {
    let p = RangePlan { start: 0, end: 0, total_size: 1, satisfiable: true };
    assert_eq!(HttpStreamer::content_range(&p), "bytes 0-0/1");
    let p = RangePlan { start: 12, end: 3456, total_size: 10000, satisfiable: true };
    assert_eq!(HttpStreamer::content_range(&p), "bytes 12-3456/10000");
    assert_eq!(HttpStreamer::content_type(MediaType::Video), "video/mp4");
}
