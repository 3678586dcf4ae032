use media_server::metadata::{extension, file_name, MediaMetadataExtractor};
use media_server::models::MediaType;

#[test]
fn video_extensions_are_video() {
    for p in ["/lib/a.mp4", "/lib/b.mkv", "c.avi", "dir/d.mov"] {
        assert_eq!(MediaMetadataExtractor::classify(p), Some(MediaType::Video), "{}", p);
    }
}

#[test]
fn audio_extensions_are_audio() {
    for p in ["/lib/a.mp3", "/lib/b.flac", "c.wav", "dir/d.aac"] {
        assert_eq!(MediaMetadataExtractor::classify(p), Some(MediaType::Audio), "{}", p);
    }
}

#[test]
fn image_extensions_are_image() {
    for p in ["/lib/a.jpg", "/lib/b.jpeg", "c.png", "dir/d.gif"] {
        assert_eq!(MediaMetadataExtractor::classify(p), Some(MediaType::Image), "{}", p);
    }
}

#[test]
fn other_extensions_are_not_media() {
    for p in ["/lib/b.txt", "/lib/noext", "/lib/.mp4", "/lib/a.mp4.part", "/lib/a.", "/lib/mp4"] {
        assert_eq!(MediaMetadataExtractor::classify(p), None, "{}", p);
    }
}

#[test]
fn extension_is_lower_cased() {
    assert_eq!(MediaMetadataExtractor::classify("/lib/Movie.MP4"), Some(MediaType::Video));
    assert_eq!(MediaMetadataExtractor::classify("/lib/Song.FlAc"), Some(MediaType::Audio));
    assert_eq!(MediaMetadataExtractor::classify("/lib/Pic.JPEG"), Some(MediaType::Image));
}

#[test]
fn classify_extension_table() {
    assert_eq!(MediaMetadataExtractor::classify_extension("mkv"), Some(MediaType::Video));
    assert_eq!(MediaMetadataExtractor::classify_extension("wav"), Some(MediaType::Audio));
    assert_eq!(MediaMetadataExtractor::classify_extension("gif"), Some(MediaType::Image));
    assert_eq!(MediaMetadataExtractor::classify_extension("MKV"), None);
    assert_eq!(MediaMetadataExtractor::classify_extension(""), None);
}

#[test]
fn extension_and_file_name() {
    assert_eq!(extension("/lib/dir.x/a.tar.gz"), Some("gz".to_string()));
    assert_eq!(extension("/lib/dir.x/readme"), None);
    assert_eq!(extension("/lib/.hidden"), None);
    assert_eq!(file_name("/lib/dir/a.mp4"), "a.mp4");
    assert_eq!(file_name("a.mp4"), "a.mp4");
}

#[test]
fn media_type_names() {
    assert_eq!(MediaType::Video.as_str(), "Video");
    assert_eq!(MediaType::Audio.as_str(), "Audio");
    assert_eq!(MediaType::Image.as_str(), "Image");
}

#[test]
fn extract_builds_a_media_file() {
    let m = MediaMetadataExtractor::extract_with_id("/lib/show/ep1.MKV", 1234, 7).unwrap();
    assert_eq!(m.id, 7);
    assert_eq!(m.library_id, 0);
    assert_eq!(m.title, "ep1.MKV");
    assert_eq!(m.file_path, "/lib/show/ep1.MKV");
    assert_eq!(m.media_type, MediaType::Video);
    assert_eq!(m.size, 1234);
    assert!(m.duration.is_none() && m.bitrate.is_none() && m.resolution.is_none());
    assert!(MediaMetadataExtractor::extract_with_id("/lib/notes.txt", 10, 7).is_none());
}

#[test]
fn extract_draws_fresh_ids() {
    let a = MediaMetadataExtractor::extract("/lib/a.png", 1).unwrap();
    let b = MediaMetadataExtractor::extract("/lib/a.png", 1).unwrap();
    assert_ne!(a.id, b.id);
    // A version 4 UUID.
    assert_eq!((a.id >> 76) & 0xF, 4);
    assert!(a.duration.is_none() && a.bitrate.is_none() && a.resolution.is_none());
}
