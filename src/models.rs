//! The values that the catalog, the scanner and the dispatcher exchange.

use vstd::prelude::*;
use crate::range::RangePlan;

verus! {

/// The coarse kind of a media file, decided by its extension.
#[derive(Clone, Copy, Debug, PartialEq, Eq, Structural)]
pub enum MediaType {
    Video,
    Audio,
    Image,
}

impl MediaType {
    /// The name under which a kind is stored in the catalog.
    pub open spec fn name(self) -> Seq<char> {
        match self {
            MediaType::Video => seq!['V', 'i', 'd', 'e', 'o'],
            MediaType::Audio => seq!['A', 'u', 'd', 'i', 'o'],
            MediaType::Image => seq!['I', 'm', 'a', 'g', 'e'],
        }
    }

    /// The name under which a kind is stored in the catalog.
    pub fn as_str(&self) -> (r: &'static str)
        ensures
            r@ == self.name(),
    {
        match self {
            MediaType::Video => {
                proof { reveal_strlit("Video"); }
                "Video"
            },
            MediaType::Audio => {
                proof { reveal_strlit("Audio"); }
                "Audio"
            },
            MediaType::Image => {
                proof { reveal_strlit("Image"); }
                "Image"
            },
        }
    }
}

/// A media file found on disk, before it is catalogued.
///
/// `duration` is in whole seconds and `bitrate` in kbps; neither is read
/// from the file yet.
#[derive(Clone, Debug)]
pub struct MediaFile {
    pub id: u128,
    pub library_id: u128,
    pub title: String,
    pub file_path: String,
    pub media_type: MediaType,
    pub size: u64,
    pub duration: Option<u64>,
    pub bitrate: Option<u32>,
    pub resolution: Option<String>,
}

/// One playback attempt. `seek_position` is a byte offset into the file.
#[derive(Clone, Copy, Debug)]
pub struct StreamRequest {
    pub media_id: u128,
    pub profile_id: u128,
    pub seek_position: Option<u64>,
    pub prefer_p2p: bool,
}

/// How a playback is served. No policy selects `HLS` yet.
#[derive(Clone, Copy, Debug, PartialEq, Eq, Structural)]
pub enum StreamType {
    P2P,
    HTTP,
    HLS,
}

/// A peer offered for peer-assisted delivery. The registry does not know
/// which peers hold a whole file, so `has_full_file` is false unless a
/// peer says otherwise.
#[derive(Clone, Debug)]
pub struct P2PPeer {
    pub peer_id: String,
    pub ip_address: String,
    pub port: u16,
    pub has_full_file: bool,
}

/// How a playback request is served: by peers (`p2p_peers`, empty `url`)
/// or by direct HTTP at `url`, from the byte `range` that the seek position
/// asks for, if any.
pub struct StreamResponse {
    pub stream_type: StreamType,
    pub url: String,
    pub p2p_peers: Vec<P2PPeer>,
    pub range: Option<RangePlan>,
}

} // verus!
