//! The metadata classifier: from a path to the kind of media it holds.

use vstd::prelude::*;
use crate::models::{MediaFile, MediaType};
use crate::text::{chars_from, chars_of, string_of};
use crate::ids::new_id;

verus! {

/// What `str::to_lowercase` makes of a string.
pub uninterp spec fn lowercase(s: Seq<char>) -> Seq<char>;

/// Relies on `str::to_lowercase`: the lower-case form depends on the
/// characters alone.
#[verifier::external_body]
fn to_lowercase(s: &str) -> (r: String)
    ensures
        r@ == lowercase(s@),
{
    s.to_lowercase()
}

/// The index of the last `c` in `s`, or -1 where there is none.
pub open spec fn last_index_of(s: Seq<char>, c: char) -> int
    decreases s.len(),
{
    if s.len() == 0 {
        -1
    } else if s.last() == c {
        s.len() - 1
    } else {
        last_index_of(s.drop_last(), c)
    }
}

/// The last component of a `/`-separated path.
pub open spec fn file_name_of(p: Seq<char>) -> Seq<char> {
    p.skip(last_index_of(p, '/') + 1)
}

/// What follows the last dot of the file name; none where the name has no
/// dot or its only dot opens it (`.profile`).
pub open spec fn extension_of(p: Seq<char>) -> Option<Seq<char>> {
    let name = file_name_of(p);
    let d = last_index_of(name, '.');
    if d <= 0 {
        None
    } else {
        Some(name.skip(d + 1))
    }
}

pub open spec fn video_extension(e: Seq<char>) -> bool {
    e == seq!['m', 'p', '4'] || e == seq!['m', 'k', 'v'] || e == seq!['a', 'v', 'i']
        || e == seq!['m', 'o', 'v']
}

pub open spec fn audio_extension(e: Seq<char>) -> bool {
    e == seq!['m', 'p', '3'] || e == seq!['f', 'l', 'a', 'c'] || e == seq!['w', 'a', 'v']
        || e == seq!['a', 'a', 'c']
}

pub open spec fn image_extension(e: Seq<char>) -> bool {
    e == seq!['j', 'p', 'g'] || e == seq!['j', 'p', 'e', 'g'] || e == seq!['p', 'n', 'g']
        || e == seq!['g', 'i', 'f']
}

/// The kind of a lower-case extension, from the fixed table.
pub open spec fn kind_of_extension(e: Seq<char>) -> Option<MediaType> {
    if video_extension(e) {
        Some(MediaType::Video)
    } else if audio_extension(e) {
        Some(MediaType::Audio)
    } else if image_extension(e) {
        Some(MediaType::Image)
    } else {
        None
    }
}

/// The kind of the file at path `p`: its extension, lower-cased, looked up
/// in the table.
pub open spec fn classify_spec(p: Seq<char>) -> Option<MediaType> {
    match extension_of(p) {
        Some(e) => kind_of_extension(lowercase(e)),
        None => None,
    }
}

proof fn lemma_last_index(s: Seq<char>, c: char, j: int)
    requires
        0 <= j <= s.len(),
        forall|k: int| j <= k < s.len() ==> s[k] != c,
        j == 0 || s[j - 1] == c,
    ensures
        last_index_of(s, c) == j - 1,
    decreases s.len(),
{
    if s.len() > j {
        assert(s.last() == s[s.len() - 1]);
        lemma_last_index(s.drop_last(), c, j);
    }
}

/// One past the index of the last `c` in `s` (0 where there is none).
fn find_last(s: &Vec<char>, c: char) -> (r: usize)
    ensures
        r == last_index_of(s@, c) + 1,
        r <= s@.len(),
{
    let mut j: usize = s.len();
    while j > 0 && s[j - 1] != c
        invariant
            j <= s@.len(),
            forall|k: int| j <= k < s@.len() ==> s@[k] != c,
        decreases j,
    {
        j = j - 1;
    }
    proof {
        lemma_last_index(s@, c, j as int);
    }
    j
}

/// The extension of the file at `path`, as it stands (see `extension_of`).
pub fn extension(path: &str) -> (r: Option<String>)
    ensures
        match r {
            Some(e) => extension_of(path@) == Some(e@),
            None => extension_of(path@) is None,
        },
{
    let cs = chars_of(path);
    let slash = find_last(&cs, '/');
    let name = chars_from(&cs, slash);
    let dot = find_last(&name, '.');
    if dot <= 1 {
        None
    } else {
        let e = chars_from(&name, dot);
        Some(string_of(e.as_slice()))
    }
}

/// The last component of `path`.
pub fn file_name(path: &str) -> (r: String)
    ensures
        r@ == file_name_of(path@),
{
    let cs = chars_of(path);
    let slash = find_last(&cs, '/');
    let name = chars_from(&cs, slash);
    string_of(name.as_slice())
}

fn eq_chars(a: &[char], b: &[char]) -> (r: bool)
    ensures
        r == (a@ == b@),
{
    if a.len() != b.len() {
        return false;
    }
    let mut i: usize = 0;
    while i < a.len()
        invariant
            a@.len() == b@.len(),
            i <= a@.len(),
            forall|k: int| 0 <= k < i ==> a@[k] == b@[k],
        decreases a@.len() - i,
    {
        if a[i] != b[i] {
            return false;
        }
        i = i + 1;
    }
    assert(a@ == b@);
    true
}

pub struct MediaMetadataExtractor;

impl MediaMetadataExtractor {
    /// The kind of a lower-case extension: video for mp4, mkv, avi and mov;
    /// audio for mp3, flac, wav and aac; image for jpg, jpeg, png and gif;
    /// none for any other.
    pub fn classify_extension(ext: &str) -> (r: Option<MediaType>)
        ensures
            r == kind_of_extension(ext@),
            video_extension(ext@) ==> r == Some(MediaType::Video),
            audio_extension(ext@) ==> r == Some(MediaType::Audio),
            image_extension(ext@) ==> r == Some(MediaType::Image),
            !video_extension(ext@) && !audio_extension(ext@) && !image_extension(ext@) ==> r
                is None,
    {
        let e = chars_of(ext);
        let e = e.as_slice();
        if eq_chars(e, &['m', 'p', '4']) || eq_chars(e, &['m', 'k', 'v']) || eq_chars(
            e,
            &['a', 'v', 'i'],
        ) || eq_chars(e, &['m', 'o', 'v']) {
            Some(MediaType::Video)
        } else if eq_chars(e, &['m', 'p', '3']) || eq_chars(e, &['f', 'l', 'a', 'c']) || eq_chars(
            e,
            &['w', 'a', 'v'],
        ) || eq_chars(e, &['a', 'a', 'c']) {
            Some(MediaType::Audio)
        } else if eq_chars(e, &['j', 'p', 'g']) || eq_chars(e, &['j', 'p', 'e', 'g']) || eq_chars(
            e,
            &['p', 'n', 'g'],
        ) || eq_chars(e, &['g', 'i', 'f']) {
            Some(MediaType::Image)
        } else {
            None
        }
    }

    /// The kind of the file at `path`: its extension, lower-cased, looked up
    /// with `classify_extension`; none where the path has no extension.
    pub fn classify(path: &str) -> (r: Option<MediaType>)
        ensures
            r == classify_spec(path@),
    {
        match extension(path) {
            None => None,
            Some(e) => {
                let lower = to_lowercase(e.as_str());
                Self::classify_extension(lower.as_str())
            },
        }
    }

    /// The record of a media file at `path`, of `size` bytes, under the
    /// identifier `id`; none where the path is not classified as media.
    /// Its title is the file name; no library owns it yet (`library_id` 0).
    pub fn extract_with_id(path: &str, size: u64, id: u128) -> (r: Option<MediaFile>)
        ensures
            match r {
                None => classify_spec(path@) is None,
                Some(m) => {
                    &&& classify_spec(path@) == Some(m.media_type)
                    &&& m.id == id
                    &&& m.library_id == 0
                    &&& m.title@ == file_name_of(path@)
                    &&& m.file_path@ == path@
                    &&& m.size == size
                    &&& m.duration is None
                    &&& m.bitrate is None
                    &&& m.resolution is None
                },
            },
    {
        let media_type = match Self::classify(path) {
            None => {
                return None;
            },
            Some(t) => t,
        };
        Some(
            MediaFile {
                id,
                library_id: 0,
                title: file_name(path),
                file_path: path.to_owned(),
                media_type,
                size,
                duration: None,
                bitrate: None,
                resolution: None,
            },
        )
    }

    /// As `extract_with_id`, under a fresh random identifier.
    pub fn extract(path: &str, size: u64) -> (r: Option<MediaFile>)
        ensures
            match r {
                None => classify_spec(path@) is None,
                Some(m) => {
                    &&& classify_spec(path@) == Some(m.media_type)
                    &&& m.library_id == 0
                    &&& m.title@ == file_name_of(path@)
                    &&& m.file_path@ == path@
                    &&& m.size == size
                    &&& m.duration is None
                    &&& m.bitrate is None
                    &&& m.resolution is None
                },
            },
    {
        Self::extract_with_id(path, size, new_id())
    }
}

} // verus!
