//! The track record: one audio file's path and the tag fields that the
//! catalog keeps, with sentinel values for tag fields that are absent.

use vstd::prelude::*;

verus! {

/// One entry of the catalog. The path identifies the track; the remaining
/// fields come from its embedded tag, with sentinels where the tag lacks a
/// field. A missing track number stays absent.
#[derive(Debug)]
pub struct Song {
    pub file_path: String,
    pub artist: String,
    pub album: String,
    pub title: String,
    pub track_number: Option<u32>,
}

impl Clone for Song {
    fn clone(&self) -> (r: Self)
        ensures
            r == *self,
    {
        Song {
            file_path: self.file_path.clone(),
            artist: self.artist.clone(),
            album: self.album.clone(),
            title: self.title.clone(),
            track_number: self.track_number,
        }
    }
}

impl Song {
    /// Build a track from a path and the optional fields of its tag:
    /// each absent string field becomes its sentinel, an absent track
    /// number stays `None`.
    pub fn from_tag(
        file_path: String,
        artist: Option<String>,
        album: Option<String>,
        title: Option<String>,
        track_number: Option<u32>,
    ) -> (r: Song)
        ensures
            r.file_path@ == file_path@,
            r.artist@ == (match artist {
                Some(a) => a@,
                None => "Unknown Artist"@,
            }),
            r.album@ == (match album {
                Some(a) => a@,
                None => "Unknown Album"@,
            }),
            r.title@ == (match title {
                Some(t) => t@,
                None => "Unknown Title"@,
            }),
            r.track_number == track_number,
    {
        Song {
            file_path,
            artist: match artist {
                Some(a) => a,
                None => "Unknown Artist".to_owned(),
            },
            album: match album {
                Some(a) => a,
                None => "Unknown Album".to_owned(),
            },
            title: match title {
                Some(t) => t,
                None => "Unknown Title".to_owned(),
            },
            track_number,
        }
    }
}

/// The scan's acceptance rule on a path: the name ends in the extension
/// `.mp3` (case-sensitive), and the `.` belongs to a file name, not to a
/// directory separator or a bare `.mp3` name.
pub open spec fn is_mp3_path(s: Seq<char>) -> bool {
    &&& s.len() >= 5
    &&& s.subrange(s.len() - 4, s.len() as int) == ".mp3"@
    &&& s[s.len() - 5] != '/'
}

/// Whether the scan accepts the file at this path, by its extension.
pub fn has_mp3_extension(path: &str) -> (r: bool)
    ensures
        r == is_mp3_path(path@),
{
    let n = path.unicode_len();
    if n < 5 {
        return false;
    }
    let dot = path.get_char(n - 4);
    let em = path.get_char(n - 3);
    let pe = path.get_char(n - 2);
    let three = path.get_char(n - 1);
    let before = path.get_char(n - 5);
    let r = dot == '.' && em == 'm' && pe == 'p' && three == '3' && before != '/';
    proof {
        reveal_strlit(".mp3");
        if dot == '.' && em == 'm' && pe == 'p' && three == '3' {
            assert(path@.subrange(n - 4, n as int) =~= ".mp3"@);
        }
        if path@.subrange(n - 4, n as int) == ".mp3"@ {
            assert(path@[n - 4] == ".mp3"@[0]);
            assert(path@[n - 3] == ".mp3"@[1]);
            assert(path@[n - 2] == ".mp3"@[2]);
            assert(path@[n - 1] == ".mp3"@[3]);
        }
    }
    r
}

} // verus!
