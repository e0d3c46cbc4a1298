use vstd::prelude::*;

verus! {

/// The metadata record of one scanned media file.
///
/// `has_album_art` records that the tag carries a picture; `cover_handle` is
/// set only when a thumbnail of that picture was made and stored. A picture
/// that could not be turned into a thumbnail thus shows as art present with
/// no handle.
pub struct Song {
    pub path: String,
    pub title: Option<String>,
    pub artist: Option<String>,
    pub album: Option<String>,
    pub genre: Option<String>,
    pub track_number: Option<u32>,
    pub year: Option<u32>,
    pub duration_seconds: u64,
    /// In kbps.
    pub bitrate: Option<u32>,
    /// In Hz.
    pub sample_rate: Option<u32>,
    pub bits_per_sample: Option<u8>,
    pub channels: Option<u8>,
    pub file_size_bytes: u64,
    pub has_album_art: bool,
    pub cover_handle: Option<String>,
    pub lyrics: Option<String>,
}

/// The artwork of a record: none in the tag, a picture that could not be
/// turned into a thumbnail, or a stored thumbnail under its handle.
pub enum Artwork {
    Absent,
    Unprocessable,
    Thumbnail(String),
}

impl Song {
    /// The artwork state that `has_album_art` and `cover_handle` encode.
    pub fn artwork(&self) -> (r: Artwork)
        ensures
            match r {
                Artwork::Absent => !self.has_album_art,
                Artwork::Unprocessable => self.has_album_art && self.cover_handle is None,
                Artwork::Thumbnail(h) => self.has_album_art && self.cover_handle == Some(h),
            },
    {
        if !self.has_album_art {
            Artwork::Absent
        } else {
            match &self.cover_handle {
                Some(h) => Artwork::Thumbnail(h.clone()),
                None => Artwork::Unprocessable,
            }
        }
    }
}

/// What the primary tag of a file says, with the bytes of its first picture.
pub struct TagFields {
    pub title: Option<String>,
    pub artist: Option<String>,
    pub album: Option<String>,
    pub genre: Option<String>,
    pub track: Option<u32>,
    pub year: Option<u32>,
    pub lyrics: Option<String>,
    pub first_picture: Option<Vec<u8>>,
}

/// Audio properties read from the container, independent of any tag.
pub struct AudioProperties {
    pub duration_seconds: u64,
    pub bitrate: Option<u32>,
    pub sample_rate: Option<u32>,
    pub bit_depth: Option<u8>,
    pub channels: Option<u8>,
}

/// The outcome of parsing a media file's container: its properties, and its
/// primary tag if it has one.
pub struct ProbedFile {
    pub tag: Option<TagFields>,
    pub properties: AudioProperties,
}

/// The record of a file that could not be parsed, or whose tag is absent:
/// everything but the path, the size and the title (the file name) follows
/// from `props`, or is unknown where the file did not parse.
pub open spec fn bare_fields_hold(r: Song, file_name: String, props: Option<AudioProperties>) -> bool {
    &&& r.title == Some(file_name)
    &&& r.artist is None
    &&& r.album is None
    &&& r.genre is None
    &&& r.track_number is None
    &&& r.year is None
    &&& r.lyrics is None
    &&& !r.has_album_art
    &&& r.cover_handle is None
    &&& props_hold(r, props)
}

/// The audio-property fields of `r` are those of `props`, or unknown (and a
/// zero duration) where there are none.
pub open spec fn props_hold(r: Song, props: Option<AudioProperties>) -> bool {
    match props {
        Some(p) => {
            &&& r.duration_seconds == p.duration_seconds
            &&& r.bitrate == p.bitrate
            &&& r.sample_rate == p.sample_rate
            &&& r.bits_per_sample == p.bit_depth
            &&& r.channels == p.channels
        },
        None => {
            &&& r.duration_seconds == 0
            &&& r.bitrate is None
            &&& r.sample_rate is None
            &&& r.bits_per_sample is None
            &&& r.channels is None
        },
    }
}

/// The record that `song_from_probe` builds, field by field.
pub open spec fn song_matches(
    r: Song,
    path: String,
    file_name: String,
    file_size: u64,
    probe: Option<ProbedFile>,
    cover_handle: Option<String>,
) -> bool {
    &&& r.path == path
    &&& r.file_size_bytes == file_size
    &&& match probe {
        None => bare_fields_hold(r, file_name, None),
        Some(p) => match p.tag {
            None => bare_fields_hold(r, file_name, Some(p.properties)),
            Some(t) => {
                &&& r.title == if t.title is Some {
                    t.title
                } else {
                    Some(file_name)
                }
                &&& r.artist == t.artist
                &&& r.album == t.album
                &&& r.genre == t.genre
                &&& r.track_number == t.track
                &&& r.year == t.year
                &&& r.lyrics == t.lyrics
                &&& r.has_album_art == t.first_picture is Some
                &&& r.cover_handle == if t.first_picture is Some {
                    cover_handle
                } else {
                    None
                }
                &&& props_hold(r, Some(p.properties))
            },
        },
    }
}

/// Builds the record of one file from what parsing it gave (`None` where the
/// file could not be parsed) and the handle of its artwork thumbnail, if one
/// was made. A file never fails: without a tag the title is the file name,
/// and without a container the duration is zero. `has_album_art` follows the
/// tag's picture whether or not a thumbnail was made.
pub fn song_from_probe(
    path: String,
    file_name: String,
    file_size: u64,
    probe: Option<ProbedFile>,
    cover_handle: Option<String>,
) -> (r: Song)
    ensures
        song_matches(r, path, file_name, file_size, probe, cover_handle),
{
    match probe {
        None => Song {
            path,
            title: Some(file_name),
            artist: None,
            album: None,
            genre: None,
            track_number: None,
            year: None,
            duration_seconds: 0,
            bitrate: None,
            sample_rate: None,
            bits_per_sample: None,
            channels: None,
            file_size_bytes: file_size,
            has_album_art: false,
            cover_handle: None,
            lyrics: None,
        },
        Some(p) => {
            let props = p.properties;
            match p.tag {
                None => Song {
                    path,
                    title: Some(file_name),
                    artist: None,
                    album: None,
                    genre: None,
                    track_number: None,
                    year: None,
                    duration_seconds: props.duration_seconds,
                    bitrate: props.bitrate,
                    sample_rate: props.sample_rate,
                    bits_per_sample: props.bit_depth,
                    channels: props.channels,
                    file_size_bytes: file_size,
                    has_album_art: false,
                    cover_handle: None,
                    lyrics: None,
                },
                Some(t) => {
                    let has_album_art = t.first_picture.is_some();
                    let title = match t.title {
                        Some(x) => Some(x),
                        None => Some(file_name),
                    };
                    Song {
                        path,
                        title,
                        artist: t.artist,
                        album: t.album,
                        genre: t.genre,
                        track_number: t.track,
                        year: t.year,
                        duration_seconds: props.duration_seconds,
                        bitrate: props.bitrate,
                        sample_rate: props.sample_rate,
                        bits_per_sample: props.bit_depth,
                        channels: props.channels,
                        file_size_bytes: file_size,
                        has_album_art,
                        cover_handle: if has_album_art {
                            cover_handle
                        } else {
                            None
                        },
                        lyrics: t.lyrics,
                    }
                },
            }
        },
    }
}

} // verus!
