use vstd::prelude::*;
use crate::text::str_eq;

verus! {

/// What `str::to_lowercase` makes of a string.
pub uninterp spec fn lowercase_of(s: Seq<char>) -> Seq<char>;

/// Relies on `str::to_lowercase`: the result depends on the characters alone.
#[verifier::external_body]
fn to_lowercase(s: &str) -> (r: String)
    ensures
        r@ == lowercase_of(s@),
{
    s.to_lowercase()
}

/// The extensions, in lower case, of the files that a scan picks up.
pub open spec fn is_listed_extension(ext: Seq<char>) -> bool {
    ||| ext == "mp3"@
    ||| ext == "flac"@
    ||| ext == "wav"@
    ||| ext == "m4a"@
    ||| ext == "ogg"@
}

/// A file found while walking the root directory.
pub struct FoundFile {
    /// The full path.
    pub path: String,
    /// The last component of the path.
    pub file_name: String,
    /// The extension, if the file name has one.
    pub extension: Option<String>,
    /// The size in bytes, zero where it could not be read.
    pub size: u64,
}

impl FoundFile {
    pub fn duplicate(&self) -> (r: FoundFile)
        ensures
            r == *self,
    {
        FoundFile {
            path: self.path.clone(),
            file_name: self.file_name.clone(),
            extension: match &self.extension {
                Some(e) => Some(e.clone()),
                None => None,
            },
            size: self.size,
        }
    }
}

/// Whether a found file is a media file: its extension, ignoring case, is listed.
pub open spec fn is_media_file(f: FoundFile) -> bool {
    match f.extension {
        Some(e) => is_listed_extension(lowercase_of(e@)),
        None => false,
    }
}

/// Whether an extension that is already in lower case is listed.
pub fn is_listed_lowercase(ext: &str) -> (r: bool)
    ensures
        r == is_listed_extension(ext@),
{
    str_eq(ext, "mp3") || str_eq(ext, "flac") || str_eq(ext, "wav") || str_eq(ext, "m4a")
        || str_eq(ext, "ogg")
}

/// Whether an extension, in any case, is that of a media file.
pub fn is_media_extension(ext: &str) -> (r: bool)
    ensures
        r == is_listed_extension(lowercase_of(ext@)),
{
    let lower = to_lowercase(ext);
    is_listed_lowercase(lower.as_str())
}

/// Keeps the media files among those found, in the order they were found.
/// This order is the discovery order of a scan.
pub fn select_media(found: &Vec<FoundFile>) -> (r: Vec<FoundFile>)
    ensures
        r@ == found@.filter(|f: FoundFile| is_media_file(f)),
{
    let mut out: Vec<FoundFile> = Vec::new();
    let mut i: usize = 0;
    while i < found.len()
        invariant
            i <= found@.len(),
            out@ == found@.subrange(0, i as int).filter(|f: FoundFile| is_media_file(f)),
        decreases found@.len() - i,
    {
        let f = &found[i];
        let keep = match &f.extension {
            Some(e) => is_media_extension(e.as_str()),
            None => false,
        };
        if keep {
            out.push(f.duplicate());
        }
        proof {
            reveal(Seq::filter);
            assert(found@.subrange(0, i + 1).drop_last() =~= found@.subrange(0, i as int));
        }
        i = i + 1;
    }
    assert(found@.subrange(0, found@.len() as int) =~= found@);
    out
}

} // verus!
