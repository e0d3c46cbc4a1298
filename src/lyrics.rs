use vstd::prelude::*;
use vstd::string::StringSliceAdditionalSpecFns;
use crate::numerals::{decimal, decimal_digits};
use crate::text::str_eq;

verus! {

/// The characters that Unicode gives the White_Space property; `char::is_whitespace`
/// and `str::trim` go by the same set.
pub open spec fn is_white_space_spec(c: char) -> bool {
    let u = c as u32;
    ||| 0x09 <= u <= 0x0d
    ||| u == 0x20
    ||| u == 0x85
    ||| u == 0xa0
    ||| u == 0x1680
    ||| 0x2000 <= u <= 0x200a
    ||| u == 0x2028
    ||| u == 0x2029
    ||| u == 0x202f
    ||| u == 0x205f
    ||| u == 0x3000
}

pub fn is_white_space(c: char) -> (r: bool)
    ensures
        r == is_white_space_spec(c),
{
    let u = c as u32;
    (0x09 <= u && u <= 0x0d) || u == 0x20 || u == 0x85 || u == 0xa0 || u == 0x1680 || (0x2000 <= u
        && u <= 0x200a) || u == 0x2028 || u == 0x2029 || u == 0x202f || u == 0x205f || u == 0x3000
}

/// A text is blank when nothing is left of it once white space is trimmed.
pub open spec fn blank(s: Seq<char>) -> bool {
    forall|i: int| 0 <= i < s.len() ==> is_white_space_spec(#[trigger] s[i])
}

/// Whether the text holds nothing but white space.
pub fn is_blank(s: &str) -> (r: bool)
    ensures
        r == blank(s@),
{
    let n = s.unicode_len();
    let mut i: usize = 0;
    while i < n
        invariant
            n == s@.len(),
            i <= n,
            forall|k: int| 0 <= k < i ==> is_white_space_spec(#[trigger] s@[k]),
        decreases n - i,
    {
        if !is_white_space(s.get_char(i)) {
            return false;
        }
        i = i + 1;
    }
    true
}

/// A lyrics text that is present and not blank.
pub open spec fn usable(t: Option<String>) -> bool {
    t matches Some(x) && !blank(x@)
}

/// The lyrics to keep from an online answer: the synced ones when usable,
/// else the plain ones when usable, else none.
pub open spec fn chosen_lyrics(synced: Option<String>, plain: Option<String>) -> Option<String> {
    if usable(synced) {
        synced
    } else if usable(plain) {
        plain
    } else {
        None
    }
}

/// Picks the lyrics of an online answer, preferring synced to plain ones.
pub fn choose_lyrics(synced: Option<String>, plain: Option<String>) -> (r: Option<String>)
    ensures
        r == chosen_lyrics(synced, plain),
{
    let synced_ok = match &synced {
        Some(x) => !is_blank(x.as_str()),
        None => false,
    };
    if synced_ok {
        return synced;
    }
    let plain_ok = match &plain {
        Some(x) => !is_blank(x.as_str()),
        None => false,
    };
    if plain_ok {
        plain
    } else {
        None
    }
}

/// Whether a byte passes unescaped through percent-encoding: ASCII letters and
/// digits, `-`, `.`, `_` and `~`.
pub open spec fn unreserved(b: u8) -> bool {
    ||| 48 <= b <= 57
    ||| 65 <= b <= 90
    ||| 97 <= b <= 122
    ||| b == 45
    ||| b == 46
    ||| b == 95
    ||| b == 126
}

pub open spec fn upper_hex_digit(d: u8) -> char {
    seq!['0', '1', '2', '3', '4', '5', '6', '7', '8', '9', 'A', 'B', 'C', 'D', 'E', 'F'][d as int]
}

/// Percent-encoding of bytes: unreserved bytes stand for themselves, every
/// other byte becomes `%` and two uppercase hexadecimal digits.
pub open spec fn percent_encoded(bytes: Seq<u8>) -> Seq<char>
    decreases bytes.len(),
{
    if bytes.len() == 0 {
        Seq::empty()
    } else {
        let b = bytes.last();
        percent_encoded(bytes.drop_last()) + if unreserved(b) {
            seq![b as char]
        } else {
            seq!['%', upper_hex_digit(b / 16), upper_hex_digit(b % 16)]
        }
    }
}

/// Relies on `urlencoding::encode`: percent-encodes every byte of the UTF-8
/// form of `s` except ASCII alphanumerics and `-`, `_`, `.`, `~`, with
/// uppercase hexadecimal digits.
#[verifier::external_body]
fn url_encode(s: &str) -> (r: String)
    ensures
        r@ == percent_encoded(s.spec_bytes()),
{
    urlencoding::encode(s).into_owned()
}

/// The lookup URL of the online lyrics service for one track.
pub open spec fn lyrics_url_of(track: &str, artist: &str, album: &str, duration: u64) -> Seq<char> {
    "https://lrclib.net/api/get?track_name="@ + percent_encoded(track.spec_bytes())
        + "&artist_name="@ + percent_encoded(artist.spec_bytes()) + "&album_name="@
        + percent_encoded(album.spec_bytes()) + "&duration="@ + decimal_digits(duration as nat)
}

/// Builds the lookup URL of the online lyrics service, with each text
/// percent-encoded and the duration in whole seconds.
pub fn lyrics_query_url(track: &str, artist: &str, album: &str, duration: u64) -> (r: String)
    ensures
        r@ == lyrics_url_of(track, artist, album, duration),
{
    let mut url = String::new();
    url.append("https://lrclib.net/api/get?track_name=");
    url.append(url_encode(track).as_str());
    url.append("&artist_name=");
    url.append(url_encode(artist).as_str());
    url.append("&album_name=");
    url.append(url_encode(album).as_str());
    url.append("&duration=");
    url.append(decimal(duration).as_str());
    assert(url@ =~= lyrics_url_of(track, artist, album, duration));
    url
}

/// The lyrics saved under `path`: the last entry with that path wins.
pub open spec fn lookup(entries: Seq<(String, String)>, path: Seq<char>) -> Option<String>
    decreases entries.len(),
{
    if entries.len() == 0 {
        None
    } else if entries.last().0@ == path {
        Some(entries.last().1)
    } else {
        lookup(entries.drop_last(), path)
    }
}

/// The entries that are not under `path`, in their order.
pub open spec fn without(entries: Seq<(String, String)>, path: Seq<char>) -> Seq<(String, String)> {
    entries.filter(|e: (String, String)| e.0@ != path)
}

/// Lyrics saved by the user, keyed by song path.
pub struct LyricsStore {
    entries: Vec<(String, String)>,
}

impl View for LyricsStore {
    type V = Seq<(String, String)>;

    closed spec fn view(&self) -> Seq<(String, String)> {
        self.entries@
    }
}

impl LyricsStore {
    /// A store holding the given `(song path, lyrics)` pairs.
    pub fn from_pairs(entries: Vec<(String, String)>) -> (r: LyricsStore)
        ensures
            r@ == entries@,
    {
        LyricsStore { entries }
    }

    /// The `(song path, lyrics)` pairs held.
    pub fn into_pairs(self) -> (r: Vec<(String, String)>)
        ensures
            r@ == self@,
    {
        self.entries
    }

    /// The lyrics saved for a song, if any.
    pub fn get(&self, path: &str) -> (r: Option<String>)
        ensures
            r == lookup(self@, path@),
    {
        let mut i: usize = self.entries.len();
        assert(self.entries@.subrange(0, i as int) =~= self.entries@);
        while i > 0
            invariant
                i <= self.entries@.len(),
                lookup(self.entries@, path@) == lookup(self.entries@.subrange(0, i as int), path@),
            decreases i,
        {
            let ghost prefix = self.entries@.subrange(0, i as int);
            assert(prefix.drop_last() =~= self.entries@.subrange(0, i - 1));
            if str_eq(self.entries[i - 1].0.as_str(), path) {
                return Some(self.entries[i - 1].1.clone());
            }
            i = i - 1;
        }
        None
    }

    /// Forgets the lyrics of a song.
    pub fn remove(&mut self, path: &str)
        ensures
            final(self)@ == without(old(self)@, path@),
    {
        let mut kept: Vec<(String, String)> = Vec::new();
        let mut i: usize = 0;
        while i < self.entries.len()
            invariant
                i <= self.entries@.len(),
                kept@ == without(self.entries@.subrange(0, i as int), path@),
            decreases self.entries@.len() - i,
        {
            let e = &self.entries[i];
            if !str_eq(e.0.as_str(), path) {
                kept.push((e.0.clone(), e.1.clone()));
            }
            proof {
                reveal(Seq::filter);
                assert(self.entries@.subrange(0, i + 1).drop_last() =~= self.entries@.subrange(
                    0,
                    i as int,
                ));
            }
            i = i + 1;
        }
        assert(self.entries@.subrange(0, self.entries@.len() as int) =~= self.entries@);
        self.entries = kept;
    }

    /// Saves the lyrics of a song, replacing earlier ones; blank lyrics
    /// remove the song's entry instead.
    pub fn save(&mut self, path: String, lyrics: String)
        ensures
            final(self)@ == if blank(lyrics@) {
                without(old(self)@, path@)
            } else {
                without(old(self)@, path@).push((path, lyrics))
            },
    {
        self.remove(path.as_str());
        if !is_blank(lyrics.as_str()) {
            self.entries.push((path, lyrics));
        }
    }
}

/// After lyrics that are not blank are saved for a song, they are what is
/// found for it.
pub proof fn law_saved_lyrics_are_found(entries: Seq<(String, String)>, path: String, lyrics: String)
    requires
        !blank(lyrics@),
    ensures
        lookup(without(entries, path@).push((path, lyrics)), path@) == Some(lyrics),
{
    assert(without(entries, path@).push((path, lyrics)).drop_last() =~= without(entries, path@));
}

} // verus!
