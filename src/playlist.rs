use vstd::prelude::*;
use vstd::multiset::Multiset;
use crate::text::str_eq;

verus! {

/// A named list of track paths.
pub struct Playlist {
    pub name: String,
    /// Unix time of creation, in seconds.
    pub created_at: u64,
    /// File paths of the tracks, in playing order.
    pub tracks: Vec<String>,
}

/// What `char::is_alphanumeric` says of a character.
pub uninterp spec fn alphanumeric(c: char) -> bool;

/// Relies on `char::is_alphanumeric`: Unicode alphabetic or numeric.
#[verifier::external_body]
fn char_is_alphanumeric(c: char) -> (r: bool)
    ensures
        r == alphanumeric(c),
{
    c.is_alphanumeric()
}

/// Whether a character may stay in a playlist's file name.
pub open spec fn kept_in_file_name(c: char) -> bool {
    alphanumeric(c) || c == ' ' || c == '-'
}

/// A playlist name with every character dropped but alphanumerics, spaces
/// and dashes.
pub open spec fn sanitized(name: Seq<char>) -> Seq<char> {
    name.filter(|c: char| kept_in_file_name(c))
}

/// Strips a playlist name down to what is safe in a file name.
pub fn sanitize_name(name: &str) -> (r: String)
    ensures
        r@ == sanitized(name@),
{
    let n = name.unicode_len();
    let mut out = String::new();
    let mut i: usize = 0;
    while i < n
        invariant
            n == name@.len(),
            i <= n,
            out@ == sanitized(name@.subrange(0, i as int)),
        decreases n - i,
    {
        let c = name.get_char(i);
        if char_is_alphanumeric(c) || c == ' ' || c == '-' {
            let one = name.substring_char(i, i + 1);
            assert(one@ =~= seq![c]);
            out.append(one);
        }
        proof {
            reveal(Seq::filter);
            assert(name@.subrange(0, i + 1).drop_last() =~= name@.subrange(0, i as int));
            assert(out@ =~= sanitized(name@.subrange(0, i + 1)));
        }
        i = i + 1;
    }
    assert(name@.subrange(0, n as int) =~= name@);
    out
}

/// The file that holds a playlist: its sanitized name with `.json`.
pub fn playlist_file_name(name: &str) -> (r: String)
    ensures
        r@ == sanitized(name@) + ".json"@,
{
    let mut file = sanitize_name(name);
    file.append(".json");
    file
}

/// Whether `path` is among the tracks.
pub open spec fn holds_track(tracks: Seq<String>, path: Seq<char>) -> bool {
    exists|i: int| 0 <= i < tracks.len() && #[trigger] tracks[i]@ == path
}

/// The first position of `path` among the tracks.
pub open spec fn first_position(tracks: Seq<String>, path: Seq<char>, i: int) -> bool {
    &&& 0 <= i < tracks.len()
    &&& tracks[i]@ == path
    &&& forall|k: int| 0 <= k < i ==> #[trigger] tracks[k]@ != path
}

impl Playlist {
    /// An empty playlist.
    pub fn new(name: String, created_at: u64) -> (r: Playlist)
        ensures
            r.name == name,
            r.created_at == created_at,
            r.tracks@.len() == 0,
    {
        Playlist { name, created_at, tracks: Vec::new() }
    }

    fn position(&self, path: &str) -> (r: Option<usize>)
        ensures
            match r {
                Some(i) => first_position(self.tracks@, path@, i as int),
                None => !holds_track(self.tracks@, path@),
            },
    {
        let mut i: usize = 0;
        while i < self.tracks.len()
            invariant
                i <= self.tracks@.len(),
                forall|k: int| 0 <= k < i ==> #[trigger] self.tracks@[k]@ != path@,
            decreases self.tracks@.len() - i,
        {
            if str_eq(self.tracks[i].as_str(), path) {
                return Some(i);
            }
            i = i + 1;
        }
        None
    }

    /// Appends a track unless it is already in the playlist; returns whether
    /// it was added.
    pub fn add_track(&mut self, path: String) -> (added: bool)
        ensures
            added == !holds_track(old(self).tracks@, path@),
            final(self).tracks@ == if added {
                old(self).tracks@.push(path)
            } else {
                old(self).tracks@
            },
            final(self).name == old(self).name,
            final(self).created_at == old(self).created_at,
    {
        if self.position(path.as_str()).is_some() {
            false
        } else {
            self.tracks.push(path);
            true
        }
    }

    /// Removes the first occurrence of a track; returns whether there was one.
    pub fn remove_track(&mut self, path: &str) -> (removed: bool)
        ensures
            removed == holds_track(old(self).tracks@, path@),
            removed ==> exists|i: int|
                first_position(old(self).tracks@, path@, i) && final(self).tracks@ == old(
                    self,
                ).tracks@.remove(i),
            !removed ==> final(self).tracks@ == old(self).tracks@,
            final(self).name == old(self).name,
            final(self).created_at == old(self).created_at,
    {
        match self.position(path) {
            Some(i) => {
                self.tracks.remove(i);
                true
            },
            None => false,
        }
    }
}

/// Playlists ordered from the most recently created to the oldest.
pub open spec fn newest_first(s: Seq<Playlist>) -> bool {
    forall|i: int, j: int| 0 <= i < j < s.len() ==> #[trigger] s[i].created_at >= #[trigger] s[j].created_at
}

/// Orders playlists from the newest to the oldest, keeping every one.
pub fn sort_newest_first(playlists: Vec<Playlist>) -> (r: Vec<Playlist>)
    ensures
        r@.to_multiset() == playlists@.to_multiset(),
        newest_first(r@),
{
    broadcast use vstd::seq_lib::group_to_multiset_ensures, vstd::seq_lib::to_multiset_insert;

    let mut rest = playlists;
    let mut out: Vec<Playlist> = Vec::new();
    assert(out@.to_multiset() =~= Multiset::empty());
    assert(out@.to_multiset().add(rest@.to_multiset()) =~= playlists@.to_multiset());
    while rest.len() > 0
        invariant
            out@.to_multiset().add(rest@.to_multiset()) == playlists@.to_multiset(),
            newest_first(out@),
        decreases rest@.len(),
    {
        let ghost before = rest@;
        let x = rest.pop().unwrap();
        assert(before == rest@.push(x));
        let mut j: usize = 0;
        while j < out.len() && out[j].created_at > x.created_at
            invariant
                j <= out@.len(),
                forall|k: int| 0 <= k < j ==> #[trigger] out@[k].created_at > x.created_at,
            decreases out@.len() - j,
        {
            j = j + 1;
        }
        let ghost sorted = out@;
        out.insert(j, x);
        proof {
            assert(out@ == sorted.insert(j as int, x));
            assert forall|a: int, b: int| 0 <= a < b < out@.len() implies #[trigger] out@[a].created_at
                >= #[trigger] out@[b].created_at by {
                if b < j {
                    assert(out@[a] == sorted[a] && out@[b] == sorted[b]);
                } else if b == j {
                    assert(out@[a] == sorted[a]);
                } else if a < j {
                    assert(out@[a] == sorted[a] && out@[b] == sorted[b - 1]);
                } else if a == j {
                    assert(out@[b] == sorted[b - 1]);
                    assert(sorted[j as int].created_at <= x.created_at);
                } else {
                    assert(out@[a] == sorted[a - 1] && out@[b] == sorted[b - 1]);
                }
            }
            vstd::seq_lib::to_multiset_insert(sorted, j as int, x);
            vstd::seq_lib::to_multiset_build(rest@, x);
            assert(out@.to_multiset().add(rest@.to_multiset()) =~= playlists@.to_multiset());
        }
    }
    assert(rest@.to_multiset() =~= Multiset::empty());
    assert(out@.to_multiset() =~= playlists@.to_multiset());
    out
}

} // verus!
