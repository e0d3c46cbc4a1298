use vstd::prelude::*;
use vstd::multiset::Multiset;
use crate::text::str_eq;

verus! {

/// How many times a song was played.
pub struct SongPlayCount {
    pub path: String,
    pub count: u64,
}

/// Whether `i` is the first entry for `path`.
pub open spec fn first_entry(entries: Seq<SongPlayCount>, path: Seq<char>, i: int) -> bool {
    &&& 0 <= i < entries.len()
    &&& entries[i].path@ == path
    &&& forall|k: int| 0 <= k < i ==> #[trigger] entries[k].path@ != path
}

/// Whether some entry is for `path`.
pub open spec fn has_entry(entries: Seq<SongPlayCount>, path: Seq<char>) -> bool {
    exists|i: int| 0 <= i < entries.len() && #[trigger] entries[i].path@ == path
}

/// Play counts, one entry per song path.
pub struct PlayStats {
    counts: Vec<SongPlayCount>,
}

impl View for PlayStats {
    type V = Seq<SongPlayCount>;

    closed spec fn view(&self) -> Seq<SongPlayCount> {
        self.counts@
    }
}

impl PlayStats {
    /// Stats holding the given entries.
    pub fn from_counts(counts: Vec<SongPlayCount>) -> (r: PlayStats)
        ensures
            r@ == counts@,
    {
        PlayStats { counts }
    }

    /// The entries held.
    pub fn into_counts(self) -> (r: Vec<SongPlayCount>)
        ensures
            r@ == self@,
    {
        self.counts
    }

    /// Counts one more play of a song, starting from zero for a song not seen
    /// before, and returns its new count. The count saturates at `u64::MAX`.
    pub fn increment(&mut self, path: String) -> (r: u64)
        ensures
            has_entry(old(self)@, path@) ==> exists|i: int|
                first_entry(old(self)@, path@, i) && r == (if old(self)@[i].count == u64::MAX {
                    u64::MAX
                } else {
                    (old(self)@[i].count + 1) as u64
                }) && final(self)@ == old(self)@.update(
                    i,
                    SongPlayCount { path: old(self)@[i].path, count: r },
                ),
            !has_entry(old(self)@, path@) ==> r == 1 && final(self)@ == old(self)@.push(
                SongPlayCount { path, count: 1 },
            ),
    {
        let mut i: usize = 0;
        while i < self.counts.len()
            invariant
                i <= self.counts@.len(),
                self.counts@ == old(self).counts@,
                forall|k: int| 0 <= k < i ==> #[trigger] self.counts@[k].path@ != path@,
            decreases self.counts@.len() - i,
        {
            if str_eq(self.counts[i].path.as_str(), path.as_str()) {
                let count = self.counts[i].count.saturating_add(1);
                let entry = SongPlayCount { path: self.counts[i].path.clone(), count };
                self.counts.set(i, entry);
                assert(first_entry(old(self)@, path@, i as int));
                return count;
            }
            i = i + 1;
        }
        self.counts.push(SongPlayCount { path, count: 1 });
        1
    }
}

/// Entries ordered from the most played to the least.
pub open spec fn most_played_first(s: Seq<SongPlayCount>) -> bool {
    forall|i: int, j: int| 0 <= i < j < s.len() ==> #[trigger] s[i].count >= #[trigger] s[j].count
}

/// Orders play counts from the most played song down, keeping every entry.
pub fn rank_by_plays(counts: Vec<SongPlayCount>) -> (r: Vec<SongPlayCount>)
    ensures
        r@.to_multiset() == counts@.to_multiset(),
        most_played_first(r@),
{
    broadcast use vstd::seq_lib::group_to_multiset_ensures;

    let mut rest = counts;
    let mut out: Vec<SongPlayCount> = Vec::new();
    assert(out@.to_multiset() =~= Multiset::empty());
    assert(out@.to_multiset().add(rest@.to_multiset()) =~= counts@.to_multiset());
    while rest.len() > 0
        invariant
            out@.to_multiset().add(rest@.to_multiset()) == counts@.to_multiset(),
            most_played_first(out@),
        decreases rest@.len(),
    {
        let ghost before = rest@;
        let x = rest.pop().unwrap();
        assert(before == rest@.push(x));
        let mut j: usize = 0;
        while j < out.len() && out[j].count > x.count
            invariant
                j <= out@.len(),
                forall|k: int| 0 <= k < j ==> #[trigger] out@[k].count > x.count,
            decreases out@.len() - j,
        {
            j = j + 1;
        }
        let ghost sorted = out@;
        out.insert(j, x);
        proof {
            assert(out@ == sorted.insert(j as int, x));
            assert forall|a: int, b: int| 0 <= a < b < out@.len() implies #[trigger] out@[a].count
                >= #[trigger] out@[b].count by {
                if b < j {
                    assert(out@[a] == sorted[a] && out@[b] == sorted[b]);
                } else if b == j {
                    assert(out@[a] == sorted[a]);
                } else if a < j {
                    assert(out@[a] == sorted[a] && out@[b] == sorted[b - 1]);
                } else if a == j {
                    assert(out@[b] == sorted[b - 1]);
                    assert(sorted[j as int].count <= x.count);
                } else {
                    assert(out@[a] == sorted[a - 1] && out@[b] == sorted[b - 1]);
                }
            }
            vstd::seq_lib::to_multiset_insert(sorted, j as int, x);
            vstd::seq_lib::to_multiset_build(rest@, x);
            assert(out@.to_multiset().add(rest@.to_multiset()) =~= counts@.to_multiset());
        }
    }
    assert(rest@.to_multiset() =~= Multiset::empty());
    assert(out@.to_multiset() =~= counts@.to_multiset());
    out
}

} // verus!
