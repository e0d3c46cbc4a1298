use vstd::prelude::*;
use crate::discover::FoundFile;
use crate::song::{song_from_probe, song_matches, ProbedFile, Song};
use crate::numerals::is_hex_u64_text;
use crate::thumbnails::ThumbnailCache;

verus! {

/// A progress notification: `current` files of `total` are done.
#[derive(Clone, Copy, Debug, PartialEq, Eq, Structural)]
pub struct ProgressEvent {
    pub current: usize,
    pub total: usize,
}

/// Progress is reported at every tenth completion and at the last one.
pub open spec fn progress_due(count: nat, total: nat) -> bool {
    count % 10 == 0 || count == total
}

/// The event, if any, due when the `count`-th of `total` files completes.
pub open spec fn event_for(count: nat, total: nat) -> Option<ProgressEvent> {
    if progress_due(count, total) {
        Some(ProgressEvent { current: count as usize, total: total as usize })
    } else {
        None
    }
}

/// The `current` values reported over the first `done` completions of a scan
/// of `total` files, in the order they are reported.
pub open spec fn reported(done: nat, total: nat) -> Seq<nat>
    decreases done,
{
    if done == 0 {
        Seq::empty()
    } else if progress_due(done, total) {
        reported((done - 1) as nat, total).push(done)
    } else {
        reported((done - 1) as nat, total)
    }
}

/// Decides the event due when the `count`-th of `total` files completes.
pub fn progress_event(count: usize, total: usize) -> (r: Option<ProgressEvent>)
    ensures
        r == event_for(count as nat, total as nat),
{
    if count % 10 == 0 || count == total {
        Some(ProgressEvent { current: count, total })
    } else {
        None
    }
}

proof fn lemma_reported_shape(done: nat, total: nat)
    ensures
        forall|i: int| 0 <= i < reported(done, total).len() ==> 1 <= #[trigger] reported(done, total)[i] <= done,
        forall|i: int, j: int|
            0 <= i < j < reported(done, total).len() ==> #[trigger] reported(done, total)[i]
                < #[trigger] reported(done, total)[j],
        progress_due(done, total) && done > 0 ==> reported(done, total).len() > 0
            && reported(done, total).last() == done,
    decreases done,
{
    if done > 0 {
        let prev = reported((done - 1) as nat, total);
        lemma_reported_shape((done - 1) as nat, total);
        let cur = reported(done, total);
        if progress_due(done, total) {
            assert(cur == prev.push(done));
            assert forall|i: int| 0 <= i < cur.len() implies 1 <= #[trigger] cur[i] <= done by {
                if i < prev.len() {
                    assert(cur[i] == prev[i]);
                }
            }
            assert forall|i: int, j: int| 0 <= i < j < cur.len() implies #[trigger] cur[i] < #[trigger] cur[j] by {
                assert(cur[i] == prev[i]);
                if j < prev.len() {
                    assert(cur[j] == prev[j]);
                }
            }
        } else {
            assert(cur == prev);
        }
    }
}

/// Over a whole scan of `total > 0` files the reported counts rise strictly,
/// stay within `1..=total`, and the last one reported is `total`.
pub proof fn law_progress_complete(total: nat)
    requires
        total > 0,
    ensures
        forall|i: int, j: int|
            0 <= i < j < reported(total, total).len() ==> #[trigger] reported(total, total)[i]
                <= #[trigger] reported(total, total)[j],
        forall|i: int|
            0 <= i < reported(total, total).len() ==> 1 <= #[trigger] reported(total, total)[i]
                <= total,
        reported(total, total).len() > 0,
        reported(total, total).last() == total,
{
    lemma_reported_shape(total, total);
}

/// The number of filled slots.
pub open spec fn filled_count(slots: Seq<Option<Song>>) -> nat
    decreases slots.len(),
{
    if slots.len() == 0 {
        0
    } else {
        filled_count(slots.drop_last()) + if slots.last() is Some {
            1nat
        } else {
            0nat
        }
    }
}

proof fn lemma_filled_bound(slots: Seq<Option<Song>>)
    ensures
        filled_count(slots) <= slots.len(),
        filled_count(slots) == slots.len() ==> forall|i: int|
            0 <= i < slots.len() ==> #[trigger] slots[i] is Some,
    decreases slots.len(),
{
    if slots.len() > 0 {
        lemma_filled_bound(slots.drop_last());
        if filled_count(slots) == slots.len() {
            assert forall|i: int| 0 <= i < slots.len() implies #[trigger] slots[i] is Some by {
                if i < slots.len() - 1 {
                    assert(slots.drop_last()[i] == slots[i]);
                }
            }
        }
    }
}

proof fn lemma_all_filled(slots: Seq<Option<Song>>)
    requires
        forall|i: int| 0 <= i < slots.len() ==> #[trigger] slots[i] is Some,
    ensures
        filled_count(slots) == slots.len(),
    decreases slots.len(),
{
    if slots.len() > 0 {
        let p = slots.drop_last();
        assert forall|i: int| 0 <= i < p.len() implies #[trigger] p[i] is Some by {
            assert(p[i] == slots[i]);
        }
        lemma_all_filled(p);
    }
}

proof fn lemma_fill_one(slots: Seq<Option<Song>>, i: int, song: Song)
    requires
        0 <= i < slots.len(),
        slots[i] is None,
    ensures
        filled_count(slots.update(i, Some(song))) == filled_count(slots) + 1,
    decreases slots.len(),
{
    let after = slots.update(i, Some(song));
    if i == slots.len() - 1 {
        assert(after.drop_last() =~= slots.drop_last());
    } else {
        assert(after.drop_last() =~= slots.drop_last().update(i, Some(song)));
        lemma_fill_one(slots.drop_last(), i, song);
    }
}

proof fn lemma_all_none(n: nat)
    ensures
        filled_count(Seq::new(n, |i: int| None::<Song>)) == 0,
    decreases n,
{
    if n > 0 {
        assert(Seq::new(n, |i: int| None::<Song>).drop_last() =~= Seq::new(
            (n - 1) as nat,
            |i: int| None::<Song>,
        ));
        lemma_all_none((n - 1) as nat);
    }
}

/// The slots of a scan of `n` files after the files at `order` completed, in
/// that order, with the records `songs`, as `complete` fills them.
pub open spec fn after_completions(n: nat, order: Seq<int>, songs: Seq<Song>) -> Seq<Option<Song>>
    decreases order.len(),
{
    if order.len() == 0 || songs.len() == 0 {
        Seq::new(n, |i: int| None::<Song>)
    } else {
        after_completions(n, order.drop_last(), songs.drop_last()).update(
            order.last(),
            Some(songs.last()),
        )
    }
}

/// `order` names files of a scan of `n`, none twice.
pub open spec fn distinct_files(n: nat, order: Seq<int>) -> bool {
    &&& forall|k: int| 0 <= k < order.len() ==> 0 <= #[trigger] order[k] < n
    &&& forall|k: int, m: int| 0 <= k < m < order.len() ==> #[trigger] order[k] != #[trigger] order[m]
}

proof fn lemma_after_completions(n: nat, order: Seq<int>, songs: Seq<Song>)
    requires
        order.len() == songs.len(),
        order.len() <= n,
        distinct_files(n, order),
    ensures
        after_completions(n, order, songs).len() == n,
        filled_count(after_completions(n, order, songs)) == order.len(),
        forall|m: int|
            0 <= m < order.len() ==> after_completions(n, order, songs)[#[trigger] order[m]] == Some(
                songs[m],
            ),
        forall|j: int|
            0 <= j < n && (forall|m: int| 0 <= m < order.len() ==> #[trigger] order[m] != j)
                ==> after_completions(n, order, songs)[j] is None,
    decreases order.len(),
{
    if order.len() == 0 {
        lemma_all_none(n);
    } else {
        let o = order.drop_last();
        let g = songs.drop_last();
        assert forall|k: int, m: int| 0 <= k < m < o.len() implies #[trigger] o[k] != #[trigger] o[m] by {
            assert(o[k] == order[k] && o[m] == order[m]);
        }
        assert forall|k: int| 0 <= k < o.len() implies 0 <= #[trigger] o[k] < n by {
            assert(o[k] == order[k]);
        }
        lemma_after_completions(n, o, g);
        let prev = after_completions(n, o, g);
        let last = order.last();
        assert forall|m: int| 0 <= m < o.len() implies #[trigger] o[m] != last by {
            assert(o[m] == order[m]);
            assert(order[m] != order[order.len() - 1]);
        }
        assert(prev[last] is None);
        lemma_fill_one(prev, last, songs.last());
        let cur = after_completions(n, order, songs);
        assert(cur == prev.update(last, Some(songs.last())));
        assert forall|m: int| 0 <= m < order.len() implies cur[#[trigger] order[m]] == Some(songs[m]) by {
            if m < o.len() {
                assert(o[m] == order[m] && g[m] == songs[m]);
                assert(order[m] != last);
            }
        }
        assert forall|j: int|
            0 <= j < n && (forall|m: int| 0 <= m < order.len() ==> #[trigger] order[m] != j) implies cur[j] is None by {
            assert forall|m: int| 0 <= m < o.len() implies #[trigger] o[m] != j by {
                assert(o[m] == order[m]);
            }
            assert(order[order.len() - 1] != j);
        }
    }
}

/// A whole scan: when each of the `n` files completes once, in any order,
/// every file is pending when it completes, the count reaches `n` (so the
/// scan can finish), and the slot of each file holds the record made for it.
/// `finish` then returns those records in discovery order, one per file.
pub proof fn law_whole_scan(n: nat, order: Seq<int>, songs: Seq<Song>)
    requires
        order.len() == n,
        songs.len() == n,
        distinct_files(n, order),
    ensures
        forall|k: int|
            0 <= k < n ==> after_completions(n, order.take(k), songs.take(k))[#[trigger] order[k]] is None,
        filled_count(after_completions(n, order, songs)) == n,
        forall|i: int| 0 <= i < n ==> #[trigger] after_completions(n, order, songs)[i] is Some,
        forall|k: int| 0 <= k < n ==> after_completions(n, order, songs)[#[trigger] order[k]] == Some(
            songs[k],
        ),
{
    lemma_after_completions(n, order, songs);
    lemma_filled_bound(after_completions(n, order, songs));
    assert forall|k: int| 0 <= k < n implies after_completions(n, order.take(k), songs.take(k))[#[trigger] order[k]] is None by {
        let o = order.take(k);
        assert forall|a: int, b: int| 0 <= a < b < o.len() implies #[trigger] o[a] != #[trigger] o[b] by {
            assert(o[a] == order[a] && o[b] == order[b]);
        }
        assert forall|a: int| 0 <= a < o.len() implies 0 <= #[trigger] o[a] < n by {
            assert(o[a] == order[a]);
        }
        lemma_after_completions(n, o, songs.take(k));
        assert forall|m: int| 0 <= m < o.len() implies #[trigger] o[m] != order[k] by {
            assert(o[m] == order[m]);
        }
    }
}

/// The handle a record keeps: the one offered, where the cache holds a blob
/// under it.
pub open spec fn stored_handle(offered: Option<String>, cache: Map<Seq<char>, Seq<u8>>) -> Option<String> {
    match offered {
        Some(h) => if cache.contains_key(h@) {
            Some(h)
        } else {
            None
        },
        None => None,
    }
}

/// The working state of one scan: the files in discovery order, one slot per
/// file for its record, and the count of completed files. Records land in the
/// slot of their file, whatever order the files complete in.
pub struct ScanState {
    files: Vec<FoundFile>,
    slots: Vec<Option<Song>>,
    completed: usize,
    reports: Ghost<Seq<nat>>,
}

impl ScanState {
    /// The files of the scan, in discovery order.
    pub closed spec fn files(&self) -> Seq<FoundFile> {
        self.files@
    }

    /// The record of each file, where it has completed.
    pub closed spec fn slots(&self) -> Seq<Option<Song>> {
        self.slots@
    }

    /// How many files have completed.
    pub closed spec fn completed(&self) -> nat {
        self.completed as nat
    }

    /// The `current` values of the events handed out so far.
    pub closed spec fn reports(&self) -> Seq<nat> {
        self.reports@
    }

    pub closed spec fn wf(&self) -> bool {
        &&& self.slots@.len() == self.files@.len()
        &&& self.completed as nat == filled_count(self.slots@)
        &&& self.reports@ == reported(self.completed as nat, self.files@.len())
        &&& forall|i: int|
            0 <= i < self.slots@.len() && #[trigger] self.slots@[i] is Some ==> self.slots@[i].unwrap().path
                == self.files@[i].path
    }

    /// The count of completed files is the count of filled slots, at most the
    /// number of files, and it reaches that number exactly when every slot
    /// is filled.
    pub proof fn lemma_counts(&self)
        requires
            self.wf(),
        ensures
            self.slots().len() == self.files().len(),
            self.completed() == filled_count(self.slots()),
            self.completed() <= self.files().len(),
            (self.completed() == self.files().len()) <==> (forall|i: int|
                0 <= i < self.slots().len() ==> #[trigger] self.slots()[i] is Some),
    {
        lemma_filled_bound(self.slots@);
        if forall|i: int| 0 <= i < self.slots@.len() ==> #[trigger] self.slots@[i] is Some {
            lemma_all_filled(self.slots@);
        }
    }

    /// Starts a scan of `files`; the total is fixed to their number.
    pub fn new(files: Vec<FoundFile>) -> (r: ScanState)
        ensures
            r.wf(),
            r.files() == files@,
            r.completed() == 0,
            r.reports() == Seq::<nat>::empty(),
            r.slots() == Seq::new(files@.len(), |i: int| None::<Song>),
    {
        let mut slots: Vec<Option<Song>> = Vec::new();
        let mut i: usize = 0;
        while i < files.len()
            invariant
                i <= files@.len(),
                slots@ == Seq::new(i as nat, |k: int| None::<Song>),
            decreases files@.len() - i,
        {
            slots.push(None);
            i = i + 1;
            assert(slots@ =~= Seq::new(i as nat, |k: int| None::<Song>));
        }
        proof {
            lemma_all_none(files@.len());
            assert(slots@ =~= Seq::new(files@.len(), |i: int| None::<Song>));
        }
        ScanState { files, slots, completed: 0, reports: Ghost(Seq::empty()) }
    }

    /// The number of files in the scan.
    pub fn total(&self) -> (r: usize)
        ensures
            r == self.files().len(),
    {
        self.files.len()
    }

    /// The file at `index` in discovery order.
    pub fn file(&self, index: usize) -> (r: &FoundFile)
        requires
            index < self.files().len(),
        ensures
            *r == self.files()[index as int],
    {
        &self.files[index]
    }

    /// Whether every file has completed.
    pub fn is_done(&self) -> (r: bool)
        requires
            self.wf(),
        ensures
            r == (self.completed() == self.files().len()),
    {
        self.completed == self.files.len()
    }

    /// Whether the file at `index` has yet to complete.
    pub fn is_pending(&self, index: usize) -> (r: bool)
        requires
            self.wf(),
            index < self.files().len(),
        ensures
            r == self.slots()[index as int] is None,
    {
        self.slots[index].is_none()
    }

    /// Records that the file at `index` completed, with what parsing it gave
    /// and the handle of its artwork thumbnail. The handle is kept only when
    /// `cache` holds a blob under it. The record is built from the file's own
    /// path, the count of completed files goes up by one, and the event due
    /// at that count, if any, is returned.
    pub fn complete(
        &mut self,
        index: usize,
        probe: Option<ProbedFile>,
        cover_handle: Option<String>,
        cache: &ThumbnailCache,
    ) -> (r: Option<ProgressEvent>)
        requires
            old(self).wf(),
            cache.wf(),
            index < old(self).files().len(),
            old(self).slots()[index as int] is None,
        ensures
            final(self).wf(),
            final(self).files() == old(self).files(),
            final(self).completed() == old(self).completed() + 1,
            final(self).slots() == old(self).slots().update(
                index as int,
                final(self).slots()[index as int],
            ),
            final(self).slots()[index as int] matches Some(song) && song_matches(
                song,
                old(self).files()[index as int].path,
                old(self).files()[index as int].file_name,
                old(self).files()[index as int].size,
                probe,
                stored_handle(cover_handle, cache@),
            ),
            final(self).slots()[index as int] matches Some(song) && (song.cover_handle matches Some(
                h,
            ) ==> cache@.contains_key(h@) && is_hex_u64_text(h@)),
            final(self).completed() <= final(self).files().len(),
            r == event_for(final(self).completed(), final(self).files().len()),
            final(self).reports() == if r is Some {
                old(self).reports().push(final(self).completed())
            } else {
                old(self).reports()
            },
    {
        let n = self.slots.len();
        let kept = match cover_handle {
            Some(h) => {
                if cache.contains(h.as_str()) {
                    Some(h)
                } else {
                    None
                }
            },
            None => None,
        };
        proof {
            if kept is Some {
                let h = kept->Some_0;
                cache.lemma_shape();
                crate::thumbnails::lemma_handle_shape(cache@[h@]);
            }
        }
        let file = &self.files[index];
        let song = song_from_probe(file.path.clone(), file.file_name.clone(), file.size, probe, kept);
        proof {
            lemma_fill_one(self.slots@, index as int, song);
            lemma_filled_bound(self.slots@.update(index as int, Some(song)));
        }
        let ghost before = self.slots@;
        self.slots.set(index, Some(song));
        self.completed = self.completed + 1;
        let event = progress_event(self.completed, self.files.len());
        proof {
            self.reports@ = reported(self.completed as nat, self.files@.len());
            assert forall|i: int|
                0 <= i < self.slots@.len() && #[trigger] self.slots@[i] is Some implies self.slots@[i].unwrap().path
                    == self.files@[i].path by {
                if i != index {
                    assert(self.slots@[i] == before[i]);
                }
            }
        }
        event
    }

    /// Ends a scan in which every file completed: the records in discovery
    /// order, one per file, each built from its own file's path.
    pub fn finish(self) -> (r: Vec<Song>)
        requires
            self.wf(),
            self.completed() == self.files().len(),
        ensures
            r@.len() == self.files().len(),
            forall|i: int| 0 <= i < r@.len() ==> self.slots()[i] == Some(#[trigger] r@[i]),
            forall|i: int| 0 <= i < r@.len() ==> (#[trigger] r@[i]).path == self.files()[i].path,
            self.reports() == reported(self.files().len(), self.files().len()),
    {
        proof {
            lemma_filled_bound(self.slots@);
        }
        let ghost slots = self.slots@;
        let ghost files = self.files@;
        let mut slots_left = self.slots;
        let mut rev: Vec<Song> = Vec::new();
        while slots_left.len() > 0
            invariant
                slots_left@ == slots.subrange(0, slots_left@.len() as int),
                slots_left@.len() <= slots.len(),
                rev@.len() == slots.len() - slots_left@.len(),
                forall|k: int| 0 <= k < slots.len() ==> #[trigger] slots[k] is Some,
                forall|k: int|
                    0 <= k < rev@.len() ==> Some(#[trigger] rev@[k]) == slots[slots.len() - 1 - k],
            decreases slots_left@.len(),
        {
            let last = slots_left.pop().unwrap();
            match last {
                Some(song) => {
                    rev.push(song);
                },
                None => {
                    assert(slots[slots_left@.len() as int] is Some);
                },
            }
        }
        let mut out: Vec<Song> = Vec::new();
        while rev.len() > 0
            invariant
                rev@.len() + out@.len() == slots.len(),
                forall|k: int|
                    0 <= k < rev@.len() ==> Some(#[trigger] rev@[k]) == slots[slots.len() - 1 - k],
                forall|k: int| 0 <= k < out@.len() ==> Some(#[trigger] out@[k]) == slots[k],
            decreases rev@.len(),
        {
            let song = rev.pop().unwrap();
            out.push(song);
        }
        proof {
            assert forall|i: int| 0 <= i < out@.len() implies (#[trigger] out@[i]).path == files[i].path by {
                assert(slots[i] == Some(out@[i]));
            }
        }
        out
    }
}

} // verus!
