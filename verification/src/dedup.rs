//! Resolution of duplicate tracks: every pair of live tracks is examined once,
//! in index order; when the caller finds a pair to be duplicates, the track
//! with more hits (on a tie, the lower id) absorbs the other, whose id is
//! then marked for removal. Removed tracks are skipped as later partners.
use vstd::prelude::*;
use std::collections::HashSet;
use crate::track::TrackState;

verus! {

/// What the duplicate scan needs to know of a track.
#[derive(Clone, Copy, Debug, PartialEq, Eq, Structural)]
pub struct DupTrack {
    pub state: TrackState,
    pub id: u32,
    pub hits: usize,
}

/// A merge decided by the scan: `superior` absorbs `inferior`.
#[derive(Clone, Copy, Debug, PartialEq, Eq, Structural)]
pub struct Merge {
    pub superior: usize,
    pub inferior: usize,
}

/// A track takes part in the scan: it is live (not terminated) and its id
/// has not been marked for removal.
pub open spec fn eligible(t: DupTrack, removed: Set<u32>) -> bool {
    t.state != TrackState::Terminated && !removed.contains(t.id)
}

/// The next pair to examine from position `(i, j)`: `j <= i` means that
/// track `i` has not been checked yet; otherwise `j` is the next partner of
/// `i` to consider.
pub open spec fn seek(ts: Seq<DupTrack>, removed: Set<u32>, i: int, j: int) -> Option<(int, int)>
    decreases ts.len() - i, ts.len() + 1 - j,
{
    if i < 0 || i >= ts.len() {
        None
    } else if j <= i {
        if !eligible(ts[i], removed) {
            seek(ts, removed, i + 1, i + 1)
        } else {
            seek(ts, removed, i, i + 1)
        }
    } else if j >= ts.len() {
        seek(ts, removed, i + 1, i + 1)
    } else if !eligible(ts[j], removed) {
        seek(ts, removed, i, j + 1)
    } else {
        Some((i, j))
    }
}

/// Of two duplicates, the one kept: more hits, then the lower id.
pub open spec fn superior_of(ts: Seq<DupTrack>, i: int, j: int) -> Merge {
    if ts[i].hits > ts[j].hits {
        Merge { superior: i as usize, inferior: j as usize }
    } else if ts[i].hits < ts[j].hits {
        Merge { superior: j as usize, inferior: i as usize }
    } else if ts[i].id <= ts[j].id {
        Merge { superior: i as usize, inferior: j as usize }
    } else {
        Merge { superior: j as usize, inferior: i as usize }
    }
}

/// State of a duplicate scan over a fixed list of tracks.
pub struct DuplicateScan {
    i: usize,
    j: usize,
    removed: HashSet<u32>,
    pending: bool,
}

impl DuplicateScan {
    /// Position of the scan.
    pub closed spec fn position(&self) -> (int, int) {
        (self.i as int, self.j as int)
    }

    /// Ids marked for removal.
    pub closed spec fn removed_ids(&self) -> Set<u32> {
        self.removed@
    }

    /// Whether the scan has handed out a pair that awaits its verdict.
    pub closed spec fn awaiting(&self) -> bool {
        self.pending
    }

    /// A scan at its start.
    pub fn new() -> (s: Self)
        ensures
            s.position() == (0int, 0int),
            s.removed_ids() == Set::<u32>::empty(),
            !s.awaiting(),
    {
        DuplicateScan { i: 0, j: 0, removed: HashSet::new(), pending: false }
    }

    /// The next pair of tracks to examine, or `None` when the scan is over.
    pub fn next_pair(&mut self, ts: &[DupTrack]) -> (p: Option<(usize, usize)>)
        requires
            !old(self).awaiting(),
            old(self).position().0 <= ts.len(),
            old(self).position().1 <= ts.len(),
        ensures
            p matches Some(q) ==> seek(ts@, old(self).removed_ids(), old(self).position().0, old(self).position().1)
                == Some((q.0 as int, q.1 as int)),
            p is None ==> seek(ts@, old(self).removed_ids(), old(self).position().0, old(self).position().1) is None,
            final(self).removed_ids() == old(self).removed_ids(),
            final(self).awaiting() == p is Some,
            p matches Some(q) ==> final(self).position() == (q.0 as int, q.1 as int),
            p is None ==> final(self).position() == (ts.len() as int, ts.len() as int),
    {
        let n = ts.len();
        let ghost start = (self.i as int, self.j as int);
        while self.i < n
            invariant
                !self.pending,
                n == ts@.len(),
                self.i <= n,
                self.j <= n,
                self.removed@ == old(self).removed@,
                start == old(self).position(),
                seek(ts@, self.removed@, self.i as int, self.j as int) == seek(
                    ts@,
                    old(self).removed@,
                    start.0,
                    start.1,
                ),
            decreases n - self.i, n + 1 - self.j,
        {
            if self.j <= self.i {
                if !self.eligible_at(ts, self.i) {
                    self.i = self.i + 1;
                    self.j = self.i;
                } else {
                    self.j = self.i + 1;
                }
            } else if self.j >= n {
                self.i = self.i + 1;
                self.j = self.i;
            } else if !self.eligible_at(ts, self.j) {
                self.j = self.j + 1;
            } else {
                assert(seek(ts@, self.removed@, self.i as int, self.j as int) == Some(
                    (self.i as int, self.j as int),
                ));
                self.pending = true;
                return Some((self.i, self.j));
            }
        }
        self.j = n;
        None
    }

    /// Whether track `k` takes part in the scan.
    fn eligible_at(&self, ts: &[DupTrack], k: usize) -> (b: bool)
        requires
            k < ts.len(),
        ensures
            b == eligible(ts@[k as int], self.removed@),
    {
        broadcast use vstd::std_specs::hash::group_hash_axioms;
        let t = ts[k];
        if t.state == TrackState::Terminated {
            return false;
        }
        !self.removed.contains(&t.id)
    }

    /// Records the verdict on the pair last handed out. For duplicates the
    /// superior track absorbs the other, whose id is marked for removal; the
    /// scan then moves on to the next partner of the same track.
    pub fn resolve(&mut self, ts: &[DupTrack], duplicate: bool) -> (m: Option<Merge>)
        requires
            old(self).awaiting(),
            seek(ts@, old(self).removed_ids(), old(self).position().0, old(self).position().1)
                == Some(old(self).position()),
        ensures
            !final(self).awaiting(),
            final(self).position() == (old(self).position().0, old(self).position().1 + 1),
            duplicate ==> m == Some(superior_of(ts@, old(self).position().0, old(self).position().1)),
            duplicate ==> final(self).removed_ids() == old(self).removed_ids().insert(
                ts@[superior_of(ts@, old(self).position().0, old(self).position().1).inferior as int].id,
            ),
            !duplicate ==> m is None && final(self).removed_ids() == old(self).removed_ids(),
    {
        proof {
            self.lemma_seek_found(ts@);
        }
        assert(self.j < ts.len());
        let i = self.i;
        let j = self.j;
        self.pending = false;
        self.j = self.j + 1;
        if !duplicate {
            return None;
        }
        let a = ts[i];
        let b = ts[j];
        let m = if a.hits > b.hits {
            Merge { superior: i, inferior: j }
        } else if a.hits < b.hits {
            Merge { superior: j, inferior: i }
        } else if a.id <= b.id {
            Merge { superior: i, inferior: j }
        } else {
            Merge { superior: j, inferior: i }
        };
        broadcast use vstd::std_specs::hash::group_hash_axioms;
        self.removed.insert(ts[m.inferior].id);
        Some(m)
    }

    /// A pair handed out lies in range, with `i < j`.
    proof fn lemma_seek_found(&self, ts: Seq<DupTrack>)
        requires
            seek(ts, self.removed@, self.i as int, self.j as int) == Some((self.i as int, self.j as int)),
        ensures
            self.i < self.j < ts.len(),
    {
        lemma_seek_result(ts, self.removed@, self.i as int, self.j as int);
    }

    /// Positions of the tracks the resolution keeps, in their order: those
    /// whose id was not marked for removal.
    pub fn survivors(&self, ts: &[DupTrack]) -> (keep: Vec<usize>)
        ensures
            keep@ == kept(ts@, self.removed_ids(), ts@.len() as int),
    {
        let mut keep: Vec<usize> = Vec::new();
        let mut k: usize = 0;
        while k < ts.len()
            invariant
                k <= ts@.len(),
                keep@ == kept(ts@, self.removed@, k as int),
            decreases ts@.len() - k,
        {
            if !self.is_removed(ts[k].id) {
                keep.push(k);
            }
            proof {
                assert(kept(ts@, self.removed@, k + 1) =~= keep@);
            }
            k = k + 1;
        }
        keep
    }

    /// Whether the track with id `id` was marked for removal.
    pub fn is_removed(&self, id: u32) -> (b: bool)
        ensures
            b == self.removed_ids().contains(id),
    {
        broadcast use vstd::std_specs::hash::group_hash_axioms;
        self.removed.contains(&id)
    }
}

/// Positions among the first `n` tracks whose id is not in `removed`, in
/// increasing order.
pub open spec fn kept(ts: Seq<DupTrack>, removed: Set<u32>, n: int) -> Seq<usize>
    decreases n,
{
    if n <= 0 {
        Seq::empty()
    } else if removed.contains(ts[n - 1].id) {
        kept(ts, removed, n - 1)
    } else {
        kept(ts, removed, n - 1).push((n - 1) as usize)
    }
}

/// Survivor law: the kept positions are increasing (the survivors keep
/// their order) and are exactly the positions whose id was not marked.
pub proof fn lemma_kept(ts: Seq<DupTrack>, removed: Set<u32>, n: int)
    requires
        0 <= n <= ts.len(),
        ts.len() <= usize::MAX,
    ensures
        forall|a: int, b: int| 0 <= a < b < kept(ts, removed, n).len() ==> kept(ts, removed, n)[a] < kept(ts, removed, n)[b],
        forall|k: int| 0 <= k < n ==> (kept(ts, removed, n).contains(k as usize) <==> !removed.contains(#[trigger] ts[k].id)),
        forall|a: int| 0 <= a < kept(ts, removed, n).len() ==> kept(ts, removed, n)[a] < n,
    decreases n,
{
    if n > 0 {
        lemma_kept(ts, removed, n - 1);
        let prev = kept(ts, removed, n - 1);
        let cur = kept(ts, removed, n);
        assert forall|k: int| 0 <= k < n implies (cur.contains(k as usize) <==> !removed.contains(#[trigger] ts[k].id)) by {
            if k < n - 1 {
                if cur.contains(k as usize) {
                    let a = choose|a: int| 0 <= a < cur.len() && cur[a] == k as usize;
                    if a < prev.len() {
                        assert(prev[a] == k as usize);
                    }
                }
                if prev.contains(k as usize) {
                    let a = choose|a: int| 0 <= a < prev.len() && prev[a] == k as usize;
                    assert(cur[a] == k as usize);
                }
            } else {
                if cur.contains(k as usize) && removed.contains(ts[k].id) {
                    let a = choose|a: int| 0 <= a < cur.len() && cur[a] == k as usize;
                    assert(prev[a] < n - 1);
                }
                if !removed.contains(ts[k].id) {
                    assert(cur[cur.len() - 1] == k as usize);
                }
            }
        }
    }
}

/// Live-track law: from a position whose first track is live, every pair the
/// scan examines is of two live tracks, so a merge never touches a
/// terminated track; the position after its verdict is again of that kind.
pub proof fn lemma_scan_pairs_live(ts: Seq<DupTrack>, removed: Set<u32>, i: int, j: int)
    requires
        j > i ==> 0 <= i < ts.len() && ts[i].state != TrackState::Terminated,
    ensures
        seek(ts, removed, i, j) matches Some(q) ==> {
            &&& ts[q.0].state != TrackState::Terminated
            &&& ts[q.1].state != TrackState::Terminated
            &&& q.1 + 1 > q.0
        },
    decreases ts.len() - i, ts.len() + 1 - j,
{
    lemma_seek_result(ts, removed, i, j);
    if 0 <= i < ts.len() {
        if j <= i {
            if !eligible(ts[i], removed) {
                lemma_scan_pairs_live(ts, removed, i + 1, i + 1);
            } else {
                lemma_scan_pairs_live(ts, removed, i, i + 1);
            }
        } else if j >= ts.len() {
            lemma_scan_pairs_live(ts, removed, i + 1, i + 1);
        } else if !eligible(ts[j], removed) {
            lemma_scan_pairs_live(ts, removed, i, j + 1);
        }
    }
}

/// What `seek` finds is a pair `i < j` of eligible tracks at or after the
/// position, in index order.
pub proof fn lemma_seek_result(ts: Seq<DupTrack>, removed: Set<u32>, i: int, j: int)
    ensures
        seek(ts, removed, i, j) matches Some(q) ==> {
            &&& 0 <= q.0 < q.1 < ts.len()
            &&& eligible(ts[q.1], removed)
            &&& i <= q.0
            &&& (q.0 == i && j > i ==> j <= q.1)
        },
    decreases ts.len() - i, ts.len() + 1 - j,
{
    if 0 <= i < ts.len() {
        if j <= i {
            if !eligible(ts[i], removed) {
                lemma_seek_result(ts, removed, i + 1, i + 1);
            } else {
                lemma_seek_result(ts, removed, i, i + 1);
            }
        } else if j >= ts.len() {
            lemma_seek_result(ts, removed, i + 1, i + 1);
        } else if !eligible(ts[j], removed) {
            lemma_seek_result(ts, removed, i, j + 1);
        }
    }
}

/// Superiority law: the track that absorbs the other has at least as many
/// hits, and on equal hits an id no larger than the other's.
pub proof fn lemma_superior_keeps_longer_track(ts: Seq<DupTrack>, i: int, j: int)
    requires
        ts.len() <= usize::MAX,
        0 <= i < ts.len(),
        0 <= j < ts.len(),
    ensures
        ({
            let m = superior_of(ts, i, j);
            &&& {
                ||| m.superior as int == i && m.inferior as int == j
                ||| m.superior as int == j && m.inferior as int == i
            }
            &&& ts[m.superior as int].hits >= ts[m.inferior as int].hits
            &&& ts[m.superior as int].hits == ts[m.inferior as int].hits ==> ts[m.superior as int].id
                <= ts[m.inferior as int].id
        }),
{
}

} // verus!
