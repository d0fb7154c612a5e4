//! Global-nearest-neighbour association of detections to tracks: candidate
//! (track, detection) pairs, already ordered by statistical distance, are
//! taken greedily so that every track and every detection is used at most once.
use vstd::prelude::*;

verus! {

/// Assignment after the greedy pass over `pairs`: the pairs taken in order,
/// and the tracks and detections they use.
pub open spec fn greedy(pairs: Seq<(usize, usize)>) -> (Seq<(usize, usize)>, Set<usize>, Set<usize>)
    decreases pairs.len(),
{
    if pairs.len() == 0 {
        (Seq::empty(), Set::empty(), Set::empty())
    } else {
        let (taken, tracks, dets) = greedy(pairs.drop_last());
        let (t, d) = pairs.last();
        if tracks.contains(t) || dets.contains(d) {
            (taken, tracks, dets)
        } else {
            (taken.push((t, d)), tracks.insert(t), dets.insert(d))
        }
    }
}

/// Result of an association pass.
pub struct Association {
    /// Pairs taken, in the order they were taken.
    pub assigned: Vec<(usize, usize)>,
    /// Per track: whether it received a detection.
    pub track_used: Vec<bool>,
    /// Per detection: whether it went to a track.
    pub detection_used: Vec<bool>,
}

/// Takes the candidate pairs in order, skipping any whose track or detection
/// is already used.
pub fn greedy_associate(pairs: &[(usize, usize)], num_tracks: usize, num_detections: usize) -> (a: Association)
    requires
        forall|k: int| 0 <= k < pairs@.len() ==> (#[trigger] pairs@[k]).0 < num_tracks && pairs@[k].1 < num_detections,
    ensures
        a.assigned@ == greedy(pairs@).0,
        a.track_used@.len() == num_tracks,
        a.detection_used@.len() == num_detections,
        forall|t: int| 0 <= t < num_tracks ==> #[trigger] a.track_used@[t] == greedy(pairs@).1.contains(t as usize),
        forall|d: int| 0 <= d < num_detections ==> #[trigger] a.detection_used@[d] == greedy(pairs@).2.contains(d as usize),
{
    let mut track_used: Vec<bool> = Vec::new();
    let mut k: usize = 0;
    while k < num_tracks
        invariant
            k <= num_tracks,
            track_used@.len() == k,
            forall|q: int| 0 <= q < k ==> !(#[trigger] track_used@[q]),
        decreases num_tracks - k,
    {
        track_used.push(false);
        k = k + 1;
    }
    let mut detection_used: Vec<bool> = Vec::new();
    let mut k: usize = 0;
    while k < num_detections
        invariant
            k <= num_detections,
            detection_used@.len() == k,
            forall|q: int| 0 <= q < k ==> !(#[trigger] detection_used@[q]),
        decreases num_detections - k,
    {
        detection_used.push(false);
        k = k + 1;
    }
    let mut assigned: Vec<(usize, usize)> = Vec::new();
    let mut i: usize = 0;
    while i < pairs.len()
        invariant
            i <= pairs@.len(),
            forall|k: int| 0 <= k < pairs@.len() ==> (#[trigger] pairs@[k]).0 < num_tracks && pairs@[k].1 < num_detections,
            track_used@.len() == num_tracks,
            detection_used@.len() == num_detections,
            assigned@ == greedy(pairs@.subrange(0, i as int)).0,
            forall|t: int|
                0 <= t < num_tracks ==> #[trigger] track_used@[t] == greedy(pairs@.subrange(0, i as int)).1.contains(
                    t as usize,
                ),
            forall|d: int|
                0 <= d < num_detections ==> #[trigger] detection_used@[d] == greedy(
                    pairs@.subrange(0, i as int),
                ).2.contains(d as usize),
            forall|t: usize| greedy(pairs@.subrange(0, i as int)).1.contains(t) ==> t < num_tracks,
            forall|d: usize| greedy(pairs@.subrange(0, i as int)).2.contains(d) ==> d < num_detections,
        decreases pairs@.len() - i,
    {
        let (t, d) = pairs[i];
        proof {
            let sub = pairs@.subrange(0, i + 1);
            assert(sub.drop_last() =~= pairs@.subrange(0, i as int));
            assert(sub.last() == (t, d));
        }
        if !track_used[t] && !detection_used[d] {
            track_used.set(t, true);
            detection_used.set(d, true);
            assigned.push((t, d));
        }
        i = i + 1;
    }
    proof {
        assert(pairs@.subrange(0, pairs@.len() as int) =~= pairs@);
    }
    Association { assigned, track_used, detection_used }
}

/// Association law: the greedy pass yields a matching (no track and no
/// detection twice) that is maximal (every candidate pair shares a track or a
/// detection with a taken pair), taken only from the candidates.
pub proof fn lemma_greedy_is_maximal_matching(pairs: Seq<(usize, usize)>)
    ensures
        ({
            let (taken, tracks, dets) = greedy(pairs);
            &&& forall|a: int, b: int|
                0 <= a < b < taken.len() ==> (#[trigger] taken[a]).0 != (#[trigger] taken[b]).0 && taken[a].1
                    != taken[b].1
            &&& forall|k: int| 0 <= k < pairs.len() ==> tracks.contains((#[trigger] pairs[k]).0) || dets.contains(pairs[k].1)
            &&& forall|a: int| 0 <= a < taken.len() ==> pairs.contains(#[trigger] taken[a])
            &&& forall|t: usize| tracks.contains(t) <==> exists|a: int| 0 <= a < taken.len() && (#[trigger] taken[a]).0 == t
            &&& forall|d: usize| dets.contains(d) <==> exists|a: int| 0 <= a < taken.len() && (#[trigger] taken[a]).1 == d
        }),
    decreases pairs.len(),
{
    if pairs.len() > 0 {
        let prefix = pairs.drop_last();
        lemma_greedy_is_maximal_matching(prefix);
        let (taken0, tracks0, dets0) = greedy(prefix);
        let (taken, tracks, dets) = greedy(pairs);
        let (t, d) = pairs.last();
        assert forall|k: int| 0 <= k < pairs.len() implies tracks.contains((#[trigger] pairs[k]).0) || dets.contains(pairs[k].1) by {
            if k < pairs.len() - 1 {
                assert(pairs[k] == prefix[k]);
            }
        }
        assert forall|a: int| 0 <= a < taken.len() implies pairs.contains(#[trigger] taken[a]) by {
            if a < taken0.len() {
                assert(taken[a] == taken0[a]);
                let k = choose|k: int| 0 <= k < prefix.len() && prefix[k] == taken0[a];
                assert(pairs[k] == prefix[k]);
            } else {
                assert(pairs[pairs.len() - 1] == taken[a]);
            }
        }
        if !(tracks0.contains(t) || dets0.contains(d)) {
            assert forall|a: int, b: int|
                0 <= a < b < taken.len() implies (#[trigger] taken[a]).0 != (#[trigger] taken[b]).0 && taken[a].1 != taken[b].1 by {
                if b == taken.len() - 1 {
                    assert(taken[a] == taken0[a]);
                    if taken[a].0 == t {
                        assert(tracks0.contains(t));
                    }
                    if taken[a].1 == d {
                        assert(dets0.contains(d));
                    }
                } else {
                    assert(taken[a] == taken0[a]);
                    assert(taken[b] == taken0[b]);
                }
            }
            assert forall|x: usize| tracks.contains(x) <==> exists|a: int| 0 <= a < taken.len() && (#[trigger] taken[a]).0 == x by {
                if tracks.contains(x) {
                    if x == t {
                        assert(taken[taken.len() - 1].0 == x);
                    } else {
                        let a = choose|a: int| 0 <= a < taken0.len() && (#[trigger] taken0[a]).0 == x;
                        assert(taken[a] == taken0[a]);
                    }
                }
                if exists|a: int| 0 <= a < taken.len() && (#[trigger] taken[a]).0 == x {
                    let a = choose|a: int| 0 <= a < taken.len() && (#[trigger] taken[a]).0 == x;
                    if a < taken0.len() {
                        assert(taken[a] == taken0[a]);
                    }
                }
            }
            assert forall|x: usize| dets.contains(x) <==> exists|a: int| 0 <= a < taken.len() && (#[trigger] taken[a]).1 == x by {
                if dets.contains(x) {
                    if x == d {
                        assert(taken[taken.len() - 1].1 == x);
                    } else {
                        let a = choose|a: int| 0 <= a < taken0.len() && (#[trigger] taken0[a]).1 == x;
                        assert(taken[a] == taken0[a]);
                    }
                }
                if exists|a: int| 0 <= a < taken.len() && (#[trigger] taken[a]).1 == x {
                    let a = choose|a: int| 0 <= a < taken.len() && (#[trigger] taken[a]).1 == x;
                    if a < taken0.len() {
                        assert(taken[a] == taken0[a]);
                    }
                }
            }
        }
    }
}

} // verus!
