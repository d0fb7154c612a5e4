//! Track bookkeeping of the tracking bank: the per-target lifecycle state
//! machine, the M-of-N candidate filter, target id allocation, the display
//! order and selection cycling of targets, and the retention rules.
use vstd::prelude::*;
use vstd::relations::{sorted_by, total_ordering};

verus! {

/// Lifecycle state of a tracked target.
#[derive(Clone, Copy, Debug, PartialEq, Eq, Structural)]
pub enum TrackState {
    Suspect,
    Active,
    /// Signal lost; the filter coasts on prediction until the coast limit.
    Coasting,
    Terminated,
}

/// Hit/miss bookkeeping of one target.
#[derive(Clone, Copy, Debug, PartialEq, Eq, Structural)]
pub struct TrackLifecycle {
    pub state: TrackState,
    pub hits: usize,
    pub misses: usize,
    /// Consecutive frames spent coasting.
    pub coasting_frames: u32,
}

/// Frame-count limits of the lifecycle, derived from the frame period.
#[derive(Clone, Copy, Debug, PartialEq, Eq, Structural)]
pub struct FrameLimits {
    /// Misses tolerated by an active airliner before it coasts.
    pub miss_airliner_active: usize,
    /// Misses tolerated by a suspect track before it is dropped.
    pub miss_suspect: usize,
    /// Misses tolerated by any other active track before it coasts.
    pub miss_other: usize,
    /// Coast frames allowed after more than 50 hits.
    pub coast_long: u32,
    /// Coast frames allowed after more than 20 hits.
    pub coast_medium: u32,
    /// Coast frames allowed otherwise.
    pub coast_short: u32,
}

/// What a lifecycle step did, for the operator log.
#[derive(Clone, Copy, Debug, PartialEq, Eq, Structural)]
pub enum LifecycleEvent {
    Quiet,
    /// A coasting track was hit again and is active once more.
    Recovered,
    /// A suspect track reached three hits.
    Confirmed,
    /// An active track missed too often and started coasting.
    CoastStarted,
    /// A coasting track exceeded its coast limit and was terminated.
    LostAfterCoast,
    /// A suspect track missed too often and was terminated.
    TimedOut,
}

/// Misses after which a track leaves its state.
pub open spec fn miss_limit(state: TrackState, is_airliner: bool, lim: FrameLimits) -> usize {
    if is_airliner && state == TrackState::Active {
        lim.miss_airliner_active
    } else if state == TrackState::Suspect {
        lim.miss_suspect
    } else {
        lim.miss_other
    }
}

/// Coast frames after which a coasting track is terminated.
pub open spec fn coast_limit(hits: usize, lim: FrameLimits) -> u32 {
    if hits > 50 {
        lim.coast_long
    } else if hits > 20 {
        lim.coast_medium
    } else {
        lim.coast_short
    }
}

/// One frame of the lifecycle:
/// Suspect --3 hits--> Active --miss limit--> Coasting --coast limit--> Terminated,
/// a hit while coasting restores Active, and a suspect track that reaches its
/// miss limit is terminated directly.
pub open spec fn lifecycle_next(
    t: TrackLifecycle,
    associated: bool,
    is_airliner: bool,
    lim: FrameLimits,
) -> (TrackLifecycle, LifecycleEvent) {
    if t.state == TrackState::Terminated {
        (t, LifecycleEvent::Quiet)
    } else if associated {
        let base = TrackLifecycle {
            hits: (t.hits + 1) as usize,
            misses: 0,
            coasting_frames: 0,
            ..t
        };
        if t.state == TrackState::Coasting {
            (TrackLifecycle { state: TrackState::Active, ..base }, LifecycleEvent::Recovered)
        } else if t.state == TrackState::Suspect && t.hits + 1 >= 3 {
            (TrackLifecycle { state: TrackState::Active, ..base }, LifecycleEvent::Confirmed)
        } else {
            (base, LifecycleEvent::Quiet)
        }
    } else if t.state == TrackState::Coasting {
        let frames = (t.coasting_frames + 1) as u32;
        if frames >= coast_limit(t.hits, lim) {
            (
                TrackLifecycle { state: TrackState::Terminated, coasting_frames: frames, ..t },
                LifecycleEvent::LostAfterCoast,
            )
        } else {
            (TrackLifecycle { coasting_frames: frames, ..t }, LifecycleEvent::Quiet)
        }
    } else {
        let misses = (t.misses + 1) as usize;
        if misses >= miss_limit(t.state, is_airliner, lim) {
            if t.state == TrackState::Active {
                (
                    TrackLifecycle {
                        state: TrackState::Coasting,
                        misses,
                        coasting_frames: 0,
                        ..t
                    },
                    LifecycleEvent::CoastStarted,
                )
            } else {
                (
                    TrackLifecycle { state: TrackState::Terminated, misses, ..t },
                    LifecycleEvent::TimedOut,
                )
            }
        } else {
            (TrackLifecycle { misses, ..t }, LifecycleEvent::Quiet)
        }
    }
}

/// The transitions of the lifecycle graph (staying put included).
pub open spec fn allowed_transition(from: TrackState, to: TrackState) -> bool {
    from == to || match from {
        TrackState::Suspect => to == TrackState::Active || to == TrackState::Terminated,
        TrackState::Active => to == TrackState::Coasting,
        TrackState::Coasting => to == TrackState::Active || to == TrackState::Terminated,
        TrackState::Terminated => false,
    }
}

impl TrackLifecycle {
    /// A fresh suspect track with its first hit.
    pub fn new_suspect() -> (t: Self)
        ensures
            t == (TrackLifecycle { state: TrackState::Suspect, hits: 1, misses: 0, coasting_frames: 0 }),
    {
        TrackLifecycle { state: TrackState::Suspect, hits: 1, misses: 0, coasting_frames: 0 }
    }

    /// Advances the lifecycle by one frame; `associated` tells whether a
    /// measurement was associated with the target in this frame.
    pub fn step(&mut self, associated: bool, is_airliner: bool, lim: FrameLimits) -> (ev: LifecycleEvent)
        requires
            old(self).hits < usize::MAX,
            old(self).misses < usize::MAX,
            old(self).coasting_frames < u32::MAX,
        ensures
            (*final(self), ev) == lifecycle_next(*old(self), associated, is_airliner, lim),
    {
        if self.state == TrackState::Terminated {
            return LifecycleEvent::Quiet;
        }
        if associated {
            self.hits = self.hits + 1;
            self.misses = 0;
            self.coasting_frames = 0;
            if self.state == TrackState::Coasting {
                self.state = TrackState::Active;
                return LifecycleEvent::Recovered;
            }
            if self.state == TrackState::Suspect && self.hits >= 3 {
                self.state = TrackState::Active;
                return LifecycleEvent::Confirmed;
            }
            LifecycleEvent::Quiet
        } else if self.state == TrackState::Coasting {
            self.coasting_frames = self.coasting_frames + 1;
            let max_coast_frames = if self.hits > 50 {
                lim.coast_long
            } else if self.hits > 20 {
                lim.coast_medium
            } else {
                lim.coast_short
            };
            if self.coasting_frames >= max_coast_frames {
                self.state = TrackState::Terminated;
                LifecycleEvent::LostAfterCoast
            } else {
                LifecycleEvent::Quiet
            }
        } else {
            self.misses = self.misses + 1;
            let max_misses = if is_airliner && self.state == TrackState::Active {
                lim.miss_airliner_active
            } else if self.state == TrackState::Suspect {
                lim.miss_suspect
            } else {
                lim.miss_other
            };
            if self.misses >= max_misses {
                if self.state == TrackState::Active {
                    self.state = TrackState::Coasting;
                    self.coasting_frames = 0;
                    LifecycleEvent::CoastStarted
                } else {
                    self.state = TrackState::Terminated;
                    LifecycleEvent::TimedOut
                }
            } else {
                LifecycleEvent::Quiet
            }
        }
    }
}

/// Lifecycle laws: a terminated track never changes; a frame with an
/// association leaves the track suspect or active with its misses and coast
/// frames cleared and one more hit; only an active track starts coasting;
/// every step follows an edge of the lifecycle graph.
pub proof fn lemma_lifecycle_laws(t: TrackLifecycle, associated: bool, is_airliner: bool, lim: FrameLimits)
    requires
        t.hits < usize::MAX,
        t.misses < usize::MAX,
        t.coasting_frames < u32::MAX,
    ensures
        ({
            let (n, ev) = lifecycle_next(t, associated, is_airliner, lim);
            &&& t.state == TrackState::Terminated ==> n == t && ev == LifecycleEvent::Quiet
            &&& (associated && t.state != TrackState::Terminated) ==> {
                &&& n.state == TrackState::Suspect || n.state == TrackState::Active
                &&& n.misses == 0
                &&& n.coasting_frames == 0
                &&& n.hits == t.hits + 1
            }
            &&& (n.state == TrackState::Coasting && t.state != TrackState::Coasting) ==> t.state
                == TrackState::Active
            &&& allowed_transition(t.state, n.state)
            &&& n.hits >= t.hits
        }),
{
}

/// Threshold law: the frame counts at which a track changes state, stated
/// against the limits themselves.
/// - A coasting track that is not hit counts one more coast frame and is
///   terminated exactly when that count reaches its coast limit: the long
///   one after more than 50 hits, the medium one after more than 20, the
///   short one otherwise; else it keeps coasting.
/// - An active track that is not hit counts one more miss and starts
///   coasting (from zero coast frames) exactly when the misses reach the
///   airliner limit for an airliner and the other limit otherwise.
/// - A suspect track that is not hit is terminated exactly when its misses
///   reach the suspect limit.
/// - A hit brings a coasting track back to active, and confirms a suspect
///   track exactly when it reaches three hits.
pub proof fn lemma_lifecycle_thresholds(t: TrackLifecycle, associated: bool, is_airliner: bool, lim: FrameLimits)
    requires
        t.hits < usize::MAX,
        t.misses < usize::MAX,
        t.coasting_frames < u32::MAX,
    ensures
        ({
            let (n, ev) = lifecycle_next(t, associated, is_airliner, lim);
            &&& (t.state == TrackState::Coasting && !associated) ==> {
                &&& n.coasting_frames == t.coasting_frames + 1
                &&& n.hits == t.hits
                &&& (n.state == TrackState::Terminated || n.state == TrackState::Coasting)
                &&& (ev == LifecycleEvent::LostAfterCoast <==> n.state == TrackState::Terminated)
                &&& t.hits > 50 ==> (n.state == TrackState::Terminated <==> t.coasting_frames + 1 >= lim.coast_long)
                &&& (20 < t.hits <= 50) ==> (n.state == TrackState::Terminated <==> t.coasting_frames + 1
                    >= lim.coast_medium)
                &&& t.hits <= 20 ==> (n.state == TrackState::Terminated <==> t.coasting_frames + 1 >= lim.coast_short)
            }
            &&& (t.state == TrackState::Active && !associated) ==> {
                &&& n.misses == t.misses + 1
                &&& (n.state == TrackState::Coasting || n.state == TrackState::Active)
                &&& (ev == LifecycleEvent::CoastStarted <==> n.state == TrackState::Coasting)
                &&& n.state == TrackState::Coasting ==> n.coasting_frames == 0
                &&& is_airliner ==> (n.state == TrackState::Coasting <==> t.misses + 1 >= lim.miss_airliner_active)
                &&& !is_airliner ==> (n.state == TrackState::Coasting <==> t.misses + 1 >= lim.miss_other)
            }
            &&& (t.state == TrackState::Suspect && !associated) ==> {
                &&& n.misses == t.misses + 1
                &&& (n.state == TrackState::Terminated || n.state == TrackState::Suspect)
                &&& (ev == LifecycleEvent::TimedOut <==> n.state == TrackState::Terminated)
                &&& (n.state == TrackState::Terminated <==> t.misses + 1 >= lim.miss_suspect)
            }
            &&& (t.state == TrackState::Coasting && associated) ==> n.state == TrackState::Active && ev
                == LifecycleEvent::Recovered
            &&& (t.state == TrackState::Suspect && associated) ==> {
                &&& (n.state == TrackState::Active <==> t.hits + 1 >= 3)
                &&& (ev == LifecycleEvent::Confirmed <==> t.hits + 1 >= 3)
                &&& n.state != TrackState::Terminated
            }
            &&& (t.state == TrackState::Active && associated) ==> n.state == TrackState::Active && ev
                == LifecycleEvent::Quiet
        }),
{
}

// ---------------------------------------------------------------------------
// M-of-N candidate filter

/// Counters of an unconfirmed detection (a candidate plot).
#[derive(Clone, Copy, Debug, PartialEq, Eq, Structural)]
pub struct CandidateCounters {
    pub hits: usize,
    pub misses: usize,
    pub updated_this_frame: bool,
}

/// What becomes of a candidate at the end of a frame.
#[derive(Clone, Copy, Debug, PartialEq, Eq, Structural)]
pub enum CandidateFate {
    /// Seen three times: it becomes a track and leaves the candidate list.
    Promote,
    /// Kept with the given counters.
    Keep(CandidateCounters),
    /// Missed three frames in a row: discarded.
    Discard,
}

impl CandidateCounters {
    /// A candidate created from its first detection.
    pub fn first_detection() -> (c: Self)
        ensures
            c == (CandidateCounters { hits: 1, misses: 0, updated_this_frame: true }),
    {
        CandidateCounters { hits: 1, misses: 0, updated_this_frame: true }
    }

    /// Another detection matched this candidate in the current frame.
    pub fn record_hit(&mut self)
        requires
            old(self).hits < usize::MAX,
        ensures
            *final(self) == (CandidateCounters {
                hits: (old(self).hits + 1) as usize,
                misses: 0,
                updated_this_frame: true,
            }),
    {
        self.hits = self.hits + 1;
        self.misses = 0;
        self.updated_this_frame = true;
    }

    /// End-of-frame decision.
    pub fn fate(self) -> (f: CandidateFate)
        requires
            self.misses < usize::MAX,
        ensures
            self.hits >= 3 ==> f == CandidateFate::Promote,
            self.hits < 3 ==> ({
                let misses = if self.updated_this_frame { self.misses } else { (self.misses + 1) as usize };
                if misses < 3 {
                    f == CandidateFate::Keep(CandidateCounters { misses, ..self })
                } else {
                    f == CandidateFate::Discard
                }
            }),
    {
        if self.hits >= 3 {
            return CandidateFate::Promote;
        }
        let mut c = self;
        if !c.updated_this_frame {
            c.misses = c.misses + 1;
        }
        if c.misses < 3 {
            CandidateFate::Keep(c)
        } else {
            CandidateFate::Discard
        }
    }
}

// ---------------------------------------------------------------------------
// Target id allocation

/// Ascending order on ids.
pub open spec fn id_leq() -> spec_fn(u32, u32) -> bool {
    |a: u32, b: u32| a <= b
}

/// Length of the longest prefix of `s`, starting at `i`, that reads
/// `i + 1, i + 2, ...`.
pub open spec fn counting_run(s: Seq<u32>, i: nat) -> nat
    decreases s.len() - i,
{
    if i < s.len() && s[i as int] == i + 1 {
        counting_run(s, i + 1)
    } else {
        i
    }
}

/// Sorts ids ascending.
#[verifier::external_body]
fn sort_ids(v: &mut Vec<u32>)
    ensures
        final(v)@.to_multiset() == old(v)@.to_multiset(),
        sorted_by(final(v)@, id_leq()),
{
    v.sort_unstable();
}

proof fn lemma_id_leq_total()
    ensures
        total_ordering(id_leq()),
{
}

/// Lowest id not taken: sorts the ids in use and walks up from 1 while the
/// sorted ids read 1, 2, 3, ...
pub fn allocate_id(ids: &[u32]) -> (id: u32)
    requires
        ids@.len() < u32::MAX,
    ensures
        id == 1 + counting_run(ids@.sort_by(id_leq()), 0),
{
    let mut used: Vec<u32> = Vec::new();
    let mut k: usize = 0;
    while k < ids.len()
        invariant
            k <= ids@.len(),
            used@ == ids@.subrange(0, k as int),
        decreases ids@.len() - k,
    {
        used.push(ids[k]);
        proof {
            assert(used@ =~= ids@.subrange(0, k + 1));
        }
        k = k + 1;
    }
    proof {
        assert(used@ =~= ids@);
    }
    let ghost before = used@;
    sort_ids(&mut used);
    proof {
        before.to_multiset_ensures();
        used@.to_multiset_ensures();
        lemma_id_leq_total();
        ids@.lemma_sort_by_ensures(id_leq());
        vstd::seq_lib::lemma_sorted_unique(used@, ids@.sort_by(id_leq()), id_leq());
        lemma_counting_run_bounds(used@, 0);
    }
    let mut id: u32 = 1;
    let mut i: usize = 0;
    while i < used.len() && used[i] == id
        invariant
            i <= used@.len(),
            used@.len() < u32::MAX,
            id == i + 1,
            counting_run(used@, 0) == counting_run(used@, i as nat),
        decreases used@.len() - i,
    {
        id = id + 1;
        i = i + 1;
    }
    id
}

/// Lemma: the run is at least its starting point and at most the length.
proof fn lemma_counting_run_bounds(s: Seq<u32>, i: nat)
    requires
        i <= s.len(),
    ensures
        i <= counting_run(s, i) <= s.len(),
        forall|j: int| i <= j < counting_run(s, i) ==> s[j] == j + 1,
        counting_run(s, i) < s.len() ==> s[counting_run(s, i) as int] != counting_run(s, i) + 1,
    decreases s.len() - i,
{
    if i < s.len() && s[i as int] == i + 1 {
        lemma_counting_run_bounds(s, i + 1);
    }
}

/// Allocation law: when the ids in use are distinct and positive, the
/// allocated id is not in use, and every positive id below it is.
pub proof fn lemma_allocate_id_fresh(ids: Seq<u32>)
    requires
        ids.no_duplicates(),
        !ids.contains(0),
        ids.len() < u32::MAX,
    ensures
        !ids.contains((1 + counting_run(ids.sort_by(id_leq()), 0)) as u32),
        forall|j: u32| 1 <= j < 1 + counting_run(ids.sort_by(id_leq()), 0) ==> ids.contains(j),
{
    let s = ids.sort_by(id_leq());
    lemma_id_leq_total();
    ids.lemma_sort_by_ensures(id_leq());
    let k = counting_run(s, 0);
    lemma_counting_run_bounds(s, 0);
    ids.to_multiset_ensures();
    s.to_multiset_ensures();
    ids.lemma_multiset_has_no_duplicates();
    assert(ids.to_multiset() =~= s.to_multiset());
    s.lemma_multiset_has_no_duplicates_conv();
    assert(s.len() == ids.len());
    assert forall|j: u32| 1 <= j < 1 + k implies ids.contains(j) by {
        assert(s[j - 1] == j);
        assert(s.contains(j));
        assert(s.to_multiset().count(j) > 0);
    }
    let v = (1 + k) as u32;
    if ids.contains(v) {
        assert(ids.to_multiset().count(v) > 0);
        assert(s.contains(v));
        let p = choose|p: int| 0 <= p < s.len() && s[p] == v;
        if p < k {
            assert(s[p] == p + 1);
        } else if p == k {
        } else {
            // p > k: s[k] < s[p] = k + 1 by sortedness and distinctness, yet s[k] > k.
            assert(id_leq()(s[k as int], s[p]));
            assert(s[k as int] != s[p]);
            if k > 0 {
                assert(id_leq()(s[k - 1], s[k as int]));
                assert(s[k - 1] == k);
                assert(s[k - 1] != s[k as int]);
            } else {
                assert(s[0] == 0);
                assert(s.contains(0));
                assert(s.to_multiset().count(0) > 0);
                assert(ids.contains(0));
            }
        }
    }
}

// ---------------------------------------------------------------------------
// Display order and selection

/// Sort rank of a state in the target list: active, coasting, suspect, then
/// terminated.
pub open spec fn rank_of(state: TrackState) -> u32 {
    match state {
        TrackState::Active => 0,
        TrackState::Coasting => 1,
        TrackState::Suspect => 2,
        TrackState::Terminated => 3,
    }
}

/// Sort rank of a state in the target list.
pub fn display_rank(state: TrackState) -> (r: u32)
    ensures
        r == rank_of(state),
{
    match state {
        TrackState::Active => 0,
        TrackState::Coasting => 1,
        TrackState::Suspect => 2,
        TrackState::Terminated => 3,
    }
}

/// Nanoseconds a terminated target stays listed.
pub const OFFLINE_LISTING_NANOS: u128 = 30_000_000_000;

/// A target as the list sees it: its state, its id and, when it was
/// terminated, the time since termination in nanoseconds.
#[derive(Clone, Copy, Debug, PartialEq, Eq, Structural)]
pub struct ListEntry {
    pub state: TrackState,
    pub id: u32,
    pub terminated_for: Option<u128>,
}

/// Whether a target is listed: suspect targets only when unconfirmed ones are
/// shown, terminated ones only within the offline listing window.
pub open spec fn listed(e: ListEntry, show_unconfirmed: bool) -> bool {
    if !show_unconfirmed && e.state == TrackState::Suspect {
        false
    } else if e.state == TrackState::Terminated {
        match e.terminated_for {
            Some(t) => t <= OFFLINE_LISTING_NANOS,
            None => true,
        }
    } else {
        true
    }
}

/// Whether a target is listed.
pub fn is_listed(e: ListEntry, show_unconfirmed: bool) -> (b: bool)
    ensures
        b == listed(e, show_unconfirmed),
{
    if !show_unconfirmed && e.state == TrackState::Suspect {
        return false;
    }
    if e.state == TrackState::Terminated {
        return match e.terminated_for {
            Some(t) => t <= OFFLINE_LISTING_NANOS,
            None => true,
        };
    }
    true
}

/// Sort keys `(rank, id)` of the listed targets, in input order.
pub open spec fn listed_keys(es: Seq<ListEntry>, show_unconfirmed: bool) -> Seq<(u32, u32)>
    decreases es.len(),
{
    if es.len() == 0 {
        Seq::empty()
    } else {
        let prev = listed_keys(es.drop_last(), show_unconfirmed);
        let e = es.last();
        if listed(e, show_unconfirmed) {
            prev.push((rank_of(e.state), e.id))
        } else {
            prev
        }
    }
}

/// Lexicographic order on `(rank, id)`.
pub open spec fn key_leq() -> spec_fn((u32, u32), (u32, u32)) -> bool {
    |a: (u32, u32), b: (u32, u32)| a.0 < b.0 || (a.0 == b.0 && a.1 <= b.1)
}

/// The list in display order.
pub open spec fn display_list(es: Seq<ListEntry>, show_unconfirmed: bool) -> Seq<(u32, u32)> {
    listed_keys(es, show_unconfirmed).sort_by(key_leq())
}

/// First position of `id` in the list.
pub open spec fn position_of(l: Seq<(u32, u32)>, id: u32, from: nat) -> Option<nat>
    decreases l.len() - from,
{
    if from >= l.len() {
        None
    } else if l[from as int].1 == id {
        Some(from)
    } else {
        position_of(l, id, from + 1)
    }
}

/// Selection after an up (previous) or down (next) key: cyclic through the
/// displayed list, starting from the end (up) or the start (down) when
/// nothing listed is selected. With an empty list the selection stays,
/// except that a test dashboard selects the placeholder id 999999.
pub open spec fn next_selection(
    l: Seq<(u32, u32)>,
    current: Option<u32>,
    up: bool,
    is_test: bool,
) -> Option<u32> {
    let n = l.len();
    if n == 0 {
        if is_test {
            Some(999999)
        } else {
            current
        }
    } else {
        let pos = match current {
            Some(id) => position_of(l, id, 0),
            None => None,
        };
        let next: int = match pos {
            Some(p) => if up {
                (p as int + n - 1) % (n as int)
            } else {
                (p as int + 1) % (n as int)
            },
            None => if up {
                n - 1
            } else {
                0
            },
        };
        Some(l[next].1)
    }
}

/// The ids of a list are pairwise distinct.
pub open spec fn distinct_ids(l: Seq<(u32, u32)>) -> bool {
    forall|a: int, b: int| 0 <= a < b < l.len() ==> l[a].1 != l[b].1
}

proof fn lemma_position_of_distinct(l: Seq<(u32, u32)>, p: int, from: nat)
    requires
        distinct_ids(l),
        0 <= from <= p < l.len(),
    ensures
        position_of(l, l[p].1, from) == Some(p as nat),
    decreases p - from,
{
    if from < p {
        assert(l[from as int].1 != l[p].1);
        lemma_position_of_distinct(l, p, from + 1);
    }
}

/// Selection law: on a list with distinct ids, moving the selection up and
/// then down (or down and then up) returns to a listed target.
pub proof fn lemma_up_down_restores(l: Seq<(u32, u32)>, p: int, is_test: bool)
    requires
        distinct_ids(l),
        0 <= p < l.len(),
    ensures
        next_selection(l, next_selection(l, Some(l[p].1), true, is_test), false, is_test) == Some(l[p].1),
        next_selection(l, next_selection(l, Some(l[p].1), false, is_test), true, is_test) == Some(l[p].1),
{
    let n = l.len() as int;
    lemma_position_of_distinct(l, p, 0);
    let q = (p + n - 1) % n;
    let r = (p + 1) % n;
    if p >= 1 {
        vstd::arithmetic::div_mod::lemma_fundamental_div_mod_converse(p + n - 1, n, 1, p - 1);
    } else {
        vstd::arithmetic::div_mod::lemma_fundamental_div_mod_converse(p + n - 1, n, 0, n - 1);
    }
    if p + 1 < n {
        vstd::arithmetic::div_mod::lemma_fundamental_div_mod_converse(p + 1, n, 0, p + 1);
    } else {
        vstd::arithmetic::div_mod::lemma_fundamental_div_mod_converse(p + 1, n, 1, 0);
    }
    lemma_position_of_distinct(l, q, 0);
    lemma_position_of_distinct(l, r, 0);
    if q + 1 < n {
        vstd::arithmetic::div_mod::lemma_fundamental_div_mod_converse(q + 1, n, 0, q + 1);
    } else {
        vstd::arithmetic::div_mod::lemma_fundamental_div_mod_converse(q + 1, n, 1, 0);
    }
    if r >= 1 {
        vstd::arithmetic::div_mod::lemma_fundamental_div_mod_converse(r + n - 1, n, 1, r - 1);
    } else {
        vstd::arithmetic::div_mod::lemma_fundamental_div_mod_converse(r + n - 1, n, 0, n - 1);
    }
}

/// Sorts list keys ascending.
#[verifier::external_body]
fn sort_keys(v: &mut Vec<(u32, u32)>)
    ensures
        final(v)@.to_multiset() == old(v)@.to_multiset(),
        sorted_by(final(v)@, key_leq()),
{
    v.sort_unstable();
}

proof fn lemma_key_leq_total()
    ensures
        total_ordering(key_leq()),
{
}

/// Moves the target selection one step up or down the displayed list.
pub fn cycle_selection(
    targets: &[ListEntry],
    show_unconfirmed: bool,
    current: Option<u32>,
    up: bool,
    is_test: bool,
) -> (sel: Option<u32>)
    ensures
        sel == next_selection(display_list(targets@, show_unconfirmed), current, up, is_test),
{
    let mut keys: Vec<(u32, u32)> = Vec::new();
    let mut k: usize = 0;
    while k < targets.len()
        invariant
            k <= targets@.len(),
            keys@ == listed_keys(targets@.subrange(0, k as int), show_unconfirmed),
        decreases targets@.len() - k,
    {
        let e = targets[k];
        proof {
            let sub = targets@.subrange(0, k + 1);
            assert(sub.drop_last() =~= targets@.subrange(0, k as int));
            assert(sub.last() == e);
        }
        if is_listed(e, show_unconfirmed) {
            let r = display_rank(e.state);
            keys.push((r, e.id));
        }
        k = k + 1;
    }
    proof {
        assert(targets@.subrange(0, targets@.len() as int) =~= targets@);
    }
    let ghost unsorted = keys@;
    sort_keys(&mut keys);
    proof {
        lemma_key_leq_total();
        unsorted.lemma_sort_by_ensures(key_leq());
        vstd::seq_lib::lemma_sorted_unique(keys@, unsorted.sort_by(key_leq()), key_leq());
    }
    let n = keys.len();
    if n == 0 {
        return if is_test {
            Some(999999)
        } else {
            current
        };
    }
    let mut pos: Option<usize> = None;
    if let Some(id) = current {
        let mut i: usize = 0;
        while i < n && keys[i].1 != id
            invariant
                n == keys@.len(),
                i <= n,
                position_of(keys@, id, 0) == position_of(keys@, id, i as nat),
            decreases n - i,
        {
            i = i + 1;
        }
        if i < n {
            pos = Some(i);
        }
    }
    let next = match pos {
        Some(p) => if up {
            proof {
                if p >= 1 {
                    vstd::arithmetic::div_mod::lemma_fundamental_div_mod_converse(p + n - 1, n as int, 1, p - 1);
                } else {
                    vstd::arithmetic::div_mod::lemma_fundamental_div_mod_converse(p + n - 1, n as int, 0, n - 1);
                }
            }
            if p >= 1 {
                p - 1
            } else {
                n - 1
            }
        } else {
            proof {
                if p + 1 < n {
                    vstd::arithmetic::div_mod::lemma_fundamental_div_mod_converse(p + 1, n as int, 0, p + 1);
                } else {
                    vstd::arithmetic::div_mod::lemma_fundamental_div_mod_converse(p + 1, n as int, 1, 0);
                }
            }
            if p + 1 < n {
                p + 1
            } else {
                0
            }
        },
        None => if up {
            n - 1
        } else {
            0
        },
    };
    Some(keys[next].1)
}

// ---------------------------------------------------------------------------
// Playback speed

/// Playback speed after the speed-up key: 25 more, at most 1000.
pub fn speed_up(current: u32) -> (s: u32)
    requires
        current <= u32::MAX - 25,
    ensures
        s == if current + 25 <= 1000 { current + 25 } else { 1000 },
{
    let s = current + 25;
    if s <= 1000 {
        s
    } else {
        1000
    }
}

/// Playback speed after the slow-down key: 25 less, at least 25.
pub fn slow_down(current: u32) -> (s: u32)
    ensures
        s == if current >= 50 { current - 25 } else { 25 },
{
    let s = current.saturating_sub(25);
    if s >= 25 {
        s
    } else {
        25
    }
}

// ---------------------------------------------------------------------------
// Retention of terminated targets

/// Nanoseconds a terminated target is kept before it is pruned: 90 s for an
/// identified airliner, 10 s otherwise.
pub open spec fn offline_timeout(identified_airliner: bool) -> u128 {
    if identified_airliner {
        90_000_000_000
    } else {
        10_000_000_000
    }
}

/// Whether a target survives pruning: targets that are not terminated
/// always, terminated ones only while their offline timeout runs; a
/// terminated target without a termination time is pruned.
pub fn keep_target(state: TrackState, terminated_for: Option<u128>, identified_airliner: bool) -> (keep: bool)
    ensures
        keep == (state != TrackState::Terminated || match terminated_for {
            Some(t) => t < offline_timeout(identified_airliner),
            None => false,
        }),
{
    if state == TrackState::Terminated {
        let timeout: u128 = if identified_airliner {
            90_000_000_000
        } else {
            10_000_000_000
        };
        match terminated_for {
            Some(t) => t < timeout,
            None => false,
        }
    } else {
        true
    }
}

/// Whether a target's fingerprint is saved this frame: it is terminated, its
/// offline timeout has run out, and it has at least five fingerprint points.
pub fn should_save_fingerprint(
    state: TrackState,
    terminated_for: Option<u128>,
    identified_airliner: bool,
    fingerprint_points: usize,
) -> (save: bool)
    ensures
        save == (state == TrackState::Terminated && fingerprint_points >= 5 && match terminated_for {
            Some(t) => t >= offline_timeout(identified_airliner),
            None => false,
        }),
{
    if state != TrackState::Terminated {
        return false;
    }
    let timeout: u128 = if identified_airliner {
        90_000_000_000
    } else {
        10_000_000_000
    };
    match terminated_for {
        Some(t) => t >= timeout && fingerprint_points >= 5,
        None => false,
    }
}

/// Retention law: in a frame, a saved fingerprint always belongs to a target
/// that is then pruned.
pub proof fn lemma_saved_targets_are_pruned(
    state: TrackState,
    terminated_for: Option<u128>,
    identified_airliner: bool,
    points: usize,
)
    ensures
        (state == TrackState::Terminated && points >= 5 && match terminated_for {
            Some(t) => t >= offline_timeout(identified_airliner),
            None => false,
        }) ==> !(state != TrackState::Terminated || match terminated_for {
            Some(t) => t < offline_timeout(identified_airliner),
            None => false,
        }),
{
}

// ---------------------------------------------------------------------------
// Bounded histories

/// Appends `x`, dropping the oldest entry when more than `cap` are held.
pub fn push_bounded<T>(v: &mut Vec<T>, x: T, cap: usize)
    ensures
        final(v)@ == if old(v)@.len() + 1 > cap {
            old(v)@.push(x).drop_first()
        } else {
            old(v)@.push(x)
        },
{
    v.push(x);
    if v.len() > cap {
        v.remove(0);
        proof {
            assert(v@ =~= old(v)@.push(x).drop_first());
        }
    }
}

/// Inserts `x` at the front, dropping the last entry when more than `cap`
/// are held.
pub fn push_front_bounded<T>(v: &mut Vec<T>, x: T, cap: usize)
    ensures
        final(v)@ == if old(v)@.len() + 1 > cap {
            seq![x].add(old(v)@).drop_last()
        } else {
            seq![x].add(old(v)@)
        },
{
    v.insert(0, x);
    proof {
        assert(v@ =~= seq![x].add(old(v)@));
    }
    if v.len() > cap {
        let _ = v.pop();
    }
}

} // verus!
