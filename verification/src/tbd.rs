//! Index bookkeeping of the Viterbi track-before-detect search over a
//! range-Doppler history: kinematic transition windows and back-tracking of
//! the best path through the back-pointer table.
use vstd::prelude::*;

verus! {

/// Delay bins a target may move between frames.
pub const DELAY_WINDOW: usize = 2;

/// Doppler bins a target may move between frames.
pub const DOPPLER_WINDOW: usize = 3;

/// Inclusive window of predecessor states of a state in a grid of
/// `num_delay_bins x num_doppler_bins` states (flattened delay-major).
#[derive(Clone, Copy, Debug, PartialEq, Eq, Structural)]
pub struct TransitionWindow {
    pub min_delay: usize,
    pub max_delay: usize,
    pub min_doppler: usize,
    pub max_doppler: usize,
}

/// Predecessor window of state `s`: within two delay bins and three Doppler
/// bins, clipped to the grid.
pub fn transition_window(s: usize, num_delay_bins: usize, num_doppler_bins: usize) -> (w: TransitionWindow)
    requires
        num_delay_bins >= 1,
        num_doppler_bins >= 1,
        s < num_delay_bins * num_doppler_bins,
    ensures
        ({
            let d = s as int / num_doppler_bins as int;
            let f = s as int % num_doppler_bins as int;
            &&& w.min_delay == if d >= 2 { d - 2 } else { 0 }
            &&& w.max_delay == if d + 2 <= num_delay_bins - 1 { d + 2 } else { num_delay_bins - 1 }
            &&& w.min_doppler == if f >= 3 { f - 3 } else { 0 }
            &&& w.max_doppler == if f + 3 <= num_doppler_bins - 1 { f + 3 } else { num_doppler_bins - 1 }
            &&& w.min_delay <= d <= w.max_delay < num_delay_bins
            &&& w.min_doppler <= f <= w.max_doppler < num_doppler_bins
        }),
{
    let curr_delay = s / num_doppler_bins;
    let curr_doppler = s % num_doppler_bins;
    proof {
        vstd::arithmetic::div_mod::lemma_fundamental_div_mod(s as int, num_doppler_bins as int);
        assert(curr_delay < num_delay_bins) by (nonlinear_arith)
            requires
                s < num_delay_bins * num_doppler_bins,
                s == num_doppler_bins * curr_delay + curr_doppler,
                curr_doppler >= 0,
                num_doppler_bins >= 1;
    }
    let min_d = curr_delay.saturating_sub(DELAY_WINDOW);
    let max_d = if num_delay_bins - 1 - curr_delay >= DELAY_WINDOW {
        curr_delay + DELAY_WINDOW
    } else {
        num_delay_bins - 1
    };
    let min_f = curr_doppler.saturating_sub(DOPPLER_WINDOW);
    let max_f = if num_doppler_bins - 1 - curr_doppler >= DOPPLER_WINDOW {
        curr_doppler + DOPPLER_WINDOW
    } else {
        num_doppler_bins - 1
    };
    TransitionWindow { min_delay: min_d, max_delay: max_d, min_doppler: min_f, max_doppler: max_f }
}

/// The back-pointer table has one row of `total` entries per frame, each
/// naming a state.
pub open spec fn backpointers_ok(bp: Seq<Vec<usize>>, total: nat) -> bool {
    &&& bp.len() >= 1
    &&& forall|t: int| 0 <= t < bp.len() ==> (#[trigger] bp[t]@).len() == total
    &&& forall|t: int, s: int| 0 <= t < bp.len() && 0 <= s < total ==> (#[trigger] bp[t]@[s] as int) < total
}

/// State of the best path at frame `t`: the final state at the last frame,
/// and before that the back-pointer of the state one frame later.
pub open spec fn path_state(bp: Seq<Vec<usize>>, last: usize, t: int) -> usize
    decreases bp.len() - 1 - t,
    when t < bp.len()
{
    if t >= bp.len() - 1 {
        last
    } else {
        bp[t + 1]@[path_state(bp, last, t + 1) as int]
    }
}

proof fn lemma_path_state_in_range(bp: Seq<Vec<usize>>, last: usize, total: nat, t: int)
    requires
        backpointers_ok(bp, total),
        (last as int) < total,
        0 <= t < bp.len(),
    ensures
        (path_state(bp, last, t) as int) < total,
    decreases bp.len() - 1 - t,
{
    if t < bp.len() - 1 {
        lemma_path_state_in_range(bp, last, total, t + 1);
    }
}

/// Follows the back-pointers from `last` at the final frame back to the
/// first frame and returns the `(delay, doppler)` bin of each frame's state.
pub fn backtrack(bp: &Vec<Vec<usize>>, last: usize, num_doppler_bins: usize, total: usize) -> (path: Vec<(usize, usize)>)
    requires
        backpointers_ok(bp@, total as nat),
        last < total,
        num_doppler_bins >= 1,
    ensures
        path@.len() == bp@.len(),
        forall|t: int|
            0 <= t < bp@.len() ==> #[trigger] path@[t] == (
                (path_state(bp@, last, t) / num_doppler_bins) as usize,
                (path_state(bp@, last, t) % num_doppler_bins) as usize,
            ),
{
    let n = bp.len();
    let mut path: Vec<(usize, usize)> = Vec::new();
    let mut k: usize = 0;
    while k < n
        invariant
            k <= n,
            path@.len() == k,
        decreases n - k,
    {
        path.push((0, 0));
        k = k + 1;
    }
    let mut curr = last;
    let mut t = n;
    while t > 0
        invariant
            n == bp@.len(),
            backpointers_ok(bp@, total as nat),
            last < total,
            num_doppler_bins >= 1,
            t <= n,
            path@.len() == n,
            t >= 1 ==> curr == path_state(bp@, last, t - 1),
            curr < total,
            forall|q: int|
                t <= q < n ==> #[trigger] path@[q] == (
                    (path_state(bp@, last, q) / num_doppler_bins) as usize,
                    (path_state(bp@, last, q) % num_doppler_bins) as usize,
                ),
        decreases t,
    {
        let tt = t - 1;
        path.set(tt, (curr / num_doppler_bins, curr % num_doppler_bins));
        curr = bp[tt][curr];
        proof {
            if tt >= 1 {
                assert(path_state(bp@, last, tt - 1) == bp@[tt as int]@[path_state(bp@, last, tt as int) as int]);
            }
        }
        t = tt;
    }
    path
}

} // verus!
