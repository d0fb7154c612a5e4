//! Playback decisions of the receiver: when the reader thread reads a block,
//! retunes to the next illuminator of the hop list or sleeps, and how many
//! queued blocks the display loop takes per iteration and how it waits for
//! each, under pause and single-step requests.
use vstd::prelude::*;

verus! {

/// What the reader thread does next.
#[derive(Clone, Copy, Debug, PartialEq, Eq, Structural)]
pub enum ReaderAction {
    /// Paused with no step pending: sleep this many milliseconds.
    Sleep(u64),
    /// Read one block; first retune to hop `retune` if it is `Some`. A read
    /// while paused consumes the pending step request.
    Read { retune: Option<usize>, consume_step: bool },
}

/// Hop bookkeeping of the reader thread.
#[derive(Clone, Copy, Debug, PartialEq, Eq, Structural)]
pub struct HopState {
    /// Index of the current hop.
    pub hop: usize,
    /// Samples read since the last retune.
    pub samples: usize,
}

/// The reader's next action and hop state. While running, once a hop has
/// delivered its share of samples the reader moves to the next hop (cycling
/// through `n_hops`) and starts counting anew; a step read while paused
/// leaves the hop bookkeeping alone.
pub open spec fn reader_plan(s: HopState, paused: bool, step: bool, n_hops: usize, per_hop: usize) -> (
    HopState,
    ReaderAction,
) {
    if paused {
        if step {
            (s, ReaderAction::Read { retune: None, consume_step: true })
        } else {
            (s, ReaderAction::Sleep(10))
        }
    } else if s.samples >= per_hop {
        let next = ((s.hop + 1) % (n_hops as int)) as usize;
        (HopState { hop: next, samples: 0 }, ReaderAction::Read { retune: Some(next), consume_step: false })
    } else {
        (s, ReaderAction::Read { retune: None, consume_step: false })
    }
}

/// Decides the reader thread's next action.
pub fn reader_step(s: HopState, paused: bool, step: bool, n_hops: usize, per_hop: usize) -> (r: (
    HopState,
    ReaderAction,
))
    requires
        s.hop < n_hops,
    ensures
        r == reader_plan(s, paused, step, n_hops, per_hop),
{
    if paused {
        if step {
            (s, ReaderAction::Read { retune: None, consume_step: true })
        } else {
            (s, ReaderAction::Sleep(10))
        }
    } else if s.samples >= per_hop {
        let next = (s.hop + 1) % n_hops;
        (HopState { hop: next, samples: 0 }, ReaderAction::Read { retune: Some(next), consume_step: false })
    } else {
        (s, ReaderAction::Read { retune: None, consume_step: false })
    }
}

/// Counts the samples of a block read while running.
pub fn after_read(s: HopState, len: usize) -> (t: HopState)
    requires
        s.samples + len <= usize::MAX,
    ensures
        t == (HopState { hop: s.hop, samples: (s.samples + len) as usize }),
{
    HopState { hop: s.hop, samples: s.samples + len }
}

/// Hop law: from a valid hop index the reader only ever retunes to a valid
/// hop index.
pub proof fn lemma_hop_in_range(s: HopState, paused: bool, step: bool, n_hops: usize, per_hop: usize)
    requires
        n_hops >= 1,
        s.hop < n_hops,
    ensures
        reader_plan(s, paused, step, n_hops, per_hop).0.hop < n_hops,
        reader_plan(s, paused, step, n_hops, per_hop).1 matches ReaderAction::Read { retune: Some(h), .. } ==> h
            < n_hops,
{
}

/// How the display loop asks for its next queued block.
#[derive(Clone, Copy, Debug, PartialEq, Eq, Structural)]
pub enum Fetch {
    /// Take no more blocks this iteration.
    Stop,
    /// Wait up to this many milliseconds for a block.
    Wait(u64),
    /// Take a block only if one is queued.
    Poll,
}

/// Blocks taken per iteration at most: 64 in test mode, 8 otherwise (so that
/// the interface never starves).
pub open spec fn block_limit(test_mode: bool) -> usize {
    if test_mode {
        64
    } else {
        8
    }
}

/// The display loop's request for its next block, after `processed` blocks
/// in this iteration. In test mode it waits long for the first block of a
/// step, and for every block while running; otherwise a pause without a
/// pending step takes nothing, and only the first block is waited for.
pub open spec fn fetch_plan(test_mode: bool, paused: bool, step: bool, processed: usize) -> Fetch {
    if processed >= block_limit(test_mode) {
        Fetch::Stop
    } else if test_mode {
        if !paused || (step && processed == 0) {
            Fetch::Wait(5000)
        } else {
            Fetch::Poll
        }
    } else if paused && !step {
        Fetch::Stop
    } else if processed == 0 {
        Fetch::Wait(5)
    } else {
        Fetch::Poll
    }
}

/// Decides how the display loop asks for its next block.
pub fn next_fetch(test_mode: bool, paused: bool, step: bool, processed: usize) -> (f: Fetch)
    ensures
        f == fetch_plan(test_mode, paused, step, processed),
{
    let limit: usize = if test_mode { 64 } else { 8 };
    if processed >= limit {
        Fetch::Stop
    } else if test_mode {
        if !paused || (step && processed == 0) {
            Fetch::Wait(5000)
        } else {
            Fetch::Poll
        }
    } else if paused && !step {
        Fetch::Stop
    } else if processed == 0 {
        Fetch::Wait(5)
    } else {
        Fetch::Poll
    }
}

/// Budget law: an iteration never takes more than `block_limit` blocks, and
/// outside test mode a pause without a pending step takes none.
pub proof fn lemma_fetch_budget(test_mode: bool, paused: bool, step: bool, processed: usize)
    ensures
        processed >= block_limit(test_mode) ==> fetch_plan(test_mode, paused, step, processed) == Fetch::Stop,
        !test_mode && paused && !step ==> fetch_plan(test_mode, paused, step, processed) == Fetch::Stop,
{
}

} // verus!
