//! Selection of clipped runs that cubic-Hermite declipping reconstructs:
//! maximal runs of clipped samples that are short enough and have two good
//! samples on each side.
use vstd::prelude::*;

verus! {

/// `[s, e)` is a maximal run of clipped samples.
pub open spec fn maximal_run(m: Seq<bool>, s: int, e: int) -> bool {
    &&& 0 <= s < e <= m.len()
    &&& forall|j: int| s <= j < e ==> #[trigger] m[j]
    &&& (s == 0 || !m[s - 1])
    &&& (e == m.len() || !m[e])
}

/// A run is reconstructed when it is at most `max_run` long and has two
/// samples before it and two after it.
pub open spec fn repairable(s: int, e: int, n: int, max_run: int) -> bool {
    e - s <= max_run && s >= 2 && e + 2 <= n
}

/// Two maximal runs that start together end together.
proof fn lemma_run_end_unique(m: Seq<bool>, s: int, e1: int, e2: int)
    requires
        maximal_run(m, s, e1),
        maximal_run(m, s, e2),
    ensures
        e1 == e2,
{
    if e1 < e2 {
        assert(m[e1]);
    } else if e2 < e1 {
        assert(m[e2]);
    }
}

/// The runs `[start, end)` of `clipped` (true = clipped sample) that are
/// reconstructed, in order: every maximal run of at most `max_run` samples
/// with two samples on each side. Blocks of fewer than six samples are left
/// alone.
pub fn repairable_runs(clipped: &[bool], max_run: usize) -> (runs: Vec<(usize, usize)>)
    ensures
        clipped@.len() < 6 ==> runs@.len() == 0,
        forall|k: int|
            0 <= k < runs@.len() ==> maximal_run(clipped@, (#[trigger] runs@[k]).0 as int, runs@[k].1 as int)
                && repairable(runs@[k].0 as int, runs@[k].1 as int, clipped@.len() as int, max_run as int),
        forall|a: int, b: int| 0 <= a < b < runs@.len() ==> (#[trigger] runs@[a]).1 < (#[trigger] runs@[b]).0,
        clipped@.len() >= 6 ==> forall|s: int, e: int|
            maximal_run(clipped@, s, e) && repairable(s, e, clipped@.len() as int, max_run as int)
                ==> #[trigger] runs@.contains((s as usize, e as usize)),
{
    let n = clipped.len();
    let mut runs: Vec<(usize, usize)> = Vec::new();
    if n < 6 {
        return runs;
    }
    let mut i: usize = 0;
    while i < n
        invariant
            n == clipped@.len(),
            n >= 6,
            i <= n,
            i < n ==> (i == 0 || !clipped@[i - 1] || !clipped@[i as int]),
            forall|k: int|
                0 <= k < runs@.len() ==> maximal_run(clipped@, (#[trigger] runs@[k]).0 as int, runs@[k].1 as int)
                    && repairable(runs@[k].0 as int, runs@[k].1 as int, n as int, max_run as int)
                    && runs@[k].1 <= i,
            forall|a: int, b: int| 0 <= a < b < runs@.len() ==> (#[trigger] runs@[a]).1 < (#[trigger] runs@[b]).0,
            forall|s: int, e: int|
                maximal_run(clipped@, s, e) && repairable(s, e, n as int, max_run as int) && s < i
                    ==> #[trigger] runs@.contains((s as usize, e as usize)),
        decreases n - i,
    {
        if clipped[i] {
            let start = i;
            while i < n && clipped[i]
                invariant
                    n == clipped@.len(),
                    start <= i <= n,
                    forall|j: int| start <= j < i ==> #[trigger] clipped@[j],
                decreases n - i,
            {
                i = i + 1;
            }
            let end = i;
            let ghost before = runs@;
            assert(maximal_run(clipped@, start as int, end as int));
            if end - start <= max_run && start >= 2 && end <= n - 2 {
                runs.push((start, end));
            }
            proof {
                assert forall|s: int, e: int|
                    maximal_run(clipped@, s, e) && repairable(s, e, n as int, max_run as int) && s < i
                        implies #[trigger] runs@.contains((s as usize, e as usize)) by {
                    if s < start {
                        assert(before.contains((s as usize, e as usize)));
                        let q = choose|q: int| 0 <= q < before.len() && before[q] == (s as usize, e as usize);
                        assert(runs@[q] == before[q]);
                    } else {
                        if s > start {
                            assert(clipped@[s - 1]);
                        }
                        assert(s == start);
                        lemma_run_end_unique(clipped@, s, e, end as int);
                        assert(runs@[runs@.len() - 1] == (start, end));
                    }
                }
            }
        } else {
            i = i + 1;
        }
    }
    runs
}

} // verus!
