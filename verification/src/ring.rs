//! Circular sample histories of the adaptive clutter canceller: a delay line
//! that hands back the sample written a fixed number of steps earlier, and a
//! tap history read newest first.
use vstd::prelude::*;

verus! {

/// Slot `p` of a ring of `len` slots, after `n = lap * len + index` writes
/// starting at slot 0: the value written there most recently, or `fill`.
pub open spec fn slot_value<T>(pushed: Seq<T>, fill: T, len: int, index: int, p: int) -> T {
    let j = if p < index {
        pushed.len() - index + p
    } else {
        pushed.len() - index + p - len
    };
    if j >= 0 {
        pushed[j]
    } else {
        fill
    }
}

/// Delay line with `delay + 1` slots, initially holding `fill`.
pub struct DelayLine<T> {
    buf: Vec<T>,
    index: usize,
    fill: Ghost<T>,
    pushed: Ghost<Seq<T>>,
    lap: Ghost<nat>,
}

/// Lag of a delay line: its delay, and one step for a zero delay (the single
/// slot is read before it is overwritten).
pub open spec fn lag_of(delay: nat) -> nat {
    if delay >= 1 {
        delay
    } else {
        1
    }
}

impl<T: Copy> DelayLine<T> {
    /// Slots of the line.
    pub closed spec fn slots(&self) -> nat {
        self.buf@.len()
    }

    /// Samples written so far, oldest first.
    pub closed spec fn pushed(&self) -> Seq<T> {
        self.pushed@
    }

    /// Initial content.
    pub closed spec fn fill(&self) -> T {
        self.fill@
    }

    pub closed spec fn wf(&self) -> bool {
        let len = self.buf@.len() as int;
        &&& len >= 1
        &&& self.index < len
        &&& self.pushed@.len() == self.lap@ * len + self.index
        &&& forall|p: int|
            0 <= p < len ==> #[trigger] self.buf@[p] == slot_value(self.pushed@, self.fill@, len, self.index as int, p)
    }

    /// A line delaying by `delay` samples, filled with `fill`.
    pub fn new(delay: usize, fill: T) -> (d: Self)
        requires
            delay < usize::MAX,
        ensures
            d.wf(),
            d.slots() == delay + 1,
            d.pushed() == Seq::<T>::empty(),
            d.fill() == fill,
    {
        let mut buf: Vec<T> = Vec::new();
        let mut k: usize = 0;
        while k <= delay
            invariant
                k <= delay + 1,
                delay < usize::MAX,
                buf@.len() == k,
                forall|p: int| 0 <= p < k ==> #[trigger] buf@[p] == fill,
            decreases delay + 1 - k,
        {
            buf.push(fill);
            k = k + 1;
        }
        DelayLine { buf, index: 0, fill: Ghost(fill), pushed: Ghost(Seq::empty()), lap: Ghost(0) }
    }

    /// Writes `x` and returns the sample written `lag` steps earlier
    /// (`fill` while fewer samples have been written).
    pub fn push(&mut self, x: T) -> (y: T)
        requires
            old(self).wf(),
        ensures
            final(self).wf(),
            final(self).slots() == old(self).slots(),
            final(self).fill() == old(self).fill(),
            final(self).pushed() == old(self).pushed().push(x),
            ({
                let n = old(self).pushed().len() as int;
                let lag = lag_of((old(self).slots() - 1) as nat) as int;
                y == if n >= lag { old(self).pushed()[n - lag] } else { old(self).fill() }
            }),
    {
        let len = self.buf.len();
        let target = if self.index + 1 == len {
            0
        } else {
            self.index + 1
        };
        let y = self.buf[target];
        let ghost p0 = self.pushed@;
        let ghost i0 = self.index as int;
        let ghost l0 = self.lap@;
        proof {
            let n = p0.len() as int;
            assert(y == slot_value(p0, self.fill@, len as int, i0, target as int));
            if i0 + 1 < len {
                assert(n - i0 + (i0 + 1) - len == n - (len - 1));
            }
        }
        self.buf.set(self.index, x);
        self.pushed = Ghost(p0.push(x));
        if self.index + 1 == len {
            self.index = 0;
            self.lap = Ghost(l0 + 1);
            proof {
                assert(p0.len() + 1 == (l0 + 1) * len) by (nonlinear_arith)
                    requires p0.len() == l0 * len + i0, i0 + 1 == len;
            }
        } else {
            self.index = self.index + 1;
        }
        proof {
            let len_i = len as int;
            assert forall|p: int| 0 <= p < len_i implies #[trigger] self.buf@[p] == slot_value(self.pushed@, self.fill@, len_i, self.index as int, p) by {
                if p == i0 {
                    assert(self.buf@[p] == x);
                    if self.index == 0 {
                        assert(self.pushed@.len() - 0 + p - len_i == p0.len());
                    } else {
                        assert(self.pushed@.len() - self.index + p == p0.len());
                    }
                } else {
                    assert(self.buf@[p] == old(self).buf@[p]);
                    let j_old = if p < i0 { p0.len() - i0 + p } else { p0.len() - i0 + p - len_i };
                    if self.index == 0 {
                        assert(p < i0);
                        assert(self.pushed@.len() - 0 + p - len_i == j_old);
                    } else {
                        if p < i0 {
                            assert(self.pushed@.len() - self.index + p == j_old);
                        } else {
                            assert(p > i0);
                            assert(self.pushed@.len() - self.index + p - len_i == j_old);
                        }
                    }
                }
            }
        }
        y
    }
}

/// The last `len` samples written, newest first, `fill` beyond what was written.
pub open spec fn newest_first<T>(pushed: Seq<T>, fill: T, len: nat) -> Seq<T> {
    Seq::new(len, |i: int| if i < pushed.len() { pushed[pushed.len() - 1 - i] } else { fill })
}

/// Tap history of `len` slots read newest first.
pub struct TapHistory<T> {
    buf: Vec<T>,
    index: usize,
    fill: Ghost<T>,
    pushed: Ghost<Seq<T>>,
    lap: Ghost<nat>,
}

impl<T: Copy> TapHistory<T> {
    pub closed spec fn slots(&self) -> nat {
        self.buf@.len()
    }

    pub closed spec fn pushed(&self) -> Seq<T> {
        self.pushed@
    }

    pub closed spec fn fill(&self) -> T {
        self.fill@
    }

    pub closed spec fn wf(&self) -> bool {
        let len = self.buf@.len() as int;
        &&& len >= 1
        &&& self.index < len
        &&& self.pushed@.len() == self.lap@ * len + self.index
        &&& forall|p: int|
            0 <= p < len ==> #[trigger] self.buf@[p] == slot_value(self.pushed@, self.fill@, len, self.index as int, p)
    }

    /// A history of `taps` slots filled with `fill`.
    pub fn new(taps: usize, fill: T) -> (h: Self)
        requires
            taps >= 1,
        ensures
            h.wf(),
            h.slots() == taps,
            h.pushed() == Seq::<T>::empty(),
            h.fill() == fill,
    {
        let mut buf: Vec<T> = Vec::new();
        let mut k: usize = 0;
        while k < taps
            invariant
                k <= taps,
                buf@.len() == k,
                forall|p: int| 0 <= p < k ==> #[trigger] buf@[p] == fill,
            decreases taps - k,
        {
            buf.push(fill);
            k = k + 1;
        }
        TapHistory { buf, index: 0, fill: Ghost(fill), pushed: Ghost(Seq::empty()), lap: Ghost(0) }
    }

    /// Writes `x` and returns the history, newest (that is, `x`) first.
    pub fn push(&mut self, x: T) -> (w: Vec<T>)
        requires
            old(self).wf(),
        ensures
            final(self).wf(),
            final(self).slots() == old(self).slots(),
            final(self).fill() == old(self).fill(),
            final(self).pushed() == old(self).pushed().push(x),
            w@ == newest_first(final(self).pushed(), final(self).fill(), final(self).slots()),
    {
        let len = self.buf.len();
        let ghost p0 = self.pushed@;
        let ghost i0 = self.index as int;
        let ghost l0 = self.lap@;
        self.buf.set(self.index, x);
        let ghost p1 = p0.push(x);
        self.pushed = Ghost(p1);
        // Read newest first, walking backwards from the slot just written.
        let mut w: Vec<T> = Vec::new();
        let mut r = self.index;
        let mut i: usize = 0;
        while i < len
            invariant
                len == self.buf@.len(),
                len == old(self).buf@.len(),
                len >= 1,
                r < len,
                i <= len,
                0 <= i0 < len,
                p0.len() == l0 * len + i0,
                p1 == p0.push(x),
                self.buf@ == old(self).buf@.update(i0, x),
                forall|p: int|
                    0 <= p < len ==> #[trigger] old(self).buf@[p] == slot_value(p0, self.fill@, len as int, i0, p),
                r as int == if i <= i0 { i0 - i } else { i0 - i + len },
                w@.len() == i,
                forall|q: int| 0 <= q < i ==> #[trigger] w@[q] == newest_first(p1, self.fill@, len as nat)[q],
            decreases len - i,
        {
            let v = self.buf[r];
            proof {
                let q = i as int;
                let expect = newest_first(p1, self.fill@, len as nat)[q];
                if r as int == i0 {
                    assert(q == 0);
                    assert(v == x);
                    assert(p1[p1.len() - 1] == x);
                } else {
                    assert(v == old(self).buf@[r as int]);
                    let j = if (r as int) < i0 { p0.len() - i0 + r } else { p0.len() - i0 + r - len };
                    assert(v == slot_value(p0, self.fill@, len as int, i0, r as int));
                    assert(j == p1.len() - 1 - q);
                    if j >= 0 {
                        assert(p1[j] == p0[j]);
                        assert(q < p1.len());
                    } else {
                        assert(q >= p1.len());
                    }
                }
                assert(v == expect);
            }
            w.push(v);
            r = if r == 0 {
                len - 1
            } else {
                r - 1
            };
            i = i + 1;
        }
        if self.index + 1 == len {
            self.index = 0;
            self.lap = Ghost(l0 + 1);
            proof {
                assert(p0.len() + 1 == (l0 + 1) * len) by (nonlinear_arith)
                    requires p0.len() == l0 * len + i0, i0 + 1 == len;
            }
        } else {
            self.index = self.index + 1;
        }
        proof {
            let len_i = len as int;
            assert forall|p: int| 0 <= p < len_i implies #[trigger] self.buf@[p] == slot_value(self.pushed@, self.fill@, len_i, self.index as int, p) by {
                if p == i0 {
                    if self.index == 0 {
                        assert(self.pushed@.len() - 0 + p - len_i == p0.len());
                    } else {
                        assert(self.pushed@.len() - self.index + p == p0.len());
                    }
                } else {
                    let j_old = if p < i0 { p0.len() - i0 + p } else { p0.len() - i0 + p - len_i };
                    if self.index == 0 {
                        assert(self.pushed@.len() - 0 + p - len_i == j_old);
                    } else if p < i0 {
                        assert(self.pushed@.len() - self.index + p == j_old);
                    } else {
                        assert(self.pushed@.len() - self.index + p - len_i == j_old);
                    }
                }
            }
            assert(w@ =~= newest_first(p1, self.fill@, len as nat));
        }
        w
    }
}

} // verus!
